use vstd::prelude::*;

use crate::error::Error;
use crate::Buffer;
use crate::queue::{enqueued, SampleQueue, SAMPLE_QUEUE_CAPACITY};

verus! {

/// Millivolts of the reference voltage at which the factory calibration was
/// taken; scaling by it keeps the conversion in integers.
pub const CALIBRATION_MILLIVOLTS: u32 = 3000;

/// The calibration constant made from the factory reference reading.
pub open spec fn calibration_constant(vref_calibration: u16) -> nat {
    vref_calibration as nat * CALIBRATION_MILLIVOLTS as nat
}

/// The calibrated sample, with truncating division at both steps.
pub open spec fn converted(calibration: nat, measured_vref: nat, measured_input: nat, full_scale: nat) -> nat
    recommends
        measured_vref > 0,
        full_scale > 0,
{
    (calibration / measured_vref) * measured_input / full_scale
}

/// A calibrated value as a sample: values above the sixteen-bit range are
/// held at its top rather than wrapped.
pub open spec fn saturated(v: nat) -> u16 {
    if v <= u16::MAX { v as u16 } else { u16::MAX }
}

/// Index in the buffer of the reference code of the half that is read next.
pub open spec fn vref_index(first_half: bool) -> int {
    if first_half { 1 } else { 3 }
}

/// Index in the buffer of the input code of the half that is read next.
pub open spec fn input_index(first_half: bool) -> int {
    if first_half { 0 } else { 2 }
}

/// Turns the raw double buffer into calibrated samples, alternating halves.
pub struct Sampler {
    first_half: bool,
    calibration: u32,
    full_scale: u16,
}

impl Sampler {
    /// Whether the next call reads the first half of the buffer.
    pub closed spec fn reads_first_half(&self) -> bool {
        self.first_half
    }

    /// The calibration constant in use.
    pub closed spec fn calibration(&self) -> nat {
        self.calibration as nat
    }

    /// The full-scale code of the converter.
    pub closed spec fn full_scale(&self) -> nat {
        self.full_scale as nat
    }

    /// The well-formedness of a sampler.
    pub closed spec fn wf(&self) -> bool {
        self.full_scale > 0
    }

    /// The sample that the next call makes from `buffer`.
    pub open spec fn next_sample(&self, buffer: Buffer) -> nat {
        converted(
            self.calibration(),
            buffer@[vref_index(self.reads_first_half())] as nat,
            buffer@[input_index(self.reads_first_half())] as nat,
            self.full_scale(),
        )
    }

    pub fn new(vref_calibration: u16, full_scale: u16) -> (r: Sampler)
        requires
            full_scale > 0,
        ensures
            r.wf(),
            r.reads_first_half(),
            r.calibration() == calibration_constant(vref_calibration),
            r.full_scale() == full_scale,
    {
        let calibration = vref_calibration as u32 * CALIBRATION_MILLIVOLTS;
        Sampler { first_half: true, calibration, full_scale }
    }

    /// Whether the next call reads the first half of the buffer.
    pub fn first_half(&self) -> (r: bool)
        ensures
            r == self.reads_first_half(),
    {
        self.first_half
    }

    /// Converts the half of `buffer` that was not read last time and queues
    /// the result.
    pub fn sample<LCDER>(&mut self, buffer: &Buffer, queue: &mut SampleQueue) -> (r: Result<(), Error<LCDER>>)
        requires
            old(self).wf(),
            buffer@[vref_index(old(self).reads_first_half())] > 0,
        ensures
            final(self).wf(),
            final(self).reads_first_half() == !old(self).reads_first_half(),
            final(self).calibration() == old(self).calibration(),
            final(self).full_scale() == old(self).full_scale(),
            final(queue)@ == enqueued(old(queue)@, saturated(old(self).next_sample(*buffer))),
            r is Ok <==> old(queue)@.len() < SAMPLE_QUEUE_CAPACITY,
            r is Err ==> r matches Err(Error::Queue),
    {
        let (vref, input) = self.get_raw_data(buffer);
        self.first_half = !self.first_half;
        let sample = self.convert(vref, input);
        match queue.enqueue(sample) {
            Ok(()) => Ok(()),
            Err(_) => Err(Error::Queue),
        }
    }

    fn get_raw_data(&self, buffer: &Buffer) -> (r: (u16, u16))
        ensures
            r.0 == buffer@[vref_index(self.reads_first_half())],
            r.1 == buffer@[input_index(self.reads_first_half())],
    {
        if self.first_half {
            (buffer[1], buffer[0])
        } else {
            (buffer[3], buffer[2])
        }
    }

    /// The calibrated sample for one reference and one input code; a value
    /// beyond sixteen bits is held at `u16::MAX`.
    pub fn convert(&self, measured_vref: u16, measured_input: u16) -> (r: u16)
        requires
            self.wf(),
            measured_vref > 0,
        ensures
            r == saturated(
                converted(self.calibration(), measured_vref as nat, measured_input as nat, self.full_scale()),
            ),
    {
        let v_ref: u64 = self.calibration as u64 / measured_vref as u64;
        assert(v_ref <= u32::MAX);
        assert(v_ref * (measured_input as u64) <= u32::MAX as u64 * u16::MAX as u64) by (nonlinear_arith)
            requires v_ref <= u32::MAX;
        let sample: u64 = (v_ref * measured_input as u64) / self.full_scale as u64;
        if sample > u16::MAX as u64 {
            u16::MAX
        } else {
            sample as u16
        }
    }
}

} // verus!
