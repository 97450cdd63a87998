use std::cell::RefCell;
use std::rc::Rc;

use ecg_monitor::beat::beats_per_minute;
use ecg_monitor::display::{Color, Data, Display, Lcd, Point, Shape};
use ecg_monitor::dma::{Direction, Dma, DmaPriority, WordSize};
use ecg_monitor::error::Error;
use ecg_monitor::queue::SampleQueue;
use ecg_monitor::sampler::Sampler;
use ecg_monitor::text::format_right_aligned;

#[derive(Debug, Clone, PartialEq)]
enum Op {
    Clear(Color),
    Rect(Point, Point, Color),
    Outline(Point, Point, u32, Color, Color),
    Text(Point, String, Color),
    Scroll(u16),
}

struct Recorder {
    log: Rc<RefCell<Vec<Op>>>,
    fail_draw: bool,
    fail_after: Rc<RefCell<Option<usize>>>,
}

impl Recorder {
    fn new(log: Rc<RefCell<Vec<Op>>>) -> Recorder {
        Recorder { log, fail_draw: false, fail_after: Rc::new(RefCell::new(None)) }
    }

    fn outcome(&self) -> Result<(), &'static str> {
        let mut left = self.fail_after.borrow_mut();
        match *left {
            Some(0) => Err("bus fault"),
            Some(n) => {
                *left = Some(n - 1);
                Ok(())
            }
            None => Ok(()),
        }
    }
}

impl Lcd for Recorder {
    type Error = &'static str;

    fn clear(&mut self, color: Color) -> Result<(), Self::Error> {
        self.log.borrow_mut().push(Op::Clear(color));
        Ok(())
    }

    fn draw(&mut self, shape: &Shape) -> Result<(), Self::Error> {
        let op = match shape {
            Shape::FilledRect { top_left, bottom_right, color } => {
                Op::Rect(*top_left, *bottom_right, *color)
            }
            Shape::Outline { top_left, bottom_right, stroke_width, stroke, fill } => {
                Op::Outline(*top_left, *bottom_right, *stroke_width, *stroke, *fill)
            }
            Shape::Text { position, text, color } => {
                Op::Text(*position, String::from_utf8(text.clone()).unwrap(), *color)
            }
        };
        self.log.borrow_mut().push(op);
        if self.fail_draw {
            Err("bus fault")
        } else {
            self.outcome()
        }
    }

    fn scroll(&mut self, num_of_lines: u16) -> Result<(), Self::Error> {
        self.log.borrow_mut().push(Op::Scroll(num_of_lines));
        self.outcome()
    }
}

fn setup() -> (Display<Recorder>, Rc<RefCell<Vec<Op>>>) {
    let (display, log, _) = setup_failing();
    (display, log)
}

fn setup_failing() -> (Display<Recorder>, Rc<RefCell<Vec<Op>>>, Rc<RefCell<Option<usize>>>) {
    let log = Rc::new(RefCell::new(Vec::new()));
    let recorder = Recorder::new(log.clone());
    let fail_after = recorder.fail_after.clone();
    let display = match Display::new(recorder) {
        Ok(d) => d,
        Err(e) => panic!("set-up failed: {:?}", e),
    };
    log.borrow_mut().clear();
    (display, log, fail_after)
}

fn pt(x: i32, y: i32) -> Point {
    Point { x, y }
}

#[test]
fn converts_reference_scenario() {
    let sampler = Sampler::new(1500, 4095);
    // 4_500_000 / 1000 = 4500, and 4500 * 2000 / 4095 = 2197.8, truncated.
    assert_eq!(sampler.convert(1000, 2000), 2197);
}

#[test]
fn converts_boundary_values() {
    let sampler = Sampler::new(1500, 4095);
    assert_eq!(sampler.convert(1000, 0), 0);
    assert_eq!(sampler.convert(1000, 4095), 4500);
    assert_eq!(sampler.convert(65535, 4095), 68);
    assert_eq!(sampler.convert(1, 0), 0);
    // 4_500_000 does not fit in sixteen bits: it is held at the top.
    assert_eq!(sampler.convert(1, 4095), u16::MAX);
}

#[test]
fn sampler_alternates_halves() {
    let mut sampler = Sampler::new(1500, 4095);
    let mut queue = SampleQueue::new();
    let buffer: [u16; 4] = [2000, 1000, 100, 4095];
    assert!(sampler.sample::<()>(&buffer, &mut queue).is_ok());
    assert!(sampler.sample::<()>(&buffer, &mut queue).is_ok());
    assert!(sampler.sample::<()>(&buffer, &mut queue).is_ok());
    assert_eq!(queue.dequeue(), Some(2197));
    assert_eq!(queue.dequeue(), Some(26));
    assert_eq!(queue.dequeue(), Some(2197));
    assert_eq!(queue.dequeue(), None);
}

#[test]
fn sampler_reports_overrun() {
    let mut sampler = Sampler::new(1500, 4095);
    let mut queue = SampleQueue::new();
    for i in 0..queue.capacity() {
        assert!(queue.enqueue(i as u16).is_ok());
    }
    let buffer: [u16; 4] = [2000, 1000, 2000, 1000];
    assert!(matches!(sampler.sample::<()>(&buffer, &mut queue), Err(Error::Queue)));
    assert_eq!(queue.len(), 63);
    assert_eq!(queue.dequeue(), Some(0));
}

#[test]
fn queue_keeps_order() {
    let mut queue = SampleQueue::new();
    assert!(queue.is_empty());
    for v in [5u16, 1, 4, 2, 3] {
        assert!(queue.enqueue(v).is_ok());
    }
    assert_eq!(queue.len(), 5);
    let mut out = Vec::new();
    while let Some(v) = queue.dequeue() {
        out.push(v);
    }
    assert_eq!(out, vec![5, 1, 4, 2, 3]);
}

#[test]
fn queue_full_rejects_then_reuses() {
    let mut queue = SampleQueue::new();
    assert_eq!(queue.capacity(), 63);
    for i in 0..63u16 {
        assert!(queue.enqueue(i).is_ok());
    }
    assert_eq!(queue.enqueue(999), Err(999));
    assert_eq!(queue.len(), 63);
    assert_eq!(queue.dequeue(), Some(0));
    assert!(queue.enqueue(1000).is_ok());
    let mut out = Vec::new();
    while let Some(v) = queue.dequeue() {
        out.push(v);
    }
    let mut expected: Vec<u16> = (1..63).collect();
    expected.push(1000);
    assert_eq!(out, expected);
}

#[test]
fn column_from_samples() {
    assert_eq!(Data::from((5, 12)), Data { y: 5, height: 7 });
    assert_eq!(Data::from((12, 5)), Data { y: 5, height: 7 });
    assert_eq!(Data::from((7, 7)), Data { y: 7, height: 0 });
    assert_eq!(Data::new(3, 4), Data { y: 3, height: 4 });
}

#[test]
fn map_reaches_both_ends_in_order() {
    assert_eq!(ecg_monitor::display::map(0, 0, 3450, 0, 299), 0);
    assert_eq!(ecg_monitor::display::map(3450, 0, 3450, 0, 299), 299);
    assert_eq!(ecg_monitor::display::map(2198, 0, 3450, 0, 299), 190);
    let mut previous = 0;
    for s in 0..=3450u32 {
        let m = ecg_monitor::display::map(s, 0, 3450, 0, 299);
        assert!(m >= previous);
        previous = m;
    }
    assert_eq!(ecg_monitor::display::map(15, 10, 20, 100, 200), 150);
}

#[test]
fn bpm_scaling() {
    assert_eq!(beats_per_minute(0), Some(0));
    assert_eq!(beats_per_minute(12), Some(72));
    assert_eq!(beats_per_minute(10922), Some(65532));
    assert_eq!(beats_per_minute(10923), None);
    assert_eq!(beats_per_minute(u16::MAX), None);
}

#[test]
fn text_is_right_aligned() {
    assert_eq!(format_right_aligned(7, 3, 8), Some(b"  7".to_vec()));
    assert_eq!(format_right_aligned(72, 3, 8), Some(b" 72".to_vec()));
    assert_eq!(format_right_aligned(0, 3, 8), Some(b"  0".to_vec()));
    assert_eq!(format_right_aligned(12345, 3, 8), Some(b"12345".to_vec()));
    assert_eq!(format_right_aligned(12345, 3, 4), None);
    assert_eq!(format_right_aligned(5, 0, 8), Some(b"5".to_vec()));
}

#[test]
fn dma_settings() {
    let dma = Dma::new(0x4001_2440, 0x2000_0000, 4);
    assert_eq!(dma.priority, DmaPriority::VeryHigh);
    assert_eq!(dma.word_size, WordSize::Bits16);
    assert_eq!(dma.direction, Direction::FromPeripheral);
    assert_eq!(dma.peripheral_addr, 0x4001_2440);
    assert!(!dma.peripheral_increment);
    assert_eq!(dma.memory_addr, 0x2000_0000);
    assert!(dma.memory_increment);
    assert_eq!(dma.transfer_length, 4);
    assert!(dma.circular);
}

#[test]
fn new_draws_layout_and_fills_plot() {
    let log = Rc::new(RefCell::new(Vec::new()));
    let recorder = Recorder::new(log.clone());
    assert!(Display::new(recorder).is_ok());
    let ops = log.borrow();
    assert_eq!(ops.len(), 4 + 2 * 420);
    assert_eq!(ops[0], Op::Clear(Color::Background));
    assert_eq!(
        ops[1],
        Op::Outline(pt(8, 8), pt(431, 311), 2, Color::FrameBorder, Color::Background)
    );
    assert_eq!(ops[2], Op::Text(pt(437, 36), "  0".to_string(), Color::BpmText));
    assert_eq!(ops[3], Op::Text(pt(437, 15), "BPM".to_string(), Color::BpmText));
    assert_eq!(ops[4], Op::Scroll(1));
    assert_eq!(ops[5], Op::Rect(pt(10, 309), pt(10, 309), Color::Waveform));
    assert_eq!(ops[6], Op::Scroll(1));
    assert_eq!(ops[7], Op::Rect(pt(11, 309), pt(11, 309), Color::Waveform));
    assert_eq!(ops[4 + 2 * 419 + 1], Op::Rect(pt(429, 309), pt(429, 309), Color::Waveform));
}

#[test]
fn new_reports_surface_failure() {
    let log = Rc::new(RefCell::new(Vec::new()));
    let mut recorder = Recorder::new(log.clone());
    recorder.fail_draw = true;
    match Display::new(recorder) {
        Err(Error::Lcd(e)) => assert_eq!(e, "bus fault"),
        _ => panic!("a failing surface must be reported"),
    }
    assert_eq!(log.borrow().len(), 2);
}

#[test]
fn end_to_end_sample_reaches_screen() {
    let (mut display, log) = setup();
    let mut sampler = Sampler::new(1500, 4095);
    let mut queue = SampleQueue::new();
    let buffer: [u16; 4] = [2000, 1000, 2000, 1000];
    assert!(sampler.sample::<&'static str>(&buffer, &mut queue).is_ok());
    assert!(sampler.sample::<&'static str>(&buffer, &mut queue).is_ok());
    assert!(display.frame(&mut queue).is_ok());
    assert!(queue.is_empty());
    let ops = log.borrow();
    // 2197 maps to row 2197 * 299 / 3450 = 190.
    assert_eq!(
        *ops,
        vec![
            Op::Scroll(1),
            Op::Rect(pt(10, 309), pt(10, 309), Color::Background),
            Op::Rect(pt(10, 119), pt(10, 309), Color::Waveform),
            Op::Scroll(1),
            Op::Rect(pt(11, 309), pt(11, 309), Color::Background),
            Op::Rect(pt(11, 119), pt(11, 119), Color::Waveform),
        ]
    );
}

#[test]
fn frame_without_samples_draws_nothing() {
    let (mut display, log) = setup();
    let mut queue = SampleQueue::new();
    assert!(display.frame(&mut queue).is_ok());
    assert!(log.borrow().is_empty());
}

#[test]
fn frame_erases_what_scrolled_off() {
    let (mut display, log) = setup();
    let mut queue = SampleQueue::new();
    // One full turn of the plot.
    for round in 0..8 {
        for _ in 0..52 {
            assert!(queue.enqueue(3450).is_ok());
        }
        if round == 7 {
            for _ in 0..4 {
                assert!(queue.enqueue(3450).is_ok());
            }
        }
        assert!(display.frame(&mut queue).is_ok());
    }
    log.borrow_mut().clear();
    assert!(queue.enqueue(0).is_ok());
    assert!(display.frame(&mut queue).is_ok());
    let ops = log.borrow();
    // 420 samples later the column drawn first (from 0 up to the top row) is
    // erased at the same plot column.
    assert_eq!(
        *ops,
        vec![
            Op::Scroll(1),
            Op::Rect(pt(10, 10), pt(10, 309), Color::Background),
            Op::Rect(pt(10, 10), pt(10, 309), Color::Waveform),
        ]
    );
}

#[test]
fn samples_above_range_are_drawn_at_the_top() {
    let (mut display, log) = setup();
    let mut queue = SampleQueue::new();
    assert!(queue.enqueue(u16::MAX).is_ok());
    assert!(display.frame(&mut queue).is_ok());
    assert_eq!(log.borrow()[2], Op::Rect(pt(10, 10), pt(10, 309), Color::Waveform));
}

#[test]
fn update_bpm_redraws_only_on_change() {
    let (mut display, log) = setup();
    assert!(display.update_bpm(72).is_ok());
    assert_eq!(
        *log.borrow(),
        vec![
            Op::Text(pt(437, 36), "  0".to_string(), Color::Background),
            Op::Text(pt(437, 36), " 72".to_string(), Color::BpmText),
        ]
    );
    log.borrow_mut().clear();
    assert!(display.update_bpm(72).is_ok());
    assert!(log.borrow().is_empty());
    assert!(display.update_bpm(120).is_ok());
    assert_eq!(
        *log.borrow(),
        vec![
            Op::Text(pt(437, 36), " 72".to_string(), Color::Background),
            Op::Text(pt(437, 36), "120".to_string(), Color::BpmText),
        ]
    );
}

#[test]
fn update_bpm_with_initial_value_draws_nothing() {
    let (mut display, log) = setup();
    assert!(display.update_bpm(0).is_ok());
    assert!(log.borrow().is_empty());
}

#[test]
fn take_moves_waiting_samples() {
    let mut queue = SampleQueue::new();
    assert!(queue.enqueue(10).is_ok());
    assert!(queue.enqueue(20).is_ok());
    let mut taken = queue.take();
    assert!(queue.is_empty());
    assert_eq!(taken.len(), 2);
    assert_eq!(taken.dequeue(), Some(10));
    assert_eq!(taken.dequeue(), Some(20));
}

#[test]
fn sampler_reports_next_half() {
    let mut sampler = Sampler::new(1500, 4095);
    let mut queue = SampleQueue::new();
    let buffer: [u16; 4] = [1, 1, 1, 1];
    assert!(sampler.first_half());
    assert!(sampler.sample::<()>(&buffer, &mut queue).is_ok());
    assert!(!sampler.first_half());
    assert!(sampler.sample::<()>(&buffer, &mut queue).is_ok());
    assert!(sampler.first_half());
}

#[test]
fn frame_stops_at_surface_failure() {
    let (mut display, log, fail_after) = setup_failing();
    let mut queue = SampleQueue::new();
    for v in [100u16, 200, 300] {
        assert!(queue.enqueue(v).is_ok());
    }
    // The first sample's scroll, erase and draw succeed; the second sample's
    // erase fails.
    *fail_after.borrow_mut() = Some(4);
    match display.frame(&mut queue) {
        Err(Error::Lcd(e)) => assert_eq!(e, "bus fault"),
        _ => panic!("the surface failure must be reported"),
    }
    assert_eq!(log.borrow().len(), 5);
    assert_eq!(log.borrow()[4], Op::Rect(pt(11, 309), pt(11, 309), Color::Background));
    assert_eq!(queue.len(), 1);
    assert_eq!(queue.dequeue(), Some(300));
}

#[test]
fn update_bpm_keeps_old_rate_after_failure() {
    let (mut display, log, fail_after) = setup_failing();
    *fail_after.borrow_mut() = Some(0);
    assert!(matches!(display.update_bpm(72), Err(Error::Lcd(_))));
    // Only the erase was asked for.
    assert_eq!(log.borrow().len(), 1);
    *fail_after.borrow_mut() = None;
    log.borrow_mut().clear();
    // The old rate is still the one on record, so the value is drawn again.
    assert!(display.update_bpm(72).is_ok());
    assert_eq!(
        *log.borrow(),
        vec![
            Op::Text(pt(437, 36), "  0".to_string(), Color::Background),
            Op::Text(pt(437, 36), " 72".to_string(), Color::BpmText),
        ]
    );
}

#[test]
fn frame_reports_failed_scroll() {
    let log = Rc::new(RefCell::new(Vec::new()));
    let recorder = Recorder::new(log.clone());
    let fail_after = recorder.fail_after.clone();
    let mut display = match Display::new(recorder) {
        Ok(d) => d,
        Err(_) => panic!("set-up failed"),
    };
    log.borrow_mut().clear();
    *fail_after.borrow_mut() = Some(0);
    let mut queue = SampleQueue::new();
    assert!(queue.enqueue(5).is_ok());
    assert!(queue.enqueue(6).is_ok());
    assert!(matches!(display.frame(&mut queue), Err(Error::Lcd(_))));
    assert_eq!(*log.borrow(), vec![Op::Scroll(1)]);
    assert_eq!(queue.dequeue(), Some(6));
}
