use vstd::prelude::*;

verus! {

/// The ASCII decimal digits of `n`, most significant first.
pub open spec fn decimal(n: nat) -> Seq<u8>
    decreases n,
{
    if n < 10 {
        seq![(48 + n) as u8]
    } else {
        decimal(n / 10).push((48 + n % 10) as u8)
    }
}

/// `n` in decimal, padded on the left with spaces to at least `width`
/// characters.
pub open spec fn right_aligned(n: nat, width: nat) -> Seq<u8> {
    let d = decimal(n);
    if d.len() >= width {
        d
    } else {
        Seq::new((width - d.len()) as nat, |i: int| 32u8) + d
    }
}

/// Ten to the power `k`.
pub open spec fn pow10(k: nat) -> nat
    decreases k,
{
    if k == 0 {
        1
    } else {
        10 * pow10((k - 1) as nat)
    }
}

/// A number below `10^k` has at most `k` digits, and every number has one.
pub proof fn lemma_decimal_len(n: nat, k: nat)
    requires
        k >= 1,
        n < pow10(k),
    ensures
        1 <= decimal(n).len() <= k,
    decreases n,
{
    if n >= 10 {
        assert(k >= 2) by {
            if k == 1 {
                assert(pow10(1) == 10 * pow10(0));
            }
        }
        assert(pow10(k) == 10 * pow10((k - 1) as nat));
        assert(n / 10 < pow10((k - 1) as nat));
        lemma_decimal_len(n / 10, (k - 1) as nat);
    }
}

fn push_decimal(n: u16, out: &mut Vec<u8>)
    ensures
        final(out)@ == old(out)@ + decimal(n as nat),
    decreases n,
{
    if n >= 10 {
        push_decimal(n / 10, out);
    }
    out.push(48 + (n % 10) as u8);
    proof {
        if n >= 10 {
            assert(old(out)@ + decimal(n as nat) =~= old(out)@ + decimal((n / 10) as nat) + seq![(48 + n % 10) as u8]);
        }
    }
    assert(final(out)@ =~= old(out)@ + decimal(n as nat));
}

/// `value` in decimal, right-justified in a field of `width` characters, or
/// `None` when that text is longer than `capacity` bytes.
pub fn format_right_aligned(value: u16, width: usize, capacity: usize) -> (r: Option<Vec<u8>>)
    ensures
        r is Some <==> right_aligned(value as nat, width as nat).len() <= capacity,
        r is Some ==> r->Some_0@ == right_aligned(value as nat, width as nat),
{
    let mut digits: Vec<u8> = Vec::new();
    push_decimal(value, &mut digits);
    assert(digits@ =~= decimal(value as nat));
    proof {
        assert(pow10(1) == 10 * pow10(0));
        assert(pow10(2) == 10 * pow10(1));
        assert(pow10(3) == 10 * pow10(2));
        assert(pow10(4) == 10 * pow10(3));
        assert(pow10(5) == 10 * pow10(4));
        lemma_decimal_len(value as nat, 5);
    }
    let total: usize = if digits.len() >= width { digits.len() } else { width };
    if total > capacity {
        return None;
    }
    let mut out: Vec<u8> = Vec::new();
    let pad: usize = total - digits.len();
    let mut i: usize = 0;
    while i < pad
        invariant
            i <= pad,
            out@ =~= Seq::new(i as nat, |k: int| 32u8),
        decreases pad - i,
    {
        out.push(32u8);
        i = i + 1;
    }
    let mut j: usize = 0;
    while j < digits.len()
        invariant
            j <= digits.len(),
            out@ =~= Seq::new(pad as nat, |k: int| 32u8) + digits@.take(j as int),
        decreases digits.len() - j,
    {
        out.push(digits[j]);
        j = j + 1;
        assert(digits@.take(j as int) =~= digits@.take((j - 1) as int).push(digits@[j - 1]));
    }
    assert(digits@.take(digits.len() as int) =~= digits@);
    proof {
        if digits@.len() >= width {
            assert(Seq::new(0nat, |k: int| 32u8) + digits@ =~= digits@);
        }
    }
    Some(out)
}

/// The text of a sixteen-bit value is no longer than its field width or five
/// characters, whichever is more.
pub proof fn lemma_right_aligned_len(n: u16, width: nat)
    ensures
        right_aligned(n as nat, width).len() <= if width > 5 { width } else { 5 },
{
    assert(pow10(1) == 10 * pow10(0));
    assert(pow10(2) == 10 * pow10(1));
    assert(pow10(3) == 10 * pow10(2));
    assert(pow10(4) == 10 * pow10(3));
    assert(pow10(5) == 10 * pow10(4));
    lemma_decimal_len(n as nat, 5);
}

} // verus!
