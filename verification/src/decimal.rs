//! Decimal numerals, as the protocol writes its numeric parameters.

use vstd::prelude::*;

verus! {

/// The ASCII digit of a value below ten.
pub open spec fn digit(d: int) -> u8 {
    (48 + d) as u8
}

/// The decimal digits of a natural number, most significant first, without
/// leading zeros.
pub open spec fn digits(n: nat) -> Seq<u8>
    decreases n,
{
    if n < 10 {
        seq![digit(n as int)]
    } else {
        digits(n / 10).push(digit((n % 10) as int))
    }
}

/// The decimal numeral of an integer: a minus sign for a negative one, then
/// the digits of its magnitude.
pub open spec fn decimal(i: int) -> Seq<u8> {
    if i < 0 {
        seq![45u8] + digits((-i) as nat)
    } else {
        digits(i as nat)
    }
}

/// A numeral of a natural number holds digits only.
pub proof fn lemma_digits_are_digits(n: nat)
    ensures
        digits(n).len() >= 1,
        forall|k: int| 0 <= k < digits(n).len() ==> 48 <= #[trigger] digits(n)[k] <= 57,
    decreases n,
{
    if n >= 10 {
        lemma_digits_are_digits(n / 10);
    }
}

/// Appends the decimal numeral of `value` to `out`.
pub fn push_decimal(out: &mut Vec<u8>, value: i64)
    requires
        value > i64::MIN,
    ensures
        final(out)@ == old(out)@ + decimal(value as int),
{
    let ghost start = out@;
    let mut magnitude: u64 = if value < 0 {
        out.push(45u8);
        (-value) as u64
    } else {
        value as u64
    };
    let ghost prefix = out@;
    let ghost whole: nat = magnitude as nat;
    // Digits come out least significant first: collect, then append reversed.
    let mut rev: Vec<u8> = Vec::new();
    rev.push((48 + (magnitude % 10)) as u8);
    magnitude = magnitude / 10;
    let ghost mut taken: Seq<u8> = seq![digit((whole % 10) as int)];
    let ghost mut rest: nat = whole / 10;
    while magnitude > 0
        invariant
            magnitude as nat == rest,
            rev@.len() >= 1,
            rev@.len() == taken.len(),
            forall|k: int| 0 <= k < rev@.len() ==> rev@[k] == taken[rev@.len() - 1 - k],
            digits(whole) == if rest == 0 {
                taken
            } else {
                digits(rest) + taken
            },
        decreases magnitude,
    {
        let d: u8 = (48 + (magnitude % 10)) as u8;
        proof {
            let ghost next_taken = seq![digit((rest % 10) as int)] + taken;
            if rest < 10 {
                assert(digits(rest) =~= seq![digit(rest as int)]);
                assert(digits(rest) + taken =~= next_taken);
            } else {
                assert(digits(rest) =~= digits(rest / 10).push(digit((rest % 10) as int)));
                assert(digits(rest) + taken =~= digits(rest / 10) + next_taken);
            }
            taken = next_taken;
            rest = rest / 10;
        }
        rev.push(d);
        magnitude = magnitude / 10;
    }
    let mut k: usize = rev.len();
    while k > 0
        invariant
            k <= rev@.len(),
            rev@.len() == taken.len(),
            forall|j: int| 0 <= j < rev@.len() ==> rev@[j] == taken[rev@.len() - 1 - j],
            out@ == prefix + taken.take(rev@.len() - k),
        decreases k,
    {
        k = k - 1;
        out.push(rev[k]);
        assert(taken.take(rev@.len() - k) =~= taken.take(rev@.len() - k - 1).push(
            taken[rev@.len() - k - 1],
        ));
    }
    assert(taken.take(taken.len() as int) =~= taken);
    assert(start + decimal(value as int) =~= out@);
}

} // verus!
