//! Timestamps as the chat platform writes them: seconds, a dot, and a
//! fraction ("1700000000.123456"). Threads are keyed by the whole string;
//! ordering only needs the seconds.

use vstd::prelude::*;
use vstd::string::StringSliceAdditionalSpecFns;

verus! {

pub const DOT: u8 = 46;

pub const PLUS: u8 = 43;

pub const ZERO: u8 = 48;

pub const NINE: u8 = 57;

/// Offset of the first dot in `ts`, or its length where it holds none.
pub open spec fn dot_index(ts: Seq<u8>) -> int
    decreases ts.len(),
{
    if ts.len() == 0 || ts[0] == DOT {
        0
    } else {
        1 + dot_index(ts.drop_first())
    }
}

/// What stands before the first dot.
pub open spec fn integer_part(ts: Seq<u8>) -> Seq<u8> {
    ts.subrange(0, dot_index(ts))
}

pub open spec fn is_digit(b: u8) -> bool {
    ZERO <= b <= NINE
}

pub open spec fn all_digits(d: Seq<u8>) -> bool {
    forall|i: int| 0 <= i < d.len() ==> is_digit(#[trigger] d[i])
}

/// The number that a string of decimal digits writes.
pub open spec fn digits_value(d: Seq<u8>) -> nat
    decreases d.len(),
{
    if d.len() == 0 {
        0
    } else {
        digits_value(d.drop_last()) * 10 + (d.last() - ZERO) as nat
    }
}

/// The digits of a number written with an optional leading plus sign.
pub open spec fn unsigned_digits(s: Seq<u8>) -> Seq<u8> {
    if s.len() > 0 && s[0] == PLUS {
        s.drop_first()
    } else {
        s
    }
}

/// A decimal number that fits the machine word: an optional plus sign, then
/// one digit or more and nothing else.
pub open spec fn parse_number(s: Seq<u8>) -> Option<usize> {
    let d = unsigned_digits(s);
    if d.len() > 0 && all_digits(d) && digits_value(d) <= usize::MAX {
        Some(digits_value(d) as usize)
    } else {
        None
    }
}

/// The whole seconds of a timestamp: the number before the first dot, and 0
/// where no number stands there.
pub open spec fn seconds_of(ts: Seq<u8>) -> usize {
    match parse_number(integer_part(ts)) {
        Some(v) => v,
        None => 0,
    }
}

/// The first dot is where a dot stands with none before it.
pub proof fn lemma_dot_index(ts: Seq<u8>, p: int)
    requires
        0 <= p <= ts.len(),
        forall|j: int| 0 <= j < p ==> ts[j] != DOT,
        p < ts.len() ==> ts[p] == DOT,
    ensures
        dot_index(ts) == p,
    decreases p,
{
    if p > 0 {
        let rest = ts.drop_first();
        assert forall|j: int| 0 <= j < p - 1 implies rest[j] != DOT by {
            assert(rest[j] == ts[j + 1]);
        }
        lemma_dot_index(rest, p - 1);
    }
}

/// Digits added at the end never make the number smaller.
pub proof fn lemma_digits_value_grows(d: Seq<u8>, k: int)
    requires
        0 <= k <= d.len(),
        all_digits(d),
    ensures
        digits_value(d.subrange(0, k)) <= digits_value(d),
    decreases d.len() - k,
{
    if k == d.len() {
        assert(d.subrange(0, k) =~= d);
    } else {
        let front = d.drop_last();
        assert(all_digits(front)) by {
            assert forall|i: int| 0 <= i < front.len() implies is_digit(#[trigger] front[i]) by {
                assert(front[i] == d[i]);
            }
        }
        lemma_digits_value_grows(front, k);
        assert(front.subrange(0, k) =~= d.subrange(0, k));
        assert(is_digit(d[d.len() - 1]));
    }
}

/// Reads the decimal number in `bytes[from..to]`; `None` where it holds
/// anything but digits, no digit at all, or a number too large.
fn read_digits(bytes: &[u8], from: usize, to: usize) -> (value: Option<usize>)
    requires
        from <= to <= bytes@.len(),
    ensures
        value == ({
            let d = bytes@.subrange(from as int, to as int);
            if d.len() > 0 && all_digits(d) && digits_value(d) <= usize::MAX {
                Some(digits_value(d) as usize)
            } else {
                None
            }
        }),
{
    let ghost d = bytes@.subrange(from as int, to as int);
    if from == to {
        return None;
    }
    let mut acc: usize = 0;
    let mut i: usize = from;
    while i < to
        invariant
            from <= i <= to <= bytes@.len(),
            d == bytes@.subrange(from as int, to as int),
            all_digits(d.subrange(0, i - from)),
            acc == digits_value(d.subrange(0, i - from)),
        decreases to - i,
    {
        let b = bytes[i];
        let ghost seen = d.subrange(0, i - from);
        let ghost next = d.subrange(0, i - from + 1);
        proof {
            assert(next.drop_last() =~= seen);
            assert(next.last() == b);
        }
        if b < ZERO || b > NINE {
            proof {
                assert(d[i - from] == b);
                assert(!all_digits(d));
            }
            return None;
        }
        proof {
            assert forall|j: int| 0 <= j < next.len() implies is_digit(#[trigger] next[j]) by {
                if j < seen.len() {
                    assert(seen[j] == next[j]);
                }
            }
        }
        let grown = match acc.checked_mul(10) {
            Some(tens) => tens.checked_add((b - ZERO) as usize),
            None => None,
        };
        match grown {
            Some(v) => {
                acc = v;
            },
            None => {
                proof {
                    assert(digits_value(next) > usize::MAX);
                    if all_digits(d) {
                        lemma_digits_value_grows(d, i - from + 1);
                    }
                }
                return None;
            },
        }
        i += 1;
    }
    proof {
        assert(d.subrange(0, to - from) =~= d);
    }
    Some(acc)
}

/// Whole seconds of the timestamp `ts`; 0 where it does not start with a
/// number.
pub fn seconds(ts: &str) -> (secs: usize)
    ensures
        secs == seconds_of(ts.spec_bytes()),
{
    let bytes = ts.as_bytes();
    let mut end: usize = 0;
    while end < bytes.len() && bytes[end] != DOT
        invariant
            end <= bytes@.len(),
            forall|j: int| 0 <= j < end ==> bytes@[j] != DOT,
        decreases bytes@.len() - end,
    {
        end += 1;
    }
    proof {
        lemma_dot_index(bytes@, end as int);
    }
    let ghost whole = integer_part(bytes@);
    let start: usize = if end > 0 && bytes[0] == PLUS { 1 } else { 0 };
    proof {
        assert(unsigned_digits(whole) =~= bytes@.subrange(start as int, end as int));
    }
    match read_digits(bytes, start, end) {
        Some(v) => v,
        None => 0,
    }
}

} // verus!
