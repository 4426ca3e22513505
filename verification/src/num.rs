//! Digit-string arithmetic shared by the numeric fields of the tag and
//! descriptor grammars.
use vstd::prelude::*;

verus! {

pub open spec fn is_digit(c: char) -> bool {
    48 <= c as int <= 57
}

pub open spec fn digit_val(c: char) -> int {
    c as int - 48
}

pub open spec fn all_digits(s: Seq<char>) -> bool {
    forall|i: int| 0 <= i < s.len() ==> is_digit(#[trigger] s[i])
}

/// The number written by a digit string, most significant digit first.
pub open spec fn num_val(s: Seq<char>) -> int
    decreases s.len(),
{
    if s.len() == 0 {
        0
    } else {
        num_val(s.drop_last()) * 10 + digit_val(s.last())
    }
}

pub open spec fn pow10(n: nat) -> int
    decreases n,
{
    if n == 0 {
        1
    } else {
        10 * pow10((n - 1) as nat)
    }
}

pub proof fn lemma_pow10_pos(n: nat)
    ensures
        pow10(n) >= 1,
    decreases n,
{
    if n > 0 {
        lemma_pow10_pos((n - 1) as nat);
    }
}

pub proof fn lemma_pow10_mono(a: nat, b: nat)
    requires
        a <= b,
    ensures
        pow10(a) <= pow10(b),
    decreases b,
{
    if a < b {
        lemma_pow10_mono(a, (b - 1) as nat);
        lemma_pow10_pos((b - 1) as nat);
    }
}

pub proof fn lemma_num_val_bound(s: Seq<char>)
    requires
        all_digits(s),
    ensures
        0 <= num_val(s) < pow10(s.len()),
    decreases s.len(),
{
    if s.len() > 0 {
        assert(all_digits(s.drop_last())) by {
            assert(forall|i: int|
                0 <= i < s.len() - 1 ==> #[trigger] s.drop_last()[i] == s[i]);
        }
        lemma_num_val_bound(s.drop_last());
    }
}

/// The numeric value of a digit character.
pub(crate) fn digit_of(c: char) -> (r: Option<u64>)
    ensures
        match r {
            Some(d) => is_digit(c) && d == digit_val(c),
            None => !is_digit(c),
        },
{
    match c {
        '0' => Some(0),
        '1' => Some(1),
        '2' => Some(2),
        '3' => Some(3),
        '4' => Some(4),
        '5' => Some(5),
        '6' => Some(6),
        '7' => Some(7),
        '8' => Some(8),
        '9' => Some(9),
        _ => None,
    }
}

/// Reads the digits of the window `[lo, hi)` into an accumulator that
/// already holds the value of the digit string `pre`.
pub(crate) fn digits_value(v: &Vec<char>, lo: usize, hi: usize, acc: u64, Ghost(pre): Ghost<Seq<char>>) -> (r:
    Option<u64>)
    requires
        lo <= hi <= v@.len(),
        all_digits(pre),
        acc == num_val(pre),
        pre.len() + (hi - lo) <= 19,
    ensures
        match r {
            Some(m) => all_digits(v@.subrange(lo as int, hi as int)) && m == num_val(
                pre + v@.subrange(lo as int, hi as int),
            ),
            None => !all_digits(v@.subrange(lo as int, hi as int)),
        },
{
    proof {
        lemma_num_val_bound(pre);
    }
    let mut i: usize = lo;
    let mut cur: u64 = acc;
    while i < hi
        invariant
            lo <= i <= hi <= v@.len(),
            all_digits(pre),
            pre.len() + (hi - lo) <= 19,
            all_digits(v@.subrange(lo as int, i as int)),
            all_digits(pre + v@.subrange(lo as int, i as int)),
            cur == num_val(pre + v@.subrange(lo as int, i as int)),
        decreases hi - i,
    {
        let c = v[i];
        let d: u64 = match digit_of(c) {
            Some(d) => d,
            None => {
                proof {
                    let w = v@.subrange(lo as int, hi as int);
                    assert(w[i - lo] == v@[i as int]);
                    assert(!is_digit(w[i - lo]));
                }
                return None;
            },
        };
        let ghost sofar = pre + v@.subrange(lo as int, i as int);
        proof {
            lemma_num_val_bound(sofar);
            lemma_pow10_mono(sofar.len(), 18);
            assert(pow10(18) == 1000000000000000000) by {
                reveal_with_fuel(pow10, 19);
            }
        }
        cur = cur * 10 + d;
        i = i + 1;
        proof {
            let now = pre + v@.subrange(lo as int, i as int);
            assert(now =~= sofar.push(v@[i - 1]));
            assert(now.drop_last() =~= sofar);
            assert(now.last() == c);
            assert(all_digits(now)) by {
                assert(forall|k: int| 0 <= k < now.len() - 1 ==> now[k] == sofar[k]);
            }
            assert(all_digits(v@.subrange(lo as int, i as int))) by {
                assert(forall|k: int|
                    0 <= k < i - lo ==> #[trigger] v@.subrange(lo as int, i as int)[k]
                        == now[pre.len() + k]);
            }
            assert(cur == num_val(now));
        }
    }
    Some(cur)
}

} // verus!
