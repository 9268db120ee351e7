//! The range of bytes that a chunk declares: two numbers with a hyphen
//! between them, the first and the last offset.

use vstd::prelude::*;
use vstd::string::*;

verus! {

/// Whether `c` is a decimal digit.
pub open spec fn is_digit(c: char) -> bool {
    '0' <= c && c <= '9'
}

/// Whether `s` is one or more decimal digits.
pub open spec fn all_digits(s: Seq<char>) -> bool {
    s.len() > 0 && forall|i: int| 0 <= i < s.len() ==> is_digit(#[trigger] s[i])
}

/// The number that the digits of `s` write, leading zeros allowed.
pub open spec fn number(s: Seq<char>) -> nat
    decreases s.len(),
{
    if s.len() == 0 {
        0
    } else {
        (10 * number(s.drop_last()) + (s.last() as nat - '0' as nat)) as nat
    }
}

/// Whether `text` is a range whose hyphen stands at `at`: digits, the
/// hyphen, digits, and nothing else.
pub open spec fn is_range_at(text: Seq<char>, at: int) -> bool {
    &&& 0 < at < text.len() - 1
    &&& text[at] == '-'
    &&& all_digits(text.take(at))
    &&& all_digits(text.skip(at + 1))
}

/// The first and the last offset that `text` declares, if it is a range.
pub open spec fn range_of(text: Seq<char>) -> Option<(nat, nat)> {
    if exists|at: int| is_range_at(text, at) {
        let at = choose|at: int| is_range_at(text, at);
        Some((number(text.take(at)), number(text.skip(at + 1))))
    } else {
        None
    }
}

/// The range as offsets of a file: none where it is no range or an offset
/// is out of reach.
pub open spec fn declared_range(text: Seq<char>) -> Option<(u64, u64)> {
    match range_of(text) {
        Some((first, last)) => if first <= u64::MAX && last <= u64::MAX {
            Some((first as u64, last as u64))
        } else {
            None
        },
        None => None,
    }
}

/// A range has its hyphen in one place only.
pub proof fn lemma_one_hyphen(text: Seq<char>, a: int, b: int)
    requires
        is_range_at(text, a),
        is_range_at(text, b),
    ensures
        a == b,
{
    if a < b {
        assert(text.take(b)[a] == text[a]);
        assert(is_digit(text.take(b)[a]));
    } else if b < a {
        assert(text.take(a)[b] == text[b]);
        assert(is_digit(text.take(a)[b]));
    }
}

/// Reads digits from `from` on, up to the first character that is no
/// digit. Gives the place where the digits end and the number they write,
/// or no number where it does not fit.
fn read_number(text: &str, len: usize, from: usize) -> (r: (usize, Option<u64>))
    requires
        text.is_ascii(),
        len == text@.len(),
        from <= len,
    ensures
        from <= r.0 <= len,
        forall|i: int| from <= i < r.0 ==> is_digit(#[trigger] text@[i]),
        r.0 < len ==> !is_digit(text@[r.0 as int]),
        match r.1 {
            Some(n) => n == number(text@.subrange(from as int, r.0 as int)),
            None => number(text@.subrange(from as int, r.0 as int)) > u64::MAX,
        },
{
    let mut at: usize = from;
    let mut value: u64 = 0;
    let mut fits = true;
    assert(text@.subrange(from as int, from as int) =~= Seq::<char>::empty());
    while at < len && is_digit_byte(text.get_ascii(at))
        invariant
            text.is_ascii(),
            len == text@.len(),
            from <= at <= len,
            forall|i: int| from <= i < at ==> is_digit(#[trigger] text@[i]),
            fits ==> value == number(text@.subrange(from as int, at as int)),
            !fits ==> number(text@.subrange(from as int, at as int)) > u64::MAX,
        decreases len - at,
    {
        let digit: u64 = (text.get_ascii(at) - 48) as u64;
        proof {
            let now = text@.subrange(from as int, at as int);
            let next = text@.subrange(from as int, at as int + 1);
            assert(next.drop_last() =~= now);
            assert(next.last() == text@[at as int]);
            assert(text@[at as int] as nat - '0' as nat == digit);
            assert(number(next) == 10 * number(now) + digit);
        }
        if fits && value <= (u64::MAX - digit) / 10 {
            value = value * 10 + digit;
        } else {
            fits = false;
        }
        at = at + 1;
    }
    if fits {
        (at, Some(value))
    } else {
        (at, None)
    }
}

fn is_digit_byte(b: u8) -> (r: bool)
    ensures
        r == (48 <= b <= 57),
{
    48 <= b && b <= 57
}

/// Reads the range that a chunk declares.
pub fn parse_range(text: &str) -> (r: Option<(u64, u64)>)
    ensures
        r == declared_range(text@),
{
    if !text.is_ascii() {
        proof {
            if exists|at: int| is_range_at(text@, at) {
                let at = choose|at: int| is_range_at(text@, at);
                let j = choose|j: int|
                    0 <= j < text@.len() && !('\0' <= #[trigger] text@[j] <= '\u{7f}');
                if j < at {
                    assert(text@.take(at)[j] == text@[j]);
                } else if j > at {
                    assert(text@.skip(at + 1)[j - at - 1] == text@[j]);
                }
            }
        }
        return None;
    }
    let len: usize = text.unicode_len();
    let (at, first) = read_number(text, len, 0);
    let ghost t = text@;
    if at == 0 || at >= len || text.get_ascii(at) != 45 {
        proof {
            if exists|k: int| is_range_at(t, k) {
                let k = choose|k: int| is_range_at(t, k);
                if at < k {
                    assert(t.take(k)[at as int] == t[at as int]);
                } else if at > k {
                    assert(is_digit(t[k]));
                }
            }
        }
        return None;
    }
    let (end, last) = read_number(text, len, at + 1);
    if end == at + 1 || end < len {
        proof {
            if exists|k: int| is_range_at(t, k) {
                let k = choose|k: int| is_range_at(t, k);
                if k < at {
                    assert(is_digit(t[k]));
                } else if k > at {
                    assert(t.take(k)[at as int] == t[at as int]);
                } else if end < len {
                    assert(t.skip(at + 1)[end - at - 1] == t[end as int]);
                }
            }
        }
        return None;
    }
    proof {
        assert(t.take(at as int) =~= t.subrange(0, at as int));
        assert(t.skip(at + 1) =~= t.subrange(at + 1, len as int));
        assert(all_digits(t.take(at as int)));
        assert(all_digits(t.skip(at + 1)));
        assert(is_range_at(t, at as int));
        let k = choose|k: int| is_range_at(t, k);
        lemma_one_hyphen(t, k, at as int);
    }
    match (first, last) {
        (Some(a), Some(b)) => Some((a, b)),
        _ => None,
    }
}

} // verus!
