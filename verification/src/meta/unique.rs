//! The bytes of a manifest are read in one way only: two manifests that are
//! stored as the same bytes are the same manifest.

use crate::json::{escape, escaped, hex_byte, json_string, json_string_array, json_string_list};
use crate::meta::annotations::Pair;
use crate::meta::manifest::{
    descriptor_bytes, descriptor_list, manifest_bytes, members, optional_array, optional_number,
    optional_object, optional_text, DescriptorView, ManifestView,
};
use crate::range::{all_digits, is_digit, number};
use crate::text::{decimal, decimal_digit, signed_decimal};
use vstd::prelude::*;
use vstd::string::*;
use vstd::utf8::{encode_utf8, encode_utf8_decode_utf8, is_ascii_chars, is_ascii_chars_encode_utf8};

verus! {

/// The bytes of a text, escaped, are the escape of the first byte and then
/// the rest, escaped.
pub proof fn lemma_escaped_from_front(bytes: Seq<u8>)
    requires
        bytes.len() > 0,
    ensures
        escaped(bytes) == escape(bytes[0]) + escaped(bytes.drop_first()),
    decreases bytes.len(),
{
    if bytes.len() == 1 {
        assert(bytes.drop_last() =~= Seq::<u8>::empty());
        assert(bytes.drop_first() =~= Seq::<u8>::empty());
        assert(escaped(bytes) =~= escape(bytes[0]) + escaped(bytes.drop_first()));
    } else {
        let front = bytes.drop_last();
        lemma_escaped_from_front(front);
        assert(front.drop_first() =~= bytes.drop_first().drop_last());
        assert(bytes.drop_first().last() == bytes.last());
        assert(escaped(bytes) =~= escape(bytes[0]) + escaped(bytes.drop_first()));
    }
}

/// What stands for a byte tells which byte it stands for, and where it
/// ends.
pub proof fn lemma_escape_is_read(a: u8, b: u8, u: Seq<u8>, v: Seq<u8>)
    requires
        escape(a) + u == escape(b) + v,
    ensures
        a == b,
        u == v,
{
    let x = escape(a) + u;
    let y = escape(b) + v;
    assert(a / 16 < 16 && a % 16 < 16 && b / 16 < 16 && b % 16 < 16);
    assert(x[0] == y[0]);
    assert(escape(a).len() >= 2 ==> x[1] == escape(a)[1]);
    assert(escape(b).len() >= 2 ==> y[1] == escape(b)[1]);
    assert(x[0] == escape(a)[0] && y[0] == escape(b)[0]);
    if escape(a).len() == 6 {
        assert(x[1] == 0x75);
        assert(escape(b).len() == 6);
        assert(x[4] == escape(a)[4] && x[5] == escape(a)[5]);
        assert(y[4] == escape(b)[4] && y[5] == escape(b)[5]);
        assert(hex_byte(a / 16) == hex_byte(b / 16));
        assert(hex_byte(a % 16) == hex_byte(b % 16));
    } else if escape(a).len() == 2 {
        assert(x[1] == y[1]);
    }
    assert(a == b);
    assert(u =~= x.skip(escape(a).len() as int));
    assert(v =~= y.skip(escape(b).len() as int));
}

/// Escaped bytes that end at a quote are read in one way only.
pub proof fn lemma_escaped_is_read(x: Seq<u8>, y: Seq<u8>, r1: Seq<u8>, r2: Seq<u8>)
    requires
        escaped(x) + seq![0x22u8] + r1 == escaped(y) + seq![0x22u8] + r2,
    ensures
        x == y,
        r1 == r2,
    decreases x.len(),
{
    let left = escaped(x) + seq![0x22u8] + r1;
    let right = escaped(y) + seq![0x22u8] + r2;
    if x.len() == 0 {
        if y.len() > 0 {
            lemma_escaped_from_front(y);
            assert(right[0] == escape(y[0])[0]);
            assert(left[0] == 0x22);
        }
        assert(x =~= y);
        assert(r1 =~= left.skip(1));
        assert(r2 =~= right.skip(1));
    } else {
        lemma_escaped_from_front(x);
        if y.len() == 0 {
            assert(left[0] == escape(x[0])[0]);
            assert(right[0] == 0x22);
        } else {
            lemma_escaped_from_front(y);
            let u = escaped(x.drop_first()) + seq![0x22u8] + r1;
            let v = escaped(y.drop_first()) + seq![0x22u8] + r2;
            assert(left =~= escape(x[0]) + u);
            assert(right =~= escape(y[0]) + v);
            lemma_escape_is_read(x[0], y[0], u, v);
            lemma_escaped_is_read(x.drop_first(), y.drop_first(), r1, r2);
            assert(x =~= seq![x[0]] + x.drop_first());
            assert(y =~= seq![y[0]] + y.drop_first());
        }
    }
}

/// A JSON string is read in one way only: the text it holds, and where it
/// ends.
pub proof fn lemma_string_is_read(a: Seq<char>, b: Seq<char>, r1: Seq<u8>, r2: Seq<u8>)
    requires
        json_string(a) + r1 == json_string(b) + r2,
    ensures
        a == b,
        r1 == r2,
{
    let x = encode_utf8(a);
    let y = encode_utf8(b);
    let left = json_string(a) + r1;
    let right = json_string(b) + r2;
    assert(left.skip(1) =~= escaped(x) + seq![0x22u8] + r1);
    assert(right.skip(1) =~= escaped(y) + seq![0x22u8] + r2);
    lemma_escaped_is_read(x, y, r1, r2);
    encode_utf8_decode_utf8(a);
    encode_utf8_decode_utf8(b);
}

/// Whether `b` is the byte of a decimal digit.
pub open spec fn is_digit_byte(b: u8) -> bool {
    48 <= b <= 57
}

/// Whether bytes end a number: there are none, or the first is no digit.
pub open spec fn ends_number(r: Seq<u8>) -> bool {
    r.len() == 0 || !is_digit_byte(r[0])
}

/// Text of the first 128 characters is encoded byte for character.
pub proof fn lemma_ascii_bytes(s: Seq<char>)
    requires
        is_ascii_chars(s),
    ensures
        encode_utf8(s).len() == s.len(),
        forall|i: int| 0 <= i < s.len() ==> #[trigger] encode_utf8(s)[i] == s[i] as u8,
{
    is_ascii_chars_encode_utf8(s);
}

/// Bytes that follow the same bytes are the same.
pub proof fn lemma_same_front(l: Seq<u8>, x: Seq<u8>, y: Seq<u8>)
    requires
        l + x == l + y,
    ensures
        x == y,
{
    assert(x =~= (l + x).skip(l.len() as int));
    assert(y =~= (l + y).skip(l.len() as int));
}

/// The character of a digit stands as far behind the zero as the digit
/// says.
pub proof fn lemma_digit_value(d: int)
    requires
        0 <= d < 10,
    ensures
        is_digit(decimal_digit(d)),
        decimal_digit(d) as nat - '0' as nat == d,
{
}

/// A number in decimal is digits, and the digits write the number.
pub proof fn lemma_decimal_is_number(n: nat)
    ensures
        all_digits(decimal(n)),
        number(decimal(n)) == n,
    decreases n,
{
    let s = decimal(n);
    lemma_digit_value((n % 10) as int);
    if n >= 10 {
        lemma_decimal_is_number(n / 10);
        assert(s.drop_last() =~= decimal(n / 10));
        assert(s.last() == decimal_digit((n % 10) as int));
        assert forall|i: int| 0 <= i < s.len() implies is_digit(#[trigger] s[i]) by {
            if i < s.len() - 1 {
                assert(s[i] == decimal(n / 10)[i]);
            }
        }
        assert(number(s) == 10 * number(s.drop_last()) + (s.last() as nat - '0' as nat));
    } else {
        assert(s.drop_last() =~= Seq::<char>::empty());
        assert(number(s.drop_last()) == 0);
        assert(s.last() == decimal_digit(n as int));
        assert(number(s) == 10 * number(s.drop_last()) + (s.last() as nat - '0' as nat));
    }
}

/// Digits are encoded as the bytes of digits.
pub proof fn lemma_digits_as_bytes(s: Seq<char>)
    requires
        forall|i: int| 0 <= i < s.len() ==> is_digit(#[trigger] s[i]),
    ensures
        encode_utf8(s).len() == s.len(),
        forall|i: int| 0 <= i < s.len() ==> is_digit_byte(#[trigger] encode_utf8(s)[i]),
{
    assert(is_ascii_chars(s)) by {
        assert forall|i: int| 0 <= i < s.len() implies '\0' <= #[trigger] s[i] <= '\u{7f}' by {
            assert(is_digit(s[i]));
        }
    }
    lemma_ascii_bytes(s);
    assert forall|i: int| 0 <= i < s.len() implies is_digit_byte(#[trigger] encode_utf8(s)[i]) by {
        assert(is_digit(s[i]));
        assert(encode_utf8(s)[i] == s[i] as u8);
    }
}

/// Digits that are followed by no digit end where the digits end.
pub proof fn lemma_digits_are_read(d1: Seq<u8>, d2: Seq<u8>, r1: Seq<u8>, r2: Seq<u8>)
    requires
        d1 + r1 == d2 + r2,
        forall|i: int| 0 <= i < d1.len() ==> is_digit_byte(#[trigger] d1[i]),
        forall|i: int| 0 <= i < d2.len() ==> is_digit_byte(#[trigger] d2[i]),
        ends_number(r1),
        ends_number(r2),
    ensures
        d1 == d2,
        r1 == r2,
{
    let left = d1 + r1;
    let right = d2 + r2;
    if d1.len() < d2.len() {
        assert(is_digit_byte(d2[d1.len() as int]));
        assert(right[d1.len() as int] == d2[d1.len() as int]);
        if r1.len() > 0 {
            assert(left[d1.len() as int] == r1[0]);
        } else {
            assert(left.len() == d1.len());
        }
    } else if d2.len() < d1.len() {
        assert(is_digit_byte(d1[d2.len() as int]));
        assert(left[d2.len() as int] == d1[d2.len() as int]);
        if r2.len() > 0 {
            assert(right[d2.len() as int] == r2[0]);
        } else {
            assert(right.len() == d2.len());
        }
    }
    assert(d1 =~= left.take(d1.len() as int));
    assert(d2 =~= right.take(d2.len() as int));
    lemma_same_front(d1, r1, r2);
}

/// A number in decimal that is followed by no digit is read in one way
/// only.
pub proof fn lemma_number_is_read(n: nat, m: nat, r1: Seq<u8>, r2: Seq<u8>)
    requires
        encode_utf8(decimal(n)) + r1 == encode_utf8(decimal(m)) + r2,
        ends_number(r1),
        ends_number(r2),
    ensures
        n == m,
        r1 == r2,
{
    lemma_decimal_is_number(n);
    lemma_decimal_is_number(m);
    lemma_digits_as_bytes(decimal(n));
    lemma_digits_as_bytes(decimal(m));
    lemma_digits_are_read(encode_utf8(decimal(n)), encode_utf8(decimal(m)), r1, r2);
    encode_utf8_decode_utf8(decimal(n));
    encode_utf8_decode_utf8(decimal(m));
}

/// The sign in front of a negative number is one byte, and the digits
/// follow it.
pub proof fn lemma_signed_bytes(k: int)
    ensures
        k >= 0 ==> encode_utf8(signed_decimal(k)) == encode_utf8(decimal(k as nat)),
        k < 0 ==> encode_utf8(signed_decimal(k)) == seq![0x2du8] + encode_utf8(
            decimal((-k) as nat),
        ),
        encode_utf8(signed_decimal(k)).len() > 0,
        k >= 0 ==> is_digit_byte(encode_utf8(signed_decimal(k))[0]),
        k < 0 ==> encode_utf8(signed_decimal(k))[0] == 0x2d,
{
    let n = if k < 0 {
        (-k) as nat
    } else {
        k as nat
    };
    lemma_decimal_is_number(n);
    lemma_digits_as_bytes(decimal(n));
    if k < 0 {
        let s = signed_decimal(k);
        assert(is_ascii_chars(s)) by {
            assert forall|i: int| 0 <= i < s.len() implies '\0' <= #[trigger] s[i] <= '\u{7f}' by {
                if i > 0 {
                    assert(s[i] == decimal(n)[i - 1]);
                    assert(is_digit(decimal(n)[i - 1]));
                }
            }
        }
        assert(is_ascii_chars(decimal(n))) by {
            assert forall|i: int| 0 <= i < decimal(n).len() implies '\0' <= #[trigger] decimal(
                n,
            )[i] <= '\u{7f}' by {
                assert(is_digit(decimal(n)[i]));
            }
        }
        lemma_ascii_bytes(s);
        lemma_ascii_bytes(decimal(n));
        assert forall|i: int| 0 <= i < s.len() implies #[trigger] encode_utf8(s)[i] == (seq![
            0x2du8,
        ] + encode_utf8(decimal(n)))[i] by {
            if i > 0 {
                assert(s[i] == decimal(n)[i - 1]);
                assert(encode_utf8(decimal(n))[i - 1] == decimal(n)[i - 1] as u8);
            }
        }
        assert(encode_utf8(s) =~= seq![0x2du8] + encode_utf8(decimal(n)));
    }
}

/// A number with its sign that is followed by no digit is read in one way
/// only.
pub proof fn lemma_signed_is_read(a: i64, b: i64, r1: Seq<u8>, r2: Seq<u8>)
    requires
        encode_utf8(signed_decimal(a as int)) + r1 == encode_utf8(signed_decimal(b as int)) + r2,
        ends_number(r1),
        ends_number(r2),
    ensures
        a == b,
        r1 == r2,
{
    lemma_signed_bytes(a as int);
    lemma_signed_bytes(b as int);
    let left = encode_utf8(signed_decimal(a as int)) + r1;
    let right = encode_utf8(signed_decimal(b as int)) + r2;
    assert(left[0] == encode_utf8(signed_decimal(a as int))[0]);
    assert(right[0] == encode_utf8(signed_decimal(b as int))[0]);
    if a < 0 {
        assert(b < 0);
        let da = encode_utf8(decimal((-a) as nat));
        let db = encode_utf8(decimal((-b) as nat));
        assert(left =~= seq![0x2du8] + (da + r1));
        assert(right =~= seq![0x2du8] + (db + r2));
        lemma_same_front(seq![0x2du8], da + r1, db + r2);
        lemma_number_is_read((-a) as nat, (-b) as nat, r1, r2);
    } else {
        assert(b >= 0);
        lemma_number_is_read(a as nat, b as nat, r1, r2);
    }
}

/// The bytes of the marks that stand between the parts of a manifest.
pub proof fn lemma_marks()
    ensures
        encode_utf8(","@) == seq![0x2cu8],
        encode_utf8(":"@) == seq![0x3au8],
        encode_utf8("["@) == seq![0x5bu8],
        encode_utf8("]"@) == seq![0x5du8],
        encode_utf8("{"@) == seq![0x7bu8],
        encode_utf8("}"@) == seq![0x7du8],
        encode_utf8("null"@) == seq![0x6eu8, 0x75u8, 0x6cu8, 0x6cu8],
{
    reveal_strlit(",");
    reveal_strlit(":");
    reveal_strlit("[");
    reveal_strlit("]");
    reveal_strlit("{");
    reveal_strlit("}");
    reveal_strlit("null");
    lemma_ascii_bytes(","@);
    lemma_ascii_bytes(":"@);
    lemma_ascii_bytes("["@);
    lemma_ascii_bytes("]"@);
    lemma_ascii_bytes("{"@);
    lemma_ascii_bytes("}"@);
    lemma_ascii_bytes("null"@);
    assert(encode_utf8(","@) =~= seq![0x2cu8]);
    assert(encode_utf8(":"@) =~= seq![0x3au8]);
    assert(encode_utf8("["@) =~= seq![0x5bu8]);
    assert(encode_utf8("]"@) =~= seq![0x5du8]);
    assert(encode_utf8("{"@) =~= seq![0x7bu8]);
    assert(encode_utf8("}"@) =~= seq![0x7du8]);
    assert(encode_utf8("null"@) =~= seq![0x6eu8, 0x75u8, 0x6cu8, 0x6cu8]);
}

/// Parts with a comma between neighbours.
pub open spec fn joined(parts: Seq<Seq<u8>>) -> Seq<u8>
    decreases parts.len(),
{
    if parts.len() == 0 {
        Seq::empty()
    } else if parts.len() == 1 {
        parts[0]
    } else {
        joined(parts.drop_last()) + seq![0x2cu8] + parts.last()
    }
}

/// Joined parts are the first part and, behind a comma, the others joined.
pub proof fn lemma_joined_from_front(parts: Seq<Seq<u8>>)
    requires
        parts.len() >= 2,
    ensures
        joined(parts) == parts[0] + (seq![0x2cu8] + joined(parts.drop_first())),
    decreases parts.len(),
{
    let rest = parts.drop_first();
    if parts.len() == 2 {
        assert(parts.drop_last() =~= seq![parts[0]]);
        assert(rest =~= seq![parts[1]]);
        assert(joined(parts.drop_last()) == parts[0]);
        assert(joined(rest) == parts[1]);
        assert(joined(parts) =~= parts[0] + (seq![0x2cu8] + joined(rest)));
    } else {
        let front = parts.drop_last();
        lemma_joined_from_front(front);
        assert(front.drop_first() =~= rest.drop_last());
        assert(rest.last() == parts.last());
        assert(front[0] == parts[0]);
        assert(joined(rest) == joined(rest.drop_last()) + seq![0x2cu8] + rest.last());
        assert(joined(parts) =~= parts[0] + (seq![0x2cu8] + joined(rest)));
    }
}

/// `a` followed by `u`.
pub open spec fn behind(a: Seq<u8>, u: Seq<u8>) -> Seq<u8> {
    a + u
}

/// Whether `a` and `b` are told apart wherever they stand: followed by
/// whatever, they give the same bytes only if they are the same and are
/// followed by the same.
pub open spec fn told_apart(a: Seq<u8>, b: Seq<u8>) -> bool {
    forall|u: Seq<u8>, v: Seq<u8>| #[trigger]
        behind(a, u) == #[trigger] behind(b, v) ==> a == b && u == v
}

/// Whether a part can stand in a list that `close` ends: it is not empty
/// and starts with neither a comma nor `close`.
pub open spec fn is_part(p: Seq<u8>, close: u8) -> bool {
    p.len() > 0 && p[0] != 0x2c && p[0] != close
}

/// Joined parts that `close` ends are read in one way only, where every
/// part is told apart from every other.
pub proof fn lemma_joined_is_read(
    a: Seq<Seq<u8>>,
    b: Seq<Seq<u8>>,
    close: u8,
    r1: Seq<u8>,
    r2: Seq<u8>,
)
    requires
        joined(a) + seq![close] + r1 == joined(b) + seq![close] + r2,
        close != 0x2c,
        forall|i: int| 0 <= i < a.len() ==> is_part(#[trigger] a[i], close),
        forall|j: int| 0 <= j < b.len() ==> is_part(#[trigger] b[j], close),
        forall|i: int, j: int|
            0 <= i < a.len() && 0 <= j < b.len() ==> told_apart(#[trigger] a[i], #[trigger] b[j]),
    ensures
        a == b,
        r1 == r2,
    decreases a.len(),
{
    let left = joined(a) + seq![close] + r1;
    let right = joined(b) + seq![close] + r2;
    if a.len() == 0 || b.len() == 0 {
        if a.len() > 0 {
            lemma_joined_starts(a);
            assert(is_part(a[0], close));
            assert(left[0] == a[0][0]);
            assert(right[0] == close);
        }
        if b.len() > 0 {
            lemma_joined_starts(b);
            assert(is_part(b[0], close));
            assert(right[0] == b[0][0]);
            assert(left[0] == close);
        }
        assert(a =~= b);
        assert(r1 =~= left.skip(1));
        assert(r2 =~= right.skip(1));
    } else {
        let ta = lemma_tail(a, close, r1);
        let tb = lemma_tail(b, close, r2);
        assert(told_apart(a[0], b[0]));
        assert(behind(a[0], ta) == behind(b[0], tb));
        assert(a[0] == b[0] && ta == tb);
        let ra = a.drop_first();
        let rb = b.drop_first();
        if ra.len() == 0 || rb.len() == 0 {
            assert(ta[0] == tb[0]);
            assert(ra.len() == 0 && rb.len() == 0);
            assert(r1 =~= ta.skip(1));
            assert(r2 =~= tb.skip(1));
        } else {
            assert(ta.skip(1) =~= joined(ra) + seq![close] + r1);
            assert(tb.skip(1) =~= joined(rb) + seq![close] + r2);
            assert forall|i: int| 0 <= i < ra.len() implies is_part(#[trigger] ra[i], close) by {
                assert(ra[i] == a[i + 1]);
            }
            assert forall|j: int| 0 <= j < rb.len() implies is_part(#[trigger] rb[j], close) by {
                assert(rb[j] == b[j + 1]);
            }
            assert forall|i: int, j: int| 0 <= i < ra.len() && 0 <= j < rb.len() implies told_apart(
                #[trigger] ra[i],
                #[trigger] rb[j],
            ) by {
                assert(ra[i] == a[i + 1] && rb[j] == b[j + 1]);
            }
            lemma_joined_is_read(ra, rb, close, r1, r2);
        }
        assert(a =~= seq![a[0]] + ra);
        assert(b =~= seq![b[0]] + rb);
    }
}

/// Joined parts start with their first part.
pub proof fn lemma_joined_starts(parts: Seq<Seq<u8>>)
    requires
        parts.len() > 0,
        parts[0].len() > 0,
    ensures
        joined(parts).len() > 0,
        joined(parts)[0] == parts[0][0],
{
    if parts.len() >= 2 {
        lemma_joined_from_front(parts);
    }
}

/// What follows the first of the parts of a list: the end of the list where
/// it was the only part, and otherwise a comma and the other parts, joined,
/// up to the end of the list.
pub proof fn lemma_tail(parts: Seq<Seq<u8>>, close: u8, r: Seq<u8>) -> (tail: Seq<u8>)
    requires
        parts.len() > 0,
    ensures
        joined(parts) + seq![close] + r == behind(parts[0], tail),
        tail.len() > 0,
        parts.len() == 1 ==> tail == seq![close] + r,
        parts.len() >= 2 ==> tail == seq![0x2cu8] + (joined(parts.drop_first()) + seq![close] + r),
        tail[0] == if parts.len() == 1 {
            close
        } else {
            0x2cu8
        },
{
    if parts.len() == 1 {
        let tail = seq![close] + r;
        assert(joined(parts) + seq![close] + r =~= parts[0] + tail);
        tail
    } else {
        lemma_joined_from_front(parts);
        let tail = seq![0x2cu8] + (joined(parts.drop_first()) + seq![close] + r);
        assert(joined(parts) + seq![close] + r =~= parts[0] + tail);
        tail
    }
}

/// The texts as JSON strings, one part for each.
pub open spec fn string_parts(items: Seq<Seq<char>>) -> Seq<Seq<u8>> {
    Seq::new(items.len(), |i: int| json_string(items[i]))
}

/// A list of JSON strings is its strings, joined.
pub proof fn lemma_strings_are_joined(items: Seq<Seq<char>>)
    ensures
        json_string_list(items) == joined(string_parts(items)),
    decreases items.len(),
{
    lemma_marks();
    if items.len() >= 2 {
        lemma_strings_are_joined(items.drop_last());
        assert(string_parts(items).drop_last() =~= string_parts(items.drop_last()));
    }
}

/// Two JSON strings are told apart wherever they stand.
pub proof fn lemma_strings_told_apart(a: Seq<char>, b: Seq<char>)
    ensures
        told_apart(json_string(a), json_string(b)),
        is_part(json_string(a), 0x5d),
        json_string(a)[0] == 0x22,
{
    assert forall|u: Seq<u8>, v: Seq<u8>| #[trigger]
        behind(json_string(a), u) == #[trigger] behind(json_string(b), v) implies json_string(a)
        == json_string(b) && u == v by {
        lemma_string_is_read(a, b, u, v);
    }
}

/// An array of JSON strings is read in one way only.
pub proof fn lemma_array_is_read(a: Seq<Seq<char>>, b: Seq<Seq<char>>, r1: Seq<u8>, r2: Seq<u8>)
    requires
        json_string_array(a) + r1 == json_string_array(b) + r2,
    ensures
        a == b,
        r1 == r2,
{
    lemma_marks();
    lemma_strings_are_joined(a);
    lemma_strings_are_joined(b);
    let pa = string_parts(a);
    let pb = string_parts(b);
    let left = json_string_array(a) + r1;
    let right = json_string_array(b) + r2;
    assert(left =~= seq![0x5bu8] + (joined(pa) + seq![0x5du8] + r1));
    assert(right =~= seq![0x5bu8] + (joined(pb) + seq![0x5du8] + r2));
    lemma_same_front(seq![0x5bu8], joined(pa) + seq![0x5du8] + r1, joined(pb) + seq![0x5du8] + r2);
    assert forall|i: int| 0 <= i < pa.len() implies is_part(#[trigger] pa[i], 0x5d) by {
        lemma_strings_told_apart(a[i], a[i]);
    }
    assert forall|j: int| 0 <= j < pb.len() implies is_part(#[trigger] pb[j], 0x5d) by {
        lemma_strings_told_apart(b[j], b[j]);
    }
    assert forall|i: int, j: int| 0 <= i < pa.len() && 0 <= j < pb.len() implies told_apart(
        #[trigger] pa[i],
        #[trigger] pb[j],
    ) by {
        lemma_strings_told_apart(a[i], b[j]);
    }
    lemma_joined_is_read(pa, pb, 0x5d, r1, r2);
    assert(a.len() == b.len());
    assert forall|i: int| 0 <= i < a.len() implies a[i] == b[i] by {
        assert(pa[i] == pb[i]);
        assert(json_string(a[i]) + Seq::<u8>::empty() == json_string(b[i]) + Seq::<u8>::empty());
        lemma_string_is_read(a[i], b[i], Seq::empty(), Seq::empty());
    }
    assert(a =~= b);
}

/// One member of an object: the key, a colon, the value.
pub open spec fn member(p: Pair) -> Seq<u8> {
    json_string(p.0) + seq![0x3au8] + json_string(p.1)
}

/// The entries as members, one part for each.
pub open spec fn member_parts(entries: Seq<Pair>) -> Seq<Seq<u8>> {
    Seq::new(entries.len(), |i: int| member(entries[i]))
}

/// The members of an object are its entries as members, joined.
pub proof fn lemma_members_are_joined(entries: Seq<Pair>)
    ensures
        members(entries) == joined(member_parts(entries)),
    decreases entries.len(),
{
    lemma_marks();
    if entries.len() >= 2 {
        lemma_members_are_joined(entries.drop_last());
        assert(member_parts(entries).drop_last() =~= member_parts(entries.drop_last()));
        assert(members(entries) =~= joined(member_parts(entries)));
    } else if entries.len() == 1 {
        assert(members(entries) =~= joined(member_parts(entries)));
    }
}

/// A member is read in one way only.
pub proof fn lemma_member_is_read(p: Pair, q: Pair, u: Seq<u8>, v: Seq<u8>)
    requires
        member(p) + u == member(q) + v,
    ensures
        p == q,
        u == v,
{
    let a = seq![0x3au8] + json_string(p.1) + u;
    let b = seq![0x3au8] + json_string(q.1) + v;
    assert(member(p) + u =~= json_string(p.0) + a);
    assert(member(q) + v =~= json_string(q.0) + b);
    lemma_string_is_read(p.0, q.0, a, b);
    assert(a =~= seq![0x3au8] + (json_string(p.1) + u));
    assert(b =~= seq![0x3au8] + (json_string(q.1) + v));
    lemma_same_front(seq![0x3au8], json_string(p.1) + u, json_string(q.1) + v);
    lemma_string_is_read(p.1, q.1, u, v);
}

/// Two members are told apart wherever they stand.
pub proof fn lemma_members_told_apart(p: Pair, q: Pair)
    ensures
        told_apart(member(p), member(q)),
        is_part(member(p), 0x7d),
{
    assert forall|u: Seq<u8>, v: Seq<u8>| #[trigger]
        behind(member(p), u) == #[trigger] behind(member(q), v) implies member(p) == member(q)
        && u == v by {
        lemma_member_is_read(p, q, u, v);
    }
    assert(member(p)[0] == 0x22);
}

/// The members of an object, up to the brace that ends it, are read in one
/// way only.
pub proof fn lemma_members_are_read(a: Seq<Pair>, b: Seq<Pair>, r1: Seq<u8>, r2: Seq<u8>)
    requires
        members(a) + seq![0x7du8] + r1 == members(b) + seq![0x7du8] + r2,
    ensures
        a == b,
        r1 == r2,
{
    lemma_members_are_joined(a);
    lemma_members_are_joined(b);
    let pa = member_parts(a);
    let pb = member_parts(b);
    assert forall|i: int| 0 <= i < pa.len() implies is_part(#[trigger] pa[i], 0x7d) by {
        lemma_members_told_apart(a[i], a[i]);
    }
    assert forall|j: int| 0 <= j < pb.len() implies is_part(#[trigger] pb[j], 0x7d) by {
        lemma_members_told_apart(b[j], b[j]);
    }
    assert forall|i: int, j: int| 0 <= i < pa.len() && 0 <= j < pb.len() implies told_apart(
        #[trigger] pa[i],
        #[trigger] pb[j],
    ) by {
        lemma_members_told_apart(a[i], b[j]);
    }
    lemma_joined_is_read(pa, pb, 0x7d, r1, r2);
    assert(a.len() == b.len());
    assert forall|i: int| 0 <= i < a.len() implies a[i] == b[i] by {
        assert(pa[i] == pb[i]);
        assert(member(a[i]) + Seq::<u8>::empty() == member(b[i]) + Seq::<u8>::empty());
        lemma_member_is_read(a[i], b[i], Seq::empty(), Seq::empty());
    }
    assert(a =~= b);
}

/// A text or `null` is read in one way only.
pub proof fn lemma_optional_text_is_read(
    a: Option<Seq<char>>,
    b: Option<Seq<char>>,
    r1: Seq<u8>,
    r2: Seq<u8>,
)
    requires
        optional_text(a) + r1 == optional_text(b) + r2,
    ensures
        a == b,
        r1 == r2,
{
    lemma_marks();
    let left = optional_text(a) + r1;
    let right = optional_text(b) + r2;
    assert(left[0] == optional_text(a)[0]);
    assert(right[0] == optional_text(b)[0]);
    match (a, b) {
        (Some(x), Some(y)) => {
            lemma_string_is_read(x, y, r1, r2);
        },
        (None, None) => {
            lemma_same_front(encode_utf8("null"@), r1, r2);
        },
        _ => {},
    }
}

/// A number or `null`, followed by no digit, is read in one way only.
pub proof fn lemma_optional_number_is_read(
    a: Option<i64>,
    b: Option<i64>,
    r1: Seq<u8>,
    r2: Seq<u8>,
)
    requires
        optional_number(a) + r1 == optional_number(b) + r2,
        ends_number(r1),
        ends_number(r2),
    ensures
        a == b,
        r1 == r2,
{
    lemma_marks();
    let left = optional_number(a) + r1;
    let right = optional_number(b) + r2;
    if a is Some {
        lemma_signed_bytes(a.unwrap() as int);
    }
    if b is Some {
        lemma_signed_bytes(b.unwrap() as int);
    }
    assert(left[0] == optional_number(a)[0]);
    assert(right[0] == optional_number(b)[0]);
    match (a, b) {
        (Some(x), Some(y)) => {
            lemma_signed_is_read(x, y, r1, r2);
        },
        (None, None) => {
            lemma_same_front(encode_utf8("null"@), r1, r2);
        },
        _ => {},
    }
}

/// A list of texts or `null` is read in one way only.
pub proof fn lemma_optional_array_is_read(
    a: Option<Seq<Seq<char>>>,
    b: Option<Seq<Seq<char>>>,
    r1: Seq<u8>,
    r2: Seq<u8>,
)
    requires
        optional_array(a) + r1 == optional_array(b) + r2,
    ensures
        a == b,
        r1 == r2,
{
    lemma_marks();
    let left = optional_array(a) + r1;
    let right = optional_array(b) + r2;
    assert(left[0] == optional_array(a)[0]);
    assert(right[0] == optional_array(b)[0]);
    match (a, b) {
        (Some(x), Some(y)) => {
            lemma_array_is_read(x, y, r1, r2);
        },
        (None, None) => {
            lemma_same_front(encode_utf8("null"@), r1, r2);
        },
        _ => {},
    }
}

/// Annotations or `null` are read in one way only.
pub proof fn lemma_optional_object_is_read(
    a: Option<Seq<Pair>>,
    b: Option<Seq<Pair>>,
    r1: Seq<u8>,
    r2: Seq<u8>,
)
    requires
        optional_object(a) + r1 == optional_object(b) + r2,
    ensures
        a == b,
        r1 == r2,
{
    lemma_marks();
    let left = optional_object(a) + r1;
    let right = optional_object(b) + r2;
    assert(left[0] == optional_object(a)[0]);
    assert(right[0] == optional_object(b)[0]);
    match (a, b) {
        (Some(x), Some(y)) => {
            let u = members(x) + seq![0x7du8] + r1;
            let v = members(y) + seq![0x7du8] + r2;
            assert(left =~= seq![0x7bu8] + u);
            assert(right =~= seq![0x7bu8] + v);
            lemma_same_front(seq![0x7bu8], u, v);
            lemma_members_are_read(x, y, r1, r2);
        },
        (None, None) => {
            lemma_same_front(encode_utf8("null"@), r1, r2);
        },
        _ => {},
    }
}

/// How the labels of a manifest start.
pub proof fn lemma_labels()
    ensures
        encode_utf8(",\"mediaType\":"@).len() > 0,
        encode_utf8(",\"mediaType\":"@)[0] == 0x2c,
        encode_utf8(",\"urls\":"@).len() > 0,
        encode_utf8(",\"urls\":"@)[0] == 0x2c,
        encode_utf8("{\"mediaType\":"@).len() > 0,
        encode_utf8("{\"mediaType\":"@)[0] == 0x7b,
        encode_utf8("],\"annotations\":"@).len() > 0,
        encode_utf8("],\"annotations\":"@)[0] == 0x5d,
{
    reveal_strlit(",\"mediaType\":");
    reveal_strlit(",\"urls\":");
    reveal_strlit("{\"mediaType\":");
    reveal_strlit("],\"annotations\":");
    lemma_ascii_bytes(",\"mediaType\":"@);
    lemma_ascii_bytes(",\"urls\":"@);
    lemma_ascii_bytes("{\"mediaType\":"@);
    lemma_ascii_bytes("],\"annotations\":"@);
}

/// What follows the size in a descriptor, up to `r`.
pub open spec fn after_size(d: DescriptorView, r: Seq<u8>) -> Seq<u8> {
    encode_utf8(",\"urls\":"@) + (optional_array(d.urls) + (encode_utf8(",\"annotations\":"@) + (
    optional_object(d.annotations) + (encode_utf8("}"@) + r))))
}

/// A descriptor followed by `r`, part behind part.
pub open spec fn descriptor_nested(d: DescriptorView, r: Seq<u8>) -> Seq<u8> {
    encode_utf8("{\"mediaType\":"@) + (json_string(d.media_type) + (encode_utf8(",\"digest\":"@)
        + (json_string(d.digest) + (encode_utf8(",\"size\":"@) + (optional_number(d.size)
        + after_size(d, r))))))
}

/// Putting a third behind two is putting two behind the first.
pub proof fn lemma_regroup(a: Seq<u8>, b: Seq<u8>, c: Seq<u8>)
    ensures
        (a + b) + c == a + (b + c),
{
    assert((a + b) + c =~= a + (b + c));
}

/// A descriptor followed by `r` is its parts, one behind the other.
pub proof fn lemma_descriptor_nested(d: DescriptorView, r: Seq<u8>)
    ensures
        descriptor_bytes(d) + r == descriptor_nested(d, r),
{
    let p1 = encode_utf8("{\"mediaType\":"@);
    let p2 = json_string(d.media_type);
    let p3 = encode_utf8(",\"digest\":"@);
    let p4 = json_string(d.digest);
    let p5 = encode_utf8(",\"size\":"@);
    let p6 = optional_number(d.size);
    let p7 = encode_utf8(",\"urls\":"@);
    let p8 = optional_array(d.urls);
    let p9 = encode_utf8(",\"annotations\":"@);
    let p10 = optional_object(d.annotations);
    let p11 = encode_utf8("}"@);
    let c1 = p1;
    let c2 = c1 + p2;
    let c3 = c2 + p3;
    let c4 = c3 + p4;
    let c5 = c4 + p5;
    let c6 = c5 + p6;
    let c7 = c6 + p7;
    let c8 = c7 + p8;
    let c9 = c8 + p9;
    let c10 = c9 + p10;
    let c11 = c10 + p11;
    let t11 = p11 + r;
    lemma_regroup(c10, p11, r);
    let t10 = p10 + t11;
    lemma_regroup(c9, p10, t11);
    let t9 = p9 + t10;
    lemma_regroup(c8, p9, t10);
    let t8 = p8 + t9;
    lemma_regroup(c7, p8, t9);
    let t7 = p7 + t8;
    lemma_regroup(c6, p7, t8);
    let t6 = p6 + t7;
    lemma_regroup(c5, p6, t7);
    let t5 = p5 + t6;
    lemma_regroup(c4, p5, t6);
    let t4 = p4 + t5;
    lemma_regroup(c3, p4, t5);
    let t3 = p3 + t4;
    lemma_regroup(c2, p3, t4);
    let t2 = p2 + t3;
    lemma_regroup(c1, p2, t3);
    let t1 = p1 + t2;
    assert(descriptor_bytes(d) == c11);
    assert(after_size(d, r) == t7);
    assert(descriptor_nested(d, r) == t1);
}

/// What follows the size in a descriptor is read in one way only.
pub proof fn lemma_after_size_is_read(a: DescriptorView, b: DescriptorView, r1: Seq<u8>, r2: Seq<u8>)
    requires
        after_size(a, r1) == after_size(b, r2),
    ensures
        a.urls == b.urls,
        a.annotations == b.annotations,
        r1 == r2,
{
    let l_urls = encode_utf8(",\"urls\":"@);
    let l_notes = encode_utf8(",\"annotations\":"@);
    let l_end = encode_utf8("}"@);
    let a5 = optional_object(a.annotations) + (l_end + r1);
    let b5 = optional_object(b.annotations) + (l_end + r2);
    let a4 = optional_array(a.urls) + (l_notes + a5);
    let b4 = optional_array(b.urls) + (l_notes + b5);
    lemma_same_front(l_urls, a4, b4);
    lemma_optional_array_is_read(a.urls, b.urls, l_notes + a5, l_notes + b5);
    lemma_same_front(l_notes, a5, b5);
    lemma_optional_object_is_read(a.annotations, b.annotations, l_end + r1, l_end + r2);
    lemma_same_front(l_end, r1, r2);
}

/// What follows the size in a descriptor starts with a comma.
pub proof fn lemma_after_size_starts(d: DescriptorView, r: Seq<u8>)
    ensures
        ends_number(after_size(d, r)),
{
    lemma_labels();
    let l_urls = encode_utf8(",\"urls\":"@);
    assert(after_size(d, r)[0] == l_urls[0]);
}

/// A descriptor is read in one way only.
pub proof fn lemma_descriptor_is_read(a: DescriptorView, b: DescriptorView, r1: Seq<u8>, r2: Seq<u8>)
    requires
        descriptor_bytes(a) + r1 == descriptor_bytes(b) + r2,
    ensures
        a == b,
        r1 == r2,
{
    lemma_descriptor_nested(a, r1);
    lemma_descriptor_nested(b, r2);
    let l_type = encode_utf8("{\"mediaType\":"@);
    let l_digest = encode_utf8(",\"digest\":"@);
    let l_size = encode_utf8(",\"size\":"@);
    let a3 = optional_number(a.size) + after_size(a, r1);
    let b3 = optional_number(b.size) + after_size(b, r2);
    let a2 = json_string(a.digest) + (l_size + a3);
    let b2 = json_string(b.digest) + (l_size + b3);
    let a1 = json_string(a.media_type) + (l_digest + a2);
    let b1 = json_string(b.media_type) + (l_digest + b2);
    lemma_same_front(l_type, a1, b1);
    lemma_string_is_read(a.media_type, b.media_type, l_digest + a2, l_digest + b2);
    lemma_same_front(l_digest, a2, b2);
    lemma_string_is_read(a.digest, b.digest, l_size + a3, l_size + b3);
    lemma_same_front(l_size, a3, b3);
    lemma_after_size_starts(a, r1);
    lemma_after_size_starts(b, r2);
    lemma_optional_number_is_read(a.size, b.size, after_size(a, r1), after_size(b, r2));
    lemma_after_size_is_read(a, b, r1, r2);
}

/// The descriptors as bytes, one part for each.
pub open spec fn descriptor_parts(ds: Seq<DescriptorView>) -> Seq<Seq<u8>> {
    Seq::new(ds.len(), |i: int| descriptor_bytes(ds[i]))
}

/// A list of descriptors is its descriptors, joined.
pub proof fn lemma_descriptors_are_joined(ds: Seq<DescriptorView>)
    ensures
        descriptor_list(ds) == joined(descriptor_parts(ds)),
    decreases ds.len(),
{
    lemma_marks();
    if ds.len() >= 2 {
        lemma_descriptors_are_joined(ds.drop_last());
        assert(descriptor_parts(ds).drop_last() =~= descriptor_parts(ds.drop_last()));
    }
}

/// Two descriptors are told apart wherever they stand.
pub proof fn lemma_descriptors_told_apart(a: DescriptorView, b: DescriptorView)
    ensures
        told_apart(descriptor_bytes(a), descriptor_bytes(b)),
        is_part(descriptor_bytes(a), 0x5d),
{
    assert forall|u: Seq<u8>, v: Seq<u8>| #[trigger]
        behind(descriptor_bytes(a), u) == #[trigger] behind(
            descriptor_bytes(b),
            v,
        ) implies descriptor_bytes(a) == descriptor_bytes(b) && u == v by {
        lemma_descriptor_is_read(a, b, u, v);
    }
    lemma_labels();
    let l_type = encode_utf8("{\"mediaType\":"@);
    assert(descriptor_bytes(a)[0] == l_type[0]);
}

/// The descriptors of a list, up to the bracket that ends it, are read in
/// one way only.
pub proof fn lemma_descriptors_are_read(
    a: Seq<DescriptorView>,
    b: Seq<DescriptorView>,
    r1: Seq<u8>,
    r2: Seq<u8>,
)
    requires
        descriptor_list(a) + seq![0x5du8] + r1 == descriptor_list(b) + seq![0x5du8] + r2,
    ensures
        a == b,
        r1 == r2,
{
    lemma_descriptors_are_joined(a);
    lemma_descriptors_are_joined(b);
    let pa = descriptor_parts(a);
    let pb = descriptor_parts(b);
    assert forall|i: int| 0 <= i < pa.len() implies is_part(#[trigger] pa[i], 0x5d) by {
        lemma_descriptors_told_apart(a[i], a[i]);
    }
    assert forall|j: int| 0 <= j < pb.len() implies is_part(#[trigger] pb[j], 0x5d) by {
        lemma_descriptors_told_apart(b[j], b[j]);
    }
    assert forall|i: int, j: int| 0 <= i < pa.len() && 0 <= j < pb.len() implies told_apart(
        #[trigger] pa[i],
        #[trigger] pb[j],
    ) by {
        lemma_descriptors_told_apart(a[i], b[j]);
    }
    lemma_joined_is_read(pa, pb, 0x5d, r1, r2);
    assert(a.len() == b.len());
    assert forall|i: int| 0 <= i < a.len() implies a[i] == b[i] by {
        assert(pa[i] == pb[i]);
        assert(descriptor_bytes(a[i]) + Seq::<u8>::empty() == descriptor_bytes(b[i]) + Seq::<
            u8,
        >::empty());
        lemma_descriptor_is_read(a[i], b[i], Seq::empty(), Seq::empty());
    }
    assert(a =~= b);
}

/// What follows the configuration in a manifest.
pub open spec fn after_config(m: ManifestView) -> Seq<u8> {
    encode_utf8(",\"layers\":["@) + (descriptor_list(m.layers) + seq![0x5du8] + (encode_utf8(
        "],\"annotations\":"@,
    ).skip(1) + (optional_object(m.annotations) + encode_utf8("}"@))))
}

/// A manifest, part behind part.
pub open spec fn manifest_nested(m: ManifestView) -> Seq<u8> {
    encode_utf8("{\"schemaVersion\":"@) + (encode_utf8(decimal(m.schema_version as nat)) + (
    encode_utf8(",\"mediaType\":"@) + (optional_text(m.media_type) + (encode_utf8(
        ",\"config\":"@,
    ) + (descriptor_bytes(m.config) + after_config(m))))))
}

/// The bytes of a manifest are its parts, one behind the other.
pub proof fn lemma_manifest_nested(m: ManifestView)
    ensures
        manifest_bytes(m) == manifest_nested(m),
{
    lemma_labels();
    let p1 = encode_utf8("{\"schemaVersion\":"@);
    let p2 = encode_utf8(decimal(m.schema_version as nat));
    let p3 = encode_utf8(",\"mediaType\":"@);
    let p4 = optional_text(m.media_type);
    let p5 = encode_utf8(",\"config\":"@);
    let p6 = descriptor_bytes(m.config);
    let p7 = encode_utf8(",\"layers\":["@);
    let p8 = descriptor_list(m.layers);
    let p9 = encode_utf8("],\"annotations\":"@);
    let p10 = optional_object(m.annotations);
    let p11 = encode_utf8("}"@);
    let c1 = p1;
    let c2 = c1 + p2;
    let c3 = c2 + p3;
    let c4 = c3 + p4;
    let c5 = c4 + p5;
    let c6 = c5 + p6;
    let c7 = c6 + p7;
    let c8 = c7 + p8;
    let c9 = c8 + p9;
    let c10 = c9 + p10;
    let c11 = c10 + p11;
    let t11 = p11;
    let t10 = p10 + t11;
    lemma_regroup(c9, p10, t11);
    let t9 = p9 + t10;
    lemma_regroup(c8, p9, t10);
    let t8 = p8 + t9;
    lemma_regroup(c7, p8, t9);
    let t7 = p7 + t8;
    lemma_regroup(c6, p7, t8);
    let t6 = p6 + t7;
    lemma_regroup(c5, p6, t7);
    let t5 = p5 + t6;
    lemma_regroup(c4, p5, t6);
    let t4 = p4 + t5;
    lemma_regroup(c3, p4, t5);
    let t3 = p3 + t4;
    lemma_regroup(c2, p3, t4);
    let t2 = p2 + t3;
    lemma_regroup(c1, p2, t3);
    let t1 = p1 + t2;
    assert(manifest_bytes(m) == c11);
    let label = p9.skip(1);
    assert(p9 =~= seq![0x5du8] + label);
    lemma_regroup(seq![0x5du8], label, t10);
    lemma_regroup(p8, seq![0x5du8], label + t10);
    assert(t8 == p8 + seq![0x5du8] + (label + t10));
    assert(after_config(m) == t7);
    assert(manifest_nested(m) == t1);
}

/// What follows the configuration in a manifest is read in one way only.
pub proof fn lemma_after_config_is_read(a: ManifestView, b: ManifestView)
    requires
        after_config(a) == after_config(b),
    ensures
        a.layers == b.layers,
        a.annotations == b.annotations,
{
    let l_layers = encode_utf8(",\"layers\":["@);
    let label = encode_utf8("],\"annotations\":"@).skip(1);
    let l_end = encode_utf8("}"@);
    let a5 = optional_object(a.annotations) + l_end;
    let b5 = optional_object(b.annotations) + l_end;
    let a4 = descriptor_list(a.layers) + seq![0x5du8] + (label + a5);
    let b4 = descriptor_list(b.layers) + seq![0x5du8] + (label + b5);
    lemma_same_front(l_layers, a4, b4);
    lemma_descriptors_are_read(a.layers, b.layers, label + a5, label + b5);
    lemma_same_front(label, a5, b5);
    lemma_optional_object_is_read(a.annotations, b.annotations, l_end, l_end);
}

/// What follows the version in a manifest starts with a comma.
pub proof fn lemma_after_version_starts(rest: Seq<u8>)
    ensures
        ends_number(encode_utf8(",\"mediaType\":"@) + rest),
{
    lemma_labels();
    let l_type = encode_utf8(",\"mediaType\":"@);
    assert((l_type + rest)[0] == l_type[0]);
}

/// The bytes of a manifest are read in one way only: two manifests that
/// are stored as the same bytes are the same manifest, member for member.
/// So the bytes that a read gives back stand for the manifest that was
/// stored, and for no other.
pub proof fn lemma_manifest_is_read(a: ManifestView, b: ManifestView)
    requires
        manifest_bytes(a) == manifest_bytes(b),
    ensures
        a == b,
{
    lemma_manifest_nested(a);
    lemma_manifest_nested(b);
    let l_version = encode_utf8("{\"schemaVersion\":"@);
    let l_type = encode_utf8(",\"mediaType\":"@);
    let l_config = encode_utf8(",\"config\":"@);
    let a3 = descriptor_bytes(a.config) + after_config(a);
    let b3 = descriptor_bytes(b.config) + after_config(b);
    let a2 = optional_text(a.media_type) + (l_config + a3);
    let b2 = optional_text(b.media_type) + (l_config + b3);
    let a1 = encode_utf8(decimal(a.schema_version as nat)) + (l_type + a2);
    let b1 = encode_utf8(decimal(b.schema_version as nat)) + (l_type + b2);
    lemma_same_front(l_version, a1, b1);
    lemma_after_version_starts(a2);
    lemma_after_version_starts(b2);
    lemma_number_is_read(
        a.schema_version as nat,
        b.schema_version as nat,
        l_type + a2,
        l_type + b2,
    );
    lemma_same_front(l_type, a2, b2);
    lemma_optional_text_is_read(a.media_type, b.media_type, l_config + a3, l_config + b3);
    lemma_same_front(l_config, a3, b3);
    lemma_descriptor_is_read(a.config, b.config, after_config(a), after_config(b));
    lemma_after_config_is_read(a, b);
}

} // verus!
