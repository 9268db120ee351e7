//! Content digests: SHA-256, written as `sha256:` and 64 lower-case
//! hexadecimal digits.

use crate::path::{is_absolute, is_entry_name};
use sha2::Digest;
use vstd::prelude::*;
use vstd::string::*;

verus! {

/// The SHA-256 hash of `data`, as `sha2::Sha256` computes it.
pub uninterp spec fn sha256(data: Seq<u8>) -> Seq<u8>;

/// Calls `sha2::Sha256::digest`. Trusted: the result is the SHA-256 hash of
/// `data`, which is always 32 bytes long.
#[verifier::external_body]
fn sha256_bytes(data: &[u8]) -> (hash: Vec<u8>)
    ensures
        hash@ == sha256(data@),
        hash@.len() == 32,
{
    sha2::Sha256::digest(data).to_vec()
}

/// The lower-case hexadecimal digit for a value below sixteen.
pub open spec fn hex_digit(n: int) -> char {
    if n == 0 {
        '0'
    } else if n == 1 {
        '1'
    } else if n == 2 {
        '2'
    } else if n == 3 {
        '3'
    } else if n == 4 {
        '4'
    } else if n == 5 {
        '5'
    } else if n == 6 {
        '6'
    } else if n == 7 {
        '7'
    } else if n == 8 {
        '8'
    } else if n == 9 {
        '9'
    } else if n == 10 {
        'a'
    } else if n == 11 {
        'b'
    } else if n == 12 {
        'c'
    } else if n == 13 {
        'd'
    } else if n == 14 {
        'e'
    } else {
        'f'
    }
}

/// Whether `c` is a lower-case hexadecimal digit.
pub open spec fn is_hex_digit(c: char) -> bool {
    ('0' <= c && c <= '9') || ('a' <= c && c <= 'f')
}

/// Two hexadecimal digits per byte, the high half first.
pub open spec fn hex(bytes: Seq<u8>) -> Seq<char> {
    Seq::new(
        2 * bytes.len(),
        |i: int|
            if i % 2 == 0 {
                hex_digit(bytes[i / 2] as int / 16)
            } else {
                hex_digit(bytes[i / 2] as int % 16)
            },
    )
}

/// The algorithm prefix of every digest.
pub open spec fn digest_prefix() -> Seq<char> {
    seq!['s', 'h', 'a', '2', '5', '6', ':']
}

/// The text of a digest whose hash is `hash`.
pub open spec fn digest_text(hash: Seq<u8>) -> Seq<char> {
    digest_prefix() + hex(hash)
}

/// The digest of `data`.
pub open spec fn digest_of(data: Seq<u8>) -> Seq<char> {
    digest_text(sha256(data))
}

/// Whether `s` has the shape of a digest: the prefix and 64 hexadecimal
/// digits.
pub open spec fn is_digest(s: Seq<char>) -> bool {
    &&& s.len() == 71
    &&& s.subrange(0, 7) == digest_prefix()
    &&& forall|i: int| 7 <= i < 71 ==> is_hex_digit(#[trigger] s[i])
}

fn hex_digit_str(n: u8) -> (s: &'static str)
    requires
        n < 16,
    ensures
        s@ == seq![hex_digit(n as int)],
{
    proof {
        reveal_strlit("0");
        reveal_strlit("1");
        reveal_strlit("2");
        reveal_strlit("3");
        reveal_strlit("4");
        reveal_strlit("5");
        reveal_strlit("6");
        reveal_strlit("7");
        reveal_strlit("8");
        reveal_strlit("9");
        reveal_strlit("a");
        reveal_strlit("b");
        reveal_strlit("c");
        reveal_strlit("d");
        reveal_strlit("e");
        reveal_strlit("f");
    }
    let s = match n {
        0 => "0",
        1 => "1",
        2 => "2",
        3 => "3",
        4 => "4",
        5 => "5",
        6 => "6",
        7 => "7",
        8 => "8",
        9 => "9",
        10 => "a",
        11 => "b",
        12 => "c",
        13 => "d",
        14 => "e",
        _ => "f",
    };
    assert(s@ =~= seq![hex_digit(n as int)]);
    s
}

/// Appends the hexadecimal digits of `bytes` to `out`.
pub fn push_hex(out: &mut String, bytes: &[u8])
    ensures
        final(out)@ == old(out)@ + hex(bytes@),
{
    let ghost start = out@;
    let mut i: usize = 0;
    while i < bytes.len()
        invariant
            i <= bytes.len(),
            out@ == start + hex(bytes@.take(i as int)),
        decreases bytes.len() - i,
    {
        let b: u8 = bytes[i];
        out.append(hex_digit_str(b / 16));
        out.append(hex_digit_str(b % 16));
        proof {
            let before = bytes@.take(i as int);
            let after = bytes@.take(i as int + 1);
            assert(hex(after) =~= hex(before) + seq![hex_digit(b as int / 16)] + seq![
                hex_digit(b as int % 16),
            ]);
        }
        i = i + 1;
    }
    assert(bytes@.take(i as int) =~= bytes@);
}

/// Writes a hash as a digest: `sha256:` and the hexadecimal digits of
/// `hash`.
pub fn render_digest(hash: &[u8]) -> (text: String)
    ensures
        text@ == digest_text(hash@),
{
    proof {
        reveal_strlit("sha256:");
    }
    let mut text = String::from_str("sha256:");
    assert(text@ =~= digest_prefix());
    push_hex(&mut text, hash);
    text
}

/// Computes the SHA-256 digest of a byte string.
pub fn sha256_digest(bytes: &[u8]) -> (text: String)
    ensures
        text@ == digest_of(bytes@),
        is_digest(text@),
{
    let hash = sha256_bytes(bytes);
    let text = render_digest(hash.as_slice());
    proof {
        lemma_digest_shape(hash@);
    }
    text
}

/// Whether `text` has the shape of a digest.
pub fn is_digest_text(text: &str) -> (b: bool)
    ensures
        b == is_digest(text@),
{
    proof {
        reveal_strlit("sha256:");
    }
    let n: usize = text.unicode_len();
    if n != 71 {
        return false;
    }
    let prefix = String::from_str("sha256:");
    let mut i: usize = 0;
    while i < 7
        invariant
            i <= 7,
            n == 71,
            n == text@.len(),
            prefix@ == digest_prefix(),
            forall|k: int| 0 <= k < i ==> text@[k] == digest_prefix()[k],
        decreases 7 - i,
    {
        if text.get_char(i) != prefix.as_str().get_char(i) {
            assert(text@.subrange(0, 7)[i as int] != digest_prefix()[i as int]);
            return false;
        }
        i = i + 1;
    }
    assert(text@.subrange(0, 7) =~= digest_prefix());
    while i < 71
        invariant
            7 <= i <= 71,
            n == 71,
            n == text@.len(),
            forall|k: int| 7 <= k < i ==> is_hex_digit(#[trigger] text@[k]),
        decreases 71 - i,
    {
        let c = text.get_char(i);
        if !(('0' <= c && c <= '9') || ('a' <= c && c <= 'f')) {
            return false;
        }
        i = i + 1;
    }
    true
}

/// Every hexadecimal digit is one of the sixteen digit characters.
pub proof fn lemma_hex_digit_is_hex(n: int)
    requires
        0 <= n < 16,
    ensures
        is_hex_digit(hex_digit(n)),
{
}

/// The digest of a 32-byte hash has the shape of a digest.
pub proof fn lemma_digest_shape(hash: Seq<u8>)
    requires
        hash.len() == 32,
    ensures
        is_digest(digest_text(hash)),
{
    let s = digest_text(hash);
    assert(s.len() == 71);
    assert(s.subrange(0, 7) =~= digest_prefix());
    assert forall|i: int| 7 <= i < 71 implies is_hex_digit(#[trigger] s[i]) by {
        let k = i - 7;
        assert(s[i] == hex(hash)[k]);
        lemma_hex_digit_is_hex(hash[k / 2] as int / 16);
        lemma_hex_digit_is_hex(hash[k / 2] as int % 16);
    }
}

/// A digest names an entry of a directory: it holds no separator.
pub proof fn lemma_digest_is_entry_name(s: Seq<char>)
    requires
        is_digest(s),
    ensures
        is_entry_name(s),
        !is_absolute(s),
{
    assert(s.subrange(0, 7)[0] == s[0]);
    assert forall|i: int| 0 <= i < s.len() implies s[i] != '/' by {
        if i < 7 {
            assert(s.subrange(0, 7)[i] == s[i]);
        } else {
            assert(is_hex_digit(s[i]));
        }
    }
}

/// Different digits have different characters.
pub proof fn lemma_hex_digit_injective(m: int, n: int)
    requires
        0 <= m < 16,
        0 <= n < 16,
        hex_digit(m) == hex_digit(n),
    ensures
        m == n,
{
}

/// Hexadecimal text determines the bytes that it was written from.
pub proof fn lemma_hex_injective(a: Seq<u8>, b: Seq<u8>)
    requires
        hex(a) == hex(b),
    ensures
        a == b,
{
    assert(hex(a).len() == 2 * a.len());
    assert(hex(b).len() == 2 * b.len());
    assert(a.len() == b.len());
    assert forall|k: int| 0 <= k < a.len() implies a[k] == b[k] by {
        assert((2 * k) / 2 == k && (2 * k) % 2 == 0);
        assert((2 * k + 1) / 2 == k && (2 * k + 1) % 2 == 1);
        assert(hex(a)[2 * k] == hex_digit(a[k] as int / 16));
        assert(hex(b)[2 * k] == hex_digit(b[k] as int / 16));
        assert(hex(a)[2 * k + 1] == hex_digit(a[k] as int % 16));
        assert(hex(b)[2 * k + 1] == hex_digit(b[k] as int % 16));
        lemma_hex_digit_injective(a[k] as int / 16, b[k] as int / 16);
        lemma_hex_digit_injective(a[k] as int % 16, b[k] as int % 16);
    }
    assert(a =~= b);
}

/// Two digests are the same text exactly when their hashes are the same.
pub proof fn lemma_digest_text_injective(h1: Seq<u8>, h2: Seq<u8>)
    ensures
        digest_text(h1) == digest_text(h2) <==> h1 == h2,
{
    if digest_text(h1) == digest_text(h2) {
        let p = digest_prefix();
        assert(hex(h1) =~= digest_text(h1).subrange(p.len() as int, digest_text(h1).len() as int));
        assert(hex(h2) =~= digest_text(h2).subrange(p.len() as int, digest_text(h2).len() as int));
        lemma_hex_injective(h1, h2);
    }
}

/// A digest identifies its content: equal byte strings have equal digests,
/// and two byte strings whose SHA-256 hashes differ have different digests.
/// The hash has 256 bits, so distinct byte strings with one hash exist; they
/// are the only pairs left out.
pub proof fn lemma_digest_identifies_content(b1: Seq<u8>, b2: Seq<u8>)
    requires
        b1 == b2 || sha256(b1) != sha256(b2),
    ensures
        digest_of(b1) == digest_of(b2) <==> b1 == b2,
{
    lemma_digest_text_injective(sha256(b1), sha256(b2));
}

} // verus!
