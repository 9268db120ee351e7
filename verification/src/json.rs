//! JSON for the bodies that the registry sends and the manifests that it
//! stores: written as bytes, without blanks. Strings are written by
//! `serde_json`; the objects around them are framed here.

use crate::text::texts;
use vstd::prelude::*;
use vstd::string::*;
use vstd::utf8::encode_utf8;

verus! {

/// The digit, as a byte, of a value below sixteen.
pub open spec fn hex_byte(n: u8) -> u8 {
    if n < 10 {
        (48 + n) as u8
    } else {
        (87 + n) as u8
    }
}

/// How one byte of a text stands inside a JSON string. The quote and the
/// backslash get a backslash in front; the control characters are written
/// by their short names where they have one, and by their hexadecimal
/// number otherwise; every other byte stands for itself.
pub open spec fn escape(b: u8) -> Seq<u8> {
    if b == 0x22 {
        seq![0x5cu8, 0x22u8]
    } else if b == 0x5c {
        seq![0x5cu8, 0x5cu8]
    } else if b == 0x08 {
        seq![0x5cu8, 0x62u8]
    } else if b == 0x09 {
        seq![0x5cu8, 0x74u8]
    } else if b == 0x0a {
        seq![0x5cu8, 0x6eu8]
    } else if b == 0x0c {
        seq![0x5cu8, 0x66u8]
    } else if b == 0x0d {
        seq![0x5cu8, 0x72u8]
    } else if b < 0x20 {
        seq![0x5cu8, 0x75u8, 0x30u8, 0x30u8, hex_byte(b / 16), hex_byte(b % 16)]
    } else {
        seq![b]
    }
}

/// The bytes of a text as they stand inside a JSON string.
pub open spec fn escaped(bytes: Seq<u8>) -> Seq<u8>
    decreases bytes.len(),
{
    if bytes.len() == 0 {
        Seq::empty()
    } else {
        escaped(bytes.drop_last()) + escape(bytes.last())
    }
}

/// A text as a JSON string: its bytes, escaped, between quotes.
pub open spec fn json_string(text: Seq<char>) -> Seq<u8> {
    seq![0x22u8] + escaped(encode_utf8(text)) + seq![0x22u8]
}

/// The items as JSON strings with a comma between neighbours.
pub open spec fn json_string_list(items: Seq<Seq<char>>) -> Seq<u8>
    decreases items.len(),
{
    if items.len() == 0 {
        Seq::empty()
    } else if items.len() == 1 {
        json_string(items[0])
    } else {
        json_string_list(items.drop_last()) + encode_utf8(","@) + json_string(items.last())
    }
}

/// A JSON array of strings.
pub open spec fn json_string_array(items: Seq<Seq<char>>) -> Seq<u8> {
    encode_utf8("["@) + json_string_list(items) + encode_utf8("]"@)
}

/// Appends bytes.
pub fn push_bytes(out: &mut Vec<u8>, bytes: &[u8])
    ensures
        final(out)@ == old(out)@ + bytes@,
{
    let ghost before = out@;
    out.extend_from_slice(bytes);
    assert(out@ =~= before + bytes@);
}

/// Appends a text as it is.
pub fn push_text(out: &mut Vec<u8>, text: &str)
    ensures
        final(out)@ == old(out)@ + encode_utf8(text@),
{
    push_bytes(out, text.as_bytes());
}

/// Calls `serde_json::to_vec` on a string slice. Trusted: the result is the
/// text as a JSON string, byte for byte as `json_string` says. Writing a
/// string into memory has no way to fail, so the error branch of the call
/// is never taken.
#[verifier::external_body]
fn json_string_bytes(text: &str) -> (bytes: Vec<u8>)
    ensures
        bytes@ == json_string(text@),
{
    serde_json::to_vec(text).unwrap_or_default()
}

/// Appends `text` as a JSON string.
pub fn push_json_string(out: &mut Vec<u8>, text: &str)
    ensures
        final(out)@ == old(out)@ + json_string(text@),
{
    let bytes = json_string_bytes(text);
    push_bytes(out, bytes.as_slice());
}

/// Appends `items` as a JSON array of strings.
pub fn push_string_array(out: &mut Vec<u8>, items: &Vec<String>)
    ensures
        final(out)@ == old(out)@ + json_string_array(texts(items@)),
{
    let ghost start = out@;
    push_text(out, "[");
    let mut i: usize = 0;
    assert(json_string_list(texts(items@).take(0)) =~= Seq::<u8>::empty());
    while i < items.len()
        invariant
            i <= items.len(),
            out@ == start + encode_utf8("["@) + json_string_list(texts(items@).take(i as int)),
        decreases items.len() - i,
    {
        let ghost done = texts(items@).take(i as int);
        let ghost next = texts(items@).take(i as int + 1);
        if i > 0 {
            push_text(out, ",");
        }
        push_json_string(out, items[i].as_str());
        proof {
            assert(next.drop_last() =~= done);
            assert(next.last() == items@[i as int]@);
            if i == 0 {
                assert(json_string_list(done) =~= Seq::<u8>::empty());
            }
            assert(out@ =~= start + encode_utf8("["@) + json_string_list(next));
        }
        i = i + 1;
    }
    assert(texts(items@).take(i as int) =~= texts(items@));
    push_text(out, "]");
    assert(out@ =~= start + json_string_array(texts(items@)));
}

/// What stands for a byte inside a JSON string holds no control character,
/// and a quote only behind a backslash. So the quote that ends a JSON
/// string is always found.
pub proof fn lemma_escape_is_plain(b: u8)
    ensures
        escape(b).len() >= 1,
        forall|i: int| 0 <= i < escape(b).len() ==> #[trigger] escape(b)[i] >= 0x20,
        forall|i: int|
            0 <= i < escape(b).len() && #[trigger] escape(b)[i] == 0x22 ==> i == 1 && escape(b)[0]
                == 0x5c,
{
    assert(b / 16 < 16 && b % 16 < 16);
}

} // verus!
