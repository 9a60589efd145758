use vstd::prelude::*;
use vstd::utf8::{
    decode_utf8, encode_utf8, encode_utf8_decode_utf8, encode_utf8_valid_utf8, is_ascii_chars,
    is_ascii_chars_encode_utf8, valid_utf8,
};

verus! {

/// The bytes that a wire string carries before its terminator: present only
/// when the bytes end in a single NUL and hold no other.
pub open spec fn c_string_payload(b: Seq<u8>) -> Option<Seq<u8>> {
    if b.len() > 0 && b.last() == 0 && !b.drop_last().contains(0) {
        Some(b.drop_last())
    } else {
        None
    }
}

/// The wire form of a byte string: its bytes and a NUL terminator, for bytes
/// that hold no NUL of their own.
pub open spec fn wire_c_string(b: Seq<u8>) -> Option<Seq<u8>> {
    if b.contains(0) {
        None
    } else {
        Some(b.push(0))
    }
}

/// Relies on `String::from_utf8`: it accepts exactly the valid UTF-8 byte
/// sequences, and the string it builds holds those bytes unchanged.
#[verifier::external_body]
fn string_from_utf8(bytes: Vec<u8>) -> (r: Option<String>)
    ensures
        r is Some <==> valid_utf8(bytes@),
        r matches Some(s) ==> encode_utf8(s@) == bytes@,
{
    String::from_utf8(bytes).ok()
}

/// Decodes a NUL-terminated wire string into text. It fails where the
/// terminator is missing, a NUL stands inside the string, or the bytes before
/// the terminator are not UTF-8.
pub fn decode_c_string(bytes: &[u8]) -> (r: Option<String>)
    ensures
        r is Some <==> (c_string_payload(bytes@) matches Some(p) && valid_utf8(p)),
        r matches Some(s) ==> s@ == decode_utf8(c_string_payload(bytes@)->0),
{
    let n = bytes.len();
    if n == 0 || bytes[n - 1] != 0 {
        return None;
    }
    let ghost body = bytes@.drop_last();
    let mut payload: Vec<u8> = Vec::new();
    let mut i: usize = 0;
    while i < n - 1
        invariant
            n == bytes@.len(),
            n > 0,
            body == bytes@.drop_last(),
            i <= n - 1,
            payload@ == body.subrange(0, i as int),
            !payload@.contains(0),
        decreases n - 1 - i,
    {
        if bytes[i] == 0 {
            assert(body[i as int] == 0);
            return None;
        }
        payload.push(bytes[i]);
        assert(payload@ =~= body.subrange(0, i + 1));
        i += 1;
    }
    assert(payload@ =~= body);
    match string_from_utf8(payload) {
        None => None,
        Some(s) => {
            proof {
                encode_utf8_decode_utf8(s@);
            }
            Some(s)
        },
    }
}

/// Encodes text as a NUL-terminated wire string. Text whose bytes hold a NUL
/// has no such form.
pub fn encode_c_string(s: &str) -> (r: Option<Vec<u8>>)
    ensures
        r is None <==> wire_c_string(encode_utf8(s@)) is None,
        r matches Some(v) ==> wire_c_string(encode_utf8(s@)) == Some(v@),
{
    let b = s.as_bytes();
    let mut out: Vec<u8> = Vec::new();
    let mut i: usize = 0;
    while i < b.len()
        invariant
            b@ == encode_utf8(s@),
            i <= b@.len(),
            out@ == b@.subrange(0, i as int),
            !out@.contains(0),
        decreases b@.len() - i,
    {
        if b[i] == 0 {
            return None;
        }
        out.push(b[i]);
        assert(out@ =~= b@.subrange(0, i + 1));
        i += 1;
    }
    assert(out@ =~= b@);
    out.push(0);
    Some(out)
}

/// ASCII text without a NUL survives the wire: its wire form exists, and
/// decoding that form gives back the same characters, the terminator
/// excluded.
pub proof fn lemma_c_string_round_trip(s: Seq<char>)
    requires
        is_ascii_chars(s),
        !s.contains('\0'),
    ensures
        wire_c_string(encode_utf8(s)) matches Some(w) && c_string_payload(w) == Some(
            encode_utf8(s),
        ),
        valid_utf8(encode_utf8(s)),
        decode_utf8(encode_utf8(s)) == s,
{
    let b = encode_utf8(s);
    is_ascii_chars_encode_utf8(s);
    encode_utf8_valid_utf8(s);
    encode_utf8_decode_utf8(s);
    assert(!b.contains(0)) by {
        if b.contains(0) {
            let k = choose|k: int| 0 <= k < b.len() && b[k] == 0;
            assert(s[k] as u8 == b[k]);
            assert('\0' <= s[k] <= '\u{7f}');
            assert(s[k] == '\0');
            assert(s.contains('\0'));
        }
    }
    let w = b.push(0);
    assert(w.drop_last() =~= b);
}

} // verus!
