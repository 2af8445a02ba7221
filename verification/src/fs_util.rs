//! Filesystem-safe id escaping: ASCII alphanumerics, `-` and `_` pass
//! through, every other byte becomes `_XX` (two lower-case hex digits).
//! Unescaping is best-effort, for presentation only.

use vstd::prelude::*;
use crate::ids::hex_digit;
use crate::strutil::push_char;
use vstd::utf8::valid_utf8;
use vstd::utf8::encode_utf8;
use vstd::string::*;

verus! {

/// Bytes that pass through escaping unchanged: ASCII alphanumerics, `-`
/// and `_`.
pub open spec fn is_safe_byte(b: u8) -> bool {
    (48 <= b && b <= 57) || (65 <= b && b <= 90) || (97 <= b && b <= 122) || b == 45 || b == 95
}

/// How one byte is escaped: itself when safe, else `_` and two hex digits.
pub open spec fn escape_byte(b: u8) -> Seq<char> {
    if is_safe_byte(b) {
        seq![b as char]
    } else {
        seq!['_', hex_digit((b >> 4) as int), hex_digit((b & 0xf) as int)]
    }
}

/// The escaped form of a byte string.
pub open spec fn escape_id_spec(bytes: Seq<u8>) -> Seq<char>
    decreases bytes.len(),
{
    if bytes.len() == 0 {
        Seq::empty()
    } else {
        escape_byte(bytes[0]) + escape_id_spec(bytes.drop_first())
    }
}

proof fn lemma_escape_id_snoc(bytes: Seq<u8>, b: u8)
    ensures
        escape_id_spec(bytes.push(b)) == escape_id_spec(bytes) + escape_byte(b),
    decreases bytes.len(),
{
    if bytes.len() == 0 {
        assert(bytes.push(b).drop_first() =~= Seq::<u8>::empty());
        assert(bytes.push(b)[0] == b);
        assert(escape_id_spec(bytes.push(b)) == escape_byte(b) + escape_id_spec(
            Seq::<u8>::empty(),
        ));
        assert(escape_id_spec(bytes.push(b)) =~= escape_byte(b));
        assert(escape_id_spec(bytes) + escape_byte(b) =~= escape_byte(b));
    } else {
        assert(bytes.push(b).drop_first() =~= bytes.drop_first().push(b));
        lemma_escape_id_snoc(bytes.drop_first(), b);
        assert(escape_id_spec(bytes.push(b)) =~= escape_id_spec(bytes) + escape_byte(b));
    }
}

/// Escape an id into a filesystem-safe string: ASCII alphanumerics, `-`
/// and `_` pass through; every other byte becomes `_XX` (lower hex).
pub fn escape_id(id: &str) -> (r: String)
    ensures
        r@ == escape_id_spec(id.spec_bytes()),
{
    let bytes = id.as_bytes_vec();
    let n = bytes.len();
    let mut out = String::new();
    let mut i: usize = 0;
    while i < n
        invariant
            0 <= i <= n,
            n == bytes@.len(),
            bytes@ == id.spec_bytes(),
            out@ == escape_id_spec(bytes@.subrange(0, i as int)),
        decreases n - i,
    {
        let b = bytes[i];
        if (48 <= b && b <= 57) || (65 <= b && b <= 90) || (97 <= b && b <= 122) || b == 45
            || b == 95 {
            push_char(&mut out, b as char);
        } else {
            let hi = b >> 4;
            let lo = b & 0xf;
            assert(b >> 4 < 16 && b & 0xf < 16) by (bit_vector);
            push_char(&mut out, '_');
            push_char(&mut out, crate::ids::hex_digit_exec(hi));
            push_char(&mut out, crate::ids::hex_digit_exec(lo));
        }
        proof {
            let pre = bytes@.subrange(0, i as int);
            assert(bytes@.subrange(0, i + 1) =~= pre.push(bytes@[i as int]));
            lemma_escape_id_snoc(pre, bytes@[i as int]);
            assert(out@ =~= escape_id_spec(bytes@.subrange(0, i + 1)));
        }
        i += 1;
    }
    proof {
        assert(bytes@.subrange(0, n as int) =~= bytes@);
    }
    out
}

/// The value of an ASCII hex digit byte, when it is one.
pub open spec fn unhex_spec(b: u8) -> Option<u8> {
    if 48 <= b && b <= 57 {
        Some((b - 48) as u8)
    } else if 97 <= b && b <= 102 {
        Some((10 + b - 97) as u8)
    } else if 65 <= b && b <= 70 {
        Some((10 + b - 65) as u8)
    } else {
        None
    }
}

/// The value of an ASCII hex digit byte (`0-9`, `a-f`, `A-F`).
pub fn unhex(b: u8) -> (r: Option<u8>)
    ensures
        r == unhex_spec(b),
{
    if 48 <= b && b <= 57 {
        Some(b - 48)
    } else if 97 <= b && b <= 102 {
        Some(10 + b - 97)
    } else if 65 <= b && b <= 70 {
        Some(10 + b - 65)
    } else {
        None
    }
}

/// Best-effort reverse of escaping, over bytes: a `_` followed by two hex
/// digits becomes the byte they spell; anything else passes through.
pub open spec fn unescape_spec(b: Seq<u8>) -> Seq<u8>
    decreases b.len(),
{
    if b.len() == 0 {
        Seq::empty()
    } else if b[0] == 95 && b.len() >= 3 && unhex_spec(b[1]) is Some && unhex_spec(b[2]) is Some {
        seq![((unhex_spec(b[1])->0 as u8) << 4 | (unhex_spec(b[2])->0 as u8)) as u8]
            + unescape_spec(b.skip(3))
    } else {
        seq![b[0]] + unescape_spec(b.skip(1))
    }
}

/// Relies on String::from_utf8_lossy: valid UTF-8 bytes come back as the
/// string they encode.
#[verifier::external_body]
fn utf8_lossy(b: Vec<u8>) -> (r: String)
    ensures
        valid_utf8(b@) ==> encode_utf8(r@) == b@,
{
    String::from_utf8_lossy(&b).into_owned()
}

/// Best-effort reverse of `escape_id` (for presentation only): the decoded
/// bytes, read back as UTF-8.
pub fn unescape_id(s: &str) -> (r: String)
    ensures
        valid_utf8(unescape_spec(s.spec_bytes())) ==> encode_utf8(r@) == unescape_spec(
            s.spec_bytes(),
        ),
{
    let bytes = s.as_bytes_vec();
    let n = bytes.len();
    let mut out: Vec<u8> = Vec::new();
    let mut i: usize = 0;
    proof {
        assert(bytes@.skip(0) =~= bytes@);
    }
    while i < n
        invariant
            0 <= i <= n,
            n == bytes@.len(),
            bytes@ == s.spec_bytes(),
            unescape_spec(bytes@) == out@ + unescape_spec(bytes@.skip(i as int)),
        decreases n - i,
    {
        let ghost rem = bytes@.skip(i as int);
        let b = bytes[i];
        assert(rem[0] == b);
        if b == 95 && n - i > 2 {
            let h = unhex(bytes[i + 1]);
            let l = unhex(bytes[i + 2]);
            if let (Some(hv), Some(lv)) = (h, l) {
                assert(rem[1] == bytes@[i + 1] && rem[2] == bytes@[i + 2]);
                assert(hv < 16 && lv < 16);
                assert((hv << 4) as int + lv < 256 && (hv << 4) | lv == (hv << 4) as u8 + lv)
                    by (bit_vector)
                    requires hv < 16 && lv < 16;
                out.push((hv << 4) | lv);
                proof {
                    assert(rem.skip(3) =~= bytes@.skip(i + 3));
                    assert(out@ + unescape_spec(bytes@.skip(i + 3)) =~= unescape_spec(bytes@));
                }
                i += 3;
                continue;
            }
        }
        out.push(b);
        proof {
            assert(rem.skip(1) =~= bytes@.skip(i + 1));
            if b == 95 && n - i > 2 {
                assert(unhex_spec(rem[1]) is None || unhex_spec(rem[2]) is None);
            } else if b == 95 {
                assert(rem.len() < 3);
            }
            assert(out@ + unescape_spec(bytes@.skip(i + 1)) =~= unescape_spec(bytes@));
        }
        i += 1;
    }
    proof {
        assert(bytes@.skip(n as int) =~= Seq::<u8>::empty());
        assert(out@ =~= unescape_spec(bytes@));
    }
    utf8_lossy(out)
}

} // verus!
