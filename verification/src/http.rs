//! The computational side of the HTTP surface: request keyword parsing
//! and the framing of MJPEG multipart segments.
//!
//! Listening, routing and response plumbing are runtime glue and stay
//! outside the library; handlers call in here with plain values.

use vstd::prelude::*;
use vstd::string::{StringSliceAdditionalSpecFns, StrSliceExecFns};
use crate::config::{CaptureError, CaptureMode};

verus! {

/// Character-wise string equality.
fn str_eq(a: &str, b: &str) -> (r: bool)
    ensures
        r == (a@ == b@),
{
    let n = a.unicode_len();
    let m = b.unicode_len();
    if n != m {
        return false;
    }
    let mut i: usize = 0;
    while i < n
        invariant
            n == a@.len(),
            n == b@.len(),
            i <= n,
            forall|j: int| 0 <= j < i ==> a@[j] == b@[j],
        decreases n - i,
    {
        if a.get_char(i) != b.get_char(i) {
            return false;
        }
        i = i + 1;
    }
    proof {
        assert(a@ =~= b@);
    }
    true
}

/// Parses a mode keyword: `grayscale`, `gray` and `g` select the
/// grayscale path, `color` and `c` the colour path; anything else is a
/// bad request.
pub fn parse_mode(s: &str) -> (r: Result<CaptureMode, CaptureError>)
    ensures
        (s@ == "grayscale"@ || s@ == "gray"@ || s@ == "g"@) ==> (r matches Ok(m) && m
            == CaptureMode::Grayscale),
        (s@ == "color"@ || s@ == "c"@) ==> (r matches Ok(m) && m == CaptureMode::Color),
        !(s@ == "grayscale"@ || s@ == "gray"@ || s@ == "g"@ || s@ == "color"@ || s@ == "c"@)
            ==> (r matches Err(e) && e == CaptureError::BadRequest),
{
    proof {
        reveal_strlit("grayscale");
        reveal_strlit("gray");
        reveal_strlit("g");
        reveal_strlit("color");
        reveal_strlit("c");
        assert("grayscale"@.len() == 9 && "gray"@.len() == 4 && "g"@.len() == 1
            && "color"@.len() == 5 && "c"@.len() == 1);
        assert("g"@[0] == 'g' && "c"@[0] == 'c');
    }
    if str_eq(s, "grayscale") || str_eq(s, "gray") || str_eq(s, "g") {
        Ok(CaptureMode::Grayscale)
    } else if str_eq(s, "color") || str_eq(s, "c") {
        Ok(CaptureMode::Color)
    } else {
        Err(CaptureError::BadRequest)
    }
}

/// Parses a detection toggle keyword: `on`, `true`, `1`, `enable` and
/// `enabled` switch detection on; `off`, `false`, `0`, `disable` and
/// `disabled` switch it off; anything else is a bad request.
pub fn parse_toggle(s: &str) -> (r: Result<bool, CaptureError>)
    ensures
        (s@ == "on"@ || s@ == "true"@ || s@ == "1"@ || s@ == "enable"@ || s@ == "enabled"@) ==> (
        r matches Ok(b) && b),
        (s@ == "off"@ || s@ == "false"@ || s@ == "0"@ || s@ == "disable"@ || s@ == "disabled"@)
            ==> (r matches Ok(b) && !b),
        !(s@ == "on"@ || s@ == "true"@ || s@ == "1"@ || s@ == "enable"@ || s@ == "enabled"@ || s@
            == "off"@ || s@ == "false"@ || s@ == "0"@ || s@ == "disable"@ || s@ == "disabled"@)
            ==> (r matches Err(e) && e == CaptureError::BadRequest),
{
    proof {
        reveal_strlit("on");
        reveal_strlit("true");
        reveal_strlit("1");
        reveal_strlit("enable");
        reveal_strlit("enabled");
        reveal_strlit("off");
        reveal_strlit("false");
        reveal_strlit("0");
        reveal_strlit("disable");
        reveal_strlit("disabled");
        assert("on"@.len() == 2 && "true"@.len() == 4 && "1"@.len() == 1 && "enable"@.len() == 6
            && "enabled"@.len() == 7 && "off"@.len() == 3 && "false"@.len() == 5
            && "0"@.len() == 1 && "disable"@.len() == 7 && "disabled"@.len() == 8);
        assert("1"@[0] == '1' && "0"@[0] == '0' && "enabled"@[0] == 'e' && "disable"@[0] == 'd');
    }
    if str_eq(s, "on") || str_eq(s, "true") || str_eq(s, "1") || str_eq(s, "enable") || str_eq(
        s,
        "enabled",
    ) {
        Ok(true)
    } else if str_eq(s, "off") || str_eq(s, "false") || str_eq(s, "0") || str_eq(s, "disable")
        || str_eq(s, "disabled") {
        Ok(false)
    } else {
        Err(CaptureError::BadRequest)
    }
}

/// The decimal digits of a nonnegative number, as ASCII bytes.
pub open spec fn dec_bytes(n: int) -> Seq<u8>
    recommends
        n >= 0,
    decreases n,
{
    if n < 10 {
        seq![(48 + if n >= 0 { n } else { 0 }) as u8]
    } else {
        dec_bytes(n / 10) + seq![(48 + n % 10) as u8]
    }
}

/// One MJPEG multipart segment: boundary and headers, the decimal length,
/// a blank line, the payload, and a trailing line break.
pub open spec fn mjpeg_part_spec(jpeg: Seq<u8>) -> Seq<u8> {
    "--frame\r\nContent-Type: image/jpeg\r\nContent-Length: ".spec_bytes() + dec_bytes(
        jpeg.len() as int,
    ) + "\r\n\r\n".spec_bytes() + jpeg + "\r\n".spec_bytes()
}

/// Appends the bytes of a string slice.
pub(crate) fn push_str_bytes(v: &mut Vec<u8>, s: &str)
    ensures
        final(v)@ == old(v)@ + s.spec_bytes(),
{
    let ghost base = v@;
    let b = s.as_bytes();
    let mut i: usize = 0;
    while i < b.len()
        invariant
            b@ == s.spec_bytes(),
            i <= b.len(),
            v@ == base + b@.subrange(0, i as int),
        decreases b.len() - i,
    {
        v.push(b[i]);
        i = i + 1;
        proof {
            assert(v@ =~= base + b@.subrange(0, i as int));
        }
    }
    proof {
        assert(v@ =~= base + b@);
    }
}

/// Appends the bytes of another vector.
pub(crate) fn push_bytes(v: &mut Vec<u8>, bytes: &Vec<u8>)
    ensures
        final(v)@ == old(v)@ + bytes@,
{
    let ghost base = v@;
    let mut i: usize = 0;
    while i < bytes.len()
        invariant
            i <= bytes.len(),
            v@ == base + bytes@.subrange(0, i as int),
        decreases bytes.len() - i,
    {
        v.push(bytes[i]);
        i = i + 1;
        proof {
            assert(v@ =~= base + bytes@.subrange(0, i as int));
        }
    }
    proof {
        assert(v@ =~= base + bytes@);
    }
}

/// Appends the decimal digits of `n`.
pub(crate) fn push_decimal(v: &mut Vec<u8>, n: u64)
    ensures
        final(v)@ == old(v)@ + dec_bytes(n as int),
{
    let ghost base = v@;
    let mut digits: Vec<u8> = Vec::new();
    digits.push(48 + (n % 10) as u8);
    let mut m: u64 = n / 10;
    while m > 0
        invariant
            m > 0 ==> dec_bytes(n as int) == dec_bytes(m as int) + digits@.reverse(),
            m == 0 ==> dec_bytes(n as int) == digits@.reverse(),
            v@ == base,
        decreases m,
    {
        let ghost before = digits@;
        digits.push(48 + (m % 10) as u8);
        proof {
            assert(digits@.reverse() =~= seq![(48 + (m as int) % 10) as u8] + before.reverse());
        }
        m = m / 10;
    }
    let mut i: usize = digits.len();
    while i > 0
        invariant
            i <= digits.len(),
            dec_bytes(n as int) == digits@.reverse(),
            v@ == base + digits@.subrange(i as int, digits.len() as int).reverse(),
        decreases i,
    {
        i = i - 1;
        v.push(digits[i]);
        proof {
            assert(v@ =~= base + digits@.subrange(i as int, digits.len() as int).reverse());
        }
    }
    proof {
        assert(digits@.subrange(0, digits.len() as int) =~= digits@);
        assert(v@ == base + dec_bytes(n as int));
    }
}

/// Builds one MJPEG multipart segment around a JPEG payload.
pub fn mjpeg_part(jpeg: &Vec<u8>) -> (part: Vec<u8>)
    ensures
        part@ == mjpeg_part_spec(jpeg@),
{
    let mut v: Vec<u8> = Vec::new();
    push_str_bytes(&mut v, "--frame\r\nContent-Type: image/jpeg\r\nContent-Length: ");
    push_decimal(&mut v, jpeg.len() as u64);
    push_str_bytes(&mut v, "\r\n\r\n");
    push_bytes(&mut v, jpeg);
    push_str_bytes(&mut v, "\r\n");
    proof {
        assert(v@ =~= mjpeg_part_spec(jpeg@));
    }
    v
}

} // verus!
