//! Detector bridge data model and wire framing.
//!
//! The object detector is a line-framed subprocess: it announces itself
//! with a `READY` line, takes length-prefixed JPEG requests and answers
//! one JSON line per request.  Spawning, the request queue and the JSON
//! parsing are runtime glue; the framing bytes and the readiness check
//! are computed and verified here.

use vstd::prelude::*;
use vstd::string::StrSliceExecFns;
use crate::config::CaptureError;

verus! {

/// Bounding box corners, in pixels.
#[derive(Clone, Copy, Debug, PartialEq, Eq, Structural)]
pub struct BBox {
    pub x1: i32,
    pub y1: i32,
    pub x2: i32,
    pub y2: i32,
}

/// One detected object.  Confidence is carried in thousandths of one
/// (`confidence_milli == 850` stands for 0.85), keeping the record in
/// integer arithmetic.
#[derive(Clone, Debug)]
pub struct Detection {
    pub class: String,
    pub confidence_milli: u32,
    pub bbox: BBox,
}

/// The detector's answer for one frame.
#[derive(Clone, Debug)]
pub struct DetectionResult {
    pub width: Option<u32>,
    pub height: Option<u32>,
    pub detections: Vec<Detection>,
    pub error: Option<String>,
}

impl Default for DetectionResult {
    /// No dimensions, no detections, no error.
    fn default() -> (r: DetectionResult)
        ensures
            r.width is None,
            r.height is None,
            r.detections.len() == 0,
            r.error is None,
    {
        DetectionResult { width: None, height: None, detections: Vec::new(), error: None }
    }
}

/// The request frame for a JPEG payload: four little-endian length bytes,
/// then the payload.
pub open spec fn detector_frame_spec(jpeg: Seq<u8>) -> Seq<u8> {
    let n = jpeg.len() as int;
    seq![
        (n % 256) as u8,
        ((n / 256) % 256) as u8,
        ((n / 65536) % 256) as u8,
        ((n / 16777216) % 256) as u8,
    ] + jpeg
}

/// Frames one detection request.  A payload too long for the 32-bit
/// length prefix breaks the protocol and is refused.
pub fn frame_detector_request(jpeg: &Vec<u8>) -> (r: Result<Vec<u8>, CaptureError>)
    ensures
        jpeg.len() <= u32::MAX ==> (r matches Ok(f) && f@ == detector_frame_spec(jpeg@)),
        jpeg.len() > u32::MAX ==> (r matches Err(e) && e == CaptureError::DetectorProtocol),
{
    if jpeg.len() > u32::MAX as usize {
        return Err(CaptureError::DetectorProtocol);
    }
    let n: u32 = jpeg.len() as u32;
    let mut f: Vec<u8> = Vec::new();
    f.push((n % 256) as u8);
    f.push(((n / 256) % 256) as u8);
    f.push(((n / 65536) % 256) as u8);
    f.push(((n / 16777216) % 256) as u8);
    let ghost prefix = f@;
    let mut i: usize = 0;
    while i < jpeg.len()
        invariant
            f@ == prefix + jpeg@.subrange(0, i as int),
            i <= jpeg.len(),
        decreases jpeg.len() - i,
    {
        f.push(jpeg[i]);
        i = i + 1;
        proof {
            assert(f@ =~= prefix + jpeg@.subrange(0, i as int));
        }
    }
    proof {
        assert(f@ =~= detector_frame_spec(jpeg@));
    }
    Ok(f)
}

/// ASCII whitespace, the characters stripped from protocol lines.
pub open spec fn ascii_space(c: char) -> bool {
    c == ' ' || c == '\t' || c == '\r' || c == '\n'
}

/// A character sequence with leading ASCII whitespace removed.
pub open spec fn trim_front(s: Seq<char>) -> Seq<char>
    decreases s.len(),
{
    if s.len() > 0 && ascii_space(s[0]) {
        trim_front(s.skip(1))
    } else {
        s
    }
}

/// A character sequence with trailing ASCII whitespace removed.
pub open spec fn trim_back(s: Seq<char>) -> Seq<char>
    decreases s.len(),
{
    if s.len() > 0 && ascii_space(s[s.len() - 1]) {
        trim_back(s.take(s.len() - 1))
    } else {
        s
    }
}

/// A character sequence with ASCII whitespace removed from both ends.
pub open spec fn trimmed(s: Seq<char>) -> Seq<char> {
    trim_back(trim_front(s))
}

proof fn lemma_trim_front_skip(s: Seq<char>, a: int)
    requires
        0 <= a <= s.len(),
        forall|j: int| 0 <= j < a ==> ascii_space(s[j]),
    ensures
        trim_front(s) == trim_front(s.skip(a)),
    decreases a,
{
    if a == 0 {
        assert(s.skip(0) =~= s);
    } else {
        assert(s.skip(1).skip(a - 1) =~= s.skip(a));
        lemma_trim_front_skip(s.skip(1), a - 1);
    }
}

proof fn lemma_trim_back_take(s: Seq<char>, b: int)
    requires
        0 <= b <= s.len(),
        forall|j: int| b <= j < s.len() ==> ascii_space(s[j]),
    ensures
        trim_back(s) == trim_back(s.take(b)),
    decreases s.len() - b,
{
    if b == s.len() {
        assert(s.take(s.len() as int) =~= s);
    } else {
        assert(s.take(s.len() - 1).take(b) =~= s.take(b));
        lemma_trim_back_take(s.take(s.len() - 1), b);
    }
}

fn is_space_char(c: char) -> (r: bool)
    ensures
        r == ascii_space(c),
{
    c == ' ' || c == '\t' || c == '\r' || c == '\n'
}

/// Whether a protocol line is the peer's readiness signal: exactly
/// `READY` once ASCII whitespace is stripped from both ends.
pub fn is_ready_line(line: &str) -> (r: bool)
    ensures
        r == (trimmed(line@) == "READY"@),
{
    proof {
        reveal_strlit("READY");
    }
    let n = line.unicode_len();
    let mut a: usize = 0;
    while a < n && is_space_char(line.get_char(a))
        invariant
            n == line@.len(),
            a <= n,
            forall|j: int| 0 <= j < a ==> ascii_space(line@[j]),
        decreases n - a,
    {
        a = a + 1;
    }
    proof {
        lemma_trim_front_skip(line@, a as int);
    }
    let ghost u = line@.skip(a as int);
    proof {
        assert(trim_front(u) == u);
        assert(trim_front(line@) == u);
    }
    let mut b: usize = n;
    while b > a && is_space_char(line.get_char(b - 1))
        invariant
            n == line@.len(),
            a <= b <= n,
            forall|j: int| b <= j < n ==> ascii_space(line@[j]),
        decreases b,
    {
        b = b - 1;
    }
    proof {
        assert forall|j: int| (b - a) <= j < u.len() implies ascii_space(u[j]) by {
            assert(u[j] == line@[a + j]);
        }
        lemma_trim_back_take(u, b - a);
        assert(trim_back(u.take(b - a)) == u.take(b - a)) by {
            if b > a {
                assert(u.take(b - a)[b - a - 1] == line@[b - 1]);
            }
        }
        assert(trimmed(line@) == u.take(b - a));
        assert(u.take(b - a) =~= line@.subrange(a as int, b as int));
    }
    if b - a != 5 {
        proof {
            assert(trimmed(line@).len() != "READY"@.len());
        }
        return false;
    }
    let ok = line.get_char(a) == 'R' && line.get_char(a + 1) == 'E' && line.get_char(a + 2) == 'A'
        && line.get_char(a + 3) == 'D' && line.get_char(a + 4) == 'Y';
    proof {
        if ok {
            assert(trimmed(line@) =~= "READY"@);
        } else {
            assert(trimmed(line@) != "READY"@) by {
                if trimmed(line@) == "READY"@ {
                    assert(line@[a as int] == trimmed(line@)[0]);
                    assert(line@[a + 1] == trimmed(line@)[1]);
                    assert(line@[a + 2] == trimmed(line@)[2]);
                    assert(line@[a + 3] == trimmed(line@)[3]);
                    assert(line@[a + 4] == trimmed(line@)[4]);
                }
            }
        }
    }
    ok
}

} // verus!
