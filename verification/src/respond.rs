//! The streaming responder's decisions: status code, headers, byte span and
//! transfer strategy for each request on the served file. The caller performs
//! the socket and file work; everything decided here is a plain value.

use vstd::prelude::*;

use crate::digits::dec_str;
use crate::paths::{extension_of, extension_span};
use crate::range::{parse_range, range_spec};
use crate::text::strip_prefix_spec;

verus! {

/// Spans at or below this many bytes are buffered in memory before the
/// response is built; larger spans are streamed from the file handle.
pub const STREAMING_THRESHOLD: u64 = 10 * 1024 * 1024;

#[derive(Clone, Copy, PartialEq, Eq, Structural, Debug)]
pub enum Transfer {
    Buffered,
    Streamed,
}

/// How to answer a GET or HEAD for the active file.
#[derive(Clone, Copy, PartialEq, Eq, Structural, Debug)]
pub enum BodyPlan {
    /// Serve the whole file with status 200, streamed from the start.
    Full,
    /// Serve the inclusive span with status 206.
    Partial { start: u64, end: u64, transfer: Transfer },
}

/// A partial plan stays inside the file and puts the buffered/streamed split
/// exactly at the threshold.
pub open spec fn plan_wf(p: BodyPlan, size: u64) -> bool {
    match p {
        BodyPlan::Full => true,
        BodyPlan::Partial { start, end, transfer } => {
            &&& start <= end < size
            &&& transfer == (if end - start + 1 > STREAMING_THRESHOLD {
                Transfer::Streamed
            } else {
                Transfer::Buffered
            })
        },
    }
}

/// The decision for a GET or HEAD: a missing, unparsable or out-of-bounds
/// `Range` header (including one without the `bytes=` unit prefix) degrades
/// to the full file; a valid one yields the validated span, buffered at or
/// below the threshold and streamed above it.
pub open spec fn body_plan_spec(size: u64, header: Option<Seq<char>>) -> BodyPlan {
    match header {
        None => BodyPlan::Full,
        Some(h) => match strip_prefix_spec(h, "bytes="@) {
            None => BodyPlan::Full,
            Some(spec_str) => match range_spec(spec_str, size) {
                None => BodyPlan::Full,
                Some(r) => BodyPlan::Partial {
                    start: r.0,
                    end: r.1,
                    transfer: if r.1 - r.0 + 1 > STREAMING_THRESHOLD {
                        Transfer::Streamed
                    } else {
                        Transfer::Buffered
                    },
                },
            },
        },
    }
}

/// Decide how to serve a file of `file_size` bytes given the raw `Range`
/// header value, if any.
pub fn plan_body(file_size: u64, range_header: Option<&str>) -> (r: BodyPlan)
    ensures
        r == body_plan_spec(
            file_size,
            match range_header {
                Some(h) => Some(h@),
                None => None,
            },
        ),
        plan_wf(r, file_size),
{
    let h = match range_header {
        Some(h) => h,
        None => {
            return BodyPlan::Full;
        },
    };
    let n = h.unicode_len();
    proof {
        reveal_strlit("bytes=");
    }
    if n < 6 {
        return BodyPlan::Full;
    }
    let c0 = h.get_char(0) as u32;
    let c1 = h.get_char(1) as u32;
    let c2 = h.get_char(2) as u32;
    let c3 = h.get_char(3) as u32;
    let c4 = h.get_char(4) as u32;
    let c5 = h.get_char(5) as u32;
    proof {
        assert('b' as u32 == 98 && 'y' as u32 == 121 && 't' as u32 == 116 && 'e' as u32 == 101
            && 's' as u32 == 115 && '=' as u32 == 61);
    }
    if !(c0 == 98 && c1 == 121 && c2 == 116 && c3 == 101 && c4 == 115 && c5 == 61) {
        proof {
            assert(h@.subrange(0, 6) != "bytes="@) by {
                if h@.subrange(0, 6) == "bytes="@ {
                    assert(h@.subrange(0, 6)[0] == h@[0] && h@.subrange(0, 6)[1] == h@[1]
                        && h@.subrange(0, 6)[2] == h@[2] && h@.subrange(0, 6)[3] == h@[3]
                        && h@.subrange(0, 6)[4] == h@[4] && h@.subrange(0, 6)[5] == h@[5]);
                    assert(h@[0] == 'b' && h@[1] == 'y' && h@[2] == 't' && h@[3] == 'e' && h@[4]
                        == 's' && h@[5] == '=');
                }
            }
        }
        return BodyPlan::Full;
    }
    proof {
        assert(h@.subrange(0, 6) =~= "bytes="@);
    }
    let spec_str = h.substring_char(6, n);
    let (start, end) = match parse_range(spec_str, file_size) {
        Some(r) => r,
        None => {
            return BodyPlan::Full;
        },
    };
    proof {
        crate::range::lemma_resolver_accepts_only_valid(spec_str@, file_size);
    }
    let length = end - start + 1;
    BodyPlan::Partial {
        start,
        end,
        transfer: if length > STREAMING_THRESHOLD {
            Transfer::Streamed
        } else {
            Transfer::Buffered
        },
    }
}

impl BodyPlan {
    /// The HTTP status this plan answers with.
    pub fn status(&self) -> (s: u16)
        ensures
            s == (match *self {
                BodyPlan::Full => 200u16,
                BodyPlan::Partial { .. } => 206u16,
            }),
    {
        match self {
            BodyPlan::Full => 200,
            BodyPlan::Partial { .. } => 206,
        }
    }

    /// The exact number of body bytes this plan sends for a file of
    /// `file_size` bytes.
    pub fn content_length(&self, file_size: u64) -> (n: u64)
        requires
            plan_wf(*self, file_size),
        ensures
            n == (match *self {
                BodyPlan::Full => file_size as int,
                BodyPlan::Partial { start, end, .. } => end - start + 1,
            }),
    {
        match self {
            BodyPlan::Full => file_size,
            BodyPlan::Partial { start, end, .. } => *end - *start + 1,
        }
    }
}

/// The MP4 container's media type, chosen exactly for the `.mp4` extension.
pub open spec fn is_mp4_path(s: Seq<char>) -> bool {
    extension_of(s) == Some(seq!['m', 'p', '4'])
}

/// The `Content-Type` for a served path: `video/mp4` for `.mp4` files and a
/// generic byte stream otherwise.
pub fn content_type_for(path: &str) -> (r: &'static str)
    ensures
        r@ == (if is_mp4_path(path@) {
            "video/mp4"@
        } else {
            "application/octet-stream"@
        }),
{
    let mp4 = match extension_span(path) {
        None => false,
        Some((a, b)) => {
            if b - a != 3 {
                proof {
                    let e = path@.subrange(a as int, b as int);
                    assert(e.len() != 3 && seq!['m', 'p', '4'].len() == 3);
                    assert(e != seq!['m', 'p', '4']);
                }
                false
            } else {
                let e0 = path.get_char(a) as u32;
                let e1 = path.get_char(a + 1) as u32;
                let e2 = path.get_char(a + 2) as u32;
                proof {
                    assert('m' as u32 == 109 && 'p' as u32 == 112 && '4' as u32 == 52);
                    let e = path@.subrange(a as int, b as int);
                    if e0 == 109 && e1 == 112 && e2 == 52 {
                        assert(e =~= seq!['m', 'p', '4']);
                    } else {
                        assert(e != seq!['m', 'p', '4']);
                    }
                }
                e0 == 109 && e1 == 112 && e2 == 52
            }
        },
    };
    if mp4 {
        "video/mp4"
    } else {
        "application/octet-stream"
    }
}

/// The `Content-Range` value for a partial response:
/// `bytes {start}-{end}/{size}`.
pub fn content_range_value(start: u64, end: u64, size: u64) -> (r: String)
    ensures
        r@ == "bytes "@ + dec_str(start as int) + seq!['-'] + dec_str(end as int) + seq!['/']
            + dec_str(size as int),
{
    let mut s = String::from_str("bytes ");
    s.append(crate::digits::fmt_u64(start).as_str());
    proof {
        reveal_strlit("-");
        reveal_strlit("/");
    }
    s.append("-");
    s.append(crate::digits::fmt_u64(end).as_str());
    s.append("/");
    s.append(crate::digits::fmt_u64(size).as_str());
    proof {
        assert(s@ =~= "bytes "@ + dec_str(start as int) + seq!['-'] + dec_str(end as int) + seq![
            '/',
        ] + dec_str(size as int));
    }
    s
}

/// The headers carried by every non-preflight response: content type, range
/// advertisement, caching, and the CORS grants with the exposed headers.
pub fn common_headers(content_type: &str) -> (h: Vec<(String, String)>)
    ensures
        h@.len() == 8,
        h@[0].0@ == "content-type"@ && h@[0].1@ == content_type@,
        h@[1].0@ == "accept-ranges"@ && h@[1].1@ == "bytes"@,
        h@[2].0@ == "cache-control"@ && h@[2].1@ == "public, max-age=3600"@,
        h@[3].0@ == "vary"@ && h@[3].1@
            == "origin, access-control-request-method, access-control-request-headers"@,
        h@[4].0@ == "access-control-allow-origin"@ && h@[4].1@ == "*"@,
        h@[5].0@ == "access-control-allow-methods"@ && h@[5].1@ == "GET, HEAD, OPTIONS"@,
        h@[6].0@ == "access-control-allow-headers"@ && h@[6].1@ == "range, content-type"@,
        h@[7].0@ == "access-control-expose-headers"@ && h@[7].1@
            == "content-length, content-range, accept-ranges"@,
{
    let mut h: Vec<(String, String)> = Vec::new();
    h.push((String::from_str("content-type"), String::from_str(content_type)));
    h.push((String::from_str("accept-ranges"), String::from_str("bytes")));
    h.push((String::from_str("cache-control"), String::from_str("public, max-age=3600")));
    h.push(
        (
            String::from_str("vary"),
            String::from_str(
                "origin, access-control-request-method, access-control-request-headers",
            ),
        ),
    );
    h.push((String::from_str("access-control-allow-origin"), String::from_str("*")));
    h.push(
        (String::from_str("access-control-allow-methods"), String::from_str("GET, HEAD, OPTIONS")),
    );
    h.push(
        (String::from_str("access-control-allow-headers"), String::from_str("range, content-type")),
    );
    h.push(
        (
            String::from_str("access-control-expose-headers"),
            String::from_str("content-length, content-range, accept-ranges"),
        ),
    );
    h
}

/// The status of a CORS preflight answer.
pub const PREFLIGHT_STATUS: u16 = 204;

/// The headers of the fixed CORS preflight answer: allow any origin, the
/// three read methods, the two negotiated headers, and a day of caching.
pub fn preflight_headers() -> (h: Vec<(String, String)>)
    ensures
        h@.len() == 4,
        h@[0].0@ == "access-control-allow-origin"@ && h@[0].1@ == "*"@,
        h@[1].0@ == "access-control-allow-methods"@ && h@[1].1@ == "GET, HEAD, OPTIONS"@,
        h@[2].0@ == "access-control-allow-headers"@ && h@[2].1@ == "range, content-type"@,
        h@[3].0@ == "access-control-max-age"@ && h@[3].1@ == "86400"@,
{
    let mut h: Vec<(String, String)> = Vec::new();
    h.push((String::from_str("access-control-allow-origin"), String::from_str("*")));
    h.push(
        (String::from_str("access-control-allow-methods"), String::from_str("GET, HEAD, OPTIONS")),
    );
    h.push(
        (String::from_str("access-control-allow-headers"), String::from_str("range, content-type")),
    );
    h.push((String::from_str("access-control-max-age"), String::from_str("86400")));
    h
}


/// The ways a GET or HEAD can fail before or while the body is produced.
#[derive(Clone, Copy, PartialEq, Eq, Structural, Debug)]
pub enum ServeFailure {
    /// No file is registered for serving.
    NoActiveFile,
    /// The registered file could not be opened.
    OpenFailed,
    /// The file opened, but its size could not be read.
    MetadataFailed,
    /// Seeking or reading the opened file failed.
    ReadFailed,
}

/// The status each failure answers with: a missing or unopenable file is
/// not found; an I/O failure after a successful open is a server error.
pub fn failure_status(f: ServeFailure) -> (s: u16)
    ensures
        s == (match f {
            ServeFailure::NoActiveFile => 404u16,
            ServeFailure::OpenFailed => 404u16,
            ServeFailure::MetadataFailed => 500u16,
            ServeFailure::ReadFailed => 500u16,
        }),
{
    match f {
        ServeFailure::NoActiveFile => 404,
        ServeFailure::OpenFailed => 404,
        ServeFailure::MetadataFailed => 500,
        ServeFailure::ReadFailed => 500,
    }
}

} // verus!
