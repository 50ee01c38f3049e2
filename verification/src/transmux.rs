//! Remuxing decisions: which files need converting to MP4, and where the
//! converted file goes (same directory, same stem, `.mp4` extension). The
//! conversion itself is an external process run by the caller.

use vstd::prelude::*;

use crate::paths::{extension_of, extension_span, file_part, file_part_start, file_part_span,
    stem_of};

verus! {

/// An extension that names MP4 regardless of ASCII case.
pub open spec fn is_mp4_ignoring_case(e: Seq<char>) -> bool {
    e.len() == 3 && (e[0] == 'm' || e[0] == 'M') && (e[1] == 'p' || e[1] == 'P') && e[2] == '4'
}

/// Whether a file must be remuxed before HTTP streaming: it has an extension
/// and the extension is not (case-insensitively) `mp4`. A file without an
/// extension is left alone.
pub open spec fn needs_transmux_spec(s: Seq<char>) -> bool {
    match extension_of(s) {
        Some(e) => !is_mp4_ignoring_case(e),
        None => false,
    }
}

/// Decide whether `file_path` needs remuxing to MP4.
pub fn needs_transmux(file_path: String) -> (r: bool)
    ensures
        r == needs_transmux_spec(file_path@),
{
    let path = file_path.as_str();
    match extension_span(path) {
        None => false,
        Some((a, b)) => {
            let ghost e = path@.subrange(a as int, b as int);
            if b - a != 3 {
                return true;
            }
            let c0 = path.get_char(a) as u32;
            let c1 = path.get_char(a + 1) as u32;
            let c2 = path.get_char(a + 2) as u32;
            proof {
                assert(e[0] == path@[a as int] && e[1] == path@[a + 1] && e[2] == path@[a + 2]);
                assert('m' as u32 == 109 && 'M' as u32 == 77 && 'p' as u32 == 112 && 'P' as u32
                    == 80 && '4' as u32 == 52);
            }
            let is_mp4 = (c0 == 109 || c0 == 77) && (c1 == 112 || c1 == 80) && c2 == 52;
            proof {
                assert(is_mp4 == is_mp4_ignoring_case(e));
            }
            !is_mp4
        },
    }
}

/// Where the remuxed copy of a path goes: the directory part unchanged, the
/// stem unchanged, and the `.mp4` extension. A path whose final component is
/// empty has no stem and is rejected.
pub open spec fn output_path_spec(s: Seq<char>) -> Option<Seq<char>> {
    if file_part(s).len() == 0 {
        None
    } else {
        Some(s.subrange(0, file_part_start(s)) + stem_of(s) + ".mp4"@)
    }
}

/// Build the output path for a remuxed file, or report that the input path
/// has no usable file stem.
pub fn generate_output_path(input: &str) -> (r: Result<String, String>)
    ensures
        match r {
            Ok(p) => output_path_spec(input@) == Some(p@),
            Err(e) => output_path_spec(input@) is None && e@ == "Cannot get file stem"@,
        },
{
    let (fp, n) = file_part_span(input);
    if fp == n {
        proof {
            assert(file_part(input@).len() == 0);
        }
        return Err(String::from_str("Cannot get file stem"));
    }
    let ghost f = file_part(input@);
    proof {
        assert(forall|k: int| 0 <= k < f.len() ==> f[k] == input@[k + fp]);
    }
    let stem_end: usize = match extension_span(input) {
        Some((a, _b)) => {
            proof {
                let d = crate::text::last_occ(f, '.');
                crate::text::lemma_last_occ_props(f, '.');
                let e = extension_of(input@)->Some_0;
                assert(extension_of(input@) is Some);
                assert(d > 0);
                assert(e == f.subrange(d + 1, f.len() as int));
                assert(e.len() == n - a);
                assert(e.len() == f.len() - d - 1);
                assert(d == a - 1 - fp);
                assert(stem_of(input@) =~= input@.subrange(fp as int, a - 1));
            }
            a - 1
        },
        None => {
            proof {
                assert(stem_of(input@) =~= input@.subrange(fp as int, n as int));
            }
            n
        },
    };
    let mut out = String::new();
    let prefix = input.substring_char(0, fp);
    out.append(prefix);
    let stem = input.substring_char(fp, stem_end);
    out.append(stem);
    proof {
        reveal_strlit(".mp4");
    }
    out.append(".mp4");
    proof {
        assert(out@ =~= input@.subrange(0, fp as int) + stem_of(input@) + ".mp4"@);
    }
    Ok(out)
}

/// The expected output path for a remuxed file, as handed to callers.
pub fn get_transmux_output_path(input_path: String) -> (r: Result<String, String>)
    ensures
        match r {
            Ok(p) => output_path_spec(input_path@) == Some(p@),
            Err(e) => output_path_spec(input_path@) is None && e@ == "Failed to generate output path: "@
                + "Cannot get file stem"@,
        },
{
    match generate_output_path(input_path.as_str()) {
        Ok(p) => Ok(p),
        Err(e) => {
            let mut msg = String::from_str("Failed to generate output path: ");
            msg.append(e.as_str());
            Err(msg)
        },
    }
}

} // verus!
