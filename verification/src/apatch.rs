//! Detection of the APatch root backend: extraction of a version number
//! from the free-form output of its tools, classification of that number
//! against the minimum protocol version the daemon supports, and the
//! decision whether the backend is present at all.
//!
//! The surrounding program reads the backend's shell path, spawns the shell
//! and helper binaries and hands their captured standard output in here; a
//! spawn failure or non-UTF-8 output arrives as `None`.

use vstd::prelude::*;

use crate::text::{
    last_token, line_last_token, parse_i32, parse_i32_spec, spec_lines, split_lines, views_of,
};

verus! {

/// Lowest APatch daemon protocol version the daemon's control protocol
/// supports.
pub const MIN_APATCH_VERSION: i32 = 10655;

/// Highest version number accepted as a plausible report; anything above is
/// treated as the tool reporting failure.
pub const MAX_APATCH_VERSION: i32 = 999999;

/// Support classification of a detected backend's reported version.
#[derive(Clone, Copy, Debug, PartialEq, Eq, Structural)]
pub enum Version {
    /// Meets or exceeds the minimum protocol version.
    Supported,
    /// Recognized, but below the minimum protocol version.
    TooOld,
    /// The tool is present but reported zero or nothing parseable.
    Abnormal,
}

/// The version a line reports: its last whitespace-separated token read as a
/// decimal 32-bit integer, if that parses.
pub open spec fn line_version(line: Seq<u8>) -> Option<int> {
    match last_token(line) {
        Some(t) => parse_i32_spec(t),
        None => None,
    }
}

/// The version a sequence of lines reports: the first line whose last token
/// parses as an integer wins; zero if no line yields one.
pub open spec fn version_of_lines(lines: Seq<Seq<u8>>) -> int
    decreases lines.len(),
{
    if lines.len() == 0 {
        0
    } else {
        match line_version(lines[0]) {
            Some(v) => v,
            None => version_of_lines(lines.skip(1)),
        }
    }
}

/// The version number extracted from raw tool output.
pub open spec fn extracted_version(output: Seq<u8>) -> int {
    version_of_lines(spec_lines(output))
}

/// Extracts a version number from raw tool output: scans line by line, takes
/// each line's last whitespace-separated token, and returns the first one
/// that parses as a decimal 32-bit integer; zero if no line yields one.
pub fn parse_version(output: &[u8]) -> (v: i32)
    ensures
        v as int == extracted_version(output@),
{
    let lines = split_lines(output);
    let ghost all = spec_lines(output@);
    let mut i: usize = 0;
    proof {
        assert(all.skip(0) =~= all);
    }
    while i < lines.len()
        invariant
            i <= lines@.len(),
            views_of(lines@) == all,
            all == spec_lines(output@),
            version_of_lines(all) == version_of_lines(all.skip(i as int)),
        decreases lines@.len() - i,
    {
        proof {
            assert(views_of(lines@)[i as int] == lines@[i as int]@);
            assert(all.skip(i as int)[0] == all[i as int]);
            assert(all.skip(i as int).skip(1) =~= all.skip(i as int + 1));
        }
        let token = line_last_token(lines[i].as_slice());
        match token {
            Some(t) => {
                match parse_i32(t.as_slice()) {
                    Some(v) => {
                        return v;
                    },
                    None => {},
                }
            },
            None => {},
        }
        i = i + 1;
    }
    proof {
        assert(all.skip(i as int) =~= Seq::<Seq<u8>>::empty());
    }
    0
}

/// Classification of an extracted version number: zero is an abnormal
/// report, the supported window is `MIN_APATCH_VERSION ..= MAX_APATCH_VERSION`,
/// anything between one and the minimum is too old, and every other value is
/// no report at all.
pub open spec fn classify_spec(v: int) -> Option<Version> {
    if v == 0 {
        Some(Version::Abnormal)
    } else if MIN_APATCH_VERSION <= v && v <= MAX_APATCH_VERSION {
        Some(Version::Supported)
    } else if 1 <= v && v < MIN_APATCH_VERSION {
        Some(Version::TooOld)
    } else {
        None
    }
}

/// Threshold correctness of classification, for every extracted version
/// number: zero is abnormal, the window from the minimum supported version
/// to the upper plausibility bound is supported, anything from one up to
/// the minimum is too old, and every other value yields no classification.
pub proof fn lemma_classify_thresholds(v: int)
    ensures
        v == 0 ==> classify_spec(v) == Some(Version::Abnormal),
        MIN_APATCH_VERSION <= v <= MAX_APATCH_VERSION ==> classify_spec(v) == Some(
            Version::Supported,
        ),
        1 <= v < MIN_APATCH_VERSION ==> classify_spec(v) == Some(Version::TooOld),
        v < 0 || v > MAX_APATCH_VERSION ==> classify_spec(v) is None,
{
}

/// Classifies an extracted version number into a support level.
pub fn classify(version: i32) -> (r: Option<Version>)
    ensures
        r == classify_spec(version as int),
{
    if version == 0 {
        Some(Version::Abnormal)
    } else if version >= MIN_APATCH_VERSION && version <= MAX_APATCH_VERSION {
        Some(Version::Supported)
    } else if version >= 1 && version < MIN_APATCH_VERSION {
        Some(Version::TooOld)
    } else {
        None
    }
}

/// The marker that identifies the backend's shell: the bytes of `APatch`.
pub open spec fn apatch_marker() -> Seq<u8> {
    seq![65u8, 80u8, 97u8, 116u8, 99u8, 104u8]
}

/// Whether the marker occurs in `s` starting at position `i`.
pub open spec fn has_marker_at(s: Seq<u8>, i: int) -> bool {
    0 <= i && i + 6 <= s.len() && s.subrange(i, i + 6) == apatch_marker()
}

/// Whether the marker occurs anywhere in `s`.
pub open spec fn has_marker(s: Seq<u8>) -> bool {
    exists|i: int| has_marker_at(s, i)
}

fn marker_at(s: &[u8], i: usize) -> (r: bool)
    requires
        i + 6 <= s@.len(),
    ensures
        r == has_marker_at(s@, i as int),
{
    let r = s[i] == 65 && s[i + 1] == 80 && s[i + 2] == 97 && s[i + 3] == 116 && s[i + 4] == 99
        && s[i + 5] == 104;
    proof {
        let m = apatch_marker();
        assert(m[0] == 65 && m[1] == 80 && m[2] == 97 && m[3] == 116 && m[4] == 99 && m[5]
            == 104);
        let sub = s@.subrange(i as int, i as int + 6);
        assert(forall|k: int| 0 <= k < 6 ==> sub[k] == s@[i + k]);
        if r {
            assert(sub =~= m);
        }
    }
    r
}

/// Whether the shell's captured output names this backend: the decision of
/// detection step three, which guards against a stale shell-path entry
/// pointing at some other tool.
pub fn shell_output_is_apatch(shell_stdout: &[u8]) -> (r: bool)
    ensures
        r == has_marker(shell_stdout@),
{
    if shell_stdout.len() < 6 {
        return false;
    }
    let mut i: usize = 0;
    while i <= shell_stdout.len() - 6
        invariant
            shell_stdout@.len() >= 6,
            i <= shell_stdout@.len() - 6 + 1,
            forall|j: int| 0 <= j < i ==> !has_marker_at(shell_stdout@, j),
        decreases shell_stdout@.len() - i,
    {
        if marker_at(shell_stdout, i) {
            return true;
        }
        i = i + 1;
    }
    false
}

/// What detection concludes from the observed outputs: absent while the
/// shell could not be run or does not name this backend or the helper could
/// not be run; otherwise the classification of the version the helper
/// reported.
pub open spec fn detect_spec(shell: Option<Seq<u8>>, helper: Option<Seq<u8>>) -> Option<Version> {
    match shell {
        None => None,
        Some(s) => if !has_marker(s) {
            None
        } else {
            match helper {
                None => None,
                Some(h) => classify_spec(extracted_version(h)),
            }
        },
    }
}

/// Decides whether the APatch backend is present and at what support level,
/// from the captured standard output of its shell (`su -v`) and of its
/// helper daemon (`apd -V`); `None` stands for a binary that could not be
/// run or produced no UTF-8 output.
pub fn get_apatch(shell_stdout: Option<&[u8]>, helper_stdout: Option<&[u8]>) -> (r: Option<
    Version,
>)
    ensures
        r == detect_spec(
            match shell_stdout {
                Some(s) => Some(s@),
                None => None,
            },
            match helper_stdout {
                Some(h) => Some(h@),
                None => None,
            },
        ),
{
    let shell = match shell_stdout {
        Some(s) => s,
        None => {
            return None;
        },
    };
    if !shell_output_is_apatch(shell) {
        return None;
    }
    let helper = match helper_stdout {
        Some(h) => h,
        None => {
            return None;
        },
    };
    classify(parse_version(helper))
}

} // verus!
