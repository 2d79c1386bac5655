//! Which input source and which output sink a pipeline is built with.
use vstd::prelude::*;
use vstd::string::*;
use crate::text::chars_of;

verus! {

/// Where the video comes from.
#[derive(PartialEq, Eq, Structural, Debug, Clone, Copy)]
pub enum SourceKind {
    /// An `rtsp://` or `http://` stream.
    Network,
    /// A `.mp4`, `.avi` or `.mkv` file.
    File,
    /// An existing `/dev/video*` device.
    Camera,
    /// The built-in test pattern.
    TestPattern,
}

/// Where the processed video goes.
#[derive(PartialEq, Eq, Structural, Debug, Clone, Copy)]
pub enum SinkKind {
    /// Encoded for RTSP and, through a tee, shown on the display.
    RtspWithDisplay,
    /// Encoded for RTSP only.
    Rtsp,
    /// Shown on the display only.
    Display,
    /// Thrown away.
    Discard,
}

/// Whether `s` starts with `p`.
pub open spec fn has_prefix(s: Seq<char>, p: Seq<char>) -> bool {
    p.len() <= s.len() && s.subrange(0, p.len() as int) == p
}

/// Whether `s` ends with `p`.
pub open spec fn has_suffix(s: Seq<char>, p: Seq<char>) -> bool {
    p.len() <= s.len() && s.subrange(s.len() - p.len(), s.len() as int) == p
}

/// The source for the device name `d`; `exists` tells whether a file of
/// that name exists.
pub open spec fn source_kind_of(d: Seq<char>, exists: bool) -> SourceKind {
    if has_prefix(d, "rtsp://"@) || has_prefix(d, "http://"@) {
        SourceKind::Network
    } else if has_suffix(d, ".mp4"@) || has_suffix(d, ".avi"@) || has_suffix(d, ".mkv"@) {
        SourceKind::File
    } else if exists && has_prefix(d, "/dev/video"@) {
        SourceKind::Camera
    } else {
        SourceKind::TestPattern
    }
}

/// The sink for the flags: RTSP output wins; with the display also asked
/// for, `split` tells whether the stream is teed to the display as well.
pub open spec fn sink_kind_of(rtsp: bool, display: bool, split: bool) -> SinkKind {
    if rtsp {
        if display && split {
            SinkKind::RtspWithDisplay
        } else {
            SinkKind::Rtsp
        }
    } else if display {
        SinkKind::Display
    } else {
        SinkKind::Discard
    }
}

/// Whether the characters of `s` from `at` on start with `p`.
fn matches_at(s: &Vec<char>, at: usize, p: &str) -> (r: bool)
    requires
        at + p@.len() <= s@.len(),
    ensures
        r == (s@.subrange(at as int, at + p@.len()) == p@),
{
    let n = p.unicode_len();
    let mut k: usize = 0;
    while k < n
        invariant
            k <= n == p@.len(),
            at + n <= s@.len() == s.len(),
            forall|j: int| 0 <= j < k ==> s@[at + j] == p@[j],
        decreases n - k,
    {
        if s[at + k] != p.get_char(k) {
            assert(s@.subrange(at as int, at + p@.len())[k as int] != p@[k as int]);
            return false;
        }
        k = k + 1;
    }
    assert(s@.subrange(at as int, at + p@.len()) =~= p@);
    true
}

/// Whether `s` starts with `p`.
pub fn starts_with(s: &Vec<char>, p: &str) -> (r: bool)
    ensures
        r == has_prefix(s@, p@),
{
    if p.unicode_len() > s.len() {
        return false;
    }
    matches_at(s, 0, p)
}

/// Whether `s` ends with `p`.
pub fn ends_with(s: &Vec<char>, p: &str) -> (r: bool)
    ensures
        r == has_suffix(s@, p@),
{
    let n = p.unicode_len();
    if n > s.len() {
        return false;
    }
    matches_at(s, s.len() - n, p)
}

/// The source for the device name `device`; `path_exists` tells whether a
/// file of that name exists.
pub fn classify_source(device: &str, path_exists: bool) -> (r: SourceKind)
    ensures
        r == source_kind_of(device@, path_exists),
{
    let d = chars_of(device);
    if starts_with(&d, "rtsp://") || starts_with(&d, "http://") {
        SourceKind::Network
    } else if ends_with(&d, ".mp4") || ends_with(&d, ".avi") || ends_with(&d, ".mkv") {
        SourceKind::File
    } else if path_exists && starts_with(&d, "/dev/video") {
        SourceKind::Camera
    } else {
        SourceKind::TestPattern
    }
}

/// The sink for the RTSP and display flags; `split` tells whether, with
/// both, the stream is teed to the display as well.
pub fn choose_sink(rtsp: bool, display: bool, split: bool) -> (r: SinkKind)
    ensures
        r == sink_kind_of(rtsp, display, split),
{
    if rtsp {
        if display && split {
            SinkKind::RtspWithDisplay
        } else {
            SinkKind::Rtsp
        }
    } else if display {
        SinkKind::Display
    } else {
        SinkKind::Discard
    }
}

} // verus!
