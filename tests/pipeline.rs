use class_filter::pipeline::{
    choose_sink, classify_source, ends_with, starts_with, SinkKind, SourceKind,
};

fn chars(s: &str) -> Vec<char> {
    s.chars().collect()
}

#[test]
fn sources_follow_device_names() {
    assert_eq!(classify_source("rtsp://cam/1", false), SourceKind::Network);
    assert_eq!(classify_source("http://x/v.mp4", false), SourceKind::Network);
    assert_eq!(classify_source("/data/clip.mkv", false), SourceKind::File);
    assert_eq!(classify_source("a.avi", true), SourceKind::File);
    assert_eq!(classify_source(".mp4", false), SourceKind::File);
    assert_eq!(classify_source("/dev/video0", true), SourceKind::Camera);
    assert_eq!(classify_source("/dev/video0", false), SourceKind::TestPattern);
    assert_eq!(classify_source("test", false), SourceKind::TestPattern);
    assert_eq!(classify_source("", true), SourceKind::TestPattern);
    assert_eq!(classify_source("rtsp:/", false), SourceKind::TestPattern);
}

#[test]
fn sinks_follow_flags() {
    assert_eq!(choose_sink(true, true, true), SinkKind::RtspWithDisplay);
    assert_eq!(choose_sink(true, true, false), SinkKind::Rtsp);
    assert_eq!(choose_sink(true, false, true), SinkKind::Rtsp);
    assert_eq!(choose_sink(false, true, true), SinkKind::Display);
    assert_eq!(choose_sink(false, false, false), SinkKind::Discard);
}

#[test]
fn prefixes_and_suffixes() {
    assert!(starts_with(&chars("/dev/video2"), "/dev/video"));
    assert!(!starts_with(&chars("/dev"), "/dev/video"));
    assert!(ends_with(&chars("x.mp4"), ".mp4"));
    assert!(!ends_with(&chars("x.mp4 "), ".mp4"));
    assert!(starts_with(&chars(""), ""));
}
