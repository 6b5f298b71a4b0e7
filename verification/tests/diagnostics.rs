use tracelock::Frame;
use tracelock::filter_frames;
use tracelock::format_trace;
use tracelock::str_contains;
use tracelock::u64_to_dec;

fn frame(path: Option<&str>, line: Option<u64>, symbol: Option<&str>) -> Frame {
    Frame {
        path: path.map(|p| p.to_string()),
        line,
        symbol: symbol.map(|s| s.to_string()),
    }
}

#[test]
fn contains_finds_inner_needle() {
    assert!(str_contains("/home/dev/.cargo/registry/src/x.rs", "/.cargo/registry/"));
    assert!(!str_contains("/home/dev/project/src/x.rs", "/.cargo/registry/"));
}

#[test]
fn contains_empty_needle_everywhere() {
    assert!(str_contains("abc", ""));
    assert!(str_contains("", ""));
    assert!(!str_contains("", "a"));
}

#[test]
fn contains_needle_at_both_ends() {
    assert!(str_contains("marker-first", "marker"));
    assert!(str_contains("last-marker", "marker"));
    assert!(!str_contains("mark", "marker"));
}

#[test]
fn decimal_rendering() {
    assert_eq!(u64_to_dec(0), "0");
    assert_eq!(u64_to_dec(7), "7");
    assert_eq!(u64_to_dec(10), "10");
    assert_eq!(u64_to_dec(12345), "12345");
    assert_eq!(u64_to_dec(u64::MAX), "18446744073709551615");
}

#[test]
fn format_single_resolved_frame() {
    let frames = vec![frame(Some("src/app.rs"), Some(7), Some("app::main"))];
    let block = format_trace("header", &frames);
    assert_eq!(block, "header:\n[0] src/app.rs:7 [app::main]");
}

#[test]
fn format_frame_without_symbol() {
    let frames = vec![frame(Some("src/app.rs"), Some(42), None)];
    let block = format_trace("m", &frames);
    assert_eq!(block, "m:\n[0] src/app.rs:42");
}

#[test]
fn format_indexes_restart_at_zero() {
    let frames = vec![
        frame(Some("a.rs"), Some(1), None),
        frame(Some("b.rs"), Some(2), None),
        frame(Some("c.rs"), Some(3), None),
    ];
    let block = format_trace("msg", &frames);
    assert_eq!(block, "msg:\n[0] a.rs:1\n[1] b.rs:2\n[2] c.rs:3");
}

#[test]
fn format_no_frames_is_header_only() {
    let frames: Vec<Frame> = Vec::new();
    assert_eq!(format_trace("quiet", &frames), "quiet:");
}

#[test]
fn filter_skips_leading_own_frames() {
    let frames = vec![
        frame(Some("/work/tracelock/src/lock.rs"), Some(10), None),
        frame(Some("/work/tracelock/src/render.rs"), Some(20), None),
        frame(Some("/work/app/src/main.rs"), Some(30), None),
    ];
    let kept = filter_frames(&frames, "tracelock");
    assert_eq!(kept.len(), 1);
    assert_eq!(kept[0].path.as_deref(), Some("/work/app/src/main.rs"));
}

#[test]
fn filter_excludes_toolchain_between_interesting_frames() {
    let frames = vec![
        frame(Some("/work/app/a.rs"), Some(1), None),
        frame(Some("/home/dev/.cargo/registry/src/dep.rs"), Some(2), None),
        frame(Some("/work/app/b.rs"), Some(3), None),
        frame(Some("/home/dev/.rustup/toolchains/stable/lib.rs"), Some(4), None),
        frame(Some("/rustc/abc123/library/core/src/ops.rs"), Some(5), None),
        frame(Some("/work/app/c.rs"), Some(6), None),
    ];
    let kept = filter_frames(&frames, "tracelock");
    let paths: Vec<_> = kept.iter().map(|f| f.path.as_deref().unwrap()).collect();
    assert_eq!(paths, vec!["/work/app/a.rs", "/work/app/b.rs", "/work/app/c.rs"]);
}

#[test]
fn filter_drops_unresolved_frames_without_failing() {
    let frames = vec![
        frame(None, None, Some("???")),
        frame(Some("/work/app/a.rs"), Some(1), None),
        frame(None, None, None),
        frame(Some("/work/app/b.rs"), None, None),
        frame(Some("/work/app/c.rs"), Some(3), None),
    ];
    let kept = filter_frames(&frames, "tracelock");
    let paths: Vec<_> = kept.iter().map(|f| f.path.as_deref().unwrap()).collect();
    assert_eq!(paths, vec!["/work/app/a.rs", "/work/app/c.rs"]);
}

#[test]
fn filter_of_only_internal_frames_is_empty() {
    let frames = vec![
        frame(Some("/work/tracelock/src/lock.rs"), Some(10), None),
        frame(Some("/work/tracelock/src/filter.rs"), Some(11), None),
    ];
    let kept = filter_frames(&frames, "tracelock");
    assert!(kept.is_empty());
}
