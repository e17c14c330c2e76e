use log_utils::format::{decimal_text, paint, Level, SourceFormatter, SpanText, Tone};

fn span(name: &str, fields: &str) -> SpanText {
    SpanText { name: name.to_string(), fields: fields.to_string() }
}

#[test]
fn plain_line_for_info_event() {
    let f = SourceFormatter;
    let line = f.render_line(
        "Wed, 12 Nov 1997 09:55:06 -0600",
        Level::Info,
        Some("main.rs"),
        Some(74),
        &Vec::new(),
        "Hello World!",
        false,
    );
    assert_eq!(line, "Wed, 12 Nov 1997 09:55:06 -0600 INFO [main.rs:74]: Hello World!\n");
}

#[test]
fn styled_line_wraps_each_part() {
    let f = SourceFormatter;
    let line = f.render_line("T", Level::Warn, Some("a.rs"), Some(3), &Vec::new(), "m", true);
    assert_eq!(
        line,
        "\x1b[2mT\x1b[0m \x1b[33mWARN\x1b[0m \x1b[36m[a.rs:3]\x1b[0m: m\n"
    );
}

#[test]
fn span_segments_root_first() {
    let f = SourceFormatter;
    let spans = vec![span("A", "x=1"), span("B", "")];
    assert_eq!(f.render_spans(&spans), "A{x=1}: B: ");
    let line = f.render_line("T", Level::Debug, Some("s.rs"), Some(9), &spans, "done", false);
    assert_eq!(line, "T DEBUG [s.rs:9]: A{x=1}: B: done\n");
}

#[test]
fn no_spans_render_nothing() {
    let f = SourceFormatter;
    assert_eq!(f.render_spans(&Vec::new()), "");
}

#[test]
fn missing_location_renders_empty_file_and_zero() {
    let f = SourceFormatter;
    assert_eq!(f.render_tag(None, None), "[:0]");
    assert_eq!(f.render_tag(Some("lib.rs"), None), "[lib.rs:0]");
    assert_eq!(f.render_tag(None, Some(12)), "[:12]");
    let line = f.render_line("T", Level::Error, None, None, &Vec::new(), "x", false);
    assert_eq!(line, "T ERROR [:0]: x\n");
}

#[test]
fn line_numbers_in_decimal() {
    assert_eq!(decimal_text(0), "0");
    assert_eq!(decimal_text(7), "7");
    assert_eq!(decimal_text(74), "74");
    assert_eq!(decimal_text(1000), "1000");
    assert_eq!(decimal_text(u32::MAX), "4294967295");
}

#[test]
fn level_names_and_tones() {
    assert_eq!(Level::Trace.name(), "TRACE");
    assert_eq!(Level::Debug.name(), "DEBUG");
    assert_eq!(Level::Info.name(), "INFO");
    assert_eq!(Level::Warn.name(), "WARN");
    assert_eq!(Level::Error.name(), "ERROR");
    assert_eq!(Level::Trace.tone(), Tone::Magenta);
    assert_eq!(Level::Debug.tone(), Tone::Blue);
    assert_eq!(Level::Info.tone(), Tone::Green);
    assert_eq!(Level::Warn.tone(), Tone::Yellow);
    assert_eq!(Level::Error.tone(), Tone::Red);
}

#[test]
fn each_tone_has_its_escape_code() {
    assert_eq!(paint("x", Tone::Dim, true), "\x1b[2mx\x1b[0m");
    assert_eq!(paint("x", Tone::Magenta, true), "\x1b[35mx\x1b[0m");
    assert_eq!(paint("x", Tone::Blue, true), "\x1b[34mx\x1b[0m");
    assert_eq!(paint("x", Tone::Green, true), "\x1b[32mx\x1b[0m");
    assert_eq!(paint("x", Tone::Yellow, true), "\x1b[33mx\x1b[0m");
    assert_eq!(paint("x", Tone::Red, true), "\x1b[31mx\x1b[0m");
    assert_eq!(paint("x", Tone::Cyan, true), "\x1b[36mx\x1b[0m");
}

#[test]
fn unstyled_tones_leave_text_alone() {
    for t in [Tone::Dim, Tone::Magenta, Tone::Blue, Tone::Green, Tone::Yellow, Tone::Red, Tone::Cyan] {
        assert_eq!(paint("plain", t, false), "plain");
    }
}

#[test]
fn format_event_stamps_current_time() {
    let f = SourceFormatter;
    let line = f.format_event(Level::Info, Some("main.rs"), Some(74), &Vec::new(), "Hello World!", false)
        .unwrap();
    assert!(line.ends_with(" INFO [main.rs:74]: Hello World!\n"));
    let stamp = &line[..line.len() - " INFO [main.rs:74]: Hello World!\n".len()];
    assert!(!stamp.is_empty());
    assert!(chrono::DateTime::parse_from_rfc2822(stamp).is_ok());
}
