use boltzmann::docs::{
    canonical_link, continue_lines, read_explicit_id, read_heading_id, DocEvent, SectionFilter,
    Verdict,
};

fn text(s: &str) -> DocEvent {
    DocEvent::Text(s.to_string())
}

fn run(events: &[DocEvent], section: &str) -> Vec<Verdict> {
    let mut filter = SectionFilter::new();
    events.iter().map(|e| filter.step(e, section)).collect()
}

#[test]
fn explicit_id_is_read_between_marker_and_brace() {
    assert_eq!(read_explicit_id("Routing {#routing}"), Some("routing".to_string()));
    assert_eq!(read_explicit_id("{#}"), Some(String::new()));
    assert_eq!(read_explicit_id("a {#b} {#c}"), Some("b} {#c".to_string()));
    assert_eq!(read_explicit_id("Routing {#routing} "), None);
    assert_eq!(read_explicit_id("Routing {routing}"), None);
    assert_eq!(read_explicit_id("Routing"), None);
    assert_eq!(read_explicit_id(""), None);
    assert_eq!(read_explicit_id("}"), None);
    assert_eq!(read_explicit_id("Größe {#größe}"), Some("größe".to_string()));
}

#[test]
fn heading_without_explicit_id_is_slugged() {
    assert_eq!(read_heading_id("My Test String!!!1!1"), "my-test-string-1-1");
    assert_eq!(read_heading_id("Body Parsers"), "body-parsers");
    assert_eq!(read_heading_id("Body Parsers {#parsers}"), "parsers");
}

#[test]
fn section_is_recorded_until_the_next_heading_of_its_level() {
    let events = vec![
        DocEvent::HeadingStart(1),
        text("Title"),
        DocEvent::HeadingEnd,
        DocEvent::Other,
        DocEvent::HeadingStart(2),
        text("Body "),
        text("Parsers"),
        DocEvent::HeadingEnd,
        DocEvent::Other,
        text("inside"),
        DocEvent::HeadingStart(3),
        DocEvent::Other,
        DocEvent::HeadingStart(2),
        text("Next"),
        DocEvent::HeadingEnd,
        DocEvent::Other,
    ];
    let (drop, keep) = (Verdict::Drop, Verdict::Keep);
    assert_eq!(
        run(&events, "body-parsers"),
        vec![
            drop, drop, drop, drop, drop, drop, drop, drop, keep, keep, keep, keep, drop, drop,
            drop, drop,
        ]
    );
}

#[test]
fn nothing_is_recorded_when_no_heading_matches() {
    let events = vec![
        DocEvent::HeadingStart(2),
        text("Other"),
        DocEvent::HeadingEnd,
        DocEvent::LinkStart,
        text("link"),
        DocEvent::LinkEnd,
        DocEvent::Other,
    ];
    assert!(run(&events, "body-parsers").iter().all(|v| *v == Verdict::Drop));
}

#[test]
fn links_become_reference_links_while_recording() {
    let events = vec![
        DocEvent::HeadingStart(2),
        text("Usage {#usage}"),
        DocEvent::HeadingEnd,
        DocEvent::LinkStart,
        text("a link"),
        DocEvent::LinkEnd,
    ];
    assert_eq!(
        run(&events, "usage"),
        vec![
            Verdict::Drop,
            Verdict::Drop,
            Verdict::Drop,
            Verdict::KeepAsReferenceStart,
            Verdict::Keep,
            Verdict::KeepAsReferenceEnd,
        ]
    );
}

#[test]
fn filter_state_follows_the_events() {
    let mut filter = SectionFilter::new();
    assert!(!filter.recording);
    assert_eq!(filter.last, None);
    filter.advance(&DocEvent::HeadingStart(4), false);
    assert_eq!(filter.match_level, 4);
    assert_eq!(filter.last, Some(String::new()));
    filter.advance(&text("ab"), false);
    filter.advance(&text("cd"), false);
    assert_eq!(filter.last, Some("abcd".to_string()));
    assert_eq!(filter.advance(&DocEvent::HeadingEnd, true), Verdict::Drop);
    assert!(filter.recording);
    assert_eq!(filter.last, None);
    assert_eq!(filter.advance(&DocEvent::HeadingEnd, false), Verdict::Keep);
    assert_eq!(filter.advance(&DocEvent::HeadingStart(3), false), Verdict::Keep);
    assert_eq!(filter.advance(&DocEvent::HeadingStart(4), false), Verdict::Drop);
    assert!(!filter.recording);
}

#[test]
fn lines_are_continued_as_comment_lines() {
    assert_eq!(continue_lines("a\nb\n\nc"), "a\n * b\n * \n * c");
    assert_eq!(continue_lines("one line"), "one line");
    assert_eq!(continue_lines(""), "");
    assert_eq!(continue_lines("\n"), "\n * ");
    assert_eq!(continue_lines("é\nü"), "é\n * ü");
}

#[test]
fn canonical_link_drops_the_extension() {
    assert_eq!(
        canonical_link("02-handlers.md", "routing"),
        "\"https://www.boltzmann.dev/en/latest/docs/reference/02-handlers#routing\""
    );
    assert_eq!(
        canonical_link(".md", ""),
        "\"https://www.boltzmann.dev/en/latest/docs/reference/#\""
    );
}
