use graphite::markdown::{body_title, events_title, render_body_html, rewrite_heading_events, MdEvent};
use pulldown_cmark::{Event, HeadingLevel, Tag};

fn heading_start(level: HeadingLevel, n: u8) -> MdEvent {
    MdEvent::HeadingStart(
        n,
        Event::Start(Tag::Heading { level, id: None, classes: vec![], attrs: vec![] }),
    )
}

fn texts(events: &[MdEvent]) -> Vec<String> {
    events
        .iter()
        .map(|e| match e {
            MdEvent::HeadingStart(l, _) => format!("start {l}"),
            MdEvent::HeadingEnd(l) => format!("end {l}"),
            MdEvent::Text(t) => format!("text {t}"),
            MdEvent::Code(t) => format!("code {t}"),
            MdEvent::Other(_) => "other".to_string(),
        })
        .collect()
}

#[test]
fn title_from_events_joins_text_and_code_of_first_heading() {
    let events = vec![
        MdEvent::Text("before".to_string()),
        heading_start(HeadingLevel::H2, 2),
        MdEvent::Text("Uses".to_string()),
        MdEvent::Code("graphite".to_string()),
        MdEvent::HeadingEnd(2),
        heading_start(HeadingLevel::H1, 1),
        MdEvent::Text("Second".to_string()),
        MdEvent::HeadingEnd(1),
    ];
    assert_eq!(events_title(&events, "fallback"), "Uses graphite");
    assert_eq!(events_title(&vec![MdEvent::Text("x".to_string())], "fallback"), "fallback");
    let blank = vec![heading_start(HeadingLevel::H1, 1), MdEvent::Text("  ".to_string()), MdEvent::HeadingEnd(1)];
    assert_eq!(events_title(&blank, "id"), "id");
}

#[test]
fn rewriting_moves_headings_and_prefixes_first_text() {
    let events = vec![
        heading_start(HeadingLevel::H1, 1),
        MdEvent::Text("Title".to_string()),
        MdEvent::HeadingEnd(1),
        heading_start(HeadingLevel::H6, 6),
        MdEvent::Text("Deep".to_string()),
        MdEvent::HeadingEnd(6),
    ];
    let r = rewrite_heading_events(events, 1, Some("S-1"));
    assert_eq!(
        texts(&r),
        vec!["start 2", "text S-1 Title", "end 2", "start 6", "text Deep", "end 6"]
    );
}

#[test]
fn rewriting_with_code_first_puts_prefix_before_it() {
    let events = vec![heading_start(HeadingLevel::H1, 1), MdEvent::Code("x".to_string()), MdEvent::HeadingEnd(1)];
    let r = rewrite_heading_events(events, 0, Some("K-2"));
    assert_eq!(texts(&r), vec!["start 1", "text K-2 ", "code x", "end 1"]);
}

#[test]
fn rewriting_without_offset_or_prefix_changes_nothing() {
    let events = vec![
        heading_start(HeadingLevel::H3, 3),
        MdEvent::Text("Same".to_string()),
        MdEvent::HeadingEnd(3),
        MdEvent::Text("body".to_string()),
    ];
    let before = texts(&events);
    let r = rewrite_heading_events(events, 0, None);
    assert_eq!(texts(&r), before);
}

#[test]
fn body_html_has_shifted_prefixed_heading() {
    assert_eq!(render_body_html("# Title\n\nText", 2, Some("A-1")), "<h2>A-1 Title</h2>\n<p>Text</p>\n");
    assert_eq!(render_body_html("# Title", 1, None), "<h1>Title</h1>\n");
    assert_eq!(render_body_html("###### Deep", 3, None), "<h6>Deep</h6>\n");
}

#[test]
fn body_title_reads_markdown() {
    assert_eq!(body_title("intro\n\n## Uses `graphite` tool\n", "fb"), "Uses  graphite  tool");
    assert_eq!(body_title("no heading", "fb"), "fb");
}
