//! Reading Markdown through `pulldown-cmark`: the events the renderer looks at, the
//! rewriting of headings, a node's title, and HTML written from events.
use pulldown_cmark::{Event, HeadingLevel, Options, Parser, Tag, TagEnd};
use vstd::prelude::*;
use vstd::string::*;

use crate::text::{trim, trim_bounds, chars_of, string_of};

verus! {

#[verifier::external_type_specification]
#[verifier::external_body]
pub struct ExMarkdownEvent<'a>(pulldown_cmark::Event<'a>);

/// `pulldown_cmark::Options::ENABLE_TABLES`.
pub const ENABLE_TABLES: u32 = 2;

/// `pulldown_cmark::Options::ENABLE_STRIKETHROUGH`.
pub const ENABLE_STRIKETHROUGH: u32 = 8;

/// The Markdown extensions that node bodies are read with.
pub const BODY_OPTIONS: u32 = ENABLE_TABLES | ENABLE_STRIKETHROUGH;

/// One Markdown event as the renderer reads it; events it does not look into are kept
/// as they came.
pub enum MdEvent {
    /// The start of a heading of the given level (1 to 6), with the event it was read from.
    HeadingStart(u8, pulldown_cmark::Event<'static>),
    /// The end of a heading of the given level.
    HeadingEnd(u8),
    /// A text node.
    Text(String),
    /// An inline code node.
    Code(String),
    /// Any other event.
    Other(pulldown_cmark::Event<'static>),
}

/// An event with its text as a mathematical string.
pub enum MdEventView {
    HeadingStart(u8, pulldown_cmark::Event<'static>),
    HeadingEnd(u8),
    Text(Seq<char>),
    Code(Seq<char>),
    Other(pulldown_cmark::Event<'static>),
}

impl View for MdEvent {
    type V = MdEventView;

    open spec fn view(&self) -> MdEventView {
        match self {
            MdEvent::HeadingStart(l, e) => MdEventView::HeadingStart(*l, *e),
            MdEvent::HeadingEnd(l) => MdEventView::HeadingEnd(*l),
            MdEvent::Text(t) => MdEventView::Text(t@),
            MdEvent::Code(t) => MdEventView::Code(t@),
            MdEvent::Other(e) => MdEventView::Other(*e),
        }
    }
}

/// What the renderer reads of an event.
pub enum MdKind {
    HeadingStart(u8),
    HeadingEnd(u8),
    Text(Seq<char>),
    Code(Seq<char>),
    Other,
}

/// What the renderer reads of an event view.
pub open spec fn kind_of(e: MdEventView) -> MdKind {
    match e {
        MdEventView::HeadingStart(l, _) => MdKind::HeadingStart(l),
        MdEventView::HeadingEnd(l) => MdKind::HeadingEnd(l),
        MdEventView::Text(t) => MdKind::Text(t),
        MdEventView::Code(t) => MdKind::Code(t),
        MdEventView::Other(_) => MdKind::Other,
    }
}

/// The views of a list of events.
pub open spec fn events_view(es: Seq<MdEvent>) -> Seq<MdEventView> {
    es.map_values(|e: MdEvent| e@)
}

/// What the renderer reads of a list of event views.
pub open spec fn kinds(es: Seq<MdEventView>) -> Seq<MdKind> {
    es.map_values(|e: MdEventView| kind_of(e))
}

/// Heading levels are between 1 and 6.
pub open spec fn levels_ok(es: Seq<MdEventView>) -> bool {
    forall|i: int|
        0 <= i < es.len() ==> match #[trigger] es[i] {
            MdEventView::HeadingStart(l, _) => 1 <= l <= 6,
            MdEventView::HeadingEnd(l) => 1 <= l <= 6,
            _ => true,
        }
}

/// The events that `pulldown_cmark::Parser::new_ext` yields for `text` with the option
/// bits `options`, as converted to [`MdEvent`].
pub uninterp spec fn markdown_events(text: Seq<char>, options: u32) -> Seq<MdEventView>;

/// Parses `text` with `pulldown_cmark::Parser::new_ext` and the option bits `options`,
/// converting each event; heading levels are those of `HeadingLevel` (1 to 6). The
/// contract names the events.
#[verifier::external_body]
pub(crate) fn md_events(text: &str, options: u32) -> (r: Vec<MdEvent>)
    ensures
        events_view(r@) == markdown_events(text@, options),
        levels_ok(events_view(r@)),
{
    Parser::new_ext(text, Options::from_bits_truncate(options)).map(|e| match e.into_static() {
        ev @ Event::Start(Tag::Heading { level, .. }) => MdEvent::HeadingStart(level as u8, ev),
        Event::End(TagEnd::Heading(level)) => MdEvent::HeadingEnd(level as u8),
        Event::Text(t) => MdEvent::Text(t.to_string()),
        Event::Code(t) => MdEvent::Code(t.to_string()),
        other => MdEvent::Other(other),
    }).collect()
}

/// The HTML that `pulldown_cmark::html::push_html` writes for `events`, each converted
/// back to a `pulldown_cmark::Event`.
pub uninterp spec fn markdown_html(events: Seq<MdEventView>) -> Seq<char>;

/// Writes HTML for `events` with `pulldown_cmark::html::push_html`, each event converted
/// back (a heading start keeps the id, classes and attributes of the event it was read
/// from and takes the given level). The contract names the HTML.
#[verifier::external_body]
pub(crate) fn md_html(events: Vec<MdEvent>) -> (html: String)
    requires
        levels_ok(events_view(events@)),
    ensures
        html@ == markdown_html(events_view(events@)),
{
    let mut out = String::new();
    pulldown_cmark::html::push_html(&mut out, events.into_iter().map(|e| match e {
        MdEvent::HeadingStart(l, Event::Start(Tag::Heading { id, classes, attrs, .. })) => {
            Event::Start(Tag::Heading { level: HeadingLevel::try_from(l as usize).unwrap(), id, classes, attrs })
        },
        MdEvent::HeadingStart(_, other) => other,
        MdEvent::HeadingEnd(l) => Event::End(TagEnd::Heading(HeadingLevel::try_from(l as usize).unwrap())),
        MdEvent::Text(t) => Event::Text(t.into()),
        MdEvent::Code(t) => Event::Code(t.into()),
        MdEvent::Other(e) => e,
    }));
    out
}

// ---------------------------------------------------------------------------
// Heading rewriting
// ---------------------------------------------------------------------------

/// A heading level moved down by `offset`, kept between 1 and 6.
pub open spec fn offset_level(level: u8, offset: nat) -> u8 {
    let n = level + offset;
    if n <= 1 {
        1u8
    } else if n >= 6 {
        6u8
    } else {
        n as u8
    }
}

/// Where the rewriting stands: inside the first heading, whether a heading was seen, and
/// whether the prefix was placed.
pub struct HeadingState {
    pub in_first: bool,
    pub seen: bool,
    pub injected: bool,
}

/// The rewritten events from position `i` on: every heading moves down by `offset`; the
/// first text or code inside the first heading gets `prefix` and a space before it.
pub open spec fn rewrite_from(
    es: Seq<MdEventView>,
    offset: nat,
    prefix: Option<Seq<char>>,
    i: int,
    st: HeadingState,
) -> Seq<MdEventView>
    decreases es.len() - i,
{
    if i < 0 || i >= es.len() {
        seq![]
    } else {
        match es[i] {
            MdEventView::HeadingStart(l, raw) => seq![MdEventView::HeadingStart(offset_level(l, offset), raw)]
                + if !st.seen {
                rewrite_from(es, offset, prefix, i + 1, HeadingState { in_first: true, seen: true, injected: false })
            } else {
                rewrite_from(es, offset, prefix, i + 1, st)
            },
            MdEventView::HeadingEnd(l) => seq![MdEventView::HeadingEnd(offset_level(l, offset))]
                + rewrite_from(es, offset, prefix, i + 1, HeadingState { in_first: false, ..st }),
            MdEventView::Text(t) => if st.in_first && !st.injected {
                seq![
                    MdEventView::Text(
                        match prefix {
                            Some(p) => p + seq![' '] + t,
                            None => t,
                        },
                    ),
                ] + rewrite_from(es, offset, prefix, i + 1, HeadingState { injected: true, ..st })
            } else {
                seq![MdEventView::Text(t)] + rewrite_from(es, offset, prefix, i + 1, st)
            },
            MdEventView::Code(t) => if st.in_first && !st.injected {
                (match prefix {
                    Some(p) => seq![MdEventView::Text(p + seq![' '])],
                    None => seq![],
                }) + seq![MdEventView::Code(t)] + rewrite_from(
                    es,
                    offset,
                    prefix,
                    i + 1,
                    HeadingState { injected: true, ..st },
                )
            } else {
                seq![MdEventView::Code(t)] + rewrite_from(es, offset, prefix, i + 1, st)
            },
            MdEventView::Other(raw) => seq![MdEventView::Other(raw)] + rewrite_from(es, offset, prefix, i + 1, st),
        }
    }
}

/// The rewritten events of a body.
pub open spec fn rewrite_headings(es: Seq<MdEventView>, offset: nat, prefix: Option<Seq<char>>) -> Seq<MdEventView> {
    rewrite_from(es, offset, prefix, 0, HeadingState { in_first: false, seen: false, injected: false })
}

fn offset_level_exec(level: u8, offset: usize) -> (r: u8)
    requires
        1 <= level <= 6,
    ensures
        r == offset_level(level, offset as nat),
        1 <= r <= 6,
{
    if offset >= 5 {
        6
    } else {
        let n: u8 = level + offset as u8;
        if n >= 6 {
            6
        } else {
            n
        }
    }
}

fn prefixed_text(p: &str, t: &str) -> (r: String)
    ensures
        r@ == p@ + seq![' '] + t@,
{
    let mut r = String::from_str(p);
    r.append(" ");
    proof {
        reveal_strlit(" ");
    }
    r.append(t);
    r
}

proof fn lemma_rewrite_levels(es: Seq<MdEventView>, offset: nat, prefix: Option<Seq<char>>, i: int, st: HeadingState)
    ensures
        levels_ok(rewrite_from(es, offset, prefix, i, st)),
    decreases es.len() - i,
{
    if 0 <= i < es.len() {
        match es[i] {
            MdEventView::HeadingStart(l, raw) => {
                lemma_rewrite_levels(es, offset, prefix, i + 1, HeadingState { in_first: true, seen: true, injected: false });
                lemma_rewrite_levels(es, offset, prefix, i + 1, st);
            },
            MdEventView::HeadingEnd(l) => {
                lemma_rewrite_levels(es, offset, prefix, i + 1, HeadingState { in_first: false, ..st });
            },
            MdEventView::Text(t) => {
                lemma_rewrite_levels(es, offset, prefix, i + 1, HeadingState { injected: true, ..st });
                lemma_rewrite_levels(es, offset, prefix, i + 1, st);
            },
            MdEventView::Code(t) => {
                lemma_rewrite_levels(es, offset, prefix, i + 1, HeadingState { injected: true, ..st });
                lemma_rewrite_levels(es, offset, prefix, i + 1, st);
            },
            MdEventView::Other(raw) => {
                lemma_rewrite_levels(es, offset, prefix, i + 1, st);
            },
        }
        let r = rewrite_from(es, offset, prefix, i, st);
        assert forall|k: int| 0 <= k < r.len() implies match #[trigger] r[k] {
            MdEventView::HeadingStart(l, _) => 1 <= l <= 6,
            MdEventView::HeadingEnd(l) => 1 <= l <= 6,
            _ => true,
        } by {
            match es[i] {
                MdEventView::HeadingStart(l, raw) => {
                    if k > 0 {
                        if !st.seen {
                            assert(r[k] == rewrite_from(es, offset, prefix, i + 1, HeadingState { in_first: true, seen: true, injected: false })[k - 1]);
                        } else {
                            assert(r[k] == rewrite_from(es, offset, prefix, i + 1, st)[k - 1]);
                        }
                    }
                },
                MdEventView::HeadingEnd(l) => {
                    if k > 0 {
                        assert(r[k] == rewrite_from(es, offset, prefix, i + 1, HeadingState { in_first: false, ..st })[k - 1]);
                    }
                },
                MdEventView::Text(t) => {
                    if k > 0 {
                        if st.in_first && !st.injected {
                            assert(r[k] == rewrite_from(es, offset, prefix, i + 1, HeadingState { injected: true, ..st })[k - 1]);
                        } else {
                            assert(r[k] == rewrite_from(es, offset, prefix, i + 1, st)[k - 1]);
                        }
                    }
                },
                MdEventView::Code(t) => {
                    if st.in_first && !st.injected {
                        let head: Seq<MdEventView> = match prefix {
                            Some(p) => seq![MdEventView::Text(p + seq![' '])],
                            None => seq![],
                        };
                        if k > head.len() {
                            assert(r[k] == rewrite_from(es, offset, prefix, i + 1, HeadingState { injected: true, ..st })[k - head.len() - 1]);
                        }
                    } else if k > 0 {
                        assert(r[k] == rewrite_from(es, offset, prefix, i + 1, st)[k - 1]);
                    }
                },
                MdEventView::Other(raw) => {
                    if k > 0 {
                        assert(r[k] == rewrite_from(es, offset, prefix, i + 1, st)[k - 1]);
                    }
                },
            }
        }
    }
}

proof fn lemma_rewrite_identity_from(es: Seq<MdEventView>, i: int, st: HeadingState)
    requires
        levels_ok(es),
        0 <= i <= es.len(),
    ensures
        rewrite_from(es, 0, None, i, st) == es.subrange(i, es.len() as int),
    decreases es.len() - i,
{
    if i < es.len() {
        assert(match es[i] {
            MdEventView::HeadingStart(l, _) => 1 <= l <= 6,
            MdEventView::HeadingEnd(l) => 1 <= l <= 6,
            _ => true,
        });
        match es[i] {
            MdEventView::HeadingStart(l, raw) => {
                lemma_rewrite_identity_from(es, i + 1, HeadingState { in_first: true, seen: true, injected: false });
                lemma_rewrite_identity_from(es, i + 1, st);
            },
            MdEventView::HeadingEnd(l) => {
                lemma_rewrite_identity_from(es, i + 1, HeadingState { in_first: false, ..st });
            },
            MdEventView::Text(t) => {
                lemma_rewrite_identity_from(es, i + 1, HeadingState { injected: true, ..st });
                lemma_rewrite_identity_from(es, i + 1, st);
            },
            MdEventView::Code(t) => {
                lemma_rewrite_identity_from(es, i + 1, HeadingState { injected: true, ..st });
                lemma_rewrite_identity_from(es, i + 1, st);
            },
            MdEventView::Other(raw) => {
                lemma_rewrite_identity_from(es, i + 1, st);
            },
        }
        assert(es.subrange(i, es.len() as int) =~= seq![es[i]] + es.subrange(i + 1, es.len() as int));
        if let MdEventView::Code(t) = es[i] {
            assert(Seq::<MdEventView>::empty() + seq![MdEventView::Code(t)] =~= seq![MdEventView::Code(t)]);
        }
    } else {
        assert(es.subrange(i, es.len() as int) =~= Seq::<MdEventView>::empty());
    }
}

/// With no offset and no prefix, the rewriting leaves a body's events as they are.
pub proof fn lemma_rewrite_without_changes(es: Seq<MdEventView>)
    requires
        levels_ok(es),
    ensures
        rewrite_headings(es, 0, None) == es,
{
    lemma_rewrite_identity_from(es, 0, HeadingState { in_first: false, seen: false, injected: false });
    assert(es.subrange(0, es.len() as int) =~= es);
}

/// Rewrites the events of a body: every heading moves down by `offset` levels (at most
/// to level 6); the first text or code inside the first heading gets `prefix` and a
/// space before it.
pub fn rewrite_heading_events(events: Vec<MdEvent>, offset: usize, prefix: Option<&str>) -> (r: Vec<MdEvent>)
    requires
        levels_ok(events_view(events@)),
    ensures
        events_view(r@) == rewrite_headings(events_view(events@), offset as nat, match prefix {
            Some(p) => Some(p@),
            None => None,
        }),
        levels_ok(events_view(r@)),
{
    let ghost es = events_view(events@);
    let ghost pv: Option<Seq<char>> = match prefix {
        Some(p) => Some(p@),
        None => None,
    };
    let mut rest = events;
    let mut pending: Vec<MdEvent> = Vec::new();
    while rest.len() > 0
        invariant
            es.len() == rest@.len() + pending@.len(),
            forall|k: int| 0 <= k < rest@.len() ==> es[k] == (#[trigger] rest@[k])@,
            forall|k: int| 0 <= k < pending@.len() ==> es[es.len() - 1 - k] == (#[trigger] pending@[k])@,
        decreases rest.len(),
    {
        let e = rest.pop().unwrap();
        pending.push(e);
    }
    let mut out: Vec<MdEvent> = Vec::new();
    let mut in_first = false;
    let mut seen = false;
    let mut injected = false;
    let ghost mut i: int = 0;
    while pending.len() > 0
        invariant
            0 <= i <= es.len(),
            pending@.len() == es.len() - i,
            forall|k: int| 0 <= k < pending@.len() ==> es[es.len() - 1 - k] == (#[trigger] pending@[k])@,
            levels_ok(es),
            pv == match prefix {
                Some(p) => Some(p@),
                None => None::<Seq<char>>,
            },
            events_view(out@) + rewrite_from(es, offset as nat, pv, i, HeadingState { in_first, seen, injected })
                == rewrite_headings(es, offset as nat, pv),
        decreases pending.len(),
    {
        let e = pending.pop().unwrap();
        assert(es[i] == e@);
        let ghost st = HeadingState { in_first, seen, injected };
        let ghost before = events_view(out@);
        let ghost tail = rewrite_from(es, offset as nat, pv, i, st);
        let ghost pushed: Seq<MdEventView>;
        match e {
            MdEvent::HeadingStart(l, raw) => {
                assert(1 <= l <= 6) by {
                    assert(match es[i] {
                        MdEventView::HeadingStart(l, _) => 1 <= l <= 6,
                        MdEventView::HeadingEnd(l) => 1 <= l <= 6,
                        _ => true,
                    });
                }
                let nl = offset_level_exec(l, offset);
                out.push(MdEvent::HeadingStart(nl, raw));
                proof {
                    pushed = seq![MdEventView::HeadingStart(nl, raw)];
                }
                if !seen {
                    seen = true;
                    in_first = true;
                    injected = false;
                }
            },
            MdEvent::HeadingEnd(l) => {
                assert(1 <= l <= 6) by {
                    assert(match es[i] {
                        MdEventView::HeadingStart(l, _) => 1 <= l <= 6,
                        MdEventView::HeadingEnd(l) => 1 <= l <= 6,
                        _ => true,
                    });
                }
                let nl = offset_level_exec(l, offset);
                out.push(MdEvent::HeadingEnd(nl));
                proof {
                    pushed = seq![MdEventView::HeadingEnd(nl)];
                }
                in_first = false;
            },
            MdEvent::Text(t) => {
                let ghost tv = t@;
                if in_first && !injected {
                    match prefix {
                        Some(p) => {
                            let x = prefixed_text(p, t.as_str());
                            proof {
                                pushed = seq![MdEventView::Text(x@)];
                            }
                            out.push(MdEvent::Text(x));
                        },
                        None => {
                            proof {
                                pushed = seq![MdEventView::Text(tv)];
                            }
                            out.push(MdEvent::Text(t));
                        },
                    }
                    injected = true;
                } else {
                    proof {
                        pushed = seq![MdEventView::Text(tv)];
                    }
                    out.push(MdEvent::Text(t));
                }
            },
            MdEvent::Code(t) => {
                let ghost tv = t@;
                if in_first && !injected {
                    match prefix {
                        Some(p) => {
                            let mut lead = String::from_str(p);
                            lead.append(" ");
                            proof {
                                reveal_strlit(" ");
                                assert(lead@ =~= p@ + seq![' ']);
                                pushed = seq![MdEventView::Text(lead@), MdEventView::Code(tv)];
                            }
                            out.push(MdEvent::Text(lead));
                        },
                        None => {
                            proof {
                                pushed = seq![MdEventView::Code(tv)];
                            }
                        },
                    }
                    out.push(MdEvent::Code(t));
                    injected = true;
                } else {
                    proof {
                        pushed = seq![MdEventView::Code(tv)];
                    }
                    out.push(MdEvent::Code(t));
                }
            },
            MdEvent::Other(raw) => {
                out.push(MdEvent::Other(raw));
                proof {
                    pushed = seq![MdEventView::Other(raw)];
                }
            },
        }
        proof {
            let st2 = HeadingState { in_first, seen, injected };
            assert(events_view(out@) =~= before + pushed);
            match es[i] {
                MdEventView::HeadingStart(l, raw) => {
                    assert(tail =~= pushed + rewrite_from(es, offset as nat, pv, i + 1, st2));
                },
                MdEventView::HeadingEnd(l) => {
                    assert(tail =~= pushed + rewrite_from(es, offset as nat, pv, i + 1, st2));
                },
                MdEventView::Text(t) => {
                    assert(tail =~= pushed + rewrite_from(es, offset as nat, pv, i + 1, st2));
                },
                MdEventView::Code(t) => {
                    let rest = rewrite_from(es, offset as nat, pv, i + 1, st2);
                    if st.in_first && !st.injected {
                        match pv {
                            Some(pp) => {
                                assert(tail == seq![MdEventView::Text(pp + seq![' '])] + seq![MdEventView::Code(t)] + rest);
                            },
                            None => {
                                assert(tail == Seq::<MdEventView>::empty() + seq![MdEventView::Code(t)] + rest);
                            },
                        }
                    }
                    assert(tail =~= pushed + rest);
                },
                MdEventView::Other(raw) => {
                    assert(tail =~= pushed + rewrite_from(es, offset as nat, pv, i + 1, st2));
                },
            }
            assert(before + tail =~= events_view(out@) + rewrite_from(es, offset as nat, pv, i + 1, st2));
            i = i + 1;
        }
    }
    proof {
        assert(rewrite_from(es, offset as nat, pv, i, HeadingState { in_first, seen, injected }) =~= Seq::<MdEventView>::empty());
        assert(events_view(out@) =~= events_view(out@) + Seq::<MdEventView>::empty());
        lemma_rewrite_levels(es, offset as nat, pv, 0, HeadingState { in_first: false, seen: false, injected: false });
    }
    out
}

// ---------------------------------------------------------------------------
// Titles
// ---------------------------------------------------------------------------

/// `title` with `t` appended, separated by a space when `title` is not empty.
pub open spec fn join_word(title: Seq<char>, t: Seq<char>) -> Seq<char> {
    if title.len() > 0 {
        title + seq![' '] + t
    } else {
        t
    }
}

/// The texts and inline code of the first heading, from position `i` on, joined by
/// spaces; reading stops at the end of the first heading.
pub open spec fn heading_text_from(es: Seq<MdKind>, i: int, in_heading: bool, title: Seq<char>) -> Seq<char>
    decreases es.len() - i,
{
    if i < 0 || i >= es.len() {
        title
    } else {
        match es[i] {
            MdKind::HeadingStart(_) => if !in_heading && title.len() == 0 {
                heading_text_from(es, i + 1, true, title)
            } else {
                heading_text_from(es, i + 1, in_heading, title)
            },
            MdKind::HeadingEnd(_) => if in_heading {
                title
            } else {
                heading_text_from(es, i + 1, in_heading, title)
            },
            MdKind::Text(t) => if in_heading {
                heading_text_from(es, i + 1, in_heading, join_word(title, t))
            } else {
                heading_text_from(es, i + 1, in_heading, title)
            },
            MdKind::Code(t) => if in_heading {
                heading_text_from(es, i + 1, in_heading, join_word(title, t))
            } else {
                heading_text_from(es, i + 1, in_heading, title)
            },
            MdKind::Other => heading_text_from(es, i + 1, in_heading, title),
        }
    }
}

/// The title of a body: the trimmed text of its first heading, or `fallback` when that
/// is empty.
pub open spec fn title_of(body: Seq<char>, fallback: Seq<char>) -> Seq<char> {
    title_of_events(kinds(markdown_events(body, BODY_OPTIONS)), fallback)
}

fn join_word_exec(title: &mut String, t: &str)
    ensures
        final(title)@ == join_word(old(title)@, t@),
{
    if !title.as_str().is_empty() {
        title.append(" ");
        proof {
            reveal_strlit(" ");
        }
    }
    title.append(t);
}

/// The trimmed text of the first heading of `events` (texts and inline code joined by
/// spaces), or `fallback` when there is none or it is blank.
pub open spec fn title_of_events(events: Seq<MdKind>, fallback: Seq<char>) -> Seq<char> {
    let t = trim(heading_text_from(events, 0, false, seq![]));
    if t.len() == 0 {
        fallback
    } else {
        t
    }
}

/// The title read from a body's events: the trimmed text (texts and inline code joined
/// by spaces) of the first heading, or `fallback` when there is none or it is blank.
pub fn events_title(events: &Vec<MdEvent>, fallback: &str) -> (r: String)
    ensures
        r@ == title_of_events(kinds(events_view(events@)), fallback@),
{
    let ghost ks = kinds(events_view(events@));
    let mut in_heading = false;
    let mut title = String::new();
    let mut i: usize = 0;
    while i < events.len()
        invariant
            i <= events@.len(),
            ks == kinds(events_view(events@)),
            heading_text_from(ks, 0, false, seq![]) == heading_text_from(ks, i as int, in_heading, title@),
        ensures
            heading_text_from(ks, 0, false, seq![]) == title@,
        decreases events.len() - i,
    {
        assert(ks[i as int] == kind_of(events@[i as int]@));
        match &events[i] {
            MdEvent::HeadingStart(_, _) => {
                if !in_heading && title.as_str().is_empty() {
                    in_heading = true;
                }
            },
            MdEvent::HeadingEnd(_) => {
                if in_heading {
                    break;
                }
            },
            MdEvent::Text(t) => {
                if in_heading {
                    join_word_exec(&mut title, t.as_str());
                }
            },
            MdEvent::Code(t) => {
                if in_heading {
                    join_word_exec(&mut title, t.as_str());
                }
            },
            MdEvent::Other(_) => {},
        }
        i = i + 1;
    }
    let v = chars_of(title.as_str());
    let (a, b) = trim_bounds(&v);
    if a == b {
        String::from_str(fallback)
    } else {
        string_of(vstd::slice::slice_subrange(v.as_slice(), a, b))
    }
}

/// The title of a body: the trimmed text (texts and inline code joined by spaces) of its
/// first heading, or `fallback` when there is none or it is blank.
pub fn body_title(body: &str, fallback: &str) -> (r: String)
    ensures
        r@ == title_of(body@, fallback@),
{
    let events = md_events(body, BODY_OPTIONS);
    events_title(&events, fallback)
}

/// The HTML of a body: its events with headings moved down by `heading_base - 1` levels
/// and the first heading's text prefixed with `prefix`.
pub open spec fn body_html(body: Seq<char>, heading_base: nat, prefix: Option<Seq<char>>) -> Seq<char> {
    let offset: nat = if heading_base > 0 {
        (heading_base - 1) as nat
    } else {
        0
    };
    markdown_html(rewrite_headings(markdown_events(body, BODY_OPTIONS), offset, prefix))
}

/// Renders a body to HTML: its headings move down by `heading_base - 1` levels and the
/// first heading's text gets `heading_prefix` in front.
pub fn render_body_html(body: &str, heading_base: usize, heading_prefix: Option<&str>) -> (html: String)
    ensures
        html@ == body_html(body@, heading_base as nat, match heading_prefix {
            Some(p) => Some(p@),
            None => None,
        }),
{
    let events = md_events(body, BODY_OPTIONS);
    let offset = if heading_base > 0 {
        heading_base - 1
    } else {
        0
    };
    let rewritten = rewrite_heading_events(events, offset, heading_prefix);
    md_html(rewritten)
}

} // verus!
