use vstd::prelude::*;
use itertools::Itertools;
use pulldown_cmark::{Event, Tag};

verus! {

/// One event of a parsed document, as far as title extraction reads it.
#[derive(Debug, PartialEq, Eq)]
pub enum DocEvent {
    /// The start of a heading of the given level (1 is top-level).
    HeadingStart(u8),
    /// The end of a heading of the given level.
    HeadingEnd(u8),
    /// A run of text.
    Text(String),
    /// Any other event.
    Other,
}

/// The mathematical form of a `DocEvent`.
pub enum Token {
    HeadingStart(u8),
    HeadingEnd(u8),
    Text(Seq<char>),
    Other,
}

impl View for DocEvent {
    type V = Token;

    open spec fn view(&self) -> Token {
        match self {
            DocEvent::HeadingStart(l) => Token::HeadingStart(*l),
            DocEvent::HeadingEnd(l) => Token::HeadingEnd(*l),
            DocEvent::Text(s) => Token::Text(s@),
            DocEvent::Other => Token::Other,
        }
    }
}

/// The mathematical form of an event list.
pub open spec fn tokens_of(v: Seq<DocEvent>) -> Seq<Token> {
    v.map_values(|e: DocEvent| e@)
}

/// The characters of an optional string.
pub open spec fn text_opt(o: Option<String>) -> Option<Seq<char>> {
    match o {
        Some(s) => Some(s@),
        None => None,
    }
}

/// The event stream that the markdown parser makes of a source text.
pub uninterp spec fn events_of(src: Seq<char>) -> Seq<Token>;

/// The markup that the markdown renderer writes for a source text.
pub uninterp spec fn html_of(src: Seq<char>) -> Seq<char>;

/// Relies on `pulldown_cmark::Parser::new`, `itertools::Itertools::tee` and
/// `pulldown_cmark::html::push_html`: the text is parsed once, and the one
/// event stream feeds both the returned events (heading starts and ends with
/// their level, whose `H1` is 1, and text runs; all else marked as other) and
/// the rendered markup.
#[verifier::external_body]
pub(crate) fn parse_document(src: &str) -> (r: (Vec<DocEvent>, String))
    ensures
        tokens_of(r.0@) == events_of(src@),
        r.1@ == html_of(src@),
{
    let (events, rest) = pulldown_cmark::Parser::new(src).tee();
    let mut tokens = Vec::new();
    for e in events {
        tokens.push(match e {
            Event::Start(Tag::Heading(l, _, _)) => DocEvent::HeadingStart(l as u8),
            Event::End(Tag::Heading(l, _, _)) => DocEvent::HeadingEnd(l as u8),
            Event::Text(t) => DocEvent::Text(t.to_string()),
            _ => DocEvent::Other,
        });
    }
    let mut html = String::new();
    pulldown_cmark::html::push_html(&mut html, rest);
    (tokens, html)
}

/// After the given events: whether a top-level heading is open, and the
/// last text seen inside one.
pub open spec fn title_scan(ev: Seq<Token>) -> (bool, Option<Seq<char>>)
    decreases ev.len(),
{
    if ev.len() == 0 {
        (false, None)
    } else {
        let (open, title) = title_scan(ev.drop_last());
        match ev.last() {
            Token::HeadingStart(l) => if l == 1 {
                (true, title)
            } else {
                (open, title)
            },
            Token::HeadingEnd(l) => if l == 1 {
                (false, title)
            } else {
                (open, title)
            },
            Token::Text(t) => (open, if open { Some(t) } else { title }),
            Token::Other => (open, title),
        }
    }
}

/// The title of an event stream: the last text run seen inside a top-level
/// heading, so where there are several such headings, the last one's last
/// run; `None` where there is none.
pub open spec fn title_of(ev: Seq<Token>) -> Option<Seq<char>> {
    title_scan(ev).1
}

/// No top-level heading starts among the events.
pub open spec fn no_heading_start(ev: Seq<Token>) -> bool {
    forall|i: int| 0 <= i < ev.len() ==> #[trigger] ev[i] != Token::HeadingStart(1)
}

/// The text of the last text run inside a top-level heading; `None` where
/// the events hold no text inside one.
pub fn find_title(events: &Vec<DocEvent>) -> (r: Option<String>)
    ensures
        text_opt(r) == title_of(tokens_of(events@)),
{
    let ghost ts = tokens_of(events@);
    let mut heading = false;
    let mut title: Option<String> = None;
    let mut i: usize = 0;
    while i < events.len()
        invariant
            i <= events@.len(),
            ts == tokens_of(events@),
            title_scan(ts.subrange(0, i as int)) == (heading, text_opt(title)),
        decreases events@.len() - i,
    {
        assert(ts.subrange(0, i + 1).drop_last() =~= ts.subrange(0, i as int));
        assert(ts.subrange(0, i + 1).last() == events@[i as int]@);
        match &events[i] {
            DocEvent::HeadingStart(l) => {
                if *l == 1 {
                    heading = true;
                }
            },
            DocEvent::HeadingEnd(l) => {
                if *l == 1 {
                    heading = false;
                }
            },
            DocEvent::Text(t) => {
                if heading {
                    title = Some(t.clone());
                }
            },
            DocEvent::Other => {},
        }
        i = i + 1;
    }
    assert(ts.subrange(0, i as int) =~= ts);
    title
}

proof fn lemma_scan_closed_tail(a: Seq<Token>, b: Seq<Token>)
    requires
        !title_scan(a).0,
        no_heading_start(b),
    ensures
        title_scan(a + b) == (false, title_scan(a).1),
    decreases b.len(),
{
    if b.len() > 0 {
        assert((a + b).drop_last() =~= a + b.drop_last());
        assert(no_heading_start(b.drop_last())) by {
            assert forall|i: int| 0 <= i < b.drop_last().len() implies #[trigger] b.drop_last()[i]
                != Token::HeadingStart(1) by {
                assert(b.drop_last()[i] == b[i]);
            }
        }
        lemma_scan_closed_tail(a, b.drop_last());
        assert((a + b).last() == b[b.len() - 1]);
    } else {
        assert(a + b =~= a);
    }
}

/// Events with no top-level heading give no title.
pub proof fn lemma_no_heading_no_title(ev: Seq<Token>)
    requires
        no_heading_start(ev),
    ensures
        title_of(ev) == None::<Seq<char>>,
{
    lemma_scan_closed_tail(Seq::empty(), ev);
    assert(Seq::<Token>::empty() + ev =~= ev);
}

/// A stream with exactly one top-level heading, holding one text run, has
/// that text as its title, whatever surrounds the heading.
pub proof fn lemma_single_heading_title(pre: Seq<Token>, text: Seq<char>, post: Seq<Token>)
    requires
        no_heading_start(pre),
        no_heading_start(post),
    ensures
        title_of(
            pre + seq![Token::HeadingStart(1), Token::Text(text), Token::HeadingEnd(1)] + post,
        ) == Some(text),
{
    let head = seq![Token::HeadingStart(1), Token::Text(text), Token::HeadingEnd(1)];
    lemma_no_heading_no_title(pre);
    lemma_scan_closed_tail(Seq::empty(), pre);
    assert(Seq::<Token>::empty() + pre =~= pre);
    let a = pre + head;
    assert(a.drop_last().drop_last().drop_last() =~= pre);
    assert(a.drop_last().drop_last().last() == Token::HeadingStart(1));
    assert(a.drop_last().last() == Token::Text(text));
    assert(a.last() == Token::HeadingEnd(1));
    assert(title_scan(pre) == (false, None::<Seq<char>>));
    assert(title_scan(a.drop_last().drop_last()) == (true, None::<Seq<char>>));
    assert(title_scan(a.drop_last()) == (true, Some(text)));
    assert(title_scan(a) == (false, Some(text)));
    lemma_scan_closed_tail(a, post);
}

} // verus!
