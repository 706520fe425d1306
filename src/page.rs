use vstd::prelude::*;
use chrono::TimeZone;
use crate::document::{
    events_of, find_title, html_of, no_heading_start, parse_document, text_opt, title_of,
    tokens_of, lemma_no_heading_no_title, DocEvent,
};
use crate::history::HistoryMap;
use crate::text::{chars_of, string_of};

verus! {

/// `README.md`.
pub open spec fn readme_name() -> Seq<char> {
    seq!['R', 'E', 'A', 'D', 'M', 'E', '.', 'm', 'd']
}

/// `index.md`.
pub open spec fn index_md_name() -> Seq<char> {
    seq!['i', 'n', 'd', 'e', 'x', '.', 'm', 'd']
}

/// `index.html`, the name of a directory's index page.
pub open spec fn index_name() -> Seq<char> {
    seq!['i', 'n', 'd', 'e', 'x', '.', 'h', 't', 'm', 'l']
}

/// `.md`, the source extension.
pub open spec fn md_ext() -> Seq<char> {
    seq!['.', 'm', 'd']
}

/// `.html`, the output extension.
pub open spec fn html_ext() -> Seq<char> {
    seq!['.', 'h', 't', 'm', 'l']
}

/// Whether `p` ends with `suf`.
pub open spec fn ends_with(p: Seq<char>, suf: Seq<char>) -> bool {
    p.len() >= suf.len() && p.subrange(p.len() - suf.len(), p.len() as int) == suf
}

/// Whether the last component of `p` is exactly `README.md`.
pub open spec fn is_readme(p: Seq<char>) -> bool {
    ends_with(p, readme_name()) && (p.len() == 9 || p[p.len() - 10] == '/')
}

/// A directory prefix: empty, or ending in `/`.
pub open spec fn is_dir_prefix(d: Seq<char>) -> bool {
    d.len() == 0 || d.last() == '/'
}

/// Where the page of source `p` is written: `README.md` becomes
/// `index.html` in the same directory; otherwise a trailing `.md` becomes
/// `.html`, and a path without it gets `.html` appended.
pub open spec fn destination(p: Seq<char>) -> Seq<char> {
    if is_readme(p) {
        p.subrange(0, p.len() - 9) + index_name()
    } else if ends_with(p, md_ext()) {
        p.subrange(0, p.len() - 3) + html_ext()
    } else {
        p + html_ext()
    }
}

/// Whether `s` ends with `suf`.
fn ends_with_chars(s: &[char], suf: &[char]) -> (r: bool)
    ensures
        r == ends_with(s@, suf@),
{
    if s.len() < suf.len() {
        return false;
    }
    let off = s.len() - suf.len();
    let mut i: usize = 0;
    while i < suf.len()
        invariant
            off + suf@.len() == s@.len(),
            s@.len() <= usize::MAX,
            i <= suf@.len(),
            forall|j: int| 0 <= j < i ==> s@[off + j] == suf@[j],
        decreases suf@.len() - i,
    {
        if s[off + i] != suf[i] {
            assert(s@.subrange(off as int, s@.len() as int)[i as int] != suf@[i as int]);
            return false;
        }
        i = i + 1;
    }
    assert(s@.subrange(off as int, s@.len() as int) =~= suf@);
    true
}

/// `s[..n]` followed by `tail`.
fn prefix_then(s: &[char], n: usize, tail: &[char]) -> (r: Vec<char>)
    requires
        n <= s@.len(),
    ensures
        r@ == s@.subrange(0, n as int) + tail@,
{
    let mut out: Vec<char> = Vec::new();
    let mut i: usize = 0;
    while i < n
        invariant
            n <= s@.len(),
            i <= n,
            out@ == s@.subrange(0, i as int),
        decreases n - i,
    {
        out.push(s[i]);
        assert(out@ =~= s@.subrange(0, i + 1));
        i = i + 1;
    }
    let mut j: usize = 0;
    while j < tail.len()
        invariant
            j <= tail@.len(),
            out@ == s@.subrange(0, n as int) + tail@.subrange(0, j as int),
        decreases tail@.len() - j,
    {
        out.push(tail[j]);
        assert(out@ =~= s@.subrange(0, n as int) + tail@.subrange(0, j + 1));
        j = j + 1;
    }
    assert(tail@.subrange(0, j as int) =~= tail@);
    out
}

/// The output path of the page of source `path`.
pub fn destination_path(path: &str) -> (r: String)
    ensures
        r@ == destination(path@),
{
    let p = chars_of(path);
    let readme: Vec<char> = vec!['R', 'E', 'A', 'D', 'M', 'E', '.', 'm', 'd'];
    let md: Vec<char> = vec!['.', 'm', 'd'];
    let html: Vec<char> = vec!['.', 'h', 't', 'm', 'l'];
    let index: Vec<char> = vec!['i', 'n', 'd', 'e', 'x', '.', 'h', 't', 'm', 'l'];
    assert(readme@ =~= readme_name());
    assert(md@ =~= md_ext());
    assert(html@ =~= html_ext());
    assert(index@ =~= index_name());
    let out = if ends_with_chars(p.as_slice(), readme.as_slice()) && (p.len() == 9 || p[p.len()
        - 10] == '/') {
        prefix_then(p.as_slice(), p.len() - 9, index.as_slice())
    } else if ends_with_chars(p.as_slice(), md.as_slice()) {
        prefix_then(p.as_slice(), p.len() - 3, html.as_slice())
    } else {
        let r = prefix_then(p.as_slice(), p.len(), html.as_slice());
        assert(p@.subrange(0, p@.len() as int) =~= p@);
        r
    };
    string_of(out.as_slice())
}

/// `README.md` in any directory maps to `index.html` in that directory, and
/// so does `index.md` there: the two pages share one output path.
pub proof fn lemma_readme_is_index(d: Seq<char>)
    requires
        is_dir_prefix(d),
    ensures
        destination(d + readme_name()) == d + index_name(),
        destination(d + index_md_name()) == d + index_name(),
{
    let p = d + readme_name();
    assert(p.subrange(p.len() - 9, p.len() as int) =~= readme_name());
    if d.len() > 0 {
        assert(p[p.len() - 10] == d.last());
    }
    assert(p.subrange(0, p.len() - 9) =~= d);
    let q = d + index_md_name();
    assert(q.subrange(q.len() - 3, q.len() as int) =~= md_ext());
    assert(!ends_with(q, readme_name())) by {
        if q.len() >= 9 {
            assert(q.subrange(q.len() - 9, q.len() as int)[3] != readme_name()[3]);
        }
    }
    assert(q.subrange(0, q.len() - 3) + html_ext() =~= d + index_name());
}

/// The text of a UTC timestamp as the date library writes it, or `None`
/// where it lies outside the library's range of dates.
pub uninterp spec fn utc_text(secs: i64) -> Option<Seq<char>>;

/// Relies on chrono's `Utc.timestamp_opt(secs, 0)` (`None` out of range) and
/// the `Display` of `DateTime<Utc>` (`2015-05-15 00:00:00 UTC`).
#[verifier::external_body]
fn utc_timestamp_text(secs: i64) -> (r: Option<String>)
    ensures
        text_opt(r) == utc_text(secs),
{
    chrono::Utc.timestamp_opt(secs, 0).single().map(|d| d.to_string())
}

/// The text of a `u64` timestamp; `None` where it does not fit an `i64`.
pub open spec fn stamp_text(t: Option<u64>) -> Option<Seq<char>> {
    match t {
        Some(s) => if s <= i64::MAX {
            utc_text(s as i64)
        } else {
            None
        },
        None => None,
    }
}

/// The text of an optional `u64` timestamp.
fn timestamp_text(t: Option<u64>) -> (r: Option<String>)
    ensures
        text_opt(r) == stamp_text(t),
{
    match t {
        Some(s) => if s <= i64::MAX as u64 {
            utc_timestamp_text(s as i64)
        } else {
            None
        },
        None => None,
    }
}

/// The oldest of a newest-first list.
pub open spec fn oldest(s: Seq<u64>) -> Option<u64> {
    if s.len() == 0 {
        None
    } else {
        Some(s.last())
    }
}

/// The newest of a newest-first list.
pub open spec fn newest(s: Seq<u64>) -> Option<u64> {
    if s.len() == 0 {
        None
    } else {
        Some(s[0])
    }
}

/// The history recorded for `k`, or none.
pub open spec fn history_for(m: Map<Seq<char>, Seq<u64>>, k: Seq<char>) -> Seq<u64> {
    if m.contains_key(k) {
        m[k]
    } else {
        Seq::empty()
    }
}

/// The title a page gets: its document's title, or else its source path.
pub open spec fn title_or_path(title: Option<Seq<char>>, path: Seq<char>) -> Seq<char> {
    match title {
        Some(t) => t,
        None => path,
    }
}

/// One generated page.
pub struct Page {
    /// The last text run inside a top-level heading (of the last such
    /// heading, where there are several), or the source path where there is
    /// none.
    pub title: String,
    /// The rendered markup of the whole document.
    pub html: String,
    /// Where the page is written, relative to the output root.
    pub html_path: String,
    /// The byte length of the source file.
    pub size: u64,
    /// The commit timestamps that touched the source, newest first.
    pub changes: Vec<u64>,
    /// The text of the oldest change.
    pub created_at: Option<String>,
    /// The text of the newest change.
    pub last_modified_at: Option<String>,
}

impl Page {
    /// The timestamp of the oldest change, if any.
    pub fn created_at(&self) -> (r: Option<u64>)
        ensures
            r == oldest(self.changes@),
    {
        if self.changes.len() == 0 {
            None
        } else {
            Some(self.changes[self.changes.len() - 1])
        }
    }

    /// The timestamp of the newest change, if any.
    pub fn last_modified_at(&self) -> (r: Option<u64>)
        ensures
            r == newest(self.changes@),
    {
        if self.changes.len() == 0 {
            None
        } else {
            Some(self.changes[0])
        }
    }

    /// The page of source `path`, from its parsed events and rendered
    /// markup, its byte size, and the history of all sources.
    pub fn assemble(
        path: &str,
        events: &Vec<DocEvent>,
        html: String,
        size: u64,
        history: &HistoryMap,
    ) -> (r: Page)
        requires
            history.wf(),
        ensures
            r.title@ == title_or_path(title_of(tokens_of(events@)), path@),
            r.html@ == html@,
            r.html_path@ == destination(path@),
            r.size == size,
            r.changes@ == history_for(history@, path@),
            text_opt(r.created_at) == stamp_text(oldest(r.changes@)),
            text_opt(r.last_modified_at) == stamp_text(newest(r.changes@)),
    {
        let title = match find_title(events) {
            Some(t) => t,
            None => path.to_owned(),
        };
        let key = path.to_owned();
        let changes = history.lookup(&key);
        let mut page = Page {
            title,
            html,
            html_path: destination_path(path),
            size,
            changes,
            created_at: None,
            last_modified_at: None,
        };
        page.created_at = timestamp_text(page.created_at());
        page.last_modified_at = timestamp_text(page.last_modified_at());
        page
    }
}

/// The title of the page of source `path` with text `src`.
pub open spec fn page_title(src: Seq<char>, path: Seq<char>) -> Seq<char> {
    title_or_path(title_of(events_of(src)), path)
}

/// Builds the page of source `path` with text `source`: parses it once,
/// takes the title and the markup from that one parse, and looks up its
/// history by the source path.
pub fn build_page(path: &str, source: &str, size: u64, history: &HistoryMap) -> (r: Page)
    requires
        history.wf(),
    ensures
        r.title@ == page_title(source@, path@),
        r.html@ == html_of(source@),
        r.html_path@ == destination(path@),
        r.size == size,
        r.changes@ == history_for(history@, path@),
        text_opt(r.created_at) == stamp_text(oldest(r.changes@)),
        text_opt(r.last_modified_at) == stamp_text(newest(r.changes@)),
{
    let (events, html) = parse_document(source);
    Page::assemble(path, &events, html, size, history)
}

/// A document without a top-level heading gives a page titled by its source
/// path.
pub proof fn lemma_untitled_page_uses_path(src: Seq<char>, path: Seq<char>)
    requires
        no_heading_start(events_of(src)),
    ensures
        page_title(src, path) == path,
{
    lemma_no_heading_no_title(events_of(src));
}

} // verus!
