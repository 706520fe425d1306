use vstd::prelude::*;
use itertools::Itertools;
use crate::page::{index_name, Page};
use crate::text::string_of;

verus! {

/// Strict lexicographic order of texts, by code point; a proper prefix
/// comes first. This is the order of `String`s.
pub open spec fn text_lt(a: Seq<char>, b: Seq<char>) -> bool
    decreases a.len(),
{
    if b.len() == 0 {
        false
    } else if a.len() == 0 {
        true
    } else if a[0] != b[0] {
        (a[0] as u32) < (b[0] as u32)
    } else {
        text_lt(a.drop_first(), b.drop_first())
    }
}

/// `r` lists each of `0..n` exactly once.
pub open spec fn is_index_permutation(r: Seq<usize>, n: nat) -> bool {
    &&& r.len() == n
    &&& forall|i: int| 0 <= i < r.len() ==> #[trigger] r[i] < n
    &&& forall|i: int, j: int| 0 <= i < j < r.len() ==> r[i] != r[j]
    &&& forall|k: int| 0 <= k < n ==> #[trigger] occurs(r, k)
}

/// `k` stands somewhere in `r`.
pub open spec fn occurs(r: Seq<usize>, k: int) -> bool {
    exists|i: int| 0 <= i < r.len() && r[i] == k
}

/// The indices `r` order the texts `t` ascending, and equal texts keep the
/// order of their indices.
pub open spec fn sorted_stably(t: Seq<Seq<char>>, r: Seq<usize>) -> bool {
    forall|i: int, j: int|
        0 <= i < j < r.len() ==> !text_lt(#[trigger] t[r[j] as int], #[trigger] t[r[i] as int]) && (
        t[r[i] as int] == t[r[j] as int] ==> r[i] < r[j])
}

/// The characters of each string.
pub open spec fn texts_of(v: Seq<String>) -> Seq<Seq<char>> {
    v.map_values(|s: String| s@)
}

/// Relies on itertools' `sorted_by_key`, a stable sort (`slice::sort_by_key`),
/// keyed by each `String`, whose order is byte-wise and so that of code
/// points: the positions of the titles, ascending by title, ties in position
/// order.
#[verifier::external_body]
fn order_by_title(titles: &Vec<String>) -> (r: Vec<usize>)
    ensures
        is_index_permutation(r@, titles@.len()),
        sorted_stably(texts_of(titles@), r@),
{
    titles.iter().enumerate().sorted_by_key(|e| e.1).map(|e| e.0).collect()
}

/// Whether `page` is the top-level index, the page that shows the contents.
pub fn is_site_index(page: &Page) -> (r: bool)
    ensures
        r == (page.html_path@ == index_name()),
{
    let index = string_of(vec!['i', 'n', 'd', 'e', 'x', '.', 'h', 't', 'm', 'l'].as_slice());
    assert(index@ =~= index_name());
    page.html_path == index
}

/// The table of contents: the positions of all pages but the top-level
/// index, each once, ascending by title, pages of equal title in the order
/// given.
pub fn table_of_contents(pages: &Vec<Page>) -> (r: Vec<usize>)
    ensures
        forall|i: int|
            0 <= i < r@.len() ==> #[trigger] r@[i] < pages@.len() && pages@[r@[i] as int].html_path@
                != index_name(),
        forall|k: int|
            0 <= k < pages@.len() && pages@[k].html_path@ != index_name() ==> exists|i: int|
                0 <= i < r@.len() && #[trigger] r@[i] == k,
        forall|i: int, j: int| 0 <= i < j < r@.len() ==> r@[i] != r@[j],
        forall|i: int, j: int|
            0 <= i < j < r@.len() ==> !text_lt(
                #[trigger] pages@[r@[j] as int].title@,
                #[trigger] pages@[r@[i] as int].title@,
            ) && (pages@[r@[i] as int].title@ == pages@[r@[j] as int].title@ ==> r@[i] < r@[j]),
{
    let mut keep: Vec<usize> = Vec::new();
    let mut titles: Vec<String> = Vec::new();
    let mut k: usize = 0;
    while k < pages.len()
        invariant
            k <= pages@.len(),
            keep@.len() == titles@.len(),
            forall|a: int, b: int| 0 <= a < b < keep@.len() ==> keep@[a] < keep@[b],
            forall|a: int|
                0 <= a < keep@.len() ==> #[trigger] keep@[a] < k && pages@[keep@[a] as int].html_path@
                    != index_name() && titles@[a]@ == pages@[keep@[a] as int].title@,
            forall|q: int|
                0 <= q < k && pages@[q].html_path@ != index_name() ==> exists|a: int|
                    0 <= a < keep@.len() && #[trigger] keep@[a] == q,
        decreases pages@.len() - k,
    {
        if !is_site_index(&pages[k]) {
            let ghost before = keep@;
            keep.push(k);
            titles.push(pages[k].title.clone());
            proof {
                assert forall|q: int|
                    0 <= q < k + 1 && pages@[q].html_path@ != index_name() implies exists|a: int|
                    0 <= a < keep@.len() && #[trigger] keep@[a] == q by {
                    if q == k {
                        assert(keep@[keep@.len() - 1] == q);
                    } else {
                        let a = choose|a: int| 0 <= a < before.len() && #[trigger] before[a] == q;
                        assert(keep@[a] == q);
                    }
                }
            }
        }
        k = k + 1;
    }
    let order = order_by_title(&titles);
    let ghost t = texts_of(titles@);
    let mut out: Vec<usize> = Vec::new();
    let mut i: usize = 0;
    while i < order.len()
        invariant
            i <= order@.len(),
            is_index_permutation(order@, titles@.len()),
            sorted_stably(t, order@),
            t == texts_of(titles@),
            keep@.len() == titles@.len(),
            out@.len() == i,
            forall|a: int| 0 <= a < i ==> #[trigger] out@[a] == keep@[order@[a] as int],
        decreases order@.len() - i,
    {
        let o = order[i];
        assert(order@[i as int] < titles@.len());
        out.push(keep[o]);
        i = i + 1;
    }
    proof {
        assert forall|a: int|
            0 <= a < out@.len() implies #[trigger] out@[a] < pages@.len() && pages@[out@[a] as int].html_path@
            != index_name() by {
            assert(order@[a] < keep@.len());
            assert(keep@[order@[a] as int] < pages@.len());
        }
        assert forall|q: int|
            0 <= q < pages@.len() && pages@[q].html_path@ != index_name() implies exists|a: int|
            0 <= a < out@.len() && #[trigger] out@[a] == q by {
            let b = choose|b: int| 0 <= b < keep@.len() && #[trigger] keep@[b] == q;
            assert(occurs(order@, b));
            let a = choose|a: int| 0 <= a < order@.len() && order@[a] == b;
            assert(out@[a] == q);
        }
        assert forall|a: int, b: int| 0 <= a < b < out@.len() implies out@[a] != out@[b] by {
            let x = order@[a] as int;
            let y = order@[b] as int;
            assert(x != y);
            assert(order@[a] < keep@.len() && order@[b] < keep@.len());
            if x < y {
                assert(keep@[x] < keep@[y]);
            } else {
                assert(keep@[y] < keep@[x]);
            }
        }
        assert forall|a: int, b: int| 0 <= a < b < out@.len() implies !text_lt(
            #[trigger] pages@[out@[b] as int].title@,
            #[trigger] pages@[out@[a] as int].title@,
        ) && (pages@[out@[a] as int].title@ == pages@[out@[b] as int].title@ ==> out@[a]
            < out@[b]) by {
            let x = order@[a] as int;
            let y = order@[b] as int;
            assert(order@[a] < keep@.len() && order@[b] < keep@.len());
            assert(t[x] == pages@[out@[a] as int].title@);
            assert(t[y] == pages@[out@[b] as int].title@);
            assert(!text_lt(t[y], t[x]));
            if t[x] == t[y] {
                assert(x < y);
                assert(keep@[x] < keep@[y]);
            }
        }
    }
    out
}

} // verus!
