use vstd::prelude::*;
use crate::history::{
    commit_word, decimal_value, history_of, record, rename_sep, rename_target, replay, sep_from,
    HistoryError, LogState,
};
use crate::text::split;

verus! {

/// `c` does not occur in `s`.
pub open spec fn lacks(s: Seq<char>, c: char) -> bool {
    forall|i: int| 0 <= i < s.len() ==> s[i] != c
}

proof fn lemma_split_single(s: Seq<char>, sep: char)
    requires
        lacks(s, sep),
    ensures
        split(s, sep) == seq![s],
    decreases s.len(),
{
    if s.len() > 0 {
        assert(lacks(s.drop_last(), sep)) by {
            assert forall|i: int| 0 <= i < s.drop_last().len() implies s.drop_last()[i] != sep by {
                assert(s.drop_last()[i] == s[i]);
            }
        }
        lemma_split_single(s.drop_last(), sep);
        assert(s.drop_last().push(s.last()) =~= s);
        assert(seq![s.drop_last()].update(0, s.drop_last().push(s.last())) =~= seq![s]);
    } else {
        assert(s =~= Seq::<char>::empty());
    }
}

proof fn lemma_split_snoc(a: Seq<char>, sep: char, b: Seq<char>)
    requires
        lacks(b, sep),
    ensures
        split(a + seq![sep] + b, sep) == split(a, sep).push(b),
    decreases b.len(),
{
    let p = a + seq![sep] + b;
    if b.len() == 0 {
        assert(p.drop_last() =~= a);
        assert(b =~= Seq::<char>::empty());
    } else {
        assert(lacks(b.drop_last(), sep)) by {
            assert forall|i: int| 0 <= i < b.drop_last().len() implies b.drop_last()[i] != sep by {
                assert(b.drop_last()[i] == b[i]);
            }
        }
        lemma_split_snoc(a, sep, b.drop_last());
        assert(p.drop_last() =~= a + seq![sep] + b.drop_last());
        assert(p.last() == b.last());
        let r = split(a, sep).push(b.drop_last());
        assert(b.drop_last().push(b.last()) =~= b);
        assert(r.update(r.len() - 1, r.last().push(b.last())) =~= split(a, sep).push(b));
    }
}

/// The fields of `x<TAB>y<TAB>z` where none of the three holds a tab.
proof fn lemma_three_fields(x: Seq<char>, y: Seq<char>, z: Seq<char>)
    requires
        lacks(x, '\t'),
        lacks(y, '\t'),
        lacks(z, '\t'),
    ensures
        split(x + seq!['\t'] + y + seq!['\t'] + z, '\t') == seq![x, y, z],
{
    lemma_split_single(x, '\t');
    lemma_split_snoc(x, '\t', y);
    lemma_split_snoc(x + seq!['\t'] + y, '\t', z);
    assert(seq![x].push(y).push(z) =~= seq![x, y, z]);
}

proof fn lemma_lacks_concat(a: Seq<char>, b: Seq<char>, c: char)
    requires
        lacks(a, c),
        lacks(b, c),
    ensures
        lacks(a + b, c),
{
    assert forall|i: int| 0 <= i < (a + b).len() implies (a + b)[i] != c by {
        if i < a.len() {
            assert((a + b)[i] == a[i]);
        } else {
            assert((a + b)[i] == b[i - a.len()]);
        }
    }
}

proof fn lemma_sep_from_none(p: Seq<char>, from: int)
    requires
        0 <= from,
        forall|j: int| from <= j && j + 4 <= p.len() ==> #[trigger] p.subrange(j, j + 4) != rename_sep(),
    ensures
        sep_from(p, from) == -1,
    decreases p.len() - from,
{
    if from + 4 <= p.len() {
        lemma_sep_from_none(p, from + 1);
    }
}

proof fn lemma_sep_from_none_all(p: Seq<char>, from: int, j: int)
    requires
        0 <= from <= j,
        j + 4 <= p.len(),
        sep_from(p, from) == -1,
    ensures
        p.subrange(j, j + 4) != rename_sep(),
    decreases j - from,
{
    if from < j {
        lemma_sep_from_none_all(p, from + 1, j);
    }
}

proof fn lemma_sep_from_at(p: Seq<char>, from: int, k: int)
    requires
        0 <= from <= k,
        k + 4 <= p.len(),
        p.subrange(k, k + 4) == rename_sep(),
        forall|j: int| from <= j < k ==> #[trigger] p.subrange(j, j + 4) != rename_sep(),
    ensures
        sep_from(p, from) == k,
    decreases k - from,
{
    if from < k {
        lemma_sep_from_at(p, from + 1, k);
    }
}

/// A rename `o => n`, where `o` and `n` hold no separator and `o` does not end
/// in ` =>` (so that the written separator is the first), resolves to `n`.
proof fn lemma_rename_resolves(o: Seq<char>, n: Seq<char>)
    requires
        sep_from(o, 0) == -1,
        sep_from(n, 0) == -1,
        !(o.len() >= 3 && o.subrange(o.len() - 3, o.len() as int) == seq![' ', '=', '>']),
    ensures
        rename_target(o + rename_sep() + n) == n,
{
    let p = o + rename_sep() + n;
    let k = o.len() as int;
    assert(p.subrange(k, k + 4) =~= rename_sep());
    assert forall|j: int| 0 <= j < k implies #[trigger] p.subrange(j, j + 4) != rename_sep() by {
        if j + 4 <= k {
            lemma_sep_from_none_all(o, 0, j);
            assert(p.subrange(j, j + 4) =~= o.subrange(j, j + 4));
        } else if j == k - 1 {
            assert(p.subrange(j, j + 4)[1] == ' ');
        } else if j == k - 2 {
            assert(p.subrange(j, j + 4)[2] == ' ');
        } else {
            assert(j == k - 3);
            if p.subrange(j, j + 4) == rename_sep() {
                assert(o.subrange(k - 3, k) =~= seq![' ', '=', '>']) by {
                    assert(o.subrange(k - 3, k) =~= p.subrange(j, j + 4).subrange(0, 3));
                }
            }
        }
    }
    lemma_sep_from_at(p, 0, k);
    assert forall|j: int| k + 4 <= j && j + 4 <= p.len() implies #[trigger] p.subrange(j, j + 4)
        != rename_sep() by {
        lemma_sep_from_none_all(n, 0, j - k - 4);
        assert(p.subrange(j, j + 4) =~= n.subrange(j - k - 4, j - k));
    }
    lemma_sep_from_none(p, k + 4);
    assert(p.subrange(k + 4, p.len() as int) =~= n);
}

/// Two commits, newest first, where the newer changes `n` and the older
/// renames `o` to `n`: the history holds one entry, under `n`, with the
/// newer timestamp first. The hashes and fields hold no tab or line break,
/// and `o` and `n` no rename separator; nor does `o` end in ` =>`, which
/// would make the separator start inside it.
pub proof fn lemma_rename_history(
    h1: Seq<char>,
    d1: Seq<char>,
    t1: u64,
    h2: Seq<char>,
    d2: Seq<char>,
    t2: u64,
    o: Seq<char>,
    n: Seq<char>,
)
    requires
        decimal_value(d1) == Some(t1),
        decimal_value(d2) == Some(t2),
        lacks(h1, '\t') && lacks(h1, '\n') && lacks(d1, '\t') && lacks(d1, '\n'),
        lacks(h2, '\t') && lacks(h2, '\n') && lacks(d2, '\t') && lacks(d2, '\n'),
        lacks(o, '\t') && lacks(o, '\n') && lacks(n, '\t') && lacks(n, '\n'),
        sep_from(o, 0) == -1,
        sep_from(n, 0) == -1,
        !(o.len() >= 3 && o.subrange(o.len() - 3, o.len() as int) == seq![' ', '=', '>']),
    ensures
        ({
            let tab = seq!['\t'];
            let nl = seq!['\n'];
            let l1 = commit_word() + tab + h1 + tab + d1;
            let l2 = seq!['1'] + tab + seq!['0'] + tab + n;
            let l3 = Seq::<char>::empty();
            let l4 = commit_word() + tab + h2 + tab + d2;
            let l5 = seq!['3'] + tab + seq!['1'] + tab + (o + rename_sep() + n);
            history_of(l1 + nl + l2 + nl + l3 + nl + l4 + nl + l5) == Ok::<
                Map<Seq<char>, Seq<u64>>,
                HistoryError,
            >(Map::<Seq<char>, Seq<u64>>::empty().insert(n, seq![t1, t2]))
        }),
{
    let tab = seq!['\t'];
    let nl = seq!['\n'];
    let c = commit_word();
    let l1 = c + tab + h1 + tab + d1;
    let l2 = seq!['1'] + tab + seq!['0'] + tab + n;
    let l3 = Seq::<char>::empty();
    let l4 = c + tab + h2 + tab + d2;
    let r = o + rename_sep() + n;
    let l5 = seq!['3'] + tab + seq!['1'] + tab + r;
    let log = l1 + nl + l2 + nl + l3 + nl + l4 + nl + l5;
    assert(lacks(c, '\t') && lacks(c, '\n'));
    assert(lacks(rename_sep(), '\t') && lacks(rename_sep(), '\n'));
    assert(lacks(tab, '\n'));
    assert(lacks(seq!['1'], '\t') && lacks(seq!['1'], '\n'));
    assert(lacks(seq!['0'], '\t') && lacks(seq!['0'], '\n'));
    assert(lacks(seq!['3'], '\t') && lacks(seq!['3'], '\n'));
    assert(lacks(l3, '\n'));
    lemma_lacks_concat(o, rename_sep(), '\t');
    lemma_lacks_concat(o + rename_sep(), n, '\t');
    lemma_lacks_concat(o, rename_sep(), '\n');
    lemma_lacks_concat(o + rename_sep(), n, '\n');
    // the fields of each line
    lemma_three_fields(c, h1, d1);
    lemma_three_fields(seq!['1'], seq!['0'], n);
    lemma_three_fields(c, h2, d2);
    lemma_three_fields(seq!['3'], seq!['1'], r);
    // no line holds a line break
    lemma_lacks_concat(c, tab, '\n');
    lemma_lacks_concat(c + tab, h1, '\n');
    lemma_lacks_concat(c + tab + h1, tab, '\n');
    lemma_lacks_concat(c + tab + h1 + tab, d1, '\n');
    lemma_lacks_concat(c + tab, h2, '\n');
    lemma_lacks_concat(c + tab + h2, tab, '\n');
    lemma_lacks_concat(c + tab + h2 + tab, d2, '\n');
    lemma_lacks_concat(seq!['1'], tab, '\n');
    lemma_lacks_concat(seq!['1'] + tab, seq!['0'], '\n');
    lemma_lacks_concat(seq!['1'] + tab + seq!['0'], tab, '\n');
    lemma_lacks_concat(seq!['1'] + tab + seq!['0'] + tab, n, '\n');
    lemma_lacks_concat(seq!['3'], tab, '\n');
    lemma_lacks_concat(seq!['3'] + tab, seq!['1'], '\n');
    lemma_lacks_concat(seq!['3'] + tab + seq!['1'], tab, '\n');
    lemma_lacks_concat(seq!['3'] + tab + seq!['1'] + tab, r, '\n');
    // the lines of the log
    lemma_split_single(l1, '\n');
    lemma_split_snoc(l1, '\n', l2);
    lemma_split_snoc(l1 + nl + l2, '\n', l3);
    lemma_split_snoc(l1 + nl + l2 + nl + l3, '\n', l4);
    lemma_split_snoc(l1 + nl + l2 + nl + l3 + nl + l4, '\n', l5);
    let ls = split(log, '\n');
    assert(ls =~= seq![l1, l2, l3, l4, l5]);
    // replaying them
    lemma_rename_resolves(o, n);
    assert(rename_target(n) == n);
    let m1 = record(Map::<Seq<char>, Seq<u64>>::empty(), n, t1);
    let m2 = record(m1, n, t2);
    assert(ls.subrange(0, 0) =~= Seq::<Seq<char>>::empty());
    assert(ls.subrange(0, 1).drop_last() =~= ls.subrange(0, 0));
    assert(ls.subrange(0, 2).drop_last() =~= ls.subrange(0, 1));
    assert(ls.subrange(0, 3).drop_last() =~= ls.subrange(0, 2));
    assert(ls.subrange(0, 4).drop_last() =~= ls.subrange(0, 3));
    assert(ls.drop_last() =~= ls.subrange(0, 4));
    assert(seq!['1'] != c);
    assert(seq!['3'] != c);
    assert(replay(Seq::<Seq<char>>::empty()) == Ok::<LogState, HistoryError>((None, Map::empty())));
    assert(ls.subrange(0, 1).last() == l1);
    assert(ls.subrange(0, 2).last() == l2);
    assert(ls.subrange(0, 3).last() == l3);
    assert(ls.subrange(0, 4).last() == l4);
    assert(ls.last() == l5);
    assert(split(l1, '\t')[0] == c && split(l1, '\t')[2] == d1);
    assert(split(l3, '\t').len() == 1);
    assert(replay(ls.subrange(0, 1)) == Ok::<LogState, HistoryError>((Some(t1), Map::empty())));
    assert(replay(ls.subrange(0, 2)) == Ok::<LogState, HistoryError>((Some(t1), m1)));
    assert(replay(ls.subrange(0, 3)) == Ok::<LogState, HistoryError>((None, m1)));
    assert(replay(ls.subrange(0, 4)) == Ok::<LogState, HistoryError>((Some(t2), m1)));
    assert(replay(ls) == Ok::<LogState, HistoryError>((Some(t2), m2)));
    assert(m1.contains_key(n) && m1[n] == seq![t1]);
    assert(seq![t1].push(t2) =~= seq![t1, t2]);
    assert(m2 =~= Map::<Seq<char>, Seq<u64>>::empty().insert(n, seq![t1, t2]));
}

} // verus!
