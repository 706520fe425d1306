use vstd::prelude::*;
use crate::text::{chars_of, pieces_view, same_chars, split, split_chars, string_of};

verus! {

/// Why a change log could not be read.
#[derive(Debug, Clone, Copy, PartialEq, Eq)]
pub enum HistoryError {
    /// A commit header whose timestamp field is not a decimal `u64`.
    BadTimestamp,
    /// A change line that comes while no commit is current.
    NoCurrentCommit,
}

/// The word that opens a commit header line.
pub open spec fn commit_word() -> Seq<char> {
    seq!['c', 'o', 'm', 'm', 'i', 't']
}

/// The separator of a rename, `old => new`.
pub open spec fn rename_sep() -> Seq<char> {
    seq![' ', '=', '>', ' ']
}

/// Whether `c` is an ASCII decimal digit.
pub open spec fn is_digit(c: char) -> bool {
    48 <= (c as u32) && (c as u32) <= 57
}

/// The value of a decimal digit.
pub open spec fn digit_of(c: char) -> nat {
    ((c as u32) - 48) as nat
}

/// The value of a string of decimal digits.
pub open spec fn digits_value(s: Seq<char>) -> nat
    decreases s.len(),
{
    if s.len() == 0 {
        0
    } else {
        digits_value(s.drop_last()) * 10 + digit_of(s.last())
    }
}

/// `s` without one leading `+`.
pub open spec fn unsigned_part(s: Seq<char>) -> Seq<char> {
    if s.len() > 0 && s[0] == '+' {
        s.drop_first()
    } else {
        s
    }
}

/// The `u64` that a nonempty run of digits writes, if it fits.
pub open spec fn digits_decimal(d: Seq<char>) -> Option<u64> {
    if d.len() > 0 && (forall|i: int| 0 <= i < d.len() ==> is_digit(#[trigger] d[i]))
        && digits_value(d) <= u64::MAX {
        Some(digits_value(d) as u64)
    } else {
        None
    }
}

/// The `u64` that `s` writes in decimal: an optional `+`, then one or more
/// digits, with a value that fits.
pub open spec fn decimal_value(s: Seq<char>) -> Option<u64> {
    digits_decimal(unsigned_part(s))
}

/// The first position at or after `from` where the rename separator starts,
/// or -1.
pub open spec fn sep_from(p: Seq<char>, from: int) -> int
    decreases p.len() - from,
{
    if from < 0 || from + 4 > p.len() {
        -1
    } else if p.subrange(from, from + 4) == rename_sep() {
        from
    } else {
        sep_from(p, from + 1)
    }
}

/// The path a change line is recorded under: for a rename `old => new`,
/// where the separator splits the path into exactly two parts, the part
/// after it; otherwise the whole path.
pub open spec fn rename_target(p: Seq<char>) -> Seq<char> {
    let i = sep_from(p, 0);
    if i >= 0 && sep_from(p, i + 4) < 0 {
        p.subrange(i + 4, p.len() as int)
    } else {
        p
    }
}

/// `m` with `t` appended to the list of `k`.
pub open spec fn record(m: Map<Seq<char>, Seq<u64>>, k: Seq<char>, t: u64) -> Map<
    Seq<char>,
    Seq<u64>,
> {
    m.insert(
        k,
        if m.contains_key(k) {
            m[k].push(t)
        } else {
            seq![t]
        },
    )
}

/// The reading state: the current commit's timestamp, and the lists so far.
pub type LogState = (Option<u64>, Map<Seq<char>, Seq<u64>>);

/// The effect of one log line.
pub open spec fn apply_line(st: LogState, line: Seq<char>) -> Result<LogState, HistoryError> {
    let f = split(line, '\t');
    if f.len() > 2 && f[0] == commit_word() {
        match decimal_value(f[2]) {
            Some(t) => Ok((Some(t), st.1)),
            None => Err(HistoryError::BadTimestamp),
        }
    } else if f.len() > 2 {
        match st.0 {
            Some(t) => Ok((st.0, record(st.1, rename_target(f[2]), t))),
            None => Err(HistoryError::NoCurrentCommit),
        }
    } else {
        Ok((None, st.1))
    }
}

/// The state after the given lines, or the first error among them.
pub open spec fn replay(lines: Seq<Seq<char>>) -> Result<LogState, HistoryError>
    decreases lines.len(),
{
    if lines.len() == 0 {
        Ok((None, Map::empty()))
    } else {
        match replay(lines.drop_last()) {
            Ok(st) => apply_line(st, lines.last()),
            Err(e) => Err(e),
        }
    }
}

/// The history that a whole log describes.
pub open spec fn history_of(log: Seq<char>) -> Result<Map<Seq<char>, Seq<u64>>, HistoryError> {
    match replay(split(log, '\n')) {
        Ok(st) => Ok(st.1),
        Err(e) => Err(e),
    }
}

/// For each path, the timestamps of the commits that touched it, in log order.
pub struct HistoryMap {
    paths: Vec<String>,
    times: Vec<Vec<u64>>,
}

impl HistoryMap {
    /// Paths and lists pair up, and no path is recorded twice.
    pub closed spec fn wf(&self) -> bool {
        &&& self.paths@.len() == self.times@.len()
        &&& forall|i: int, j: int|
            0 <= i < self.paths@.len() && 0 <= j < self.paths@.len() && i != j
                ==> self.paths@[i]@ != self.paths@[j]@
    }

    /// Path `k` is recorded at position `i`.
    pub closed spec fn has_at(&self, k: Seq<char>, i: int) -> bool {
        0 <= i < self.paths@.len() && self.paths@[i]@ == k
    }
}

impl View for HistoryMap {
    type V = Map<Seq<char>, Seq<u64>>;

    closed spec fn view(&self) -> Map<Seq<char>, Seq<u64>> {
        Map::new(
            |k: Seq<char>| exists|i: int| self.has_at(k, i),
            |k: Seq<char>| self.times@[choose|i: int| self.has_at(k, i)]@,
        )
    }
}

impl HistoryMap {
    /// An empty history.
    pub fn new() -> (r: HistoryMap)
        ensures
            r.wf(),
            r@ == Map::<Seq<char>, Seq<u64>>::empty(),
    {
        let r = HistoryMap { paths: Vec::new(), times: Vec::new() };
        assert(r@ =~= Map::<Seq<char>, Seq<u64>>::empty());
        r
    }

    /// The position of `k`, if it is recorded.
    fn position(&self, k: &String) -> (r: Option<usize>)
        requires
            self.wf(),
        ensures
            match r {
                Some(i) => self.has_at(k@, i as int),
                None => !self@.contains_key(k@),
            },
    {
        let mut i: usize = 0;
        while i < self.paths.len()
            invariant
                self.wf(),
                i <= self.paths@.len(),
                forall|j: int| 0 <= j < i ==> self.paths@[j]@ != k@,
            decreases self.paths@.len() - i,
        {
            if self.paths[i] == *k {
                return Some(i);
            }
            i = i + 1;
        }
        None
    }

    /// The timestamps recorded for `k`; empty where it has none.
    pub fn lookup(&self, k: &String) -> (r: Vec<u64>)
        requires
            self.wf(),
        ensures
            r@ == (if self@.contains_key(k@) {
                self@[k@]
            } else {
                Seq::<u64>::empty()
            }),
    {
        match self.position(k) {
            Some(i) => {
                proof {
                    let c = choose|j: int| self.has_at(k@, j);
                    assert(self.has_at(k@, c));
                    assert(c == i);
                }
                let v = self.times[i].clone();
                assert(v@ =~= self.times@[i as int]@);
                v
            },
            None => Vec::new(),
        }
    }

    /// Appends `t` to the list of `k`.
    pub fn append(&mut self, k: String, t: u64)
        requires
            old(self).wf(),
        ensures
            final(self).wf(),
            final(self)@ == record(old(self)@, k@, t),
    {
        match self.position(&k) {
            Some(i) => {
                proof {
                    let c = choose|j: int| self.has_at(k@, j);
                    assert(self.has_at(k@, c));
                    assert(c == i);
                }
                self.times[i].push(t);
                proof {
                    let o = old(self)@;
                    assert(self.paths@ == old(self).paths@);
                    assert forall|q: Seq<char>| #[trigger] self@.contains_key(q) == o.contains_key(q) by {
                        if o.contains_key(q) {
                            let c = choose|j: int| old(self).has_at(q, j);
                            assert(self.has_at(q, c));
                        }
                        if self@.contains_key(q) {
                            let c = choose|j: int| self.has_at(q, j);
                            assert(old(self).has_at(q, c));
                        }
                    }
                    assert forall|q: Seq<char>| #[trigger] self@.contains_key(q) implies self@[q]
                        == record(o, k@, t)[q] by {
                        let c = choose|j: int| self.has_at(q, j);
                        assert(self.has_at(q, c));
                        assert(old(self).has_at(q, c));
                    }
                    assert(self@.dom() =~= record(o, k@, t).dom());
                    assert(self@ =~= record(o, k@, t));
                }
            },
            None => {
                let ghost o = self@;
                self.paths.push(k);
                self.times.push(vec![t]);
                proof {
                    let n = self.paths@.len() - 1;
                    assert(self.has_at(k@, n));
                    assert forall|j: int| 0 <= j < n implies old(self).paths@[j]@ != k@ by {
                        if old(self).paths@[j]@ == k@ {
                            assert(old(self).has_at(k@, j));
                        }
                    }
                    assert(self.wf());
                    assert forall|q: Seq<char>| #[trigger] self@.contains_key(q) implies self@[q]
                        == record(o, k@, t)[q] by {
                        let c = choose|j: int| self.has_at(q, j);
                        assert(self.has_at(q, c));
                        if c < n {
                            assert(old(self).has_at(q, c));
                        }
                    }
                    assert forall|q: Seq<char>| #[trigger] record(o, k@, t).contains_key(q) implies self@.contains_key(q) by {
                        if q != k@ {
                            let c = choose|j: int| old(self).has_at(q, j);
                            assert(self.has_at(q, c));
                        }
                    }
                    assert forall|q: Seq<char>| #[trigger] self@.contains_key(q) implies record(o, k@, t).contains_key(q) by {
                        let c = choose|j: int| self.has_at(q, j);
                        assert(self.has_at(q, c));
                        if c < n {
                            assert(old(self).has_at(q, c));
                        }
                    }
                    assert(self@.dom() =~= record(o, k@, t).dom());
                    assert(self@ =~= record(o, k@, t));
                }
            },
        }
    }
}

proof fn lemma_digits_value_grows(s: Seq<char>, i: int)
    requires
        0 <= i <= s.len(),
    ensures
        digits_value(s.subrange(0, i)) <= digits_value(s),
    decreases s.len(),
{
    if i < s.len() {
        assert(s.drop_last() =~= s.subrange(0, s.len() - 1));
        lemma_digits_value_grows(s.drop_last(), i);
        assert(s.drop_last().subrange(0, i) =~= s.subrange(0, i));
    } else {
        assert(s.subrange(0, i) =~= s);
    }
}

proof fn lemma_replay_err(ls: Seq<Seq<char>>, k: int, e: HistoryError)
    requires
        0 <= k <= ls.len(),
        replay(ls.subrange(0, k)) == Err::<LogState, HistoryError>(e),
    ensures
        replay(ls) == Err::<LogState, HistoryError>(e),
    decreases ls.len() - k,
{
    if k == ls.len() {
        assert(ls.subrange(0, k) =~= ls);
    } else {
        assert(ls.subrange(0, k + 1).drop_last() =~= ls.subrange(0, k));
        lemma_replay_err(ls, k + 1, e);
    }
}

/// Reads a decimal `u64`: an optional `+`, then one or more digits.
pub fn parse_decimal(s: &[char]) -> (r: Option<u64>)
    ensures
        r == decimal_value(s@),
{
    let start: usize = if s.len() > 0 && s[0] == '+' { 1 } else { 0 };
    let ghost d = unsigned_part(s@);
    assert(d =~= s@.subrange(start as int, s@.len() as int));
    if start >= s.len() {
        return None;
    }
    let mut v: u64 = 0;
    let mut i: usize = start;
    while i < s.len()
        invariant
            start <= i <= s@.len(),
            d == s@.subrange(start as int, s@.len() as int),
            d == unsigned_part(s@),
            forall|j: int| 0 <= j < i - start ==> is_digit(#[trigger] d[j]),
            v as nat == digits_value(d.subrange(0, i - start)),
        decreases s@.len() - i,
    {
        let c = s[i];
        let code: u32 = c as u32;
        assert(d[i - start] == c);
        if code < 48 || code > 57 {
            assert(!is_digit(d[i - start]));
            assert(0 <= i - start < d.len());
            return None;
        }
        let digit: u64 = (code - 48) as u64;
        let ghost next = d.subrange(0, i - start + 1);
        assert(next.drop_last() =~= d.subrange(0, i - start));
        assert(next.last() == c);
        if v > (u64::MAX - digit) / 10 {
            proof {
                assert(digits_value(next) > u64::MAX) by (nonlinear_arith)
                    requires
                        digits_value(next) == v * 10 + digit,
                        v > (u64::MAX - digit) / 10,
                        digit <= 9,
                ;
                lemma_digits_value_grows(d, i - start + 1);
                assert(digits_value(d) > u64::MAX);
            }
            return None;
        }
        assert(v * 10 + digit <= u64::MAX) by (nonlinear_arith)
            requires
                v <= (u64::MAX - digit) / 10,
                digit <= 9,
        ;
        v = v * 10 + digit;
        i = i + 1;
    }
    assert(d.subrange(0, d.len() as int) =~= d);
    Some(v)
}

/// The first position at or after `from` where the rename separator starts.
fn find_sep(p: &[char], from: usize) -> (r: Option<usize>)
    requires
        from <= p@.len(),
    ensures
        match r {
            Some(i) => sep_from(p@, from as int) == i && i + 4 <= p@.len(),
            None => sep_from(p@, from as int) == -1,
        },
{
    let mut i: usize = from;
    while i < p.len() && p.len() - i >= 4
        invariant
            sep_from(p@, from as int) == sep_from(p@, i as int),
            from <= i <= p@.len(),
            p@.len() < i + 4 ==> sep_from(p@, i as int) == -1,
        decreases p@.len() - i,
    {
        if p[i] == ' ' && p[i + 1] == '=' && p[i + 2] == '>' && p[i + 3] == ' ' {
            assert(p@.subrange(i as int, i + 4) =~= rename_sep());
            return Some(i);
        }
        assert(p@.subrange(i as int, i + 4) != rename_sep()) by {
            if p@.subrange(i as int, i + 4) == rename_sep() {
                assert(p@.subrange(i as int, i + 4)[0] == ' ');
                assert(p@.subrange(i as int, i + 4)[1] == '=');
                assert(p@.subrange(i as int, i + 4)[2] == '>');
                assert(p@.subrange(i as int, i + 4)[3] == ' ');
            }
        }
        i = i + 1;
    }
    None
}

/// The characters of `p` from position `a` on.
fn suffix_from(p: &[char], a: usize) -> (r: Vec<char>)
    requires
        a <= p@.len(),
    ensures
        r@ == p@.subrange(a as int, p@.len() as int),
{
    let mut out: Vec<char> = Vec::new();
    let mut j: usize = a;
    while j < p.len()
        invariant
            a <= j <= p@.len(),
            out@ == p@.subrange(a as int, j as int),
        decreases p@.len() - j,
    {
        out.push(p[j]);
        assert(out@ =~= p@.subrange(a as int, j + 1));
        j = j + 1;
    }
    out
}

/// The path that a change line names: for a rename `old => new` (the path
/// splits at the separator into exactly two parts), the part after the
/// separator; otherwise the whole path.
pub fn rename_target_of(p: &[char]) -> (r: Vec<char>)
    ensures
        r@ == rename_target(p@),
{
    let n = p.len();
    if let Some(i) = find_sep(p, 0) {
        assert(i + 4 <= n);
        if find_sep(p, i + 4).is_none() {
            return suffix_from(p, i + 4);
        }
    }
    let r = suffix_from(p, 0);
    assert(p@.subrange(0, p@.len() as int) =~= p@);
    r
}

/// Reads a change log: commit headers `commit<TAB>hash<TAB>seconds`, each
/// followed by change lines `added<TAB>deleted<TAB>path`. Each change line
/// appends the current commit's timestamp to the list of its path (for a
/// rename `old => new`, of `new`: see `rename_target`), so a log
/// written newest first gives lists that are newest first. A line of fewer
/// than three fields ends the current commit.
pub fn parse_history(log: &str) -> (r: Result<HistoryMap, HistoryError>)
    ensures
        match r {
            Ok(m) => m.wf() && history_of(log@) == Ok::<_, HistoryError>(m@),
            Err(e) => history_of(log@) == Err::<Map<Seq<char>, Seq<u64>>, _>(e),
        },
{
    let cs = chars_of(log);
    let lines = split_chars(cs.as_slice(), '\n');
    let ghost ls = pieces_view(lines@);
    let commit: Vec<char> = vec!['c', 'o', 'm', 'm', 'i', 't'];
    assert(commit@ =~= commit_word());
    let mut files = HistoryMap::new();
    let mut current: Option<u64> = None;
    let mut n: usize = 0;
    while n < lines.len()
        invariant
            n <= lines@.len(),
            ls == pieces_view(lines@),
            ls == split(log@, '\n'),
            commit@ == commit_word(),
            files.wf(),
            replay(ls.subrange(0, n as int)) == Ok::<LogState, HistoryError>((current, files@)),
        decreases lines@.len() - n,
    {
        let line = &lines[n];
        assert(ls.subrange(0, n + 1).drop_last() =~= ls.subrange(0, n as int));
        assert(ls.subrange(0, n + 1).last() == line@);
        let fields = split_chars(line.as_slice(), '\t');
        let ghost f = pieces_view(fields@);
        if fields.len() > 2 && same_chars(fields[0].as_slice(), commit.as_slice()) {
            match parse_decimal(fields[2].as_slice()) {
                Some(t) => {
                    current = Some(t);
                },
                None => {
                    proof {
                        lemma_replay_err(ls, n + 1, HistoryError::BadTimestamp);
                    }
                    return Err(HistoryError::BadTimestamp);
                },
            }
        } else if fields.len() > 2 {
            match current {
                Some(t) => {
                    let key = string_of(rename_target_of(fields[2].as_slice()).as_slice());
                    files.append(key, t);
                },
                None => {
                    proof {
                        lemma_replay_err(ls, n + 1, HistoryError::NoCurrentCommit);
                    }
                    return Err(HistoryError::NoCurrentCommit);
                },
            }
        } else {
            current = None;
        }
        n = n + 1;
    }
    assert(ls.subrange(0, n as int) =~= ls);
    Ok(files)
}

} // verus!
