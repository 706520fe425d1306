use vstd::prelude::*;
use crate::text::{chars_of, same_chars, string_of};

verus! {

/// The position of the last `c` in `s`, or -1.
pub open spec fn last_index_of(s: Seq<char>, c: char) -> int
    decreases s.len(),
{
    if s.len() == 0 {
        -1
    } else if s.last() == c {
        s.len() - 1
    } else {
        last_index_of(s.drop_last(), c)
    }
}

/// The extension of a file name: what follows its last `.`, where that dot
/// is not the name's first character.
pub open spec fn extension_of(name: Seq<char>) -> Option<Seq<char>> {
    let i = last_index_of(name, '.');
    if i <= 0 {
        None
    } else {
        Some(name.subrange(i + 1, name.len() as int))
    }
}

/// The path of entry `name` inside directory `dir`; the current directory
/// `.` adds no prefix.
pub open spec fn child_of(dir: Seq<char>, name: Seq<char>) -> Seq<char> {
    if dir == seq!['.'] {
        name
    } else {
        dir + seq!['/'] + name
    }
}

/// Whether file name `name` has extension `ext`, compared exactly.
pub fn has_extension(name: &str, ext: &str) -> (r: bool)
    ensures
        r == (extension_of(name@) == Some(ext@)),
{
    let n = chars_of(name);
    let e = chars_of(ext);
    let mut i: usize = n.len();
    assert(n@.subrange(0, i as int) =~= n@);
    while i > 0 && n[i - 1] != '.'
        invariant
            i <= n@.len(),
            last_index_of(n@, '.') == last_index_of(n@.subrange(0, i as int), '.'),
        decreases i,
    {
        assert(n@.subrange(0, i as int).drop_last() =~= n@.subrange(0, i - 1));
        i = i - 1;
    }
    assert(last_index_of(n@, '.') == i - 1) by {
        if i > 0 {
            assert(n@.subrange(0, i as int).last() == n@[i - 1]);
        }
    }
    if i <= 1 {
        return false;
    }
    let mut tail: Vec<char> = Vec::new();
    let mut j: usize = i;
    while j < n.len()
        invariant
            i <= j <= n@.len(),
            tail@ == n@.subrange(i as int, j as int),
        decreases n@.len() - j,
    {
        tail.push(n[j]);
        assert(tail@ =~= n@.subrange(i as int, j + 1));
        j = j + 1;
    }
    same_chars(tail.as_slice(), e.as_slice())
}

/// Whether a directory entry is listed by the walk: a file, not a directory,
/// whose name has extension `ext`.
pub fn is_listed(is_dir: bool, name: &str, ext: &str) -> (r: bool)
    ensures
        r == (!is_dir && extension_of(name@) == Some(ext@)),
{
    !is_dir && has_extension(name, ext)
}

/// The path of entry `name` inside directory `dir`.
pub fn child_path(dir: &str, name: &str) -> (r: String)
    ensures
        r@ == child_of(dir@, name@),
{
    let d = chars_of(dir);
    let n = chars_of(name);
    let dot: Vec<char> = vec!['.'];
    assert(dot@ =~= seq!['.']);
    if same_chars(d.as_slice(), dot.as_slice()) {
        return string_of(n.as_slice());
    }
    let mut out = d;
    out.push('/');
    let mut j: usize = 0;
    while j < n.len()
        invariant
            j <= n@.len(),
            out@ == dir@ + seq!['/'] + n@.subrange(0, j as int),
        decreases n@.len() - j,
    {
        out.push(n[j]);
        assert(out@ =~= dir@ + seq!['/'] + n@.subrange(0, j + 1));
        j = j + 1;
    }
    assert(n@.subrange(0, j as int) =~= n@);
    string_of(out.as_slice())
}

} // verus!
