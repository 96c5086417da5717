//! Characters, lines and substrings of text.
use vstd::prelude::*;

verus! {

/// `pattern` occurs in `text` as a contiguous run of characters.
pub open spec fn occurs_in(pattern: Seq<char>, text: Seq<char>) -> bool {
    exists|i: int|
        0 <= i && i + pattern.len() <= text.len() && #[trigger] text.subrange(i, i + pattern.len())
            == pattern
}

/// The pieces of `t` between line breaks, as splitting at every `'\n'` gives
/// them: a text with `k` line breaks has `k + 1` pieces, the last of them empty
/// when the text ends in a line break.
pub open spec fn split_newlines(t: Seq<char>) -> Seq<Seq<char>>
    decreases t.len(),
{
    if t.len() == 0 {
        seq![Seq::empty()]
    } else {
        let s = split_newlines(t.drop_last());
        if t.last() == '\n' {
            s.push(Seq::empty())
        } else {
            s.update(s.len() - 1, s.last().push(t.last()))
        }
    }
}

/// The lines of `t`: the pieces between line breaks, where a final line break
/// ends the last line and starts no new one. The empty text has no lines.
pub open spec fn lines_of(t: Seq<char>) -> Seq<Seq<char>> {
    if t.len() == 0 || t.last() == '\n' {
        split_newlines(t).drop_last()
    } else {
        split_newlines(t)
    }
}

/// The characters of each string slice in `v`.
pub open spec fn views<'a>(v: Seq<&'a str>) -> Seq<Seq<char>> {
    v.map_values(|s: &'a str| s@)
}

fn char_vec(s: &str) -> (r: Vec<char>)
    ensures
        r@ == s@,
{
    let mut r: Vec<char> = Vec::new();
    for c in it: s.chars()
        invariant
            r@ == it.seq().take(it.index() as int),
    {
        r.push(c);
    }
    assert(r@ == s@);
    r
}

/// Whether `p` occurs in `t`, by trying each start position in turn.
fn find_in(t: &Vec<char>, p: &Vec<char>) -> (r: bool)
    ensures
        r == occurs_in(p@, t@),
{
    let n = t.len();
    let m = p.len();
    if m > n {
        return false;
    }
    let mut i: usize = 0;
    while i <= n - m
        invariant
            m <= n,
            n == t@.len(),
            m == p@.len(),
            forall|k: int| 0 <= k < i ==> #[trigger] t@.subrange(k, k + m) != p@,
        decreases n - m + 1 - i,
    {
        let mut j: usize = 0;
        while j < m && t[i + j] == p[j]
            invariant
                i + m <= n,
                n == t@.len(),
                m == p@.len(),
                j <= m,
                forall|k: int| 0 <= k < j ==> t@[i + k] == p@[k],
            decreases m - j,
        {
            j = j + 1;
        }
        if j == m {
            assert(t@.subrange(i as int, i + m) =~= p@);
            return true;
        }
        assert(t@.subrange(i as int, i + m)[j as int] != p@[j as int]);
        i = i + 1;
    }
    false
}

/// Whether `pattern` occurs in `text`. The empty pattern occurs in every text.
pub fn contains(text: &str, pattern: &str) -> (r: bool)
    ensures
        r == occurs_in(pattern@, text@),
{
    let t = char_vec(text);
    let p = char_vec(pattern);
    find_in(&t, &p)
}

/// The lines of `contents`, in order, each a slice of `contents` without its
/// line break.
pub fn lines<'a>(contents: &'a str) -> (r: Vec<&'a str>)
    ensures
        views(r@) == lines_of(contents@),
{
    let cs = char_vec(contents);
    let n = cs.len();
    let mut r: Vec<&'a str> = Vec::new();
    let mut start: usize = 0;
    let mut i: usize = 0;
    assert(cs@.take(0) =~= Seq::<char>::empty());
    assert(views(r@).push(cs@.subrange(0, 0)) =~= split_newlines(cs@.take(0)));
    while i < n
        invariant
            cs@ == contents@,
            n == cs@.len(),
            start <= i <= n,
            start == 0 || cs@[start - 1] == '\n',
            i > 0 && cs@[i - 1] == '\n' ==> start == i,
            views(r@).push(cs@.subrange(start as int, i as int)) == split_newlines(
                cs@.take(i as int),
            ),
        decreases n - i,
    {
        let ghost before = cs@.take(i as int);
        let ghost done = views(r@);
        assert(cs@.take(i + 1).drop_last() =~= before);
        if cs[i] == '\n' {
            let line = contents.substring_char(start, i);
            r.push(line);
            assert(views(r@) =~= done.push(cs@.subrange(start as int, i as int)));
            start = i + 1;
            assert(cs@.subrange(start as int, i + 1) =~= Seq::<char>::empty());
        } else {
            assert(cs@.subrange(start as int, i + 1) =~= cs@.subrange(start as int, i as int).push(
                cs@[i as int],
            ));
            assert(done.push(cs@.subrange(start as int, i + 1)) =~= done.push(
                cs@.subrange(start as int, i as int),
            ).update(done.len() as int, cs@.subrange(start as int, i + 1)));
        }
        i = i + 1;
    }
    assert(cs@.take(n as int) =~= cs@);
    if start < n {
        let ghost done = views(r@);
        let line = contents.substring_char(start, n);
        r.push(line);
        assert(views(r@) =~= done.push(cs@.subrange(start as int, n as int)));
    } else {
        assert(views(r@) =~= views(r@).push(cs@.subrange(start as int, n as int)).drop_last());
    }
    r
}

} // verus!
