use vstd::prelude::*;

verus! {

// ---------------------------------------------------------------------------
// Reading a text line by line, as `BufRead::lines` does
// ---------------------------------------------------------------------------

/// `s` holds no line feed.
pub open spec fn no_newline(s: Seq<char>) -> bool {
    forall|j: int| 0 <= j < s.len() ==> s[j] != '\n'
}

/// The position of the first line feed in `s`, or its length when it has none.
pub open spec fn newline_index(s: Seq<char>) -> nat
    decreases s.len(),
{
    if s.len() == 0 {
        0
    } else if s[0] == '\n' {
        0
    } else {
        1 + newline_index(s.drop_first())
    }
}

/// A line with one carriage return removed from its end, if it has one there.
pub open spec fn strip_cr(l: Seq<char>) -> Seq<char> {
    if l.len() > 0 && l.last() == '\r' {
        l.drop_last()
    } else {
        l
    }
}

/// The lines of a text: every line feed ends a line, and a carriage return
/// just before it is dropped with it; text after the last line feed, if any,
/// is a last line of its own. An empty text has no line.
pub open spec fn lines(s: Seq<char>) -> Seq<Seq<char>>
    decreases s.len(),
{
    if s.len() == 0 {
        seq![]
    } else {
        let i = newline_index(s) as int;
        if i < s.len() {
            seq![strip_cr(s.take(i))] + lines(s.skip(i + 1))
        } else {
            seq![s]
        }
    }
}

/// The views of a sequence of character vectors.
pub open spec fn views(v: Seq<Vec<char>>) -> Seq<Seq<char>> {
    v.map_values(|l: Vec<char>| l@)
}

/// Lines joined by line feeds, with none after the last.
pub open spec fn joined(ls: Seq<Seq<char>>) -> Seq<char>
    decreases ls.len(),
{
    if ls.len() == 0 {
        seq![]
    } else if ls.len() == 1 {
        ls[0]
    } else {
        joined(ls.drop_last()) + seq!['\n'] + ls.last()
    }
}

/// The line feed that separates line `i` from the one before it.
pub open spec fn separator(i: int) -> Seq<char> {
    if i == 0 {
        seq![]
    } else {
        seq!['\n']
    }
}

pub proof fn lemma_newline_index_bound(s: Seq<char>)
    ensures
        newline_index(s) <= s.len(),
        forall|j: int| 0 <= j < newline_index(s) ==> s[j] != '\n',
        newline_index(s) < s.len() ==> s[newline_index(s) as int] == '\n',
    decreases s.len(),
{
    if s.len() > 0 && s[0] != '\n' {
        lemma_newline_index_bound(s.drop_first());
        assert forall|j: int| 0 <= j < newline_index(s) implies s[j] != '\n' by {
            if j > 0 {
                assert(s[j] == s.drop_first()[j - 1]);
            }
        }
    }
}

pub proof fn lemma_newline_index_of_line(cur: Seq<char>, r: Seq<char>)
    requires
        no_newline(cur),
    ensures
        newline_index(cur + seq!['\n'] + r) == cur.len(),
    decreases cur.len(),
{
    let t = cur + seq!['\n'] + r;
    if cur.len() > 0 {
        assert(t.drop_first() == cur.drop_first() + seq!['\n'] + r);
        lemma_newline_index_of_line(cur.drop_first(), r);
    } else {
        assert(t[0] == '\n');
    }
}

pub proof fn lemma_newline_index_none(cur: Seq<char>)
    requires
        no_newline(cur),
    ensures
        newline_index(cur) == cur.len(),
    decreases cur.len(),
{
    if cur.len() > 0 {
        lemma_newline_index_none(cur.drop_first());
    }
}

/// A line ended by a line feed comes first among the lines.
pub proof fn lemma_lines_of_line(cur: Seq<char>, r: Seq<char>)
    requires
        no_newline(cur),
    ensures
        lines(cur + seq!['\n'] + r) == seq![strip_cr(cur)] + lines(r),
{
    let t = cur + seq!['\n'] + r;
    lemma_newline_index_of_line(cur, r);
    assert(t.take(cur.len() as int) == cur);
    assert(t.skip(cur.len() as int + 1) == r);
}

/// A text without line feed is one line, unless it is empty.
pub proof fn lemma_lines_of_last(cur: Seq<char>)
    requires
        no_newline(cur),
    ensures
        lines(cur) == (if cur.len() == 0 { seq![] } else { seq![cur] }),
{
    lemma_newline_index_none(cur);
}

/// The lines of a text that ends with a line feed, followed by more text.
pub proof fn lemma_lines_append(p: Seq<char>, y: Seq<char>)
    requires
        p.len() > 0,
        p.last() == '\n',
    ensures
        lines(p + y) == lines(p) + lines(y),
    decreases p.len(),
{
    lemma_newline_index_bound(p);
    let i = newline_index(p) as int;
    assert(i < p.len()) by {
        if i == p.len() {
            assert(p[p.len() - 1] == '\n');
        }
    }
    let cur = p.take(i);
    let rest = p.skip(i + 1);
    assert(no_newline(cur));
    assert(p == cur + seq!['\n'] + rest);
    assert(p + y == cur + seq!['\n'] + (rest + y));
    lemma_lines_of_line(cur, rest + y);
    lemma_lines_of_line(cur, rest);
    if rest.len() == 0 {
        assert(rest + y == y);
    } else {
        assert(rest.last() == '\n');
        lemma_lines_append(rest, y);
    }
}

/// No line holds a line feed.
pub proof fn lemma_lines_no_newline(s: Seq<char>)
    ensures
        forall|k: int| 0 <= k < lines(s).len() ==> no_newline(#[trigger] lines(s)[k]),
    decreases s.len(),
{
    if s.len() > 0 {
        lemma_newline_index_bound(s);
        let i = newline_index(s) as int;
        if i < s.len() {
            lemma_lines_no_newline(s.skip(i + 1));
            let ls = lines(s);
            assert forall|k: int| 0 <= k < ls.len() implies no_newline(#[trigger] ls[k]) by {
                if k > 0 {
                    assert(ls[k] == lines(s.skip(i + 1))[k - 1]);
                }
            }
        }
    }
}

/// Lines joined by line feeds, with one more line feed at the end, read back
/// as the same lines (with a final carriage return dropped from each).
pub proof fn lemma_lines_of_joined(ls: Seq<Seq<char>>)
    requires
        ls.len() > 0,
        forall|k: int| 0 <= k < ls.len() ==> no_newline(#[trigger] ls[k]),
    ensures
        lines(joined(ls) + seq!['\n']) == ls.map_values(|l: Seq<char>| strip_cr(l)),
    decreases ls.len(),
{
    if ls.len() == 1 {
        assert(ls[0] + seq!['\n'] =~= ls[0] + seq!['\n'] + Seq::<char>::empty());
        lemma_lines_of_line(ls[0], seq![]);
        assert(lines(joined(ls) + seq!['\n']) =~= ls.map_values(|l: Seq<char>| strip_cr(l)));
    } else {
        let dl = ls.drop_last();
        assert(forall|k: int| 0 <= k < dl.len() ==> no_newline(#[trigger] dl[k])) by {
            assert forall|k: int| 0 <= k < dl.len() implies no_newline(#[trigger] dl[k]) by {
                assert(dl[k] == ls[k]);
            }
        }
        lemma_lines_of_joined(dl);
        let a = joined(dl) + seq!['\n'];
        let b = ls.last() + seq!['\n'];
        assert(joined(ls) + seq!['\n'] =~= a + b);
        lemma_lines_append(a, b);
        assert(no_newline(ls.last()));
        assert(b =~= ls.last() + seq!['\n'] + Seq::<char>::empty());
        lemma_lines_of_line(ls.last(), seq![]);
        assert(lines(b) =~= seq![strip_cr(ls.last())]);
        assert(lines(joined(ls) + seq!['\n']) =~= ls.map_values(|l: Seq<char>| strip_cr(l)));
    }
}

/// `l` ends with a carriage return.
pub open spec fn ends_with_cr(l: Seq<char>) -> bool {
    l.len() > 0 && l.last() == '\r'
}

/// Lines joined by line feeds read back as the same lines, when none holds a
/// line feed, none but the last ends with a carriage return, and the last is
/// not empty.
pub proof fn lemma_lines_of_joined_exact(ls: Seq<Seq<char>>)
    requires
        ls.len() > 0,
        forall|k: int| 0 <= k < ls.len() ==> no_newline(#[trigger] ls[k]),
        forall|k: int| 0 <= k < ls.len() - 1 ==> !ends_with_cr(#[trigger] ls[k]),
        ls.last().len() > 0,
    ensures
        lines(joined(ls)) == ls,
{
    if ls.len() == 1 {
        lemma_lines_of_last(ls[0]);
        assert(lines(joined(ls)) =~= ls);
    } else {
        let dl = ls.drop_last();
        assert forall|k: int| 0 <= k < dl.len() implies no_newline(#[trigger] dl[k]) by {
            assert(dl[k] == ls[k]);
        }
        lemma_lines_of_joined(dl);
        assert(dl.map_values(|l: Seq<char>| strip_cr(l)) =~= dl) by {
            assert forall|k: int| 0 <= k < dl.len() implies strip_cr(#[trigger] dl[k]) == dl[k] by {
                assert(dl[k] == ls[k]);
                assert(!ends_with_cr(ls[k]));
            }
        }
        let a = joined(dl) + seq!['\n'];
        assert(joined(ls) =~= a + ls.last());
        lemma_lines_append(a, ls.last());
        lemma_lines_of_last(ls.last());
        assert(lines(joined(ls)) =~= ls);
    }
}

/// A line put in front of others.
pub proof fn lemma_joined_cons(x: Seq<char>, ls: Seq<Seq<char>>)
    requires
        ls.len() > 0,
    ensures
        joined(seq![x] + ls) == x + seq!['\n'] + joined(ls),
    decreases ls.len(),
{
    let t = seq![x] + ls;
    if ls.len() == 1 {
        assert(t.drop_last() =~= seq![x]);
        assert(joined(t) =~= x + seq!['\n'] + joined(ls));
    } else {
        assert(t.drop_last() =~= seq![x] + ls.drop_last());
        lemma_joined_cons(x, ls.drop_last());
        assert(t.last() == ls.last());
        assert(joined(t) == joined(t.drop_last()) + seq!['\n'] + t.last());
        assert(joined(ls) == joined(ls.drop_last()) + seq!['\n'] + ls.last());
        assert(joined(t) =~= x + seq!['\n'] + joined(ls));
    }
}

// ---------------------------------------------------------------------------
// Executable line splitting
// ---------------------------------------------------------------------------

/// Drops one carriage return from the end of `l`, if it has one there.
fn strip_cr_exec(l: &mut Vec<char>)
    ensures
        final(l)@ == strip_cr(old(l)@),
{
    if l.len() > 0 && l[l.len() - 1] == '\r' {
        l.pop();
    }
}

/// The lines of `s`, as `lines` describes them.
pub fn split_lines(s: &Vec<char>) -> (res: Vec<Vec<char>>)
    ensures
        views(res@) == lines(s@),
{
    let mut res: Vec<Vec<char>> = Vec::new();
    let mut cur: Vec<char> = Vec::new();
    assert(views(res@) =~= seq![]);
    assert(cur@ + s@.skip(0) =~= s@);
    assert(lines(s@) =~= views(res@) + lines(cur@ + s@.skip(0)));
    for k in 0..s.len()
        invariant
            no_newline(cur@),
            lines(s@) == views(res@) + lines(cur@ + s@.skip(k as int)),
    {
        let c = s[k];
        let ghost rest = s@.skip(k + 1);
        let ghost old_cur = cur@;
        let ghost before = views(res@);
        assert(s@.skip(k as int) =~= seq![c] + rest);
        if c == '\n' {
            assert(old_cur + s@.skip(k as int) =~= old_cur + seq!['\n'] + rest);
            proof { lemma_lines_of_line(old_cur, rest); }
            let mut line = cur;
            strip_cr_exec(&mut line);
            res.push(line);
            assert(views(res@) =~= before.push(strip_cr(old_cur)));
            cur = Vec::new();
            assert(cur@ + rest =~= rest);
            assert(lines(s@) =~= views(res@) + lines(cur@ + rest));
        } else {
            cur.push(c);
            assert(cur@ + rest =~= old_cur + s@.skip(k as int));
            assert(views(res@) == before);
        }
    }
    proof { lemma_lines_of_last(cur@); }
    assert(cur@ + s@.skip(s.len() as int) =~= cur@);
    if cur.len() > 0 {
        let ghost before = views(res@);
        res.push(cur);
        assert(views(res@) =~= before + seq![res@.last()@]);
    } else {
        assert(views(res@) + seq![] =~= views(res@));
    }
    res
}

} // verus!
