use vstd::prelude::*;
use crate::text::{contains, occurs_at};
use crate::lines::{
    ends_with_cr, joined, lemma_lines_no_newline, lemma_lines_of_joined_exact, lines, no_newline,
};
use crate::include_path::{
    forward_slashes, include_line, include_update, mentions_header, rewritten_include,
};

verus! {

/// The include line of a later header never mentions an earlier header of
/// the list.
pub open spec fn later_headers_unmentioned(headers: Seq<Seq<char>>, name: Seq<char>) -> bool {
    forall|a: int, b: int|
        0 <= a < b < headers.len() ==> !mentions_header(
            #[trigger] include_line(name, headers[b]),
            #[trigger] headers[a],
        )
}

/// An include line mentions its own header.
proof fn lemma_include_line_mentions(name: Seq<char>, h: Seq<char>)
    ensures
        mentions_header(include_line(name, h), h),
{
    let pre = "#include \""@ + name + seq!['/'];
    let l = include_line(name, h);
    let f = forward_slashes(h);
    assert(l =~= pre + f + seq!['"']);
    assert(l.subrange(pre.len() as int, pre.len() + f.len() as int) =~= f);
    assert(occurs_at(l, f, pre.len() as int));
}

/// A line that mentions a header no include line of the list mentions does
/// not mention it once rewritten.
proof fn lemma_rewrite_avoids(line: Seq<char>, headers: Seq<Seq<char>>, name: Seq<char>, h: Seq<char>)
    requires
        !mentions_header(line, h),
        forall|b: int| 0 <= b < headers.len() ==> !mentions_header(#[trigger] include_line(name, headers[b]), h),
    ensures
        !mentions_header(rewritten_include(line, headers, name), h),
    decreases headers.len(),
{
    if headers.len() > 0 && !mentions_header(line, headers[0]) {
        let tail = headers.drop_first();
        assert forall|b: int| 0 <= b < tail.len() implies !mentions_header(#[trigger] include_line(name, tail[b]), h) by {
            assert(tail[b] == headers[b + 1]);
        }
        lemma_rewrite_avoids(line, tail, name, h);
    }
}

/// A rewritten line is rewritten to itself.
proof fn lemma_rewrite_fixed(line: Seq<char>, headers: Seq<Seq<char>>, name: Seq<char>)
    requires
        later_headers_unmentioned(headers, name),
    ensures
        rewritten_include(rewritten_include(line, headers, name), headers, name)
            == rewritten_include(line, headers, name),
    decreases headers.len(),
{
    if headers.len() > 0 {
        if mentions_header(line, headers[0]) {
            lemma_include_line_mentions(name, headers[0]);
        } else {
            let tail = headers.drop_first();
            assert(later_headers_unmentioned(tail, name)) by {
                assert forall|a: int, b: int| 0 <= a < b < tail.len() implies !mentions_header(
                    #[trigger] include_line(name, tail[b]),
                    #[trigger] tail[a],
                ) by {
                    assert(tail[a] == headers[a + 1]);
                    assert(tail[b] == headers[b + 1]);
                }
            }
            lemma_rewrite_fixed(line, tail, name);
            assert forall|b: int| 0 <= b < tail.len() implies !mentions_header(
                #[trigger] include_line(name, tail[b]),
                headers[0],
            ) by {
                assert(tail[b] == headers[b + 1]);
                assert(!mentions_header(include_line(name, headers[b + 1]), headers[0]));
            }
            lemma_rewrite_avoids(line, tail, name, headers[0]);
        }
    }
}

/// A rewritten line holds no line feed where the line, the module name and
/// the headers hold none.
proof fn lemma_rewrite_no_newline(line: Seq<char>, headers: Seq<Seq<char>>, name: Seq<char>)
    requires
        no_newline(line),
        no_newline(name),
        forall|k: int| 0 <= k < headers.len() ==> no_newline(#[trigger] headers[k]),
    ensures
        no_newline(rewritten_include(line, headers, name)),
    decreases headers.len(),
{
    if headers.len() > 0 {
        if mentions_header(line, headers[0]) {
            reveal_strlit("#include \"");
            let h = headers[0];
            let pre = "#include \""@;
            let f = forward_slashes(h);
            let l = include_line(name, h);
            assert forall|j: int| 0 <= j < l.len() implies l[j] != '\n' by {
                if j < pre.len() {
                    assert(l[j] == pre[j]);
                } else if j < pre.len() + name.len() {
                    assert(l[j] == name[j - pre.len()]);
                } else if j == pre.len() + name.len() {
                } else if j < pre.len() + name.len() + 1 + f.len() {
                    assert(l[j] == f[j - pre.len() - name.len() - 1]);
                    assert(f[j - pre.len() - name.len() - 1] == (if h[j - pre.len() - name.len() - 1] == '\\' { '/' } else { h[j - pre.len() - name.len() - 1] }));
                }
            }
        } else {
            let tail = headers.drop_first();
            assert forall|k: int| 0 <= k < tail.len() implies no_newline(#[trigger] tail[k]) by {
                assert(tail[k] == headers[k + 1]);
            }
            lemma_rewrite_no_newline(line, tail, name);
        }
    }
}

/// Rewriting a C file's include lines a second time leaves the first result.
/// This holds when the module name and the headers hold no line feed, no
/// header of the list is mentioned by the include line of a later one (as
/// with a single header), no rewritten line but the last ends with a carriage
/// return, and the last rewritten line is not empty.
pub proof fn law_include_rewrite_idempotent(
    content: Seq<char>,
    headers: Seq<Seq<char>>,
    name: Seq<char>,
)
    requires
        no_newline(name),
        forall|k: int| 0 <= k < headers.len() ==> no_newline(#[trigger] headers[k]),
        later_headers_unmentioned(headers, name),
        forall|i: int|
            0 <= i < lines(content).len() - 1 ==> !ends_with_cr(
                rewritten_include(#[trigger] lines(content)[i], headers, name),
            ),
        lines(content).len() > 0 ==> rewritten_include(lines(content).last(), headers, name).len()
            > 0,
    ensures
        include_update(include_update(content, headers, name), headers, name) == include_update(
            content,
            headers,
            name,
        ),
{
    let ls = lines(content);
    let m = ls.map_values(|l: Seq<char>| rewritten_include(l, headers, name));
    let out = include_update(content, headers, name);
    assert(out == joined(m));
    if ls.len() == 0 {
        assert(m =~= Seq::<Seq<char>>::empty());
        assert(out =~= Seq::<char>::empty());
        assert(lines(out) =~= Seq::<Seq<char>>::empty());
        assert(lines(out).map_values(|l: Seq<char>| rewritten_include(l, headers, name)) =~= m);
    } else {
        lemma_lines_no_newline(content);
        assert forall|k: int| 0 <= k < m.len() implies no_newline(#[trigger] m[k]) by {
            lemma_rewrite_no_newline(ls[k], headers, name);
        }
        assert forall|k: int| 0 <= k < m.len() - 1 implies !ends_with_cr(#[trigger] m[k]) by {
            assert(m[k] == rewritten_include(ls[k], headers, name));
        }
        assert(m.last() == rewritten_include(ls.last(), headers, name));
        lemma_lines_of_joined_exact(m);
        assert(lines(out).map_values(|l: Seq<char>| rewritten_include(l, headers, name)) =~= m) by {
            assert forall|k: int| 0 <= k < m.len() implies rewritten_include(#[trigger] m[k], headers, name) == m[k] by {
                lemma_rewrite_fixed(ls[k], headers, name);
            }
        }
    }
}

} // verus!
