use vstd::prelude::*;
use crate::text::{contains, occurs_at, lemma_find_is};
use crate::lines::{
    joined, lemma_lines_append, lemma_lines_no_newline, lemma_lines_of_joined, lemma_lines_of_last,
    lemma_lines_of_line, lemma_newline_index_bound, lines, newline_index, no_newline, strip_cr,
};
use crate::dependencies::{
    after_bar, bracketed, dependencies_file, dependencies_update, dependency_entry, dependency_piece,
    dependency_text, is_first_project_line, project_entry_line, project_marker,
};

verus! {

/// The lines of a text whose first line is `head`, followed by more text.
proof fn lemma_first_two_lines(head: Seq<char>, p: Seq<char>, u: Seq<char>) -> (w: Seq<char>)
    requires
        no_newline(head),
        no_newline(p),
        exists|j: int| 0 <= j < u.len() && u[j] == '\n',
    ensures
        lines(head + seq!['\n'] + (p + u)).len() >= 2,
        lines(head + seq!['\n'] + (p + u))[0] == strip_cr(head),
        lines(head + seq!['\n'] + (p + u))[1] == strip_cr(p + w),
        no_newline(w),
{
    lemma_lines_of_line(head, p + u);
    lemma_newline_index_bound(u);
    let i = newline_index(u) as int;
    assert(i < u.len()) by {
        if i == u.len() {
            let j = choose|j: int| 0 <= j < u.len() && u[j] == '\n';
        }
    }
    let w = u.take(i);
    assert(no_newline(p + w)) by {
        assert forall|j: int| 0 <= j < (p + w).len() implies (p + w)[j] != '\n' by {
            if j >= p.len() {
                assert((p + w)[j] == u[j - p.len()]);
            }
        }
    }
    assert(p + u =~= (p + w) + seq!['\n'] + u.skip(i + 1));
    lemma_lines_of_line(p + w, u.skip(i + 1));
    w
}

/// The project's name, written to a new dependency file, is read back from
/// it, provided it holds no `]` and no line feed.
pub proof fn law_module_name_round_trip(project_url: Seq<char>, project_name: Seq<char>)
    requires
        no_newline(project_name),
        forall|j: int| 0 <= j < project_name.len() ==> project_name[j] != ']',
    ensures
        project_entry_line(lines(dependencies_file(project_url, project_name))) matches Some(line)
            && bracketed(line) == Some(project_name),
{
    reveal_strlit("BSC_PROJECT: \n");
    reveal_strlit("BSC_PROJECT: ");
    reveal_strlit("BSC_PROJECT:");
    reveal_strlit("\t[");
    reveal_strlit("]:^");
    reveal_strlit("0.1.0");
    reveal_strlit("\t|\t");
    reveal_strlit(" \n\nBSC_DEPENDENCIES: \n");
    let name = project_name;
    let head = "BSC_PROJECT: "@;
    let p = "\t["@ + name + "]:^"@ + "0.1.0"@ + "\t|\t"@;
    let tail = " \n\nBSC_DEPENDENCIES: \n"@;
    let u = project_url + tail;
    let content = dependencies_file(project_url, project_name);
    assert(content =~= head + seq!['\n'] + (p + u));
    assert(no_newline(p)) by {
        assert forall|j: int| 0 <= j < p.len() implies p[j] != '\n' by {
            if 2 <= j < 2 + name.len() {
                assert(p[j] == name[j - 2]);
            }
        }
    }
    assert(u[project_url.len() as int + 1] == '\n');
    let w = lemma_first_two_lines(head, p, u);
    let ls = lines(content);
    assert(strip_cr(head) == head);
    assert(occurs_at(head, project_marker(), 0)) by {
        assert(head.subrange(0, project_marker().len() as int) =~= project_marker());
    }
    assert(is_first_project_line(ls, 0));
    assert forall|q: int| is_first_project_line(ls, q) && q + 1 < ls.len() implies q == 0 by {
        if q > 0 {
            assert(contains(ls[0], project_marker()));
        }
    }
    let line = ls[1];
    assert(project_entry_line(ls) == Some(line));
    // The line starts with `p`.
    assert(line.len() >= p.len() && forall|j: int| 0 <= j < p.len() ==> line[j] == p[j]) by {
        let pw = p + w;
        if pw.len() > 0 && pw.last() == '\r' {
            assert(w.len() > 0);
        }
    }
    let e: int = 2 + name.len() as int;
    assert(line[1] == '[');
    assert(occurs_at(line, seq!['['], 1)) by {
        assert(line.subrange(1, 2) =~= seq!['[']);
    }
    assert(!occurs_at(line, seq!['['], 0)) by {
        assert(line.subrange(0, 1)[0] == line[0]);
    }
    lemma_find_is(line, seq!['['], 1);
    assert(line[e] == ']');
    assert(occurs_at(line, seq![']'], e)) by {
        assert(line.subrange(e, e + 1) =~= seq![']']);
    }
    assert forall|j: int| 0 <= j < e implies !occurs_at(line, seq![']'], j) by {
        assert(line.subrange(j, j + 1)[0] == line[j]);
        if 2 <= j {
            assert(line[j] == name[j - 2]);
        }
    }
    lemma_find_is(line, seq![']'], e);
    assert(line.subrange(2, e) =~= name);
}

/// The project's address, written to a new dependency file, is read back
/// from it, provided it holds no line feed and the project's name holds no
/// `|` and no line feed.
pub proof fn law_module_url_round_trip(project_url: Seq<char>, project_name: Seq<char>)
    requires
        no_newline(project_name),
        no_newline(project_url),
        forall|j: int| 0 <= j < project_name.len() ==> project_name[j] != '|',
    ensures
        project_entry_line(lines(dependencies_file(project_url, project_name))) matches Some(line)
            && after_bar(line) == Some(project_url),
{
    reveal_strlit("BSC_PROJECT: \n");
    reveal_strlit("BSC_PROJECT: ");
    reveal_strlit("BSC_PROJECT:");
    reveal_strlit("\t[");
    reveal_strlit("]:^");
    reveal_strlit("0.1.0");
    reveal_strlit("\t|\t");
    reveal_strlit(" \n\nBSC_DEPENDENCIES: \n");
    let name = project_name;
    let url = project_url;
    let head = "BSC_PROJECT: "@;
    let p = "\t["@ + name + "]:^"@ + "0.1.0"@ + "\t|\t"@;
    let line = p + url + seq![' '];
    let rest = "\nBSC_DEPENDENCIES: \n"@;
    reveal_strlit("\nBSC_DEPENDENCIES: \n");
    let content = dependencies_file(project_url, project_name);
    assert(content =~= head + seq!['\n'] + (line + seq!['\n'] + rest));
    assert(no_newline(line)) by {
        assert forall|j: int| 0 <= j < line.len() implies line[j] != '\n' by {
            if 2 <= j < 2 + name.len() {
                assert(line[j] == name[j - 2]);
            } else if p.len() <= j < p.len() + url.len() {
                assert(line[j] == url[j - p.len()]);
            }
        }
    }
    lemma_lines_of_line(head, line + seq!['\n'] + rest);
    lemma_lines_of_line(line, rest);
    let ls = lines(content);
    assert(ls[0] == head);
    assert(ls[1] == line);
    assert(occurs_at(head, project_marker(), 0)) by {
        assert(head.subrange(0, project_marker().len() as int) =~= project_marker());
    }
    assert(is_first_project_line(ls, 0));
    assert forall|q: int| is_first_project_line(ls, q) && q + 1 < ls.len() implies q == 0 by {
        if q > 0 {
            assert(contains(ls[0], project_marker()));
        }
    }
    assert(project_entry_line(ls) == Some(line));
    let b: int = p.len() - 2;
    let bar = seq!['|', '\t'];
    assert(occurs_at(line, bar, b)) by {
        assert(line.subrange(b, b + 2) =~= bar);
    }
    assert forall|j: int| 0 <= j < b implies !occurs_at(line, bar, j) by {
        assert(line.subrange(j, j + 2)[0] == line[j]);
        if 2 <= j < 2 + name.len() {
            assert(line[j] == name[j - 2]);
        }
    }
    lemma_find_is(line, bar, b);
    assert(line.skip(b + 2) =~= url + seq![' ']);
    assert((url + seq![' ']).drop_last() =~= url);
}

/// The lines kept from the first `n` lines, the first of them standing for
/// the file's first line even where that one goes.
pub open spec fn kept_lines(ls: Seq<Seq<char>>, entry: Seq<char>, n: nat) -> Seq<Seq<char>>
    decreases n,
{
    if n == 0 {
        seq![]
    } else if n == 1 {
        seq![dependency_piece(ls, 0, entry)]
    } else {
        kept_lines(ls, entry, (n - 1) as nat) + (if contains(ls[n - 1], entry) {
            seq![]
        } else {
            seq![ls[n - 1]]
        })
    }
}

/// A line that can be read back as it is: one line, not ending with a
/// carriage return, and without the entry.
pub open spec fn stable_line(l: Seq<char>, entry: Seq<char>) -> bool {
    &&& no_newline(l)
    &&& !(l.len() > 0 && l.last() == '\r')
    &&& !contains(l, entry)
}

proof fn lemma_kept_lines(ls: Seq<Seq<char>>, entry: Seq<char>, n: nat)
    requires
        1 <= n <= ls.len(),
        entry.len() > 0,
        forall|k: int| 0 <= k < ls.len() ==> no_newline(#[trigger] ls[k]),
        forall|k: int|
            0 <= k < ls.len() && !contains(#[trigger] ls[k], entry) ==> !(ls[k].len() > 0
                && ls[k].last() == '\r'),
    ensures
        kept_lines(ls, entry, n).len() >= 1,
        dependency_text(ls, entry, n) == joined(kept_lines(ls, entry, n)),
        forall|k: int|
            0 <= k < kept_lines(ls, entry, n).len() ==> stable_line(
                #[trigger] kept_lines(ls, entry, n)[k],
                entry,
            ),
    decreases n,
{
    if n == 1 {
        assert(dependency_text(ls, entry, 0) =~= seq![]);
        assert(dependency_text(ls, entry, 1) =~= dependency_piece(ls, 0, entry));
        let a = dependency_piece(ls, 0, entry);
        assert(stable_line(a, entry)) by {
            if contains(ls[0], entry) {
                assert(a =~= seq![]);
                if contains(a, entry) {
                    let j = choose|j: int| occurs_at(a, entry, j);
                }
            } else {
                assert(a =~= ls[0]);
            }
        }
    } else {
        lemma_kept_lines(ls, entry, (n - 1) as nat);
        let k0 = kept_lines(ls, entry, (n - 1) as nat);
        let k1 = kept_lines(ls, entry, n);
        if contains(ls[n - 1], entry) {
            assert(k1 =~= k0);
            assert(dependency_text(ls, entry, n) =~= dependency_text(ls, entry, (n - 1) as nat));
        } else {
            assert(k1 =~= k0.push(ls[n - 1]));
            assert(k1.drop_last() =~= k0);
            assert(dependency_text(ls, entry, n) =~= joined(k1));
        }
    }
}

/// Lines that all stay, copied as they are.
proof fn lemma_all_kept(ls: Seq<Seq<char>>, entry: Seq<char>, n: nat)
    requires
        1 <= n <= ls.len(),
        forall|k: int| 0 <= k < n ==> !contains(#[trigger] ls[k], entry),
    ensures
        dependency_text(ls, entry, n) == joined(ls.take(n as int)),
    decreases n,
{
    if n == 1 {
        assert(dependency_text(ls, entry, 0) =~= seq![]);
        assert(dependency_text(ls, entry, 1) =~= ls[0]);
    } else {
        lemma_all_kept(ls, entry, (n - 1) as nat);
        assert(ls.take(n as int).drop_last() =~= ls.take(n - 1));
        assert(dependency_text(ls, entry, n) =~= joined(ls.take(n as int)));
    }
}

/// The first addition keeps some lines, each one stable, joined.
proof fn lemma_first_addition(content: Seq<char>, entry: Seq<char>) -> (kept: Seq<Seq<char>>)
    requires
        entry.len() > 0,
        forall|k: int|
            0 <= k < lines(content).len() && !contains(#[trigger] lines(content)[k], entry)
                ==> !(lines(content)[k].len() > 0 && lines(content)[k].last() == '\r'),
    ensures
        kept.len() >= 1,
        dependency_text(lines(content), entry, lines(content).len()) == joined(kept),
        forall|k: int| 0 <= k < kept.len() ==> stable_line(#[trigger] kept[k], entry),
{
    let ls = lines(content);
    lemma_lines_no_newline(content);
    if ls.len() == 0 {
        let kept = seq![Seq::<char>::empty()];
        assert(dependency_text(ls, entry, 0) =~= joined(kept));
        assert forall|k: int| 0 <= k < kept.len() implies stable_line(#[trigger] kept[k], entry) by {
            if contains(kept[k], entry) {
                let j = choose|j: int| occurs_at(kept[k], entry, j);
            }
        }
        kept
    } else {
        lemma_kept_lines(ls, entry, ls.len());
        kept_lines(ls, entry, ls.len())
    }
}

/// Stable lines, joined and followed by the entry, read back.
proof fn lemma_read_back(kept: Seq<Seq<char>>, entry: Seq<char>)
    requires
        kept.len() >= 1,
        entry.len() > 0,
        no_newline(entry),
        forall|k: int| 0 <= k < kept.len() ==> stable_line(#[trigger] kept[k], entry),
    ensures
        lines(joined(kept) + seq!['\n'] + entry) == kept + seq![entry],
{
    assert(forall|k: int| 0 <= k < kept.len() ==> no_newline(#[trigger] kept[k]));
    lemma_lines_of_joined(kept);
    assert(kept.map_values(|l: Seq<char>| strip_cr(l)) =~= kept);
    let a = joined(kept) + seq!['\n'];
    lemma_lines_append(a, entry);
    lemma_lines_of_last(entry);
}

/// The second addition keeps the stable lines and drops the entry.
proof fn lemma_second_addition(kept: Seq<Seq<char>>, entry: Seq<char>)
    requires
        kept.len() >= 1,
        forall|k: int| 0 <= k < kept.len() ==> stable_line(#[trigger] kept[k], entry),
    ensures
        dependency_text(kept + seq![entry], entry, kept.len() + 1) == joined(kept),
{
    let lo = kept + seq![entry];
    assert(contains(entry, entry)) by {
        assert(entry.subrange(0, entry.len() as int) =~= entry);
        assert(occurs_at(entry, entry, 0));
    }
    assert forall|k: int| 0 <= k < kept.len() implies !contains(#[trigger] lo[k], entry) by {
        assert(lo[k] == kept[k]);
    }
    lemma_all_kept(lo, entry, kept.len());
    assert(lo.take(kept.len() as int) =~= kept);
    assert(dependency_piece(lo, kept.len() as int, entry) =~= seq![]);
    assert(dependency_text(lo, entry, kept.len() + 1) =~= joined(kept));
}

/// Adding the same module a second time leaves the dependency file as the
/// first addition made it. This holds when the entry holds no line feed and
/// no line of the file that lacks the entry ends with a carriage return.
pub proof fn law_dependency_added_once(
    content: Seq<char>,
    name: Seq<char>,
    version: Seq<char>,
    url: Seq<char>,
)
    requires
        no_newline(dependency_entry(name, version, url)),
        forall|k: int|
            0 <= k < lines(content).len() && !contains(
                #[trigger] lines(content)[k],
                dependency_entry(name, version, url),
            ) ==> !(lines(content)[k].len() > 0 && lines(content)[k].last() == '\r'),
    ensures
        dependencies_update(
            dependencies_update(content, dependency_entry(name, version, url)),
            dependency_entry(name, version, url),
        ) == dependencies_update(content, dependency_entry(name, version, url)),
{
    let entry = dependency_entry(name, version, url);
    assert(entry.len() > 0) by {
        reveal_strlit("\t[");
    }
    let kept = lemma_first_addition(content, entry);
    let out1 = dependencies_update(content, entry);
    assert(out1 == joined(kept) + seq!['\n'] + entry);
    lemma_read_back(kept, entry);
    lemma_second_addition(kept, entry);
}

} // verus!
