use vstd::prelude::*;
use crate::text::{contains, occurs_at};
use crate::lines::{
    ends_with_cr, joined, lemma_joined_cons, lemma_lines_of_joined_exact, lemma_lines_append, lemma_lines_no_newline, lemma_lines_of_last, lemma_lines_of_line,
    lemma_newline_index_bound, lines, newline_index, no_newline, strip_cr,
};
use crate::cmake::{
    already_added, end_of_include_libraries, headers_already_present, headers_piece, headers_text,
    headers_update, include_directive, include_insertion, previous_line, add_executables,
    end_of_adding_source_files, end_of_removing_main_files, executables_passed,
    previous_sources_line, removal_block, source_glob, source_insertion, sources_already_present,
    sources_line, sources_piece, sources_text, sources_update, sources_variable, moved_line,
    moved_piece, moved_text, moved_update, modules_dir, nested_include_pattern,
    without_modules_dir,
};

verus! {

/// A text without line feed does not hold a pattern that starts with one.
pub proof fn lemma_no_newline_excludes(s: Seq<char>, p: Seq<char>)
    requires
        no_newline(s),
        p.len() > 0,
        p[0] == '\n',
    ensures
        !contains(s, p),
{
    if contains(s, p) {
        let i = choose|i: int| occurs_at(s, p, i);
        assert(s.subrange(i, i + p.len())[0] == p[0]);
    }
}

/// Dropping a final carriage return keeps every pattern that does not end
/// with one.
pub proof fn lemma_strip_cr_keeps(l: Seq<char>, p: Seq<char>)
    requires
        contains(l, p),
        p.len() > 0,
        p.last() != '\r',
    ensures
        contains(strip_cr(l), p),
{
    let i = choose|i: int| occurs_at(l, p, i);
    if l.len() > 0 && l.last() == '\r' {
        let s = strip_cr(l);
        assert(i + p.len() <= s.len()) by {
            if i + p.len() == l.len() {
                assert(l.subrange(i, i + p.len())[p.len() - 1] == p.last());
            }
        }
        assert(s.subrange(i, i + p.len()) =~= l.subrange(i, i + p.len()));
        assert(occurs_at(s, p, i));
    }
}

/// Facts about the fixed texts of the include section.
proof fn lemma_include_texts(module_dir: Seq<char>)
    requires
        no_newline(module_dir),
    ensures
        end_of_include_libraries().len() > 0,
        end_of_include_libraries().last() != '\r',
        no_newline(include_directive(module_dir)),
        include_directive(module_dir).len() > 0,
        include_directive(module_dir).last() == ')',
        include_insertion(module_dir)[0] == '\n',
        include_insertion(module_dir).len() > 0,
{
    reveal_strlit("## End of include libraries ##");
    reveal_strlit("include_directories (\"${PROJECT_BINARY_DIR}/../");
    reveal_strlit("/include\")");
    let d = include_directive(module_dir);
    let a = "include_directories (\"${PROJECT_BINARY_DIR}/../"@;
    let b = "/include\")"@;
    assert forall|j: int| 0 <= j < d.len() implies d[j] != '\n' by {
        if j < a.len() {
            assert(d[j] == a[j]);
        } else if j < a.len() + module_dir.len() {
            assert(d[j] == module_dir[j - a.len()]);
        } else {
            assert(d[j] == b[j - a.len() - module_dir.len()]);
        }
    }
}

/// What follows the line that first closes the include section starts with
/// a line feed, if anything follows it.
proof fn lemma_headers_tail(ls: Seq<Seq<char>>, module_dir: Seq<char>, k: int, n: nat) -> (r: Seq<
    char>)
    requires
        0 <= k,
        k + 1 <= n <= ls.len(),
        no_newline(module_dir),
    ensures
        headers_text(ls, module_dir, n) == headers_text(ls, module_dir, (k + 1) as nat) + r,
        r.len() == 0 || r[0] == '\n',
    decreases n,
{
    if n == k + 1 {
        assert(headers_text(ls, module_dir, n) =~= headers_text(ls, module_dir, n) + seq![]);
        seq![]
    } else {
        let r0 = lemma_headers_tail(ls, module_dir, k, (n - 1) as nat);
        let p = headers_piece(ls, n - 1, module_dir);
        lemma_include_texts(module_dir);
        assert(p[0] == '\n');
        let r = r0 + p;
        assert(headers_text(ls, module_dir, n) =~= headers_text(ls, module_dir, (k + 1) as nat) + r);
        r
    }
}

/// Adding a module's headers to the main CMakeLists never leaves it as it
/// is: a line read from a file holds no line feed, so none holds the
/// inserted text, which starts with one.
pub proof fn law_headers_always_rewritten(content: Seq<char>, module_dir: Seq<char>)
    ensures
        headers_update(content, module_dir) is Some,
{
    let ls = lines(content);
    lemma_lines_no_newline(content);
    reveal_strlit("include_directories (\"${PROJECT_BINARY_DIR}/../");
    assert forall|i: int| 0 <= i < ls.len() implies !contains(
        previous_line(ls, i),
        include_insertion(module_dir),
    ) by {
        if i > 0 {
            assert(no_newline(ls[i - 1]));
        }
        lemma_no_newline_excludes(previous_line(ls, i), include_insertion(module_dir));
    }
}

/// Adding a module's headers to the main CMakeLists always yields a new text,
/// and the module is then found to be already added. This holds when the
/// module directory has no line feed and some line other than the first
/// closes the include section.
pub proof fn law_added_headers_are_found(content: Seq<char>, module_dir: Seq<char>)
    requires
        no_newline(module_dir),
        exists|i: int|
            1 <= i < lines(content).len() && contains(
                #[trigger] lines(content)[i],
                end_of_include_libraries(),
            ),
    ensures
        headers_update(content, module_dir) matches Some(out) && already_added(out, module_dir),
{
    let ls = lines(content);
    let mark = end_of_include_libraries();
    lemma_include_texts(module_dir);
    lemma_lines_no_newline(content);
    // Never left unchanged: no line holds a line feed.
    assert(!headers_already_present(ls, module_dir)) by {
        assert forall|i: int| 0 <= i < ls.len() implies !contains(
            previous_line(ls, i),
            include_insertion(module_dir),
        ) by {
            if i > 0 {
                assert(no_newline(ls[i - 1]));
            }
            lemma_no_newline_excludes(previous_line(ls, i), include_insertion(module_dir));
        }
    }
    // A line, other than the first, that closes the include section.
    let k = choose|i: int| 1 <= i < ls.len() && contains(#[trigger] ls[i], mark);
    let x = headers_text(ls, module_dir, k as nat);
    let t = seq!['\t'] + include_directive(module_dir);
    let lk = ls[k];
    let r = lemma_headers_tail(ls, module_dir, k, ls.len());
    let out = headers_text(ls, module_dir, ls.len());
    assert(headers_piece(ls, k, module_dir) =~= seq!['\n'] + t + seq!['\n'] + lk);
    assert(out =~= (x + seq!['\n']) + (t + seq!['\n'] + (lk + r)));
    lemma_lines_append(x + seq!['\n'], t + seq!['\n'] + (lk + r));
    assert(no_newline(t)) by {
        assert forall|j: int| 0 <= j < t.len() implies t[j] != '\n' by {
            if j > 0 {
                assert(t[j] == include_directive(module_dir)[j - 1]);
            }
        }
    }
    lemma_lines_of_line(t, lk + r);
    assert(strip_cr(t) == t);
    let m = lines(x + seq!['\n']).len() as int;
    let lo = lines(out);
    assert(lo == lines(x + seq!['\n']) + (seq![t] + lines(lk + r)));
    assert(lo[m] == t);
    assert(no_newline(lk));
    assert(lk.len() > 0) by {
        let j = choose|j: int| occurs_at(lk, mark, j);
    }
    if r.len() == 0 {
        assert(lk + r =~= lk);
        lemma_lines_of_last(lk);
        assert(lo[m + 1] == lk);
    } else {
        assert(lk + r =~= lk + seq!['\n'] + r.skip(1));
        lemma_lines_of_line(lk, r.skip(1));
        assert(lo[m + 1] == strip_cr(lk));
        lemma_strip_cr_keeps(lk, mark);
    }
    assert(contains(lo[m + 1], mark));
    assert(occurs_at(t, include_directive(module_dir), 1)) by {
        assert(t.subrange(1, 1 + include_directive(module_dir).len() as int) =~= include_directive(
            module_dir,
        ));
    }
    assert(contains(previous_line(lo, m + 1), include_directive(module_dir)));
    assert(already_added(out, module_dir));
}

/// A pattern found once a final carriage return is dropped was there before.
pub proof fn lemma_strip_cr_within(l: Seq<char>, p: Seq<char>)
    requires
        contains(strip_cr(l), p),
    ensures
        contains(l, p),
{
    let s = strip_cr(l);
    let i = choose|i: int| occurs_at(s, p, i);
    assert(l.subrange(i, i + p.len()) =~= s.subrange(i, i + p.len()));
    assert(occurs_at(l, p, i));
}

/// A text without line feed, with one or two more around it.
proof fn lemma_no_newline_concat(a: Seq<char>, b: Seq<char>)
    requires
        no_newline(a),
        no_newline(b),
    ensures
        no_newline(a + b),
{
    assert forall|j: int| 0 <= j < (a + b).len() implies (a + b)[j] != '\n' by {
        if j >= a.len() {
            assert((a + b)[j] == b[j - a.len()]);
        }
    }
}

/// Facts about the fixed texts of the source section.
proof fn lemma_source_texts(name: Seq<char>)
    requires
        no_newline(name),
    ensures
        end_of_adding_source_files().len() > 0,
        end_of_adding_source_files().last() != '\r',
        no_newline(source_glob(name)),
        source_glob(name).last() == ')',
        source_insertion(name).len() > 0,
        source_insertion(name)[0] == '\n',
        removal_block(name).len() > 0,
        removal_block(name)[0] == '\n',
{
    reveal_strlit("## End of adding source files ##");
    reveal_strlit("_source_files");
    reveal_strlit("file (GLOB_RECURSE ");
    reveal_strlit(" ../bsc_modules/");
    reveal_strlit("/src/*)");
    reveal_strlit("\n\tFOREACH(item ${");
    lemma_no_newline_concat(name, "_source_files"@);
    lemma_no_newline_concat("file (GLOB_RECURSE "@, sources_variable(name));
    lemma_no_newline_concat("file (GLOB_RECURSE "@ + sources_variable(name), " ../bsc_modules/"@);
    lemma_no_newline_concat(
        "file (GLOB_RECURSE "@ + sources_variable(name) + " ../bsc_modules/"@,
        name,
    );
    lemma_no_newline_concat(
        "file (GLOB_RECURSE "@ + sources_variable(name) + " ../bsc_modules/"@ + name,
        "/src/*)"@,
    );
}

/// Every piece after the first starts with a line feed.
proof fn lemma_sources_piece_starts(ls: Seq<Seq<char>>, i: int, name: Seq<char>)
    requires
        1 <= i < ls.len(),
        no_newline(name),
    ensures
        sources_piece(ls, i, name).len() > 0,
        sources_piece(ls, i, name)[0] == '\n',
{
    lemma_source_texts(name);
}

/// What follows piece `k` starts with a line feed, if anything follows it.
proof fn lemma_sources_tail(ls: Seq<Seq<char>>, name: Seq<char>, k: int, n: nat) -> (r: Seq<char>)
    requires
        0 <= k,
        k + 1 <= n <= ls.len(),
        no_newline(name),
    ensures
        sources_text(ls, name, n) == sources_text(ls, name, (k + 1) as nat) + r,
        r.len() == 0 || r[0] == '\n',
    decreases n,
{
    if n == k + 1 {
        assert(sources_text(ls, name, n) =~= sources_text(ls, name, n) + seq![]);
        seq![]
    } else {
        let r0 = lemma_sources_tail(ls, name, k, (n - 1) as nat);
        lemma_sources_piece_starts(ls, n - 1, name);
        let r = r0 + sources_piece(ls, n - 1, name);
        assert(sources_text(ls, name, n) =~= sources_text(ls, name, (k + 1) as nat) + r);
        r
    }
}

/// `s` holds no `#`.
pub open spec fn no_hash(s: Seq<char>) -> bool {
    forall|j: int| 0 <= j < s.len() ==> s[j] != '#'
}

/// What is found in a part is found in the whole.
pub proof fn lemma_contains_grow(a: Seq<char>, b: Seq<char>, p: Seq<char>)
    ensures
        contains(a, p) ==> contains(a + b, p),
        contains(b, p) ==> contains(a + b, p),
{
    if contains(a, p) {
        let i = choose|i: int| occurs_at(a, p, i);
        assert((a + b).subrange(i, i + p.len()) =~= a.subrange(i, i + p.len()));
        assert(occurs_at(a + b, p, i));
    }
    if contains(b, p) {
        let i = choose|i: int| occurs_at(b, p, i);
        assert((a + b).subrange(a.len() + i, a.len() + i + p.len()) =~= b.subrange(i, i + p.len()));
        assert(occurs_at(a + b, p, a.len() + i));
    }
}

/// A pattern without line feed, found in a text, is found on one side of a
/// line feed that ends the first part or starts the second.
proof fn lemma_contains_across_newline(a: Seq<char>, b: Seq<char>, p: Seq<char>)
    requires
        no_newline(p),
        contains(a + b, p),
        (a.len() > 0 && a.last() == '\n') || (b.len() > 0 && b[0] == '\n'),
    ensures
        contains(a, p) || contains(b, p),
{
    let t = a + b;
    let i = choose|i: int| occurs_at(t, p, i);
    if i + p.len() <= a.len() {
        assert(a.subrange(i, i + p.len()) =~= t.subrange(i, i + p.len()));
        assert(occurs_at(a, p, i));
    } else if i >= a.len() {
        assert(b.subrange(i - a.len(), i - a.len() + p.len()) =~= t.subrange(i, i + p.len()));
        assert(occurs_at(b, p, i - a.len()));
    } else if a.len() > 0 && a.last() == '\n' {
        assert(t.subrange(i, i + p.len())[a.len() - 1 - i] == t[a.len() - 1]);
        assert(p[a.len() - 1 - i] == '\n');
    } else {
        assert(t.subrange(i, i + p.len())[a.len() - i] == t[a.len() as int]);
        assert(p[a.len() - i] == '\n');
    }
}

/// A pattern that starts with `#`, found after a text without `#`, is found
/// in what follows that text.
proof fn lemma_contains_after_hashless(x: Seq<char>, y: Seq<char>, p: Seq<char>)
    requires
        p.len() > 0,
        p[0] == '#',
        no_hash(x),
        contains(x + y, p),
    ensures
        contains(y, p),
{
    let t = x + y;
    let i = choose|i: int| occurs_at(t, p, i);
    assert(t.subrange(i, i + p.len())[0] == t[i]);
    assert(i >= x.len());
    assert(y.subrange(i - x.len(), i - x.len() + p.len()) =~= t.subrange(i, i + p.len()));
    assert(occurs_at(y, p, i - x.len()));
}

/// A pattern that ends with `#`, found before a text without `#`, is found
/// in what precedes that text.
proof fn lemma_contains_before_hashless(x: Seq<char>, y: Seq<char>, p: Seq<char>)
    requires
        p.len() > 0,
        p.last() == '#',
        no_hash(y),
        contains(x + y, p),
    ensures
        contains(x, p),
{
    let t = x + y;
    let i = choose|i: int| occurs_at(t, p, i);
    assert(t.subrange(i, i + p.len())[p.len() - 1] == t[i + p.len() - 1]);
    assert(i + p.len() <= x.len());
    assert(x.subrange(i, i + p.len()) =~= t.subrange(i, i + p.len()));
    assert(occurs_at(x, p, i));
}

/// A line of a text holds only what the text holds.
pub proof fn lemma_line_within(s: Seq<char>, j: int, p: Seq<char>)
    requires
        0 <= j < lines(s).len(),
        contains(lines(s)[j], p),
    ensures
        contains(s, p),
    decreases s.len(),
{
    lemma_newline_index_bound(s);
    let i = newline_index(s) as int;
    if i < s.len() {
        if j == 0 {
            let l = s.take(i);
            if contains(strip_cr(l), p) {
                lemma_strip_cr_within(l, p);
            }
            assert(s =~= l + s.skip(i));
            lemma_contains_grow(l, s.skip(i), p);
        } else {
            assert(lines(s)[j] == lines(s.skip(i + 1))[j - 1]);
            lemma_line_within(s.skip(i + 1), j - 1, p);
            assert(s =~= s.take(i + 1) + s.skip(i + 1));
            lemma_contains_grow(s.take(i + 1), s.skip(i + 1), p);
        }
    }
}

/// Facts about the comment that opens the executables section.
proof fn lemma_add_executables_text()
    ensures
        add_executables().len() > 1,
        add_executables()[0] == '#',
        add_executables().last() == '#',
        no_newline(add_executables()),
{
    reveal_strlit("## Add executables ##");
}

/// The loop dropping a module's `main.c` opens the executables section only
/// where the module's name does, and its last line holds no `#`.
proof fn lemma_removal_block_clean(name: Seq<char>)
    requires
        !contains(name, add_executables()),
    ensures
        !contains(removal_block(name), add_executables()),
{
    let p = add_executables();
    lemma_add_executables_text();
    let a = "\n\tFOREACH(item ${"@;
    let v = "_source_files"@;
    let b = "}) \n\t\tIF(${item} MATCHES \"main.c\") \n\t\t\tLIST(REMOVE_ITEM "@;
    let c = " ${item}) \n\t\tENDIF(${item} MATCHES \"main.c\") \n\tENDFOREACH(item)"@;
    reveal_strlit("\n\tFOREACH(item ${");
    reveal_strlit("_source_files");
    reveal_strlit("}) \n\t\tIF(${item} MATCHES \"main.c\") \n\t\t\tLIST(REMOVE_ITEM ");
    reveal_strlit(" ${item}) \n\t\tENDIF(${item} MATCHES \"main.c\") \n\tENDFOREACH(item)");
    assert(no_hash(a));
    assert(no_hash(v));
    assert(no_hash(b));
    assert(no_hash(c));
    let b1 = v + b.take(3);
    let b2 = b.skip(4);
    assert(b[3] == '\n');
    assert(no_hash(b1));
    assert(no_hash(b2));
    let f = removal_block(name);
    assert(f =~= a + (name + b1 + seq!['\n'] + b2 + name + (v + c)));
    assert(no_hash(v + c));
    if contains(f, p) {
        lemma_contains_after_hashless(a, name + b1 + seq!['\n'] + b2 + name + (v + c), p);
        lemma_contains_before_hashless(name + b1 + seq!['\n'] + b2 + name, v + c, p);
        assert(name + b1 + seq!['\n'] + b2 + name =~= (name + b1) + (seq!['\n'] + (b2 + name)));
        lemma_contains_across_newline(name + b1, seq!['\n'] + (b2 + name), p);
        if contains(name + b1, p) {
            lemma_contains_before_hashless(name, b1, p);
        } else {
            lemma_contains_across_newline(seq!['\n'], b2 + name, p);
            if contains(seq!['\n'], p) {
                let j = choose|j: int| occurs_at(seq!['\n'], p, j);
            }
            lemma_contains_after_hashless(b2, name, p);
        }
    }
}

/// The last line of the loop dropping a module's `main.c` holds no `#`.
proof fn lemma_removal_block_split(name: Seq<char>) -> (parts: (Seq<char>, Seq<char>))
    ensures
        removal_block(name) == parts.0 + seq!['\n'] + parts.1,
        no_hash(parts.1),
{
    let c = " ${item}) \n\t\tENDIF(${item} MATCHES \"main.c\") \n\tENDFOREACH(item)"@;
    reveal_strlit(" ${item}) \n\t\tENDIF(${item} MATCHES \"main.c\") \n\tENDFOREACH(item)");
    let f = removal_block(name);
    let cl = c.len() as int;
    assert(c[cl - 18] == '\n');
    let f2 = c.skip(cl - 17);
    assert(no_hash(f2));
    let f1 = f.take(f.len() - 18);
    assert(f.skip(f.len() - 17) =~= f2);
    assert(f[f.len() - 18] == '\n');
    assert(f =~= f1 + seq!['\n'] + f2);
    (f1, f2)
}

/// Line `k`, not the first, closes the source section without closing the
/// removal section, and no line before it opens the executables section.
pub open spec fn source_closing_line(ls: Seq<Seq<char>>, k: int) -> bool {
    &&& 1 <= k < ls.len()
    &&& contains(ls[k], end_of_adding_source_files())
    &&& !contains(ls[k], end_of_removing_main_files())
    &&& forall|i: int| 0 <= i < k ==> !contains(#[trigger] ls[i], add_executables())
}

/// Some line before line `k` closes the source section.
pub open spec fn source_closed_before(ls: Seq<Seq<char>>, k: int) -> bool {
    exists|i: int| 0 <= i < k && contains(#[trigger] ls[i], end_of_adding_source_files())
}

/// Some line before line `k` closes the removal section.
pub open spec fn removal_closed_before(ls: Seq<Seq<char>>, k: int) -> bool {
    exists|i: int| 0 <= i < k && contains(#[trigger] ls[i], end_of_removing_main_files())
}

/// Texts joined across a line feed, neither holding a pattern without line
/// feed, do not hold it.
proof fn lemma_clean_join(a: Seq<char>, b: Seq<char>, p: Seq<char>)
    requires
        no_newline(p),
        !contains(a, p),
        !contains(b, p),
        a.len() == 0 || b.len() == 0 || a.last() == '\n' || b[0] == '\n',
    ensures
        !contains(a + b, p),
{
    if a.len() == 0 {
        assert(a + b =~= b);
    } else if b.len() == 0 {
        assert(a + b =~= a);
    } else if contains(a + b, p) {
        lemma_contains_across_newline(a, b, p);
    }
}

/// A text without `#` does not hold a pattern that starts with one.
proof fn lemma_hashless_clean(s: Seq<char>, p: Seq<char>)
    requires
        no_hash(s),
        p.len() > 0,
        p[0] == '#',
    ensures
        !contains(s, p),
{
    if contains(s, p) {
        assert(s + Seq::<char>::empty() =~= s);
        lemma_contains_after_hashless(s, Seq::<char>::empty(), p);
        let j = choose|j: int| occurs_at(Seq::<char>::empty(), p, j);
    }
}

/// Texts without `#`, joined.
proof fn lemma_no_hash_concat(a: Seq<char>, b: Seq<char>)
    requires
        no_hash(a),
        no_hash(b),
    ensures
        no_hash(a + b),
{
    assert forall|j: int| 0 <= j < (a + b).len() implies (a + b)[j] != '#' by {
        if j >= a.len() {
            assert((a + b)[j] == b[j - a.len()]);
        }
    }
}

/// The command gathering a module's sources holds no `#` where the module
/// name holds none.
proof fn lemma_source_insertion_hashless(name: Seq<char>)
    requires
        no_hash(name),
    ensures
        no_hash(source_insertion(name)),
{
    reveal_strlit("file (GLOB_RECURSE ");
    reveal_strlit("_source_files");
    reveal_strlit(" ../bsc_modules/");
    reveal_strlit("/src/*)");
    assert(no_hash("file (GLOB_RECURSE "@));
    assert(no_hash("_source_files"@));
    assert(no_hash(" ../bsc_modules/"@));
    assert(no_hash("/src/*)"@));
    assert(no_hash(seq!['\n', '\t']));
    lemma_no_hash_concat(name, "_source_files"@);
    lemma_no_hash_concat("file (GLOB_RECURSE "@, sources_variable(name));
    lemma_no_hash_concat("file (GLOB_RECURSE "@ + sources_variable(name), " ../bsc_modules/"@);
    lemma_no_hash_concat("file (GLOB_RECURSE "@ + sources_variable(name) + " ../bsc_modules/"@, name);
    lemma_no_hash_concat(
        "file (GLOB_RECURSE "@ + sources_variable(name) + " ../bsc_modules/"@ + name,
        "/src/*)"@,
    );
    lemma_no_hash_concat(seq!['\n', '\t'], source_glob(name));
}

/// Before line `k`, the new text does not open the executables section.
proof fn lemma_sources_prefix_clean(ls: Seq<Seq<char>>, name: Seq<char>, j: int, k: int)
    requires
        0 <= j <= k,
        source_closing_line(ls, k),
        !source_closed_before(ls, k) || no_hash(name),
        !removal_closed_before(ls, k) || !contains(name, add_executables()),
    ensures
        !contains(sources_text(ls, name, j as nat), add_executables()),
    decreases j,
{
    let p = add_executables();
    lemma_add_executables_text();
    if j == 0 {
        if contains(sources_text(ls, name, 0), p) {
            let i = choose|i: int| occurs_at(sources_text(ls, name, 0), p, i);
        }
    } else {
        lemma_sources_prefix_clean(ls, name, j - 1, k);
        let i = j - 1;
        let out = sources_text(ls, name, i as nat);
        let l = ls[i];
        assert(!executables_passed(ls, i));
        assert(sources_line(ls, i, name) == l);
        assert(!contains(l, p));
        let a = if contains(l, end_of_adding_source_files()) {
            source_insertion(name)
        } else {
            seq![]
        };
        let f = if contains(l, end_of_removing_main_files()) {
            removal_block(name)
        } else {
            seq![]
        };
        assert(!contains(a, p)) by {
            if contains(l, end_of_adding_source_files()) {
                assert(source_closed_before(ls, k));
                lemma_source_insertion_hashless(name);
                lemma_hashless_clean(a, p);
            } else if contains(a, p) {
                let q = choose|q: int| occurs_at(a, p, q);
            }
        }
        assert(!contains(f, p)) by {
            if contains(l, end_of_removing_main_files()) {
                assert(removal_closed_before(ls, k));
                lemma_removal_block_clean(name);
            } else if contains(f, p) {
                let q = choose|q: int| occurs_at(f, p, q);
            }
        }
        assert(!contains(seq!['\n'], p)) by {
            if contains(seq!['\n'], p) {
                let q = choose|q: int| occurs_at(seq!['\n'], p, q);
            }
        }
        lemma_source_texts_removal(name);
        reveal_strlit("## End of adding source files ##");
        let piece = sources_piece(ls, i, name);
        if i == 0 {
            assert(out =~= seq![]);
            assert(piece =~= a + (f + l));
            assert(sources_text(ls, name, j as nat) =~= a + (f + l));
            // The loop and the line.
            assert(!contains(f + l, p)) by {
                if contains(f + l, p) {
                    if f.len() == 0 {
                        assert(f + l =~= l);
                    } else {
                        let (f1, f2) = lemma_removal_block_split(name);
                        assert(f + l =~= (f1 + seq!['\n']) + (f2 + l));
                        lemma_contains_across_newline(f1 + seq!['\n'], f2 + l, p);
                        if contains(f1 + seq!['\n'], p) {
                            lemma_contains_grow(f1 + seq!['\n'], f2, p);
                            assert(f1 + seq!['\n'] + f2 =~= f);
                        } else {
                            lemma_contains_after_hashless(f2, l, p);
                        }
                    }
                }
            }
            if contains(a + (f + l), p) {
                if a.len() == 0 {
                    assert(a + (f + l) =~= f + l);
                } else {
                    assert(source_closed_before(ls, k));
                    lemma_source_insertion_hashless(name);
                    lemma_contains_after_hashless(a, f + l, p);
                }
            }
        } else {
            assert(piece =~= a + (f + (seq!['\n'] + l)));
            assert(sources_text(ls, name, j as nat) =~= out + piece);
            lemma_clean_join(seq!['\n'], l, p);
            lemma_clean_join(f, seq!['\n'] + l, p);
            lemma_clean_join(a, f + (seq!['\n'] + l), p);
            lemma_clean_join(out, piece, p);
        }
    }
}

/// The loop dropping a module's `main.c` starts with a line feed.
proof fn lemma_source_texts_removal(name: Seq<char>)
    ensures
        removal_block(name).len() > 0,
        removal_block(name)[0] == '\n',
{
    reveal_strlit("\n\tFOREACH(item ${");
}

/// The second pass over a text that holds, on consecutive lines after a
/// part that never opens the executables section, the command gathering the
/// module's sources and then a line closing the source section.
proof fn lemma_sources_second_pass(x: Seq<char>, lk: Seq<char>, r: Seq<char>, name: Seq<char>)
    requires
        no_newline(name),
        !contains(x, add_executables()),
        no_newline(lk),
        contains(lk, end_of_adding_source_files()),
        r.len() == 0 || r[0] == '\n',
    ensures
        sources_already_present(
            lines((x + seq!['\n']) + (seq!['\t'] + source_glob(name) + seq!['\n'] + (lk + r))),
            name,
        ),
{
    let mark = end_of_adding_source_files();
    let glob = source_glob(name);
    let p = add_executables();
    lemma_source_texts(name);
    lemma_add_executables_text();
    let t = seq!['\t'] + glob;
    let out = (x + seq!['\n']) + (t + seq!['\n'] + (lk + r));
    lemma_lines_append(x + seq!['\n'], t + seq!['\n'] + (lk + r));
    assert(no_newline(t)) by {
        lemma_no_newline_concat(seq!['\t'], glob);
    }
    lemma_lines_of_line(t, lk + r);
    assert(strip_cr(t) == t);
    let pre = lines(x + seq!['\n']);
    let m = pre.len() as int;
    let lo = lines(out);
    assert(lo == pre + (seq![t] + lines(lk + r)));
    assert(lo[m] == t);
    assert(lk.len() > 0) by {
        let j = choose|j: int| occurs_at(lk, mark, j);
    }
    if r.len() == 0 {
        assert(lk + r =~= lk);
        lemma_lines_of_last(lk);
        assert(lo[m + 1] == lk);
    } else {
        assert(lk + r =~= lk + seq!['\n'] + r.skip(1));
        lemma_lines_of_line(lk, r.skip(1));
        assert(lo[m + 1] == strip_cr(lk));
        lemma_strip_cr_keeps(lk, mark);
    }
    assert(contains(lo[m + 1], mark));
    assert(!contains(x + seq!['\n'], p)) by {
        if contains(x + seq!['\n'], p) {
            lemma_contains_across_newline(x, seq!['\n'], p);
            if contains(seq!['\n'], p) {
                let q = choose|q: int| occurs_at(seq!['\n'], p, q);
            }
        }
    }
    assert(!executables_passed(lo, m)) by {
        assert forall|j: int| 0 <= j < m implies !contains(#[trigger] lo[j], p) by {
            assert(lo[j] == pre[j]);
            if contains(pre[j], p) {
                lemma_line_within(x + seq!['\n'], j, p);
            }
        }
    }
    assert(previous_sources_line(lo, m + 1, name) == t);
    assert(occurs_at(t, glob, 1)) by {
        assert(t.subrange(1, 1 + glob.len() as int) =~= glob);
    }
    assert(sources_already_present(lo, name));
}

/// Adding a module's sources a second time leaves the secondary CMakeLists as
/// it is. This holds when the module name has no line feed and some line `k`,
/// not the first, closes the source section without closing the removal
/// section, no line before it opening the executables section; where an
/// earlier line also closes the source section, the name holds no `#`; where
/// an earlier line closes the removal section, the name does not hold the
/// comment that opens the executables section.
pub proof fn law_sources_added_once(content: Seq<char>, name: Seq<char>)
    requires
        no_newline(name),
        exists|k: int|
            source_closing_line(lines(content), k) && (!source_closed_before(lines(content), k)
                || no_hash(name)) && (!removal_closed_before(lines(content), k) || !contains(
                name,
                add_executables(),
            )),
        sources_update(content, name) is Some,
    ensures
        sources_update(sources_update(content, name).unwrap(), name) is None,
{
    let ls = lines(content);
    let k = choose|k: int|
        source_closing_line(ls, k) && (!source_closed_before(ls, k) || no_hash(name)) && (
        !removal_closed_before(ls, k) || !contains(name, add_executables()));
    lemma_lines_no_newline(content);
    lemma_sources_prefix_clean(ls, name, k, k);
    let x = sources_text(ls, name, k as nat);
    let t = seq!['\t'] + source_glob(name);
    let lk = ls[k];
    assert(!executables_passed(ls, k));
    assert(sources_piece(ls, k, name) =~= seq!['\n'] + t + seq!['\n'] + lk);
    let r = lemma_sources_tail(ls, name, k, ls.len());
    let out = sources_text(ls, name, ls.len());
    assert(sources_update(content, name).unwrap() == out);
    assert(out =~= (x + seq!['\n']) + (t + seq!['\n'] + (lk + r)));
    assert(no_newline(lk));
    lemma_sources_second_pass(x, lk, r, name);
}

// ---------------------------------------------------------------------------
// Moving a dependency up, twice
// ---------------------------------------------------------------------------

/// A line with the modules folder taken out holds no line feed where the line
/// holds none.
proof fn lemma_without_modules_dir_no_newline(line: Seq<char>)
    requires
        no_newline(line),
    ensures
        no_newline(without_modules_dir(line)),
{
    match crate::text::find(line, modules_dir()) {
        Some(b) => {
            crate::text::lemma_find_some_iff_contains(line, modules_dir());
            let w = without_modules_dir(line);
            assert forall|j: int| 0 <= j < w.len() implies w[j] != '\n' by {
                if j < b {
                    assert(w[j] == line[j]);
                } else {
                    assert(w[j] == line[j + modules_dir().len()]);
                }
            }
        },
        None => {},
    }
}

/// The text after the move: the moved lines joined, after a line feed where
/// the first line holds the pattern.
pub proof fn lemma_moved_text_joined(ls: Seq<Seq<char>>, pattern: Seq<char>, n: nat)
    requires
        1 <= n <= ls.len(),
    ensures
        moved_text(ls, pattern, n) == (if contains(ls[0], pattern) {
            seq!['\n']
        } else {
            seq![]
        }) + joined(Seq::new(n, |i: int| moved_line(ls[i], pattern))),
    decreases n,
{
    let m = Seq::new(n, |i: int| moved_line(ls[i], pattern));
    if n == 1 {
        assert(moved_text(ls, pattern, 0) =~= seq![]);
        assert(moved_text(ls, pattern, 1) =~= moved_piece(ls, 0, pattern));
    } else {
        lemma_moved_text_joined(ls, pattern, (n - 1) as nat);
        assert(m.drop_last() =~= Seq::new((n - 1) as nat, |i: int| moved_line(ls[i], pattern)));
        assert(moved_piece(ls, n - 1, pattern) =~= seq!['\n'] + m.last());
        assert(moved_text(ls, pattern, n) =~= (if contains(ls[0], pattern) {
            seq!['\n']
        } else {
            seq![]
        }) + joined(m));
    }
}

/// Moving lines that no longer hold the pattern changes none of them.
proof fn lemma_moved_fixed(m: Seq<Seq<char>>, pattern: Seq<char>)
    requires
        forall|i: int| 0 <= i < m.len() ==> !contains(#[trigger] m[i], pattern),
    ensures
        Seq::new(m.len(), |i: int| moved_line(m[i], pattern)) == m,
{
    assert(Seq::new(m.len(), |i: int| moved_line(m[i], pattern)) =~= m);
}

/// Moving a dependency up a second time leaves the text of the first move,
/// for any nonempty pattern: this holds when no moved line still holds the
/// pattern, no moved line but the last ends with a carriage return, and the
/// last moved line is not empty.
proof fn lemma_moved_idempotent(content: Seq<char>, pattern: Seq<char>)
    requires
        pattern.len() > 0,
        forall|i: int|
            0 <= i < lines(content).len() ==> !contains(
                moved_line(#[trigger] lines(content)[i], pattern),
                pattern,
            ),
        forall|i: int|
            0 <= i < lines(content).len() - 1 ==> !ends_with_cr(
                moved_line(#[trigger] lines(content)[i], pattern),
            ),
        lines(content).len() > 0 ==> moved_line(lines(content).last(), pattern).len() > 0,
    ensures
        moved_update(moved_update(content, pattern), pattern) == moved_update(content, pattern),
{
    let ls = lines(content);
    let n = ls.len();
    let out = moved_update(content, pattern);
    assert(!contains(Seq::<char>::empty(), pattern)) by {
        if contains(Seq::<char>::empty(), pattern) {
            let j = choose|j: int| occurs_at(Seq::<char>::empty(), pattern, j);
        }
    }
    if n == 0 {
        assert(out =~= Seq::<char>::empty());
        assert(lines(out) =~= Seq::<Seq<char>>::empty());
        assert(moved_update(out, pattern) =~= Seq::<char>::empty());
    } else {
        lemma_lines_no_newline(content);
        let m = Seq::new(n, |i: int| moved_line(ls[i], pattern));
        lemma_moved_text_joined(ls, pattern, n);
        assert forall|k: int| 0 <= k < m.len() implies no_newline(#[trigger] m[k]) by {
            assert(no_newline(ls[k]));
            lemma_without_modules_dir_no_newline(ls[k]);
        }
        assert forall|k: int| 0 <= k < m.len() - 1 implies !ends_with_cr(#[trigger] m[k]) by {
            assert(m[k] == moved_line(ls[k], pattern));
        }
        assert(m.last() == moved_line(ls.last(), pattern));
        lemma_lines_of_joined_exact(m);
        assert forall|i: int| 0 <= i < m.len() implies !contains(#[trigger] m[i], pattern) by {
            assert(m[i] == moved_line(ls[i], pattern));
        }
        lemma_moved_fixed(m, pattern);
        if contains(ls[0], pattern) {
            assert(out == seq!['\n'] + joined(m));
            assert(out =~= Seq::<char>::empty() + seq!['\n'] + joined(m));
            lemma_lines_of_line(Seq::<char>::empty(), joined(m));
            let lo = lines(out);
            assert(strip_cr(Seq::<char>::empty()) =~= Seq::<char>::empty());
            assert(lo =~= seq![Seq::<char>::empty()] + m);
            assert forall|i: int| 0 <= i < lo.len() implies !contains(#[trigger] lo[i], pattern) by {
                if i > 0 {
                    assert(lo[i] == m[i - 1]);
                }
            }
            lemma_moved_text_joined(lo, pattern, lo.len());
            lemma_moved_fixed(lo, pattern);
            lemma_joined_cons(Seq::<char>::empty(), m);
            assert(moved_update(out, pattern) =~= out);
        } else {
            assert(out =~= joined(m));
            lemma_moved_text_joined(m, pattern, m.len());
            assert(moved_update(out, pattern) =~= out);
        }
    }
}

/// Moving a dependency `name` up in a main CMakeLists a second time leaves
/// the text of the first move. This holds when no moved line still points
/// into the modules folder for `name`, no moved line but the last ends with
/// a carriage return, and the last moved line is not empty.
pub proof fn law_headers_move_idempotent(content: Seq<char>, name: Seq<char>)
    requires
        forall|i: int|
            0 <= i < lines(content).len() ==> !contains(
                moved_line(#[trigger] lines(content)[i], nested_include_pattern(name)),
                nested_include_pattern(name),
            ),
        forall|i: int|
            0 <= i < lines(content).len() - 1 ==> !ends_with_cr(
                moved_line(#[trigger] lines(content)[i], nested_include_pattern(name)),
            ),
        lines(content).len() > 0 ==> moved_line(
            lines(content).last(),
            nested_include_pattern(name),
        ).len() > 0,
    ensures
        moved_update(moved_update(content, nested_include_pattern(name)), nested_include_pattern(name))
            == moved_update(content, nested_include_pattern(name)),
{
    reveal_strlit("include_directories (\"${PROJECT_BINARY_DIR}/../bsc_modules/");
    lemma_moved_idempotent(content, nested_include_pattern(name));
}

/// Moving a dependency `name` up in a source CMakeLists a second time leaves
/// the text of the first move. This holds when no moved line still gathers
/// `name`'s sources from the modules folder, no moved line but the last ends
/// with a carriage return, and the last moved line is not empty.
pub proof fn law_sources_move_idempotent(content: Seq<char>, name: Seq<char>)
    requires
        forall|i: int|
            0 <= i < lines(content).len() ==> !contains(
                moved_line(#[trigger] lines(content)[i], source_glob(name)),
                source_glob(name),
            ),
        forall|i: int|
            0 <= i < lines(content).len() - 1 ==> !ends_with_cr(
                moved_line(#[trigger] lines(content)[i], source_glob(name)),
            ),
        lines(content).len() > 0 ==> moved_line(lines(content).last(), source_glob(name)).len()
            > 0,
    ensures
        moved_update(moved_update(content, source_glob(name)), source_glob(name)) == moved_update(
            content,
            source_glob(name),
        ),
{
    reveal_strlit("file (GLOB_RECURSE ");
    lemma_moved_idempotent(content, source_glob(name));
}

} // verus!
