use vstd::prelude::*;
use crate::text::{contains, find, occurs_at};
use crate::lines::{joined, lemma_lines_of_last, lemma_lines_of_line, lines};
use crate::cmake::{
    already_added, headers_piece, headers_text, headers_update, moved_update, nested_include_pattern,
    source_glob, sources_line, sources_piece, sources_text, sources_update,
};
use crate::cmake_laws::{
    law_headers_always_rewritten, lemma_contains_grow, lemma_line_within, lemma_moved_text_joined,
};
use crate::dependencies::{dependencies_update, dependency_entry, dependency_piece, dependency_text};
use crate::include_path::{forward_slashes, include_line, include_update, mentions_header, rewritten_include};

verus! {

// ---------------------------------------------------------------------------
// Reading a text line by line
// ---------------------------------------------------------------------------

/// Reading a text line by line: a line feed ends the first line, which loses
/// one carriage return at its end if it has one there, and the lines of what
/// follows come after it.
pub proof fn law_lines_split_at_line_feed(first: Seq<char>, rest: Seq<char>)
    requires
        forall|j: int| 0 <= j < first.len() ==> first[j] != '\n',
    ensures
        lines(first + seq!['\n'] + rest) == seq![
            if first.len() > 0 && first.last() == '\r' {
                first.drop_last()
            } else {
                first
            },
        ] + lines(rest),
{
    lemma_lines_of_line(first, rest);
}

/// A text without line feed is one line, as it is, unless it is empty; an
/// empty text has no line.
pub proof fn law_lines_without_line_feed(s: Seq<char>)
    requires
        forall|j: int| 0 <= j < s.len() ==> s[j] != '\n',
    ensures
        lines(s) == (if s.len() == 0 {
            Seq::<Seq<char>>::empty()
        } else {
            seq![s]
        }),
{
    lemma_lines_of_last(s);
}

/// Lines are joined by putting one line feed between each two of them: none
/// joined is empty, one joined is itself.
pub proof fn law_joined_lines(ls: Seq<Seq<char>>, last: Seq<char>)
    ensures
        joined(Seq::<Seq<char>>::empty()) == Seq::<char>::empty(),
        joined(seq![last]) == last,
        ls.len() > 0 ==> joined(ls.push(last)) == joined(ls) + seq!['\n'] + last,
{
    assert(ls.push(last).drop_last() =~= ls);
}

// ---------------------------------------------------------------------------
// Whether a module is already added
// ---------------------------------------------------------------------------

/// A module is found to be already added exactly when some line, other than
/// the first, closes the include section and the line just before it holds
/// the module's complete include directive, its `/include")` end included.
/// So a text in which that directive does not occur never counts as having
/// the module, whatever other modules it includes.
pub proof fn law_already_added_iff_directive_before_closing(content: Seq<char>, module_dir: Seq<char>)
    ensures
        already_added(content, module_dir) <==> exists|i: int|
            1 <= i < lines(content).len() && contains(
                #[trigger] lines(content)[i],
                "## End of include libraries ##"@,
            ) && contains(
                lines(content)[i - 1],
                "include_directories (\"${PROJECT_BINARY_DIR}/../"@ + module_dir + "/include\")"@,
            ),
        !contains(
            content,
            "include_directories (\"${PROJECT_BINARY_DIR}/../"@ + module_dir + "/include\")"@,
        ) ==> !already_added(content, module_dir),
{
    let ls = lines(content);
    let d = "include_directories (\"${PROJECT_BINARY_DIR}/../"@ + module_dir + "/include\")"@;
    reveal_strlit("include_directories (\"${PROJECT_BINARY_DIR}/../");
    assert(d.len() > 0);
    if already_added(content, module_dir) {
        let i = choose|i: int|
            0 <= i < ls.len() && contains(#[trigger] ls[i], "## End of include libraries ##"@)
                && contains(crate::cmake::previous_line(ls, i), d);
        if i == 0 {
            let k = choose|k: int| occurs_at(Seq::<char>::empty(), d, k);
            assert(false);
        }
        assert(contains(ls[i - 1], d));
        lemma_line_within(content, i - 1, d);
    }
}

// ---------------------------------------------------------------------------
// Adding a module's headers
// ---------------------------------------------------------------------------

/// The first `k` lines with the directive in place are the first `k` pieces,
/// one after the other.
proof fn lemma_headers_text_flat(ls: Seq<Seq<char>>, module_dir: Seq<char>, k: nat)
    requires
        k <= ls.len(),
    ensures
        headers_text(ls, module_dir, k) == Seq::new(k, |i: int| headers_piece(ls, i, module_dir)).flatten(),
    decreases k,
{
    let f = |i: int| headers_piece(ls, i, module_dir);
    if k == 0 {
        assert(Seq::new(0, f) =~= Seq::<Seq<char>>::empty());
    } else {
        lemma_headers_text_flat(ls, module_dir, (k - 1) as nat);
        assert(Seq::new(k, f) =~= Seq::new((k - 1) as nat, f).push(f(k - 1)));
        Seq::new((k - 1) as nat, f).lemma_flatten_push(f(k - 1));
    }
}

/// Adding the headers of the module at `module_dir` to the main CMakeLists
/// always gives a new text made of one piece per line of the old one, in
/// order: each piece ends with its line, unchanged, after a line feed (none
/// before the first line), and before a line that closes the include section
/// comes a line feed, a tab and the module's include directive. No line is
/// dropped or altered; the directive is all that is added.
pub proof fn law_headers_keep_every_line(content: Seq<char>, module_dir: Seq<char>) -> (parts: Seq<
    Seq<char>,
>)
    ensures
        parts.len() == lines(content).len(),
        forall|i: int|
            0 <= i < parts.len() ==> #[trigger] parts[i] == (if contains(
                lines(content)[i],
                "## End of include libraries ##"@,
            ) {
                seq!['\n', '\t'] + "include_directories (\"${PROJECT_BINARY_DIR}/../"@ + module_dir
                    + "/include\")"@
            } else {
                seq![]
            }) + (if i == 0 {
                seq![]
            } else {
                seq!['\n']
            }) + lines(content)[i],
        headers_update(content, module_dir) == Some(parts.flatten()),
{
    let ls = lines(content);
    law_headers_always_rewritten(content, module_dir);
    let parts = Seq::new(ls.len(), |i: int| headers_piece(ls, i, module_dir));
    lemma_headers_text_flat(ls, module_dir, ls.len());
    assert forall|i: int| 0 <= i < parts.len() implies #[trigger] parts[i] == (if contains(
        ls[i],
        "## End of include libraries ##"@,
    ) {
        seq!['\n', '\t'] + "include_directories (\"${PROJECT_BINARY_DIR}/../"@ + module_dir
            + "/include\")"@
    } else {
        seq![]
    }) + (if i == 0 {
        seq![]
    } else {
        seq!['\n']
    }) + ls[i] by {
        assert(seq!['\n', '\t'] + "include_directories (\"${PROJECT_BINARY_DIR}/../"@ + module_dir
            + "/include\")"@ =~= crate::cmake::include_insertion(module_dir));
    }
    parts
}

// ---------------------------------------------------------------------------
// Adding a module's sources
// ---------------------------------------------------------------------------

/// The command that gathers the sources of module `name`.
pub open spec fn gather_command(name: Seq<char>) -> Seq<char> {
    "file (GLOB_RECURSE "@ + name + "_source_files"@ + " ../bsc_modules/"@ + name + "/src/*)"@
}

/// The loop that drops `main.c` from the sources of module `name`, each of
/// its lines after a line feed.
pub open spec fn drop_main_loop(name: Seq<char>) -> Seq<char> {
    "\n\tFOREACH(item ${"@ + name + "_source_files"@
        + "}) \n\t\tIF(${item} MATCHES \"main.c\") \n\t\t\tLIST(REMOVE_ITEM "@ + name
        + "_source_files"@ + " ${item}) \n\t\tENDIF(${item} MATCHES \"main.c\") \n\tENDFOREACH(item)"@
}

/// An executable line that takes the sources of module `name`: its first
/// `)`, unless that is its first character, becomes ` ${<name>_source_files})`.
pub open spec fn taking_sources(l: Seq<char>, name: Seq<char>) -> Seq<char> {
    match find(l, seq![')']) {
        Some(p) => if p != 0 {
            l.take(p) + " ${"@ + name + "_source_files"@ + "})"@ + l.skip(p + 1)
        } else {
            l
        },
        None => l,
    }
}

/// Line `i` as it is written out: it takes the module's sources once some
/// line before it has opened the executables section.
pub open spec fn written_line(ls: Seq<Seq<char>>, i: int, name: Seq<char>) -> Seq<char> {
    if exists|k: int| 0 <= k < i && contains(#[trigger] ls[k], "## Add executables ##"@) {
        taking_sources(ls[i], name)
    } else {
        ls[i]
    }
}

/// The first `k` lines with the module's sources added are the first `k`
/// pieces, one after the other.
proof fn lemma_sources_text_flat(ls: Seq<Seq<char>>, name: Seq<char>, k: nat)
    requires
        k <= ls.len(),
    ensures
        sources_text(ls, name, k) == Seq::new(k, |i: int| sources_piece(ls, i, name)).flatten(),
    decreases k,
{
    let f = |i: int| sources_piece(ls, i, name);
    if k == 0 {
        assert(Seq::new(0, f) =~= Seq::<Seq<char>>::empty());
    } else {
        lemma_sources_text_flat(ls, name, (k - 1) as nat);
        assert(Seq::new(k, f) =~= Seq::new((k - 1) as nat, f).push(f(k - 1)));
        Seq::new((k - 1) as nat, f).lemma_flatten_push(f(k - 1));
    }
}

/// Each line is written out as `written_line` says.
proof fn lemma_written_line(ls: Seq<Seq<char>>, i: int, name: Seq<char>)
    requires
        0 <= i < ls.len(),
    ensures
        sources_line(ls, i, name) == written_line(ls, i, name),
{
    assert(crate::cmake::executable_suffix(name) =~= " ${"@ + name + "_source_files"@ + "})"@);
}

/// Adding the sources of module `name` to a secondary CMakeLists leaves it
/// as it is exactly when some line, other than the first, closes the source
/// section and the line before it, as written out, holds the module's own
/// `file (GLOB_RECURSE <name>_source_files ../bsc_modules/<name>/src/*)`;
/// a line gathering another module's sources does not count. Otherwise the
/// new text is made of one piece per line, in order: each piece ends with its
/// line after a line feed (none before the first); before a line closing the
/// source section come a line feed, a tab and that command; before a line
/// closing the removal section comes the loop dropping the module's
/// `main.c`; and each line after the one opening the executables section
/// takes the module's sources.
pub proof fn law_sources_update_shape(content: Seq<char>, name: Seq<char>) -> (parts: Seq<Seq<char>>)
    ensures
        parts.len() == lines(content).len(),
        forall|i: int|
            0 <= i < parts.len() ==> #[trigger] parts[i] == (if contains(
                lines(content)[i],
                "## End of adding source files ##"@,
            ) {
                seq!['\n', '\t'] + gather_command(name)
            } else {
                seq![]
            }) + (if contains(lines(content)[i], "## End of removing main.c files of modules ##"@) {
                drop_main_loop(name)
            } else {
                seq![]
            }) + (if i == 0 {
                seq![]
            } else {
                seq!['\n']
            }) + written_line(lines(content), i, name),
        sources_update(content, name) == if exists|i: int|
            1 <= i < lines(content).len() && contains(
                #[trigger] lines(content)[i],
                "## End of adding source files ##"@,
            ) && contains(written_line(lines(content), i - 1, name), gather_command(name)) {
            None
        } else {
            Some(parts.flatten())
        },
{
    let ls = lines(content);
    let g = gather_command(name);
    reveal_strlit("file (GLOB_RECURSE ");
    assert(g.len() > 0);
    assert(source_glob(name) =~= g);
    assert(crate::cmake::source_insertion(name) =~= seq!['\n', '\t'] + g);
    assert(crate::cmake::removal_block(name) =~= drop_main_loop(name));
    let parts = Seq::new(ls.len(), |i: int| sources_piece(ls, i, name));
    lemma_sources_text_flat(ls, name, ls.len());
    assert forall|i: int| 0 <= i < parts.len() implies #[trigger] parts[i] == (if contains(
        ls[i],
        "## End of adding source files ##"@,
    ) {
        seq!['\n', '\t'] + g
    } else {
        seq![]
    }) + (if contains(ls[i], "## End of removing main.c files of modules ##"@) {
        drop_main_loop(name)
    } else {
        seq![]
    }) + (if i == 0 {
        seq![]
    } else {
        seq!['\n']
    }) + written_line(ls, i, name) by {
        lemma_written_line(ls, i, name);
    }
    let closed = exists|i: int|
        1 <= i < ls.len() && contains(#[trigger] ls[i], "## End of adding source files ##"@)
            && contains(written_line(ls, i - 1, name), g);
    if crate::cmake::sources_already_present(ls, name) {
        let i = choose|i: int|
            0 <= i < ls.len() && contains(#[trigger] ls[i], "## End of adding source files ##"@)
                && contains(crate::cmake::previous_sources_line(ls, i, name), source_glob(name));
        if i == 0 {
            let k = choose|k: int| occurs_at(Seq::<char>::empty(), g, k);
            assert(false);
        }
        lemma_written_line(ls, i - 1, name);
        assert(closed);
    }
    if closed {
        let i = choose|i: int|
            1 <= i < ls.len() && contains(#[trigger] ls[i], "## End of adding source files ##"@)
                && contains(written_line(ls, i - 1, name), g);
        lemma_written_line(ls, i - 1, name);
        assert(crate::cmake::previous_sources_line(ls, i, name) == written_line(ls, i - 1, name));
        assert(crate::cmake::sources_already_present(ls, name));
    }
    parts
}

/// A part of a sequence of texts is found in their concatenation.
proof fn lemma_part_within_flatten(parts: Seq<Seq<char>>, i: int, p: Seq<char>)
    requires
        0 <= i < parts.len(),
        contains(parts[i], p),
    ensures
        contains(parts.flatten(), p),
{
    let a = parts.take(i);
    let b = parts.skip(i);
    assert(parts =~= a + b);
    vstd::seq_lib::lemma_flatten_concat(a, b);
    assert(b =~= seq![parts[i]] + b.skip(1));
    vstd::seq_lib::lemma_flatten_concat(seq![parts[i]], b.skip(1));
    seq![parts[i]].lemma_flatten_one_element();
    lemma_contains_grow(parts[i], b.skip(1).flatten(), p);
    lemma_contains_grow(a.flatten(), b.flatten(), p);
}

/// Where some line closes the source section, adding the sources of module
/// `name` that changes the file puts the module's own command gathering its
/// sources into it, on a line of its own after a tab.
pub proof fn law_sources_gathered_when_added(content: Seq<char>, name: Seq<char>)
    requires
        exists|i: int|
            0 <= i < lines(content).len() && contains(
                #[trigger] lines(content)[i],
                "## End of adding source files ##"@,
            ),
    ensures
        sources_update(content, name) matches Some(out) ==> contains(
            out,
            seq!['\n', '\t'] + gather_command(name),
        ),
{
    let ls = lines(content);
    let parts = law_sources_update_shape(content, name);
    if sources_update(content, name) is Some {
        let i = choose|i: int| 0 <= i < ls.len() && contains(#[trigger] ls[i], "## End of adding source files ##"@);
        let g = seq!['\n', '\t'] + gather_command(name);
        let rest = (if contains(ls[i], "## End of removing main.c files of modules ##"@) {
            drop_main_loop(name)
        } else {
            seq![]
        }) + (if i == 0 {
            seq![]
        } else {
            seq!['\n']
        }) + written_line(ls, i, name);
        assert(parts[i] =~= g + rest);
        assert(g.subrange(0, g.len() as int) =~= g);
        assert(occurs_at(g, g, 0));
        lemma_contains_grow(g, rest, g);
        lemma_part_within_flatten(parts, i, g);
    }
}

// ---------------------------------------------------------------------------
// Moving a dependency up
// ---------------------------------------------------------------------------

/// A line with its first `bsc_modules/` taken out, where it has one.
spec fn cut_modules_dir(l: Seq<char>) -> Seq<char> {
    match find(l, "bsc_modules/"@) {
        Some(b) => l.take(b) + l.skip(b + 12),
        None => l,
    }
}

/// The text after a move, for lines holding `pattern`: the lines joined by
/// line feeds, after a leading line feed where the first line holds it, each
/// line holding `pattern` with its first `bsc_modules/` taken out.
proof fn lemma_moved_lines(content: Seq<char>, pattern: Seq<char>) -> (m: Seq<Seq<char>>)
    ensures
        m.len() == lines(content).len(),
        forall|i: int|
            0 <= i < m.len() ==> #[trigger] m[i] == (if contains(lines(content)[i], pattern) {
                cut_modules_dir(lines(content)[i])
            } else {
                lines(content)[i]
            }),
        moved_update(content, pattern) == (if m.len() > 0 && contains(lines(content)[0], pattern) {
            seq!['\n']
        } else {
            seq![]
        }) + joined(m),
{
    let ls = lines(content);
    let n = ls.len();
    reveal_strlit("bsc_modules/");
    let m = Seq::new(n, |i: int| crate::cmake::moved_line(ls[i], pattern));
    if n == 0 {
        assert(moved_update(content, pattern) =~= seq![]);
    } else {
        lemma_moved_text_joined(ls, pattern, n);
    }
    m
}

/// When dependency `name` of a module moves up to the project's modules
/// folder, the module's main CMakeLists keeps every line that does not hold
/// `include_directories ("${PROJECT_BINARY_DIR}/../bsc_modules/<name>`; a
/// line that holds it loses its first `bsc_modules/`. The lines are joined
/// by line feeds, with one more in front where the first line is rewritten.
pub proof fn law_headers_move_rewrites_only_that_module(content: Seq<char>, name: Seq<char>) -> (m: Seq<
    Seq<char>,
>)
    ensures
        m.len() == lines(content).len(),
        forall|i: int|
            0 <= i < m.len() ==> #[trigger] m[i] == (if contains(
                lines(content)[i],
                "include_directories (\"${PROJECT_BINARY_DIR}/../bsc_modules/"@ + name,
            ) {
                match find(lines(content)[i], "bsc_modules/"@) {
                    Some(b) => lines(content)[i].take(b) + lines(content)[i].skip(b + 12),
                    None => lines(content)[i],
                }
            } else {
                lines(content)[i]
            }),
        moved_update(content, nested_include_pattern(name)) == (if m.len() > 0 && contains(
            lines(content)[0],
            "include_directories (\"${PROJECT_BINARY_DIR}/../bsc_modules/"@ + name,
        ) {
            seq!['\n']
        } else {
            seq![]
        }) + joined(m),
{
    lemma_moved_lines(content, "include_directories (\"${PROJECT_BINARY_DIR}/../bsc_modules/"@ + name)
}

/// When dependency `name` of a module moves up to the project's modules
/// folder, the module's source CMakeLists keeps every line that does not hold
/// `file (GLOB_RECURSE <name>_source_files ../bsc_modules/<name>/src/*)`; a
/// line that holds it loses its first `bsc_modules/`. The lines are joined
/// by line feeds, with one more in front where the first line is rewritten.
pub proof fn law_sources_move_rewrites_only_that_module(content: Seq<char>, name: Seq<char>) -> (m: Seq<
    Seq<char>,
>)
    ensures
        m.len() == lines(content).len(),
        forall|i: int|
            0 <= i < m.len() ==> #[trigger] m[i] == (if contains(
                lines(content)[i],
                "file (GLOB_RECURSE "@ + name + "_source_files"@ + " ../bsc_modules/"@ + name
                    + "/src/*)"@,
            ) {
                match find(lines(content)[i], "bsc_modules/"@) {
                    Some(b) => lines(content)[i].take(b) + lines(content)[i].skip(b + 12),
                    None => lines(content)[i],
                }
            } else {
                lines(content)[i]
            }),
        moved_update(content, source_glob(name)) == (if m.len() > 0 && contains(
            lines(content)[0],
            "file (GLOB_RECURSE "@ + name + "_source_files"@ + " ../bsc_modules/"@ + name
                + "/src/*)"@,
        ) {
            seq!['\n']
        } else {
            seq![]
        }) + joined(m),
{
    let g = "file (GLOB_RECURSE "@ + name + "_source_files"@ + " ../bsc_modules/"@ + name
        + "/src/*)"@;
    assert(source_glob(name) =~= g);
    lemma_moved_lines(content, g)
}

// ---------------------------------------------------------------------------
// Include lines of a module's C files
// ---------------------------------------------------------------------------

/// A header path with each backslash turned into a slash.
pub open spec fn slashed(h: Seq<char>) -> Seq<char> {
    h.map_values(|c: char| if c == '\\' { '/' } else { c })
}

/// A line that mentions none of the headers is left as it is.
proof fn lemma_rewritten_none(line: Seq<char>, headers: Seq<Seq<char>>, name: Seq<char>)
    requires
        forall|j: int| 0 <= j < headers.len() ==> !mentions_header(line, #[trigger] headers[j]),
    ensures
        rewritten_include(line, headers, name) == line,
    decreases headers.len(),
{
    if headers.len() > 0 {
        let tail = headers.drop_first();
        assert(!mentions_header(line, headers[0]));
        assert forall|j: int| 0 <= j < tail.len() implies !mentions_header(line, #[trigger] tail[j]) by {
            assert(tail[j] == headers[j + 1]);
        }
        lemma_rewritten_none(line, tail, name);
    }
}

/// A line becomes the include line of the first header it mentions.
proof fn lemma_rewritten_first(line: Seq<char>, headers: Seq<Seq<char>>, name: Seq<char>, j: int)
    requires
        0 <= j < headers.len(),
        mentions_header(line, headers[j]),
        forall|k: int| 0 <= k < j ==> !mentions_header(line, #[trigger] headers[k]),
    ensures
        rewritten_include(line, headers, name) == include_line(name, headers[j]),
    decreases j,
{
    if j > 0 {
        let tail = headers.drop_first();
        assert(!mentions_header(line, headers[0]));
        assert(tail[j - 1] == headers[j]);
        assert forall|k: int| 0 <= k < j - 1 implies !mentions_header(line, #[trigger] tail[k]) by {
            assert(tail[k] == headers[k + 1]);
        }
        lemma_rewritten_first(line, tail, name, j - 1);
    }
}

/// Rewriting the include lines of a C file of module `name` keeps every line
/// that mentions none of the headers, neither as written nor with its
/// backslashes turned into slashes; a line that mentions one becomes
/// `#include "<name>/<header>"` for the first header of the list it
/// mentions, the header with slashes. The lines are joined by line feeds.
pub proof fn law_include_rewrite_lines(content: Seq<char>, headers: Seq<Seq<char>>, name: Seq<char>) -> (rw:
    Seq<Seq<char>>)
    ensures
        rw.len() == lines(content).len(),
        include_update(content, headers, name) == joined(rw),
        forall|i: int|
            0 <= i < rw.len() && (forall|j: int|
                0 <= j < headers.len() ==> !contains(lines(content)[i], #[trigger] headers[j])
                    && !contains(lines(content)[i], slashed(headers[j]))) ==> #[trigger] rw[i]
                == lines(content)[i],
        forall|i: int, j: int|
            #![trigger rw[i], headers[j]]
            0 <= i < rw.len() && 0 <= j < headers.len() && (contains(lines(content)[i], headers[j])
                || contains(lines(content)[i], slashed(headers[j]))) && (forall|k: int|
                0 <= k < j ==> !contains(lines(content)[i], #[trigger] headers[k]) && !contains(
                    lines(content)[i],
                    slashed(headers[k]),
                )) ==> rw[i] == "#include \""@ + name + seq!['/'] + slashed(headers[j]) + seq!['"'],
{
    let ls = lines(content);
    let rw = ls.map_values(|l: Seq<char>| rewritten_include(l, headers, name));
    assert forall|h: Seq<char>| #[trigger] forward_slashes(h) == slashed(h) by {
        assert(forward_slashes(h) =~= slashed(h));
    }
    assert forall|i: int|
        0 <= i < rw.len() && (forall|j: int|
            0 <= j < headers.len() ==> !contains(ls[i], #[trigger] headers[j]) && !contains(
                ls[i],
                slashed(headers[j]),
            )) implies #[trigger] rw[i] == ls[i] by {
        assert forall|j: int| 0 <= j < headers.len() implies !mentions_header(ls[i], #[trigger] headers[j]) by {
            assert(forward_slashes(headers[j]) == slashed(headers[j]));
        }
        lemma_rewritten_none(ls[i], headers, name);
    }
    assert forall|i: int, j: int|
        #![trigger rw[i], headers[j]]
        0 <= i < rw.len() && 0 <= j < headers.len() && (contains(ls[i], headers[j]) || contains(
            ls[i],
            slashed(headers[j]),
        )) && (forall|k: int|
            0 <= k < j ==> !contains(ls[i], #[trigger] headers[k]) && !contains(
                ls[i],
                slashed(headers[k]),
            )) implies rw[i] == "#include \""@ + name + seq!['/'] + slashed(headers[j]) + seq!['"'] by {
        assert(forward_slashes(headers[j]) == slashed(headers[j]));
        assert forall|k: int| 0 <= k < j implies !mentions_header(ls[i], #[trigger] headers[k]) by {
            assert(forward_slashes(headers[k]) == slashed(headers[k]));
        }
        lemma_rewritten_first(ls[i], headers, name, j);
    }
    rw
}

// ---------------------------------------------------------------------------
// Adding a module to the dependency file
// ---------------------------------------------------------------------------

/// The first `k` lines kept are the first `k` pieces, one after the other.
proof fn lemma_dependency_text_flat(ls: Seq<Seq<char>>, entry: Seq<char>, k: nat)
    requires
        k <= ls.len(),
    ensures
        dependency_text(ls, entry, k) == Seq::new(k, |i: int| dependency_piece(ls, i, entry)).flatten(),
    decreases k,
{
    let f = |i: int| dependency_piece(ls, i, entry);
    if k == 0 {
        assert(Seq::new(0, f) =~= Seq::<Seq<char>>::empty());
    } else {
        lemma_dependency_text_flat(ls, entry, (k - 1) as nat);
        assert(Seq::new(k, f) =~= Seq::new((k - 1) as nat, f).push(f(k - 1)));
        Seq::new((k - 1) as nat, f).lemma_flatten_push(f(k - 1));
    }
}

/// Adding module `name` at `version`, found at `url`, to the dependency file
/// drops every line that holds its entry `\t[<name>]:^<version>\t|\t<url>`
/// and keeps every other line, unchanged and in order, each after a line
/// feed unless it is the file's first line; the entry itself then ends the
/// file, after a line feed.
pub proof fn law_dependency_entry_moved_to_end(
    content: Seq<char>,
    name: Seq<char>,
    version: Seq<char>,
    url: Seq<char>,
) -> (parts: Seq<Seq<char>>)
    ensures
        parts.len() == lines(content).len(),
        forall|i: int|
            0 <= i < parts.len() ==> #[trigger] parts[i] == (if contains(
                lines(content)[i],
                "\t["@ + name + "]:^"@ + version + "\t|\t"@ + url,
            ) {
                seq![]
            } else {
                (if i == 0 {
                    seq![]
                } else {
                    seq!['\n']
                }) + lines(content)[i]
            }),
        dependencies_update(content, dependency_entry(name, version, url)) == parts.flatten()
            + seq!['\n'] + "\t["@ + name + "]:^"@ + version + "\t|\t"@ + url,
{
    let ls = lines(content);
    let entry = dependency_entry(name, version, url);
    let parts = Seq::new(ls.len(), |i: int| dependency_piece(ls, i, entry));
    lemma_dependency_text_flat(ls, entry, ls.len());
    assert(parts.flatten() + seq!['\n'] + entry =~= parts.flatten() + seq!['\n'] + "\t["@ + name
        + "]:^"@ + version + "\t|\t"@ + url);
    parts
}

} // verus!
