use vstd::prelude::*;
use crate::text::{chars_of, contains, contains_chars, find, find_chars, push_all, string_of};
use crate::lines::{lines, separator, split_lines, views};

verus! {

// ---------------------------------------------------------------------------
// The dependency file of a project
// ---------------------------------------------------------------------------

/// The entry that names a project or module, its version and its address.
pub open spec fn dependency_entry(name: Seq<char>, version: Seq<char>, url: Seq<char>) -> Seq<char> {
    "\t["@ + name + "]:^"@ + version + "\t|\t"@ + url
}

/// The dependency file of a new project: its own entry, at version 0.1.0,
/// and an empty list of dependencies.
pub open spec fn dependencies_file(project_url: Seq<char>, project_name: Seq<char>) -> Seq<char> {
    "BSC_PROJECT: \n"@ + dependency_entry(project_name, "0.1.0"@, project_url)
        + " \n\nBSC_DEPENDENCIES: \n"@
}

/// The characters of `dependency_entry(name, version, url)`.
fn dependency_entry_exec(name: &str, version: &str, url: &str) -> (r: Vec<char>)
    ensures
        r@ == dependency_entry(name@, version@, url@),
{
    let mut r = chars_of("\t[");
    push_all(&mut r, &chars_of(name));
    push_all(&mut r, &chars_of("]:^"));
    push_all(&mut r, &chars_of(version));
    push_all(&mut r, &chars_of("\t|\t"));
    push_all(&mut r, &chars_of(url));
    r
}

/// The text of the dependency file of a new project named `project_name`,
/// found at `project_url`.
pub fn update_dependencies_file(project_url: &str, project_name: &str) -> (r: String)
    ensures
        r@ == dependencies_file(project_url@, project_name@),
{
    let mut r = chars_of("BSC_PROJECT: \n");
    push_all(&mut r, &dependency_entry_exec(project_name, "0.1.0", project_url));
    push_all(&mut r, &chars_of(" \n\nBSC_DEPENDENCIES: \n"));
    string_of(&r)
}

/// Line `i` once the entry is to be appended: lines holding the entry go, the
/// others stay, each after a line feed unless it is the file's first line.
pub open spec fn dependency_piece(ls: Seq<Seq<char>>, i: int, entry: Seq<char>) -> Seq<char> {
    if contains(ls[i], entry) {
        seq![]
    } else {
        separator(i) + ls[i]
    }
}

/// The first `n` lines once the entry is to be appended.
pub open spec fn dependency_text(ls: Seq<Seq<char>>, entry: Seq<char>, n: nat) -> Seq<char>
    decreases n,
{
    if n == 0 {
        seq![]
    } else {
        dependency_text(ls, entry, (n - 1) as nat) + dependency_piece(ls, n - 1, entry)
    }
}

/// The dependency file with the module's entry moved or added to its end.
pub open spec fn dependencies_update(content: Seq<char>, entry: Seq<char>) -> Seq<char> {
    let ls = lines(content);
    dependency_text(ls, entry, ls.len()) + seq!['\n'] + entry
}

/// Adds to the dependency file whose text is `file_content` the entry of
/// module `module_name` at `module_version`, found at `module_url`: every
/// line that already holds that entry goes, and the entry ends the file.
pub fn add_module_to_dependencies_file(
    file_content: &str,
    module_name: &str,
    module_version: &str,
    module_url: &str,
) -> (r: String)
    ensures
        r@ == dependencies_update(
            file_content@,
            dependency_entry(module_name@, module_version@, module_url@),
        ),
{
    let entry = dependency_entry_exec(module_name, module_version, module_url);
    let content = chars_of(file_content);
    let ls = split_lines(&content);
    let ghost l = lines(file_content@);
    let mut out: Vec<char> = Vec::new();
    for i in 0..ls.len()
        invariant
            views(ls@) == l,
            out@ == dependency_text(l, entry@, i as nat),
    {
        assert(ls@[i as int]@ == l[i as int]);
        let ghost before = out@;
        if !contains_chars(&ls[i], &entry) {
            if i > 0 {
                out.push('\n');
            }
            push_all(&mut out, &ls[i]);
        }
        assert(out@ =~= before + dependency_piece(l, i as int, entry@));
    }
    out.push('\n');
    push_all(&mut out, &entry);
    string_of(&out)
}

// ---------------------------------------------------------------------------
// Reading the project's own entry back
// ---------------------------------------------------------------------------

/// The comment that opens the project's own entry.
pub open spec fn project_marker() -> Seq<char> {
    "BSC_PROJECT:"@
}

/// Line `p` is the first that holds the project marker.
pub open spec fn is_first_project_line(ls: Seq<Seq<char>>, p: int) -> bool {
    &&& 0 <= p < ls.len()
    &&& contains(ls[p], project_marker())
    &&& forall|j: int| 0 <= j < p ==> !contains(#[trigger] ls[j], project_marker())
}

/// The line after the first one holding the project marker, if there is one.
pub open spec fn project_entry_line(ls: Seq<Seq<char>>) -> Option<Seq<char>> {
    if exists|p: int| is_first_project_line(ls, p) && p + 1 < ls.len() {
        Some(ls[(choose|p: int| is_first_project_line(ls, p) && p + 1 < ls.len()) + 1])
    } else {
        None
    }
}

/// What lies between the first `[` and the first `]` of a line, or `None`
/// where either is missing or the `]` comes first.
pub open spec fn bracketed(line: Seq<char>) -> Option<Seq<char>> {
    match (find(line, seq!['[']), find(line, seq![']'])) {
        (Some(b), Some(e)) => if b + 1 <= e {
            Some(line.subrange(b + 1, e))
        } else {
            None
        },
        _ => None,
    }
}

/// A line with one space dropped from its end, if it has one there.
pub open spec fn strip_space(l: Seq<char>) -> Seq<char> {
    if l.len() > 0 && l.last() == ' ' {
        l.drop_last()
    } else {
        l
    }
}

/// What follows the first `|` and tab of a line, less one final space, or
/// `None` where the line has no `|` followed by a tab.
pub open spec fn after_bar(line: Seq<char>) -> Option<Seq<char>> {
    match find(line, seq!['|', '\t']) {
        Some(b) => Some(strip_space(line.skip(b + 2))),
        None => None,
    }
}

/// The index of the first line holding the project marker.
fn first_project_line_exec(ls: &Vec<Vec<char>>, marker: &Vec<char>) -> (r: Option<usize>)
    requires
        marker@ == project_marker(),
    ensures
        match r {
            Some(p) => is_first_project_line(views(ls@), p as int),
            None => forall|p: int| !is_first_project_line(views(ls@), p),
        },
{
    let ghost l = views(ls@);
    for i in 0..ls.len()
        invariant
            l == views(ls@),
            marker@ == project_marker(),
            forall|j: int| 0 <= j < i ==> !contains(#[trigger] l[j], project_marker()),
    {
        assert(ls@[i as int]@ == l[i as int]);
        if contains_chars(&ls[i], marker) {
            return Some(i);
        }
    }
    None
}

/// The line after the first one holding the project marker.
fn project_entry_line_exec(file_content: &str) -> (r: Option<Vec<char>>)
    ensures
        match r {
            Some(v) => project_entry_line(lines(file_content@)) == Some(v@),
            None => project_entry_line(lines(file_content@)) is None,
        },
{
    let content = chars_of(file_content);
    let ls = split_lines(&content);
    let ghost l = lines(file_content@);
    let marker = chars_of("BSC_PROJECT:");
    match first_project_line_exec(&ls, &marker) {
        Some(p) => {
            if p + 1 < ls.len() {
                let ghost q = choose|q: int| is_first_project_line(l, q) && q + 1 < l.len();
                assert(is_first_project_line(l, p as int) && p + 1 < l.len());
                assert(q == p) by {
                    if q < p {
                        assert(contains(l[q], project_marker()));
                    } else if p < q {
                        assert(contains(l[p as int], project_marker()));
                    }
                }
                assert(ls@[p + 1]@ == l[p + 1]);
                let mut v: Vec<char> = Vec::new();
                push_all(&mut v, &ls[p + 1]);
                Some(v)
            } else {
                assert forall|q: int| !(is_first_project_line(l, q) && q + 1 < l.len()) by {
                    if is_first_project_line(l, q) && q + 1 < l.len() {
                        if q < p {
                            assert(contains(l[q], project_marker()));
                        } else if p < q {
                            assert(contains(l[p as int], project_marker()));
                        }
                    }
                }
                None
            }
        },
        None => None,
    }
}

/// The characters of `v` from `b` up to `e`.
fn slice_chars(v: &Vec<char>, b: usize, e: usize) -> (r: Vec<char>)
    requires
        b <= e <= v.len(),
    ensures
        r@ == v@.subrange(b as int, e as int),
{
    let mut r: Vec<char> = Vec::new();
    let mut j = b;
    while j < e
        invariant
            b <= j <= e <= v.len(),
            r@ == v@.subrange(b as int, j as int),
        decreases e - j,
    {
        r.push(v[j]);
        assert(v@.subrange(b as int, j + 1) == v@.subrange(b as int, j as int).push(v@[j as int]));
        j = j + 1;
    }
    r
}

/// `bracketed(line)`.
fn bracketed_exec(line: &Vec<char>) -> (r: Option<Vec<char>>)
    ensures
        match r {
            Some(v) => bracketed(line@) == Some(v@),
            None => bracketed(line@) is None,
        },
{
    let open: Vec<char> = vec!['['];
    let close: Vec<char> = vec![']'];
    assert(open@ == seq!['[']);
    assert(close@ == seq![']']);
    match (find_chars(line, &open), find_chars(line, &close)) {
        (Some(b), Some(e)) => {
            if b < e {
                proof { crate::text::lemma_find_some_iff_contains(line@, close@); }
                Some(slice_chars(line, b + 1, e))
            } else {
                None
            }
        },
        _ => None,
    }
}

/// `after_bar(line)`.
fn after_bar_exec(line: &Vec<char>) -> (r: Option<Vec<char>>)
    ensures
        match r {
            Some(v) => after_bar(line@) == Some(v@),
            None => after_bar(line@) is None,
        },
{
    let bar: Vec<char> = vec!['|', '\t'];
    assert(bar@ == seq!['|', '\t']);
    match find_chars(line, &bar) {
        Some(b) => {
            proof { crate::text::lemma_find_some_iff_contains(line@, bar@); }
            let mut e = line.len();
            if e > b + 2 && line[e - 1] == ' ' {
                e = e - 1;
            }
            let rest = slice_chars(line, b + 2, e);
            assert(rest@ =~= strip_space(line@.skip(b + 2)));
            Some(rest)
        },
        None => None,
    }
}

/// The project's name can be read from a dependency file: there is no line
/// after the first one holding `BSC_PROJECT:`, or that line has a `[` before
/// a `]`.
pub open spec fn module_name_readable(content: Seq<char>) -> bool {
    match project_entry_line(lines(content)) {
        None => true,
        Some(line) => bracketed(line) is Some,
    }
}

/// The project's address can be read from a dependency file: there is no
/// line after the first one holding `BSC_PROJECT:`, or that line has a `|`
/// followed by a tab.
pub open spec fn module_url_readable(content: Seq<char>) -> bool {
    match project_entry_line(lines(content)) {
        None => true,
        Some(line) => after_bar(line) is Some,
    }
}

/// Whether the project's name can be read from the dependency file whose
/// text is `file_content` (see `get_module_name`).
pub fn module_name_is_readable(file_content: &str) -> (b: bool)
    ensures
        b == module_name_readable(file_content@),
{
    match project_entry_line_exec(file_content) {
        None => true,
        Some(line) => bracketed_exec(&line).is_some(),
    }
}

/// Whether the project's address can be read from the dependency file whose
/// text is `file_content` (see `get_module_url`).
pub fn module_url_is_readable(file_content: &str) -> (b: bool)
    ensures
        b == module_url_readable(file_content@),
{
    match project_entry_line_exec(file_content) {
        None => true,
        Some(line) => after_bar_exec(&line).is_some(),
    }
}

/// Reads the project's name from the dependency file whose text is
/// `file_content`: what lies between the first `[` and `]` of the line after
/// the first one holding `BSC_PROJECT:`. Writes it to `out_module_name`, or
/// leaves `out_module_name` as it is when there is no such line. A file whose
/// line has no such brackets is not read: the caller tests
/// `module_name_is_readable` first.
pub fn get_module_name(file_content: &str, out_module_name: &mut String)
    requires
        module_name_readable(file_content@),
    ensures
        match project_entry_line(lines(file_content@)) {
            None => final(out_module_name)@ == old(out_module_name)@,
            Some(line) => bracketed(line) == Some(final(out_module_name)@),
        },
{
    match project_entry_line_exec(file_content) {
        None => {},
        Some(line) => {
            match bracketed_exec(&line) {
                Some(name) => {
                    *out_module_name = string_of(&name);
                },
                None => {},
            }
        },
    }
}

/// Reads the project's address from the dependency file whose text is
/// `file_content`: what follows the first `|` and tab of the line after the
/// first one holding `BSC_PROJECT:`, less one final space. Writes it to
/// `out_module_url`, or leaves `out_module_url` as it is when there is no
/// such line. A file whose line has no `|` followed by a tab is not read: the
/// caller tests `module_url_is_readable` first.
pub fn get_module_url(file_content: &str, out_module_url: &mut String)
    requires
        module_url_readable(file_content@),
    ensures
        match project_entry_line(lines(file_content@)) {
            None => final(out_module_url)@ == old(out_module_url)@,
            Some(line) => after_bar(line) == Some(final(out_module_url)@),
        },
{
    match project_entry_line_exec(file_content) {
        None => {},
        Some(line) => {
            match after_bar_exec(&line) {
                Some(url) => {
                    *out_module_url = string_of(&url);
                },
                None => {},
            }
        },
    }
}

} // verus!
