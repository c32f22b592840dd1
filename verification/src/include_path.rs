use vstd::prelude::*;
use crate::text::{chars_of, contains, contains_chars, find, find_bytes, push_all, string_of};
use vstd::utf8::{encode_utf8, is_char_boundary};
use vstd::string::StringSliceAdditionalSpecFns;
use crate::lines::{joined, lines, split_lines, views};

verus! {

// ---------------------------------------------------------------------------
// Include lines of a module's C files
// ---------------------------------------------------------------------------

/// A path with every backslash turned into a forward slash.
pub open spec fn forward_slashes(p: Seq<char>) -> Seq<char> {
    p.map_values(|c: char| if c == '\\' { '/' } else { c })
}

/// The include line for header `header` of module `name`.
pub open spec fn include_line(name: Seq<char>, header: Seq<char>) -> Seq<char> {
    "#include \""@ + name + seq!['/'] + forward_slashes(header) + seq!['"']
}

/// The line mentions the header, as written or with forward slashes.
pub open spec fn mentions_header(line: Seq<char>, header: Seq<char>) -> bool {
    contains(line, header) || contains(line, forward_slashes(header))
}

/// The line after rewriting: the include line of the first header it
/// mentions, or the line itself when it mentions none.
pub open spec fn rewritten_include(line: Seq<char>, headers: Seq<Seq<char>>, name: Seq<char>) -> Seq<
    char,
>
    decreases headers.len(),
{
    if headers.len() == 0 {
        line
    } else if mentions_header(line, headers[0]) {
        include_line(name, headers[0])
    } else {
        rewritten_include(line, headers.drop_first(), name)
    }
}

/// The views of a list of strings.
pub open spec fn string_views(v: Seq<String>) -> Seq<Seq<char>> {
    v.map_values(|s: String| s@)
}

/// A C file after rewriting each of its lines, joined by line feeds.
pub open spec fn include_update(content: Seq<char>, headers: Seq<Seq<char>>, name: Seq<char>) -> Seq<
    char,
> {
    joined(lines(content).map_values(|l: Seq<char>| rewritten_include(l, headers, name)))
}

/// `forward_slashes(p)`.
fn forward_slashes_exec(p: &Vec<char>) -> (r: Vec<char>)
    ensures
        r@ == forward_slashes(p@),
{
    let mut r: Vec<char> = Vec::new();
    for i in 0..p.len()
        invariant
            r@ == forward_slashes(p@.take(i as int)),
    {
        let c = p[i];
        r.push(if c == '\\' { '/' } else { c });
        assert(forward_slashes(p@.take(i + 1)) =~= forward_slashes(p@.take(i as int)).push(
            if c == '\\' { '/' } else { c },
        ));
    }
    assert(p@.take(p.len() as int) == p@);
    r
}

/// Skipping a header that the line does not mention.
proof fn lemma_rewritten_skip(line: Seq<char>, headers: Seq<Seq<char>>, name: Seq<char>, j: int)
    requires
        0 <= j < headers.len(),
        !mentions_header(line, headers[j]),
    ensures
        rewritten_include(line, headers.skip(j), name) == rewritten_include(
            line,
            headers.skip(j + 1),
            name,
        ),
{
    assert(headers.skip(j)[0] == headers[j]);
    assert(headers.skip(j).drop_first() =~= headers.skip(j + 1));
}

/// `rewritten_include(line, headers, name)`.
fn rewritten_include_exec(line: &Vec<char>, headers: &Vec<Vec<char>>, name: &Vec<char>) -> (r: Vec<
    char,
>)
    ensures
        r@ == rewritten_include(line@, views(headers@), name@),
{
    let ghost hs = views(headers@);
    assert(hs.skip(0) =~= hs);
    let mut j: usize = 0;
    while j < headers.len()
        invariant
            hs == views(headers@),
            j <= headers.len(),
            rewritten_include(line@, hs, name@) == rewritten_include(line@, hs.skip(j as int), name@),
        decreases headers.len() - j,
    {
        let header = &headers[j];
        assert(header@ == hs[j as int]);
        let alternative = forward_slashes_exec(header);
        if contains_chars(line, header) || contains_chars(line, &alternative) {
            assert(hs.skip(j as int)[0] == hs[j as int]);
            let mut r = chars_of("#include \"");
            push_all(&mut r, name);
            r.push('/');
            push_all(&mut r, &alternative);
            r.push('"');
            return r;
        }
        proof { lemma_rewritten_skip(line@, hs, name@, j as int); }
        j = j + 1;
    }
    assert(hs.skip(j as int) =~= Seq::<Seq<char>>::empty());
    let mut r: Vec<char> = Vec::new();
    push_all(&mut r, line);
    r
}

/// Rewrites the include lines of a C file of module `module_name` whose text
/// is `file_content`: each line mentioning one of the module's headers (the
/// first such header in `include_path_list`) becomes
/// `#include "<module_name>/<header>"`, the header with forward slashes.
/// Lines are joined by line feeds in the result.
pub fn change_include_path(file_content: &str, include_path_list: &Vec<String>, module_name: &str) -> (r:
    String)
    ensures
        r@ == include_update(file_content@, string_views(include_path_list@), module_name@),
{
    let ghost hs = string_views(include_path_list@);
    let mut headers: Vec<Vec<char>> = Vec::new();
    for k in 0..include_path_list.len()
        invariant
            hs == string_views(include_path_list@),
            views(headers@) == hs.take(k as int),
    {
        let h = chars_of(include_path_list[k].as_str());
        assert(h@ == hs[k as int]);
        let ghost before = views(headers@);
        headers.push(h);
        assert(views(headers@) =~= before.push(hs[k as int]));
        assert(views(headers@) =~= hs.take(k + 1));
    }
    assert(hs.take(include_path_list.len() as int) =~= hs);
    let name = chars_of(module_name);
    let content = chars_of(file_content);
    let ls = split_lines(&content);
    let ghost l = lines(file_content@);
    let ghost rewritten = l.map_values(|x: Seq<char>| rewritten_include(x, hs, module_name@));
    let mut out: Vec<char> = Vec::new();
    for i in 0..ls.len()
        invariant
            views(ls@) == l,
            views(headers@) == hs,
            name@ == module_name@,
            rewritten == l.map_values(|x: Seq<char>| rewritten_include(x, hs, module_name@)),
            out@ == joined(rewritten.take(i as int)),
    {
        assert(ls@[i as int]@ == l[i as int]);
        let line = rewritten_include_exec(&ls[i], &headers, &name);
        let ghost before = out@;
        if i > 0 {
            out.push('\n');
        }
        push_all(&mut out, &line);
        assert(rewritten.take(i + 1).drop_last() =~= rewritten.take(i as int));
        assert(out@ =~= joined(rewritten.take(i + 1)));
    }
    assert(rewritten.take(ls.len() as int) =~= rewritten);
    string_of(&out)
}

/// Whether a file at `path` is a CMakeLists file, which the include rewrite
/// passes over.
pub fn is_cmakelists_path(path: &str) -> (b: bool)
    ensures
        b == contains(path@, "CMakeLists.txt"@),
{
    contains_chars(&chars_of(path), &chars_of("CMakeLists.txt"))
}

// ---------------------------------------------------------------------------
// Where a header file sits within a module
// ---------------------------------------------------------------------------

/// The byte position, in the path of a header file, where its path within
/// the module starts: the positions of the include folder's path and of the
/// first `include`, plus the lengths of `include/` and of the module name and
/// a slash. `None` where either is missing.
pub open spec fn header_path_start(path: Seq<u8>, folder: Seq<u8>, name_len: nat) -> Option<int> {
    match (find(path, folder), find(path, encode_utf8("include"@))) {
        (Some(b), Some(e)) => Some(b + e + 8 + name_len + 1),
        _ => None,
    }
}

/// The bytes of a header's path within its module, or `None` where that
/// position is missing, overflows `usize` or falls outside the path or
/// inside a character.
pub open spec fn header_path_bytes(path: Seq<u8>, folder: Seq<u8>, name_len: nat) -> Option<
    Seq<u8>,
> {
    match header_path_start(path, folder, name_len) {
        Some(k) => if k <= usize::MAX && is_char_boundary(path, k) {
            Some(path.skip(k))
        } else {
            None
        },
        None => None,
    }
}

/// The path, within module `module_name`, of the header file found at
/// `path_file_text` while walking the module's include folder
/// `include_folder_path`. Returns `None` exactly where that position cannot
/// be had (the tool gives up there).
pub fn relative_header_path(path_file_text: &str, include_folder_path: &str, module_name: &str) -> (r:
    Option<String>)
    ensures
        match r {
            Some(s) => header_path_bytes(
                path_file_text.spec_bytes(),
                include_folder_path.spec_bytes(),
                module_name.spec_bytes().len(),
            ) == Some(encode_utf8(s@)),
            None => header_path_bytes(
                path_file_text.spec_bytes(),
                include_folder_path.spec_bytes(),
                module_name.spec_bytes().len(),
            ) is None,
        },
{
    let path = path_file_text.as_bytes();
    let begin = match find_bytes(path, include_folder_path.as_bytes()) {
        Some(b) => b,
        None => return None,
    };
    let end = match find_bytes(path, "include".as_bytes()) {
        Some(e) => e,
        None => return None,
    };
    let name_len = module_name.as_bytes().len();
    let start = match begin.checked_add(end) {
        Some(a) => match a.checked_add(9) {
            Some(c) => c.checked_add(name_len),
            None => None,
        },
        None => None,
    };
    let start = match start {
        Some(k) => k,
        None => return None,
    };
    if !path_file_text.is_char_boundary(start) {
        return None;
    }
    let (_, rest) = path_file_text.split_at(start);
    let s = rest.to_owned();
    let ghost pb = path_file_text.spec_bytes();
    assert(rest.spec_bytes() =~= pb.skip(start as int));
    assert(header_path_start(pb, include_folder_path.spec_bytes(), module_name.spec_bytes().len()) == Some(start as int));
    assert(encode_utf8(s@) == rest.spec_bytes());
    Some(s)
}

} // verus!
