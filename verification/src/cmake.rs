use vstd::prelude::*;
use crate::text::{chars_of, contains, contains_chars, find, find_chars, push_all, string_of, text_of};
use crate::lines::{lines, separator, split_lines, views};

verus! {

// ---------------------------------------------------------------------------
// Fixed texts of the CMakeLists files
// ---------------------------------------------------------------------------

/// The comment that closes the include section of the main CMakeLists.
pub open spec fn end_of_include_libraries() -> Seq<char> {
    "## End of include libraries ##"@
}

/// The directive that makes the headers of the module at `module_dir`
/// visible to the project.
pub open spec fn include_directive(module_dir: Seq<char>) -> Seq<char> {
    "include_directories (\"${PROJECT_BINARY_DIR}/../"@ + module_dir + "/include\")"@
}

/// What is inserted before the end of the include section: the directive on
/// a line of its own, indented by a tab.
pub open spec fn include_insertion(module_dir: Seq<char>) -> Seq<char> {
    seq!['\n', '\t'] + include_directive(module_dir)
}

/// The line before line `i`, or an empty one before the first.
pub open spec fn previous_line(ls: Seq<Seq<char>>, i: int) -> Seq<char> {
    if i == 0 {
        seq![]
    } else {
        ls[i - 1]
    }
}

// ---------------------------------------------------------------------------
// Headers of a module in the main CMakeLists
// ---------------------------------------------------------------------------

/// Line `i` of the main CMakeLists once the module's directive is in place:
/// the directive goes before each line that ends the include section.
pub open spec fn headers_piece(ls: Seq<Seq<char>>, i: int, module_dir: Seq<char>) -> Seq<char> {
    (if contains(ls[i], end_of_include_libraries()) {
        include_insertion(module_dir)
    } else {
        seq![]
    }) + separator(i) + ls[i]
}

/// The first `n` lines of the main CMakeLists once the directive is in place.
pub open spec fn headers_text(ls: Seq<Seq<char>>, module_dir: Seq<char>, n: nat) -> Seq<char>
    decreases n,
{
    if n == 0 {
        seq![]
    } else {
        headers_text(ls, module_dir, (n - 1) as nat) + headers_piece(ls, n - 1, module_dir)
    }
}

/// Some line ending the include section follows a line that already holds
/// the inserted text (line feed and tab included).
pub open spec fn headers_already_present(ls: Seq<Seq<char>>, module_dir: Seq<char>) -> bool {
    exists|i: int|
        0 <= i < ls.len() && contains(#[trigger] ls[i], end_of_include_libraries()) && contains(
            previous_line(ls, i),
            include_insertion(module_dir),
        )
}

/// The new main CMakeLists, or `None` when it is left as it is.
pub open spec fn headers_update(content: Seq<char>, module_dir: Seq<char>) -> Option<Seq<char>> {
    let ls = lines(content);
    if headers_already_present(ls, module_dir) {
        None
    } else {
        Some(headers_text(ls, module_dir, ls.len()))
    }
}

/// The characters of `include_directive(module_dir)`.
fn include_directive_exec(module_dir: &Vec<char>) -> (r: Vec<char>)
    ensures
        r@ == include_directive(module_dir@),
{
    let mut r = chars_of("include_directories (\"${PROJECT_BINARY_DIR}/../");
    push_all(&mut r, module_dir);
    push_all(&mut r, &chars_of("/include\")"));
    r
}

/// Adds the include directive of the module at `module_dir` to the main
/// CMakeLists whose text is `file_content`, before each line that closes the
/// include section. Returns the new text. The result is `None` where a line
/// that closes the include section follows one holding the inserted text, line
/// feed included; no line read from a file holds a line feed, so `None` never
/// occurs (`cmake_laws::law_headers_always_rewritten`).
pub fn add_module_headers_to_main_cmakelists_file(file_content: &str, module_dir: &str) -> (r:
    Option<String>)
    ensures
        text_of(r) == headers_update(file_content@, module_dir@),
{
    let content = chars_of(file_content);
    let ls = split_lines(&content);
    let ghost l = lines(file_content@);
    let mp = chars_of(module_dir);
    let mark = chars_of("## End of include libraries ##");
    let mut inserted: Vec<char> = vec!['\n', '\t'];
    push_all(&mut inserted, &include_directive_exec(&mp));
    assert(inserted@ == include_insertion(mp@));
    let empty: Vec<char> = Vec::new();
    let mut out: Vec<char> = Vec::new();
    for i in 0..ls.len()
        invariant
            l == lines(file_content@),
            views(ls@) == l,
            mark@ == end_of_include_libraries(),
            inserted@ == include_insertion(module_dir@),
            empty@ == Seq::<char>::empty(),
            out@ == headers_text(l, module_dir@, i as nat),
            forall|j: int|
                0 <= j < i ==> !(contains(#[trigger] l[j], end_of_include_libraries())
                    && contains(previous_line(l, j), include_insertion(module_dir@))),
    {
        assert(ls@[i as int]@ == l[i as int]);
        let previous = if i == 0 { &empty } else { &ls[i - 1] };
        assert(previous@ == previous_line(l, i as int));
        let ghost before = out@;
        let closes = contains_chars(&ls[i], &mark);
        if closes {
            if contains_chars(previous, &inserted) {
                assert(contains(l[i as int], end_of_include_libraries()));
                assert(headers_already_present(l, module_dir@));
                return None;
            }
            push_all(&mut out, &inserted);
        }
        if i > 0 {
            out.push('\n');
        }
        push_all(&mut out, &ls[i]);
        assert(out@ =~= before + headers_piece(l, i as int, module_dir@));
    }
    Some(string_of(&out))
}

// ---------------------------------------------------------------------------
// Whether a module's headers are already in the main CMakeLists
// ---------------------------------------------------------------------------

/// Some line that closes the include section follows a line holding the
/// module's include directive.
pub open spec fn already_added(content: Seq<char>, module_dir: Seq<char>) -> bool {
    let ls = lines(content);
    exists|i: int|
        0 <= i < ls.len() && contains(#[trigger] ls[i], end_of_include_libraries()) && contains(
            previous_line(ls, i),
            include_directive(module_dir),
        )
}

/// Whether the main CMakeLists whose text is `file_content` already includes
/// the headers of the module at `module_dir`.
pub fn check_already_added(file_content: &str, module_dir: &str) -> (b: bool)
    ensures
        b == already_added(file_content@, module_dir@),
{
    let content = chars_of(file_content);
    let ls = split_lines(&content);
    let ghost l = lines(file_content@);
    let mark = chars_of("## End of include libraries ##");
    let directive = include_directive_exec(&chars_of(module_dir));
    let empty: Vec<char> = Vec::new();
    for i in 0..ls.len()
        invariant
            l == lines(file_content@),
            views(ls@) == l,
            mark@ == end_of_include_libraries(),
            directive@ == include_directive(module_dir@),
            empty@ == Seq::<char>::empty(),
            forall|j: int|
                0 <= j < i ==> !(contains(#[trigger] l[j], end_of_include_libraries())
                    && contains(previous_line(l, j), include_directive(module_dir@))),
    {
        assert(ls@[i as int]@ == l[i as int]);
        let previous = if i == 0 { &empty } else { &ls[i - 1] };
        assert(previous@ == previous_line(l, i as int));
        if contains_chars(&ls[i], &mark) && contains_chars(previous, &directive) {
            assert(contains(l[i as int], end_of_include_libraries()));
            return true;
        }
    }
    false
}

// ---------------------------------------------------------------------------
// Sources of a module in a secondary CMakeLists
// ---------------------------------------------------------------------------

/// The comment that closes the section listing source files.
pub open spec fn end_of_adding_source_files() -> Seq<char> {
    "## End of adding source files ##"@
}

/// The comment that closes the section removing the modules' `main.c` files.
pub open spec fn end_of_removing_main_files() -> Seq<char> {
    "## End of removing main.c files of modules ##"@
}

/// The comment that opens the section declaring executables.
pub open spec fn add_executables() -> Seq<char> {
    "## Add executables ##"@
}

/// The CMake variable that lists the sources of module `name`.
pub open spec fn sources_variable(name: Seq<char>) -> Seq<char> {
    name + "_source_files"@
}

/// The command that gathers the source files of module `name`.
pub open spec fn source_glob(name: Seq<char>) -> Seq<char> {
    "file (GLOB_RECURSE "@ + sources_variable(name) + " ../bsc_modules/"@ + name + "/src/*)"@
}

/// What is inserted before the end of the source section.
pub open spec fn source_insertion(name: Seq<char>) -> Seq<char> {
    seq!['\n', '\t'] + source_glob(name)
}

/// The loop that drops the module's `main.c` from its sources, inserted
/// before the end of the removal section.
pub open spec fn removal_block(name: Seq<char>) -> Seq<char> {
    "\n\tFOREACH(item ${"@ + sources_variable(name) + "}) \n\t\tIF(${item} MATCHES \"main.c\") \n\t\t\tLIST(REMOVE_ITEM "@
        + sources_variable(name)
        + " ${item}) \n\t\tENDIF(${item} MATCHES \"main.c\") \n\tENDFOREACH(item)"@
}

/// What takes the place of the first closing parenthesis of an executable line.
pub open spec fn executable_suffix(name: Seq<char>) -> Seq<char> {
    " ${"@ + sources_variable(name) + "})"@
}

/// Some line before line `i` opens the executables section.
pub open spec fn executables_passed(ls: Seq<Seq<char>>, i: int) -> bool {
    exists|j: int| 0 <= j < i && contains(#[trigger] ls[j], add_executables())
}

/// An executable line with the module's sources added: its first closing
/// parenthesis, unless that is its first character, becomes
/// `executable_suffix(name)`.
pub open spec fn with_module_sources(line: Seq<char>, name: Seq<char>) -> Seq<char> {
    match find(line, seq![')']) {
        Some(p) => if p != 0 {
            line.take(p) + executable_suffix(name) + line.skip(p + 1)
        } else {
            line
        },
        None => line,
    }
}

/// Line `i` itself once the module's sources are added: lines after the one
/// that opens the executables section take the module's sources.
pub open spec fn sources_line(ls: Seq<Seq<char>>, i: int, name: Seq<char>) -> Seq<char> {
    if executables_passed(ls, i) {
        with_module_sources(ls[i], name)
    } else {
        ls[i]
    }
}

/// The (rewritten) line before line `i`, or an empty one before the first.
pub open spec fn previous_sources_line(ls: Seq<Seq<char>>, i: int, name: Seq<char>) -> Seq<char> {
    if i == 0 {
        seq![]
    } else {
        sources_line(ls, i - 1, name)
    }
}

/// Line `i` with what is inserted before it.
pub open spec fn sources_piece(ls: Seq<Seq<char>>, i: int, name: Seq<char>) -> Seq<char> {
    (if contains(ls[i], end_of_adding_source_files()) {
        source_insertion(name)
    } else {
        seq![]
    }) + (if contains(ls[i], end_of_removing_main_files()) {
        removal_block(name)
    } else {
        seq![]
    }) + separator(i) + sources_line(ls, i, name)
}

/// The first `n` lines once the module's sources are added.
pub open spec fn sources_text(ls: Seq<Seq<char>>, name: Seq<char>, n: nat) -> Seq<char>
    decreases n,
{
    if n == 0 {
        seq![]
    } else {
        sources_text(ls, name, (n - 1) as nat) + sources_piece(ls, n - 1, name)
    }
}

/// Some line that closes the source section follows a (rewritten) line that
/// already gathers the module's sources.
pub open spec fn sources_already_present(ls: Seq<Seq<char>>, name: Seq<char>) -> bool {
    exists|i: int|
        0 <= i < ls.len() && contains(#[trigger] ls[i], end_of_adding_source_files()) && contains(
            previous_sources_line(ls, i, name),
            source_glob(name),
        )
}

/// The new secondary CMakeLists, or `None` when it is left as it is.
pub open spec fn sources_update(content: Seq<char>, name: Seq<char>) -> Option<Seq<char>> {
    let ls = lines(content);
    if sources_already_present(ls, name) {
        None
    } else {
        Some(sources_text(ls, name, ls.len()))
    }
}

/// The characters of `sources_variable(name)`.
fn sources_variable_exec(name: &Vec<char>) -> (r: Vec<char>)
    ensures
        r@ == sources_variable(name@),
{
    let mut r: Vec<char> = Vec::new();
    push_all(&mut r, name);
    push_all(&mut r, &chars_of("_source_files"));
    r
}

/// The characters of `source_glob(name)`.
fn source_glob_exec(name: &Vec<char>) -> (r: Vec<char>)
    ensures
        r@ == source_glob(name@),
{
    let mut r = chars_of("file (GLOB_RECURSE ");
    push_all(&mut r, &sources_variable_exec(name));
    push_all(&mut r, &chars_of(" ../bsc_modules/"));
    push_all(&mut r, name);
    push_all(&mut r, &chars_of("/src/*)"));
    r
}

/// The characters of `removal_block(name)`.
fn removal_block_exec(name: &Vec<char>) -> (r: Vec<char>)
    ensures
        r@ == removal_block(name@),
{
    let var = sources_variable_exec(name);
    let mut r = chars_of("\n\tFOREACH(item ${");
    push_all(&mut r, &var);
    push_all(
        &mut r,
        &chars_of("}) \n\t\tIF(${item} MATCHES \"main.c\") \n\t\t\tLIST(REMOVE_ITEM "),
    );
    push_all(&mut r, &var);
    push_all(
        &mut r,
        &chars_of(" ${item}) \n\t\tENDIF(${item} MATCHES \"main.c\") \n\tENDFOREACH(item)"),
    );
    r
}

/// `with_module_sources(line, name)`, given the module's executable suffix.
fn with_module_sources_exec(line: &Vec<char>, suffix: &Vec<char>, Ghost(name): Ghost<Seq<char>>) -> (r: Vec<char>)
    requires
        suffix@ == executable_suffix(name),
    ensures
        r@ == with_module_sources(line@, name),
{
    let paren: Vec<char> = vec![')'];
    assert(paren@ == seq![')']);
    match find_chars(line, &paren) {
        Some(p) => {
            if p != 0 {
                proof { crate::text::lemma_find_some_iff_contains(line@, paren@); }
                let mut r: Vec<char> = Vec::new();
                for j in 0..p
                    invariant
                        p < line.len(),
                        r@ == line@.take(j as int),
                {
                    r.push(line[j]);
                    assert(line@.take(j + 1) == line@.take(j as int).push(line@[j as int]));
                }
                push_all(&mut r, suffix);
                let ghost mid = r@;
                let mut j = p + 1;
                while j < line.len()
                    invariant
                        p + 1 <= j <= line.len(),
                        r@ == mid + line@.subrange(p + 1, j as int),
                    decreases line.len() - j,
                {
                    r.push(line[j]);
                    assert(line@.subrange(p + 1, j + 1) == line@.subrange(p + 1, j as int).push(line@[j as int]));
                    j = j + 1;
                }
                assert(line@.subrange(p + 1, line.len() as int) == line@.skip(p + 1));
                r
            } else {
                copy_chars(line)
            }
        },
        None => copy_chars(line),
    }
}

/// The fixed texts used while adding a module's sources.
struct SourcesTexts {
    end_sources: Vec<char>,
    end_removal: Vec<char>,
    executables: Vec<char>,
    glob: Vec<char>,
    inserted: Vec<char>,
    removal: Vec<char>,
    suffix: Vec<char>,
}

impl SourcesTexts {
    spec fn wf(&self, name: Seq<char>) -> bool {
        &&& self.end_sources@ == end_of_adding_source_files()
        &&& self.end_removal@ == end_of_removing_main_files()
        &&& self.executables@ == add_executables()
        &&& self.glob@ == source_glob(name)
        &&& self.inserted@ == source_insertion(name)
        &&& self.removal@ == removal_block(name)
        &&& self.suffix@ == executable_suffix(name)
    }

    fn new(name: &Vec<char>) -> (t: Self)
        ensures
            t.wf(name@),
    {
        let glob = source_glob_exec(name);
        let mut inserted: Vec<char> = vec!['\n', '\t'];
        push_all(&mut inserted, &glob);
        let mut suffix = chars_of(" ${");
        push_all(&mut suffix, &sources_variable_exec(name));
        push_all(&mut suffix, &chars_of("})"));
        SourcesTexts {
            end_sources: chars_of("## End of adding source files ##"),
            end_removal: chars_of("## End of removing main.c files of modules ##"),
            executables: chars_of("## Add executables ##"),
            glob,
            inserted,
            removal: removal_block_exec(name),
            suffix,
        }
    }
}

/// A copy of `v`.
fn copy_chars(v: &Vec<char>) -> (r: Vec<char>)
    ensures
        r@ == v@,
{
    let mut r: Vec<char> = Vec::new();
    push_all(&mut r, v);
    r
}

/// Line `i` rewritten as `sources_line` says.
fn sources_line_exec(
    line: &Vec<char>,
    passed: bool,
    texts: &SourcesTexts,
    Ghost(l): Ghost<Seq<Seq<char>>>,
    Ghost(i): Ghost<int>,
    Ghost(name): Ghost<Seq<char>>,
) -> (r: Vec<char>)
    requires
        0 <= i < l.len(),
        line@ == l[i],
        passed == executables_passed(l, i),
        texts.wf(name),
    ensures
        r@ == sources_line(l, i, name),
{
    if passed {
        with_module_sources_exec(line, &texts.suffix, Ghost(name))
    } else {
        copy_chars(line)
    }
}

/// Line `i` with what is inserted before it, as `sources_piece` says.
fn sources_piece_exec(
    original: &Vec<char>,
    line: &Vec<char>,
    i: usize,
    texts: &SourcesTexts,
    Ghost(l): Ghost<Seq<Seq<char>>>,
    Ghost(name): Ghost<Seq<char>>,
) -> (r: Vec<char>)
    requires
        i < l.len(),
        original@ == l[i as int],
        line@ == sources_line(l, i as int, name),
        texts.wf(name),
    ensures
        r@ == sources_piece(l, i as int, name),
{
    let mut r: Vec<char> = Vec::new();
    if contains_chars(original, &texts.end_sources) {
        push_all(&mut r, &texts.inserted);
    }
    let ghost a = r@;
    if contains_chars(original, &texts.end_removal) {
        push_all(&mut r, &texts.removal);
    }
    let ghost b = r@;
    if i > 0 {
        r.push('\n');
    }
    let ghost c = r@;
    push_all(&mut r, line);
    assert(r@ =~= a + (b.skip(a.len() as int)) + separator(i as int) + line@) by {
        assert(b =~= a + b.skip(a.len() as int));
        assert(c =~= b + separator(i as int));
    }
    assert(b.skip(a.len() as int) =~= (if contains(l[i as int], end_of_removing_main_files()) {
        removal_block(name)
    } else {
        seq![]
    }));
    r
}

/// Adds the sources of module `module_name` to the secondary CMakeLists whose
/// text is `file_content`: the command gathering them before the end of the
/// source section, the loop dropping their `main.c` before the end of the
/// removal section, and their variable to each executable line after the one
/// opening the executables section. Returns the new text, or `None` where the
/// module's sources are already gathered there and the file is to be left as
/// it is.
pub fn add_module_sources_files_to_secondary_cmakelists_file(file_content: &str, module_name: &str) -> (r:
    Option<String>)
    ensures
        text_of(r) == sources_update(file_content@, module_name@),
{
    let content = chars_of(file_content);
    let ls = split_lines(&content);
    let ghost l = lines(file_content@);
    let name = chars_of(module_name);
    let texts = SourcesTexts::new(&name);
    let mut out: Vec<char> = Vec::new();
    let mut previous: Vec<char> = Vec::new();
    let mut passed = false;
    for i in 0..ls.len()
        invariant
            l == lines(file_content@),
            views(ls@) == l,
            texts.wf(module_name@),
            passed == executables_passed(l, i as int),
            previous@ == previous_sources_line(l, i as int, module_name@),
            out@ == sources_text(l, module_name@, i as nat),
            forall|j: int|
                0 <= j < i ==> !(contains(#[trigger] l[j], end_of_adding_source_files())
                    && contains(previous_sources_line(l, j, module_name@), source_glob(module_name@))),
    {
        assert(ls@[i as int]@ == l[i as int]);
        if contains_chars(&ls[i], &texts.end_sources) && contains_chars(&previous, &texts.glob) {
            assert(contains(l[i as int], end_of_adding_source_files()));
            assert(sources_already_present(l, module_name@));
            return None;
        }
        let line = sources_line_exec(&ls[i], passed, &texts, Ghost(l), Ghost(i as int), Ghost(module_name@));
        let piece = sources_piece_exec(&ls[i], &line, i, &texts, Ghost(l), Ghost(module_name@));
        if !passed && contains_chars(&line, &texts.executables) {
            passed = true;
        }
        assert(passed == executables_passed(l, i + 1)) by {
            if !executables_passed(l, i as int) && contains(l[i as int], add_executables()) {
                assert(executables_passed(l, i + 1));
            }
        }
        push_all(&mut out, &piece);
        previous = line;
    }
    Some(string_of(&out))
}

// ---------------------------------------------------------------------------
// Moving a dependency up to the project's own modules folder
// ---------------------------------------------------------------------------

/// The folder that holds a project's modules, as a path prefix.
pub open spec fn modules_dir() -> Seq<char> {
    "bsc_modules/"@
}

/// A line with the first occurrence of `modules_dir()` taken out.
pub open spec fn without_modules_dir(line: Seq<char>) -> Seq<char> {
    match find(line, modules_dir()) {
        Some(b) => line.take(b) + line.skip(b + modules_dir().len()),
        None => line,
    }
}

/// A line after the move, without the line feed that may come before it.
pub open spec fn moved_line(line: Seq<char>, pattern: Seq<char>) -> Seq<char> {
    if contains(line, pattern) {
        without_modules_dir(line)
    } else {
        line
    }
}

/// Line `i` after the move: a line holding `pattern` loses its first
/// `modules_dir()` and always starts on a new line (even the first one);
/// other lines stay.
pub open spec fn moved_piece(ls: Seq<Seq<char>>, i: int, pattern: Seq<char>) -> Seq<char> {
    if contains(ls[i], pattern) {
        seq!['\n'] + without_modules_dir(ls[i])
    } else {
        separator(i) + ls[i]
    }
}

/// The first `n` lines after the move.
pub open spec fn moved_text(ls: Seq<Seq<char>>, pattern: Seq<char>, n: nat) -> Seq<char>
    decreases n,
{
    if n == 0 {
        seq![]
    } else {
        moved_text(ls, pattern, (n - 1) as nat) + moved_piece(ls, n - 1, pattern)
    }
}

/// The text after the move.
pub open spec fn moved_update(content: Seq<char>, pattern: Seq<char>) -> Seq<char> {
    moved_text(lines(content), pattern, lines(content).len())
}

/// The include directive that points into the modules folder for module `name`.
pub open spec fn nested_include_pattern(name: Seq<char>) -> Seq<char> {
    "include_directories (\"${PROJECT_BINARY_DIR}/../bsc_modules/"@ + name
}

/// `without_modules_dir(line)`.
fn without_modules_dir_exec(line: &Vec<char>, dir: &Vec<char>) -> (r: Vec<char>)
    requires
        dir@ == modules_dir(),
    ensures
        r@ == without_modules_dir(line@),
{
    match find_chars(line, dir) {
        Some(b) => {
            proof { crate::text::lemma_find_some_iff_contains(line@, dir@); }
            let mut r: Vec<char> = Vec::new();
            for j in 0..b
                invariant
                    b + dir.len() <= line.len(),
                    r@ == line@.take(j as int),
            {
                r.push(line[j]);
                assert(line@.take(j + 1) == line@.take(j as int).push(line@[j as int]));
            }
            let ghost head = r@;
            let mut j = b + dir.len();
            while j < line.len()
                invariant
                    b + dir.len() <= j <= line.len(),
                    r@ == head + line@.subrange(b + dir.len(), j as int),
                decreases line.len() - j,
            {
                r.push(line[j]);
                assert(line@.subrange(b + dir.len(), j + 1) == line@.subrange(
                    b + dir.len(),
                    j as int,
                ).push(line@[j as int]));
                j = j + 1;
            }
            assert(line@.subrange(b + dir.len(), line.len() as int) == line@.skip(b + dir.len()));
            r
        },
        None => copy_chars(line),
    }
}

/// The text `content` after the move, for lines holding `pattern`.
fn moved_exec(content: &str, pattern: &Vec<char>) -> (r: String)
    ensures
        r@ == moved_update(content@, pattern@),
{
    let chars = chars_of(content);
    let ls = split_lines(&chars);
    let ghost l = lines(content@);
    let dir = chars_of("bsc_modules/");
    let mut out: Vec<char> = Vec::new();
    for i in 0..ls.len()
        invariant
            views(ls@) == l,
            dir@ == modules_dir(),
            out@ == moved_text(l, pattern@, i as nat),
    {
        assert(ls@[i as int]@ == l[i as int]);
        let ghost before = out@;
        if contains_chars(&ls[i], pattern) {
            out.push('\n');
            push_all(&mut out, &without_modules_dir_exec(&ls[i], &dir));
        } else {
            if i > 0 {
                out.push('\n');
            }
            push_all(&mut out, &ls[i]);
        }
        assert(out@ =~= before + moved_piece(l, i as int, pattern@));
    }
    string_of(&out)
}

/// Rewrites the main CMakeLists of a module whose dependency `module_name`
/// moves up to the project's modules folder: each include directive pointing
/// into `bsc_modules/<module_name>` loses its first `bsc_modules/`.
pub fn change_headers_file_from_main_cmakelists_file(file_content: &str, module_name: &str) -> (r: String)
    ensures
        r@ == moved_update(file_content@, nested_include_pattern(module_name@)),
{
    let mut pattern = chars_of("include_directories (\"${PROJECT_BINARY_DIR}/../bsc_modules/");
    push_all(&mut pattern, &chars_of(module_name));
    moved_exec(file_content, &pattern)
}

/// Rewrites the source CMakeLists of a module whose dependency `module_name`
/// moves up to the project's modules folder: each line gathering that
/// dependency's sources loses its first `bsc_modules/`.
pub fn change_sources_files_from_secondary_cmakelists_file(file_content: &str, module_name: &str) -> (r:
    String)
    ensures
        r@ == moved_update(file_content@, source_glob(module_name@)),
{
    let pattern = source_glob_exec(&chars_of(module_name));
    moved_exec(file_content, &pattern)
}

} // verus!
