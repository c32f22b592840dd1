use vstd::prelude::*;
use crate::text::{chars_of, contains, contains_chars, push_all, string_of};

verus! {

// ---------------------------------------------------------------------------
// The files of a new project
// ---------------------------------------------------------------------------

/// The main CMakeLists of a new project.
pub open spec fn main_cmakelists_text() -> Seq<char> {
    "cmake_minimum_required (VERSION 3.9) \n\n## Include libraries ## \n\tinclude_directories (\"${PROJECT_BINARY_DIR}/../include\") \n## End of include libraries ## \n\nset(EXECUTABLE_OUTPUT_PATH bin/${CMAKE_BUILD_TYPE}) \n\nif (MSVC) \n\tset(EXECUTABLE_OUTPUT_PATH bin/) \nendif (MSVC) \n\n## Add executables ## \n\tadd_subdirectory (src) \n\tadd_subdirectory (test) \n## End of adding executables ##"@
}

/// The `main.c` and `test.c` of a new project.
pub open spec fn main_file_text() -> Seq<char> {
    "#include <stdio.h> \n\nint main(int argc, char* argv[]){ \n\tprintf(\"Hello World !\"); \n\treturn 0; \n}"@
}

/// The CMakeLists of the `src` folder of project `name`.
pub open spec fn sources_cmakelists_text(name: Seq<char>) -> Seq<char> {
    "project("@ + name
        + ") \n\nset(EXECUTABLE_OUTPUT_PATH bin/${CMAKE_BUILD_TYPE}) \n\n## Add source files ## \n\tfile (GLOB_RECURSE source_files ./*) \n## End of adding source files ## \n\n## Remove main.c files of modules ## \n## End of removing main.c files of modules ## \n\n## Add executables ## \n\tadd_executable ("@
        + name + " ${source_files}) \n## End of adding executables ##"@
}

/// The CMakeLists of the `test` folder of project `name`.
pub open spec fn tests_cmakelists_text(name: Seq<char>) -> Seq<char> {
    "project(test_"@ + name
        + ") \n\nset(EXECUTABLE_OUTPUT_PATH bin/${CMAKE_BUILD_TYPE}) \n\n## Add source files ## \n\tfile (GLOB_RECURSE testing_files ./*) \n\tfile (GLOB_RECURSE testing_source_files ../src/*) \n## End of adding source files ## \n\n## Remove main.c files of modules ## \n\tFOREACH(item ${testing_source_files}) \n\t\tIF(${item} MATCHES \"main.c\") \n\t\t\tLIST(REMOVE_ITEM testing_source_files ${item}) \n\t\tENDIF(${item} MATCHES \"main.c\") \n\tENDFOREACH(item) \n## End of removing main.c files of modules ## \n\n## Add executables ## \n\tadd_executable (test_"@
        + name + " ${testing_files} ${testing_source_files}) \n## End of adding executables ##"@
}

/// The text of the main CMakeLists of a new project.
pub fn main_cmakelists_content() -> (r: String)
    ensures
        r@ == main_cmakelists_text(),
{
    string_of(&chars_of("cmake_minimum_required (VERSION 3.9) \n\n## Include libraries ## \n\tinclude_directories (\"${PROJECT_BINARY_DIR}/../include\") \n## End of include libraries ## \n\nset(EXECUTABLE_OUTPUT_PATH bin/${CMAKE_BUILD_TYPE}) \n\nif (MSVC) \n\tset(EXECUTABLE_OUTPUT_PATH bin/) \nendif (MSVC) \n\n## Add executables ## \n\tadd_subdirectory (src) \n\tadd_subdirectory (test) \n## End of adding executables ##"))
}

/// The text of the `main.c` and `test.c` of a new project.
pub fn main_file_content() -> (r: String)
    ensures
        r@ == main_file_text(),
{
    string_of(&chars_of("#include <stdio.h> \n\nint main(int argc, char* argv[]){ \n\tprintf(\"Hello World !\"); \n\treturn 0; \n}"))
}

/// The text of the CMakeLists of project `project_name` in the folder at
/// `path`: the one for tests where the path mentions `test`, else the one for
/// sources.
pub fn secondary_cmakelists_content(path: &str, project_name: &str) -> (r: String)
    ensures
        r@ == if contains(path@, "test"@) {
            tests_cmakelists_text(project_name@)
        } else {
            sources_cmakelists_text(project_name@)
        },
{
    let name = chars_of(project_name);
    let mut r: Vec<char>;
    if contains_chars(&chars_of(path), &chars_of("test")) {
        r = chars_of("project(test_");
        push_all(&mut r, &name);
        push_all(&mut r, &chars_of(") \n\nset(EXECUTABLE_OUTPUT_PATH bin/${CMAKE_BUILD_TYPE}) \n\n## Add source files ## \n\tfile (GLOB_RECURSE testing_files ./*) \n\tfile (GLOB_RECURSE testing_source_files ../src/*) \n## End of adding source files ## \n\n## Remove main.c files of modules ## \n\tFOREACH(item ${testing_source_files}) \n\t\tIF(${item} MATCHES \"main.c\") \n\t\t\tLIST(REMOVE_ITEM testing_source_files ${item}) \n\t\tENDIF(${item} MATCHES \"main.c\") \n\tENDFOREACH(item) \n## End of removing main.c files of modules ## \n\n## Add executables ## \n\tadd_executable (test_"));
        push_all(&mut r, &name);
        push_all(&mut r, &chars_of(" ${testing_files} ${testing_source_files}) \n## End of adding executables ##"));
    } else {
        r = chars_of("project(");
        push_all(&mut r, &name);
        push_all(&mut r, &chars_of(") \n\nset(EXECUTABLE_OUTPUT_PATH bin/${CMAKE_BUILD_TYPE}) \n\n## Add source files ## \n\tfile (GLOB_RECURSE source_files ./*) \n## End of adding source files ## \n\n## Remove main.c files of modules ## \n## End of removing main.c files of modules ## \n\n## Add executables ## \n\tadd_executable ("));
        push_all(&mut r, &name);
        push_all(&mut r, &chars_of(" ${source_files}) \n## End of adding executables ##"));
    }
    string_of(&r)
}

// ---------------------------------------------------------------------------
// Kinds of module
// ---------------------------------------------------------------------------

/// Where a module to add comes from.
#[derive(Clone, Copy, Debug, PartialEq, Eq, Structural)]
pub enum ModuleType {
    Local,
    Git,
    Zip,
}

/// The kind of module that the command line's flags ask for: a git
/// repository before a local folder before a zip archive; `None` when no
/// flag is set.
pub fn module_type_from_flags(git: bool, local: bool, zip: bool) -> (r: Option<ModuleType>)
    ensures
        r == if git {
            Some(ModuleType::Git)
        } else if local {
            Some(ModuleType::Local)
        } else if zip {
            Some(ModuleType::Zip)
        } else {
            None
        },
{
    if git {
        Some(ModuleType::Git)
    } else if local {
        Some(ModuleType::Local)
    } else if zip {
        Some(ModuleType::Zip)
    } else {
        None
    }
}

} // verus!
