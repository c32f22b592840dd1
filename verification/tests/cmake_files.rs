use bsc::cmake::{
    add_module_headers_to_main_cmakelists_file, add_module_sources_files_to_secondary_cmakelists_file,
    change_headers_file_from_main_cmakelists_file, change_sources_files_from_secondary_cmakelists_file,
    check_already_added,
};
use bsc::project::{main_cmakelists_content, secondary_cmakelists_content};

const HEADERS_ADDED: &str = "cmake_minimum_required (VERSION 3.9) \n\n## Include libraries ## \n\tinclude_directories (\"${PROJECT_BINARY_DIR}/../include\") \n\tinclude_directories (\"${PROJECT_BINARY_DIR}/../bsc_modules/foo/include\")\n## End of include libraries ## \n\nset(EXECUTABLE_OUTPUT_PATH bin/${CMAKE_BUILD_TYPE}) \n\nif (MSVC) \n\tset(EXECUTABLE_OUTPUT_PATH bin/) \nendif (MSVC) \n\n## Add executables ## \n\tadd_subdirectory (src) \n\tadd_subdirectory (test) \n## End of adding executables ##";

#[test]
fn headers_are_added_before_the_end_of_the_include_section() {
    let main = main_cmakelists_content();
    let out = add_module_headers_to_main_cmakelists_file(&main, "bsc_modules/foo");
    assert_eq!(out, Some(HEADERS_ADDED.to_string()));
}

#[test]
fn added_headers_are_found_as_already_added() {
    let main = main_cmakelists_content();
    assert!(!check_already_added(&main, "bsc_modules/foo"));
    let out = add_module_headers_to_main_cmakelists_file(&main, "bsc_modules/foo").unwrap();
    assert!(check_already_added(&out, "bsc_modules/foo"));
    assert!(!check_already_added(&out, "bsc_modules/bar"));
}

#[test]
fn headers_added_twice_appear_twice() {
    let out = add_module_headers_to_main_cmakelists_file(HEADERS_ADDED, "bsc_modules/foo").unwrap();
    let directive = "\n\tinclude_directories (\"${PROJECT_BINARY_DIR}/../bsc_modules/foo/include\")";
    assert_eq!(out.matches(directive).count(), 2);
}

#[test]
fn headers_on_an_empty_file_give_an_empty_file() {
    assert_eq!(add_module_headers_to_main_cmakelists_file("", "m"), Some(String::new()));
}

#[test]
fn headers_before_a_closing_first_line() {
    let out = add_module_headers_to_main_cmakelists_file("## End of include libraries ##\nx", "m");
    assert_eq!(
        out,
        Some("\n\tinclude_directories (\"${PROJECT_BINARY_DIR}/../m/include\")## End of include libraries ##\nx".to_string())
    );
}

#[test]
fn headers_lines_are_read_with_crlf_and_joined_with_lf() {
    let out = add_module_headers_to_main_cmakelists_file("a\r\nb\r\n", "m");
    assert_eq!(out, Some("a\nb".to_string()));
}

#[test]
fn check_already_added_needs_the_directive_just_before_the_closing_line() {
    let content = "\tinclude_directories (\"${PROJECT_BINARY_DIR}/../m/include\")\nother\n## End of include libraries ##";
    assert!(!check_already_added(content, "m"));
    let content = "x\n\tinclude_directories (\"${PROJECT_BINARY_DIR}/../m/include\")\n## End of include libraries ##";
    assert!(check_already_added(content, "m"));
}

const SOURCES_ADDED: &str = "project(app) \n\nset(EXECUTABLE_OUTPUT_PATH bin/${CMAKE_BUILD_TYPE}) \n\n## Add source files ## \n\tfile (GLOB_RECURSE source_files ./*) \n\tfile (GLOB_RECURSE foo_source_files ../bsc_modules/foo/src/*)\n## End of adding source files ## \n\n## Remove main.c files of modules ## \n\tFOREACH(item ${foo_source_files}) \n\t\tIF(${item} MATCHES \"main.c\") \n\t\t\tLIST(REMOVE_ITEM foo_source_files ${item}) \n\t\tENDIF(${item} MATCHES \"main.c\") \n\tENDFOREACH(item)\n## End of removing main.c files of modules ## \n\n## Add executables ## \n\tadd_executable (app ${source_files} ${foo_source_files}) \n## End of adding executables ##";

#[test]
fn sources_are_added_to_the_source_cmakelists() {
    let src = secondary_cmakelists_content("./src/", "app");
    let out = add_module_sources_files_to_secondary_cmakelists_file(&src, "foo");
    assert_eq!(out, Some(SOURCES_ADDED.to_string()));
}

#[test]
fn sources_added_twice_leave_the_file_unchanged() {
    assert_eq!(add_module_sources_files_to_secondary_cmakelists_file(SOURCES_ADDED, "foo"), None);
}

#[test]
fn sources_are_added_to_the_test_cmakelists() {
    let test = secondary_cmakelists_content("./test/", "app");
    let out = add_module_sources_files_to_secondary_cmakelists_file(&test, "foo");
    let expected = "project(test_app) \n\nset(EXECUTABLE_OUTPUT_PATH bin/${CMAKE_BUILD_TYPE}) \n\n## Add source files ## \n\tfile (GLOB_RECURSE testing_files ./*) \n\tfile (GLOB_RECURSE testing_source_files ../src/*) \n\tfile (GLOB_RECURSE foo_source_files ../bsc_modules/foo/src/*)\n## End of adding source files ## \n\n## Remove main.c files of modules ## \n\tFOREACH(item ${testing_source_files}) \n\t\tIF(${item} MATCHES \"main.c\") \n\t\t\tLIST(REMOVE_ITEM testing_source_files ${item}) \n\t\tENDIF(${item} MATCHES \"main.c\") \n\tENDFOREACH(item) \n\tFOREACH(item ${foo_source_files}) \n\t\tIF(${item} MATCHES \"main.c\") \n\t\t\tLIST(REMOVE_ITEM foo_source_files ${item}) \n\t\tENDIF(${item} MATCHES \"main.c\") \n\tENDFOREACH(item)\n## End of removing main.c files of modules ## \n\n## Add executables ## \n\tadd_executable (test_app ${testing_files} ${testing_source_files} ${foo_source_files}) \n## End of adding executables ##";
    assert_eq!(out, Some(expected.to_string()));
}

#[test]
fn executable_lines_with_a_leading_parenthesis_stay() {
    let content = "## Add executables ##\n)x\nno paren\nf(a) b";
    let out = add_module_sources_files_to_secondary_cmakelists_file(content, "m");
    assert_eq!(out, Some("## Add executables ##\n)x\nno paren\nf(a ${m_source_files}) b".to_string()));
}

#[test]
fn headers_moved_up_lose_their_modules_folder() {
    let content = "a\n\tinclude_directories (\"${PROJECT_BINARY_DIR}/../bsc_modules/bar/include\")\nb";
    assert_eq!(
        change_headers_file_from_main_cmakelists_file(content, "bar"),
        "a\n\tinclude_directories (\"${PROJECT_BINARY_DIR}/../bar/include\")\nb"
    );
}

#[test]
fn a_moved_first_line_starts_with_a_line_feed() {
    let content = "\tinclude_directories (\"${PROJECT_BINARY_DIR}/../bsc_modules/bar/include\")\r\nz\n";
    assert_eq!(
        change_headers_file_from_main_cmakelists_file(content, "bar"),
        "\n\tinclude_directories (\"${PROJECT_BINARY_DIR}/../bar/include\")\nz"
    );
}

#[test]
fn sources_moved_up_lose_their_modules_folder() {
    let content = "x\n\tfile (GLOB_RECURSE bar_source_files ../bsc_modules/bar/src/*)\ny";
    assert_eq!(
        change_sources_files_from_secondary_cmakelists_file(content, "bar"),
        "x\n\tfile (GLOB_RECURSE bar_source_files ../bar/src/*)\ny"
    );
    assert_eq!(change_sources_files_from_secondary_cmakelists_file("x\ny", "bar"), "x\ny");
}

#[test]
fn headers_are_found_when_the_first_line_also_closes_the_section() {
    let content = "## End of include libraries ##\nx\n## End of include libraries ##";
    let out = add_module_headers_to_main_cmakelists_file(content, "m").unwrap();
    assert!(check_already_added(&out, "m"));
}

#[test]
fn sources_added_twice_with_two_closing_lines() {
    let content = "## End of adding source files ##\nx\n## End of adding source files ##";
    let once = add_module_sources_files_to_secondary_cmakelists_file(content, "m").unwrap();
    assert_eq!(add_module_sources_files_to_secondary_cmakelists_file(&once, "m"), None);
}

#[test]
fn moving_headers_twice_gives_the_first_result() {
    let content = "\tinclude_directories (\"${PROJECT_BINARY_DIR}/../bsc_modules/bar/include\")\nb";
    let once = change_headers_file_from_main_cmakelists_file(content, "bar");
    assert_eq!(change_headers_file_from_main_cmakelists_file(&once, "bar"), once);
}

#[test]
fn moving_sources_twice_gives_the_first_result() {
    let content = "x\n\tfile (GLOB_RECURSE bar_source_files ../bsc_modules/bar/src/*)";
    let once = change_sources_files_from_secondary_cmakelists_file(content, "bar");
    assert_eq!(change_sources_files_from_secondary_cmakelists_file(&once, "bar"), once);
}
