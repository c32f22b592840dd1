use bsc::include_path::{change_include_path, is_cmakelists_path, relative_header_path};

#[test]
fn include_lines_point_into_the_module() {
    let headers = vec!["util.h".to_string(), "sub\\a.h".to_string()];
    let content = "#include \"util.h\"\r\nint x;\n#include \"sub\\a.h\"\n#include \"sub/a.h\"\n#include <stdio.h>\n";
    assert_eq!(
        change_include_path(content, &headers, "foo"),
        "#include \"foo/util.h\"\nint x;\n#include \"foo/sub/a.h\"\n#include \"foo/sub/a.h\"\n#include <stdio.h>"
    );
}

#[test]
fn the_first_matching_header_wins() {
    let headers = vec!["a.h".to_string(), "b/a.h".to_string()];
    assert_eq!(change_include_path("#include \"b/a.h\"", &headers, "m"), "#include \"m/a.h\"");
}

#[test]
fn an_empty_header_matches_every_line() {
    let headers = vec![String::new()];
    assert_eq!(change_include_path("x\ny", &headers, "m"), "#include \"m/\"\n#include \"m/\"");
}

#[test]
fn a_header_path_within_its_module() {
    let r = relative_header_path("./bsc_modules/foo/include/foo/sub/a.h", "./bsc_modules/foo/include/", "foo");
    assert_eq!(r, Some("sub/a.h".to_string()));
}

#[test]
fn a_header_path_without_include_folder_cannot_be_had() {
    assert_eq!(relative_header_path("./x/a.h", "./x/", "foo"), None);
    assert_eq!(relative_header_path("./x/include/a.h", "./y/", "foo"), None);
}

#[test]
fn a_header_path_past_the_end_or_inside_a_character_cannot_be_had() {
    assert_eq!(relative_header_path("include/a", "include", "foo"), None);
    assert_eq!(relative_header_path("include/m/xxé", "include", "m"), Some("xxé".to_string()));
    // Byte 13 falls inside the two-byte character.
    assert_eq!(relative_header_path("include/m/xxé", "include", "abcd"), None);
}

#[test]
fn cmakelists_files_are_recognised() {
    assert!(is_cmakelists_path("./bsc_modules/foo/src/CMakeLists.txt"));
    assert!(!is_cmakelists_path("./bsc_modules/foo/src/main.c"));
}

#[test]
fn rewriting_include_lines_twice_gives_the_first_result() {
    let headers = vec!["sub/a.h".to_string()];
    let content = "#include \"sub/a.h\"\nint x;";
    let once = change_include_path(content, &headers, "m");
    assert_eq!(once, "#include \"m/sub/a.h\"\nint x;");
    assert_eq!(change_include_path(&once, &headers, "m"), once);
}
