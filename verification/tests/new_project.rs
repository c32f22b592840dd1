use bsc::project::{
    main_cmakelists_content, main_file_content, module_type_from_flags, secondary_cmakelists_content,
    ModuleType,
};

#[test]
fn the_main_file_says_hello() {
    assert_eq!(
        main_file_content(),
        "#include <stdio.h> \n\nint main(int argc, char* argv[]){ \n\tprintf(\"Hello World !\"); \n\treturn 0; \n}"
    );
}

#[test]
fn the_main_cmakelists_has_its_sections() {
    let main = main_cmakelists_content();
    assert!(main.starts_with("cmake_minimum_required (VERSION 3.9) \n"));
    assert!(main.contains("\n## End of include libraries ## \n"));
    assert!(main.ends_with("\n## End of adding executables ##"));
}

#[test]
fn the_source_cmakelists_names_the_project() {
    assert_eq!(
        secondary_cmakelists_content("./src/", "app"),
        "project(app) \n\nset(EXECUTABLE_OUTPUT_PATH bin/${CMAKE_BUILD_TYPE}) \n\n## Add source files ## \n\tfile (GLOB_RECURSE source_files ./*) \n## End of adding source files ## \n\n## Remove main.c files of modules ## \n## End of removing main.c files of modules ## \n\n## Add executables ## \n\tadd_executable (app ${source_files}) \n## End of adding executables ##"
    );
}

#[test]
fn a_path_with_test_gets_the_test_cmakelists() {
    let test = secondary_cmakelists_content("./test/", "app");
    assert!(test.starts_with("project(test_app) \n"));
    assert!(test.ends_with("\tadd_executable (test_app ${testing_files} ${testing_source_files}) \n## End of adding executables ##"));
    assert!(secondary_cmakelists_content("./contest/", "a").starts_with("project(test_a)"));
}

#[test]
fn flags_choose_the_module_type() {
    assert_eq!(module_type_from_flags(true, true, true), Some(ModuleType::Git));
    assert_eq!(module_type_from_flags(false, true, true), Some(ModuleType::Local));
    assert_eq!(module_type_from_flags(false, false, true), Some(ModuleType::Zip));
    assert_eq!(module_type_from_flags(false, false, false), None);
}
