use bsc::dependencies::{
    add_module_to_dependencies_file, get_module_name, get_module_url, module_name_is_readable,
    module_url_is_readable, update_dependencies_file,
};

#[test]
fn a_new_dependency_file_names_the_project() {
    assert_eq!(
        update_dependencies_file("https://x/app.git", "app"),
        "BSC_PROJECT: \n\t[app]:^0.1.0\t|\thttps://x/app.git \n\nBSC_DEPENDENCIES: \n"
    );
}

#[test]
fn the_project_name_is_read_back() {
    let file = update_dependencies_file("https://x/app.git", "app");
    let mut name = String::from("unset");
    assert!(module_name_is_readable(&file));
    get_module_name(&file, &mut name);
    assert_eq!(name, "app");
}

#[test]
fn the_project_url_is_read_back() {
    let file = update_dependencies_file("https://x/app.git", "app");
    let mut url = String::new();
    assert!(module_url_is_readable(&file));
    get_module_url(&file, &mut url);
    assert_eq!(url, "https://x/app.git");
}

#[test]
fn a_file_without_project_line_leaves_the_name() {
    let mut name = String::from("kept");
    assert!(module_name_is_readable("nothing here\n"));
    get_module_name("nothing here\n", &mut name);
    assert_eq!(name, "kept");
    assert!(module_name_is_readable("BSC_PROJECT:"));
    get_module_name("BSC_PROJECT:", &mut name);
    assert_eq!(name, "kept");
}

#[test]
fn a_project_line_without_brackets_is_unreadable() {
    assert!(!module_name_is_readable("BSC_PROJECT: \nname"));
    assert!(!module_name_is_readable("BSC_PROJECT:\n]x["));
    assert!(!module_url_is_readable("BSC_PROJECT:\nno bar"));
    assert!(module_url_is_readable("BSC_PROJECT:\n|\tu"));
}

#[test]
fn the_name_is_read_from_the_line_after_the_first_project_line() {
    let mut name = String::new();
    get_module_name("x\nBSC_PROJECT: a\n[first]\nBSC_PROJECT:\n[second]", &mut name);
    assert_eq!(name, "first");
}

#[test]
fn a_module_entry_ends_the_dependency_file() {
    let file = update_dependencies_file("https://x/app.git", "app");
    let out = add_module_to_dependencies_file(&file, "foo", "0.1.0", "u1");
    assert_eq!(
        out,
        "BSC_PROJECT: \n\t[app]:^0.1.0\t|\thttps://x/app.git \n\nBSC_DEPENDENCIES: \n\t[foo]:^0.1.0\t|\tu1"
    );
}

#[test]
fn a_module_added_twice_has_one_entry() {
    let file = update_dependencies_file("https://x/app.git", "app");
    let once = add_module_to_dependencies_file(&file, "foo", "0.1.0", "u1");
    let twice = add_module_to_dependencies_file(&once, "foo", "0.1.0", "u1");
    assert_eq!(once, twice);
}

#[test]
fn an_existing_entry_moves_to_the_end() {
    let content = "\t[foo]:^0.1.0\t|\tu1\nBSC_DEPENDENCIES:";
    let out = add_module_to_dependencies_file(content, "foo", "0.1.0", "u1");
    assert_eq!(out, "\nBSC_DEPENDENCIES:\n\t[foo]:^0.1.0\t|\tu1");
}

#[test]
fn an_entry_added_to_an_empty_file() {
    assert_eq!(add_module_to_dependencies_file("", "m", "1", "u"), "\n\t[m]:^1\t|\tu");
}
