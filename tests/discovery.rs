use kohi::{
    class_files, find_files_by_extension, first_existing_directory, libs, libs_root,
    path_components, source_files, source_root, source_search_paths, Entry, Kohi, KohiError,
};

fn file(name: &str) -> Entry {
    Entry::File(name.to_string())
}

fn dir(name: &str, children: Vec<Entry>) -> Entry {
    Entry::Dir(name.to_string(), children)
}

fn comps(parts: &[&str]) -> Vec<String> {
    parts.iter().map(|s| s.to_string()).collect()
}

fn sample_tree() -> Vec<Entry> {
    vec![
        file("Main.java"),
        file("notes.txt"),
        dir(
            "com",
            vec![
                dir("foo", vec![file("Util.java"), file("Util.class"), file(".java")]),
                file("Readme.JAVA"),
                file("Old.java.bak"),
            ],
        ),
        dir("empty", vec![]),
    ]
}

#[test]
fn extension_search_finds_exactly_matching_files_at_any_depth() {
    let root = comps(&[".", "src"]);
    let found = find_files_by_extension(&root, &sample_tree(), "java", false);
    assert_eq!(
        found,
        vec![comps(&[".", "src", "Main.java"]), comps(&[".", "src", "com", "foo", "Util.java"])]
    );
}

#[test]
fn extension_search_relative_to_root() {
    let root = comps(&[".", "src"]);
    let found = find_files_by_extension(&root, &sample_tree(), "java", true);
    assert_eq!(found, vec![comps(&["Main.java"]), comps(&["com", "foo", "Util.java"])]);
}

#[test]
fn extension_match_is_case_sensitive_and_skips_hidden_names() {
    let found = find_files_by_extension(&vec![], &sample_tree(), "JAVA", true);
    assert_eq!(found, vec![comps(&["com", "Readme.JAVA"])]);
    let bak = find_files_by_extension(&vec![], &sample_tree(), "bak", true);
    assert_eq!(bak, vec![comps(&["com", "Old.java.bak"])]);
}

#[test]
fn extension_search_on_empty_tree_is_empty() {
    let found = find_files_by_extension(&comps(&["x"]), &vec![], "java", false);
    assert!(found.is_empty());
}

#[test]
fn class_files_are_relative() {
    let found = class_files(&sample_tree());
    assert_eq!(found, vec![comps(&["com", "foo", "Util.class"])]);
}

#[test]
fn source_files_carry_the_root() {
    let found = source_files("./src/", &vec![file("Main.java")]);
    assert_eq!(found, vec![comps(&[".", "src", "Main.java"])]);
}

#[test]
fn libs_without_root_are_empty() {
    let tree = vec![file("a.jar")];
    assert!(libs(None, &tree).is_empty());
    assert_eq!(libs(Some("./libs/"), &tree), vec![comps(&[".", "libs", "a.jar"])]);
}

#[test]
fn path_components_drop_empty_pieces() {
    assert_eq!(path_components("./src/main/java/"), comps(&[".", "src", "main", "java"]));
    assert_eq!(path_components("a//b"), comps(&["a", "b"]));
    assert!(path_components("").is_empty());
}

#[test]
fn first_existing_directory_none_exist() {
    let candidates = comps(&["./missing/", "./also-missing/"]);
    assert_eq!(first_existing_directory(&candidates, &vec![false, false]), None);
}

#[test]
fn first_existing_directory_takes_first_existing() {
    let candidates = comps(&["./a/", "./b/", "./c/"]);
    assert_eq!(
        first_existing_directory(&candidates, &vec![false, true, true]),
        Some("./b/".to_string())
    );
    assert_eq!(
        first_existing_directory(&candidates, &vec![false, false, true]),
        Some("./c/".to_string())
    );
    assert_eq!(
        first_existing_directory(&candidates, &vec![true, false, false]),
        Some("./a/".to_string())
    );
}

#[test]
fn source_root_follows_layout_order() {
    assert_eq!(source_search_paths(), comps(&["./src/main/java/", "./src/java/", "./src/"]));
    assert_eq!(source_root(&vec![false, true, true]), Ok("./src/java/".to_string()));
    assert_eq!(source_root(&vec![false, false, true]), Ok("./src/".to_string()));
    assert_eq!(source_root(&vec![false, false, false]), Err(KohiError::MissingSourceDir));
}

#[test]
fn libs_root_is_optional() {
    assert_eq!(libs_root(&vec![false, true]), Some("./deps/".to_string()));
    assert_eq!(libs_root(&vec![false, false]), None);
}

#[test]
fn discovery_without_sources_fails() {
    let tree = vec![file("readme.txt"), dir("pkg", vec![])];
    let r = Kohi::new("./src/", &tree, None, &vec![]);
    assert_eq!(r.unwrap_err(), KohiError::NoSources("./src/".to_string()));
}

#[test]
fn discovery_collects_sources_and_libs() {
    let src = vec![file("Main.java"), dir("util", vec![file("Helper.java")])];
    let lib = vec![file("dep.jar"), file("readme.md")];
    let k = Kohi::new("./src/", &src, Some("./libs/"), &lib).unwrap();
    assert_eq!(k.dist_path, "./dist/");
    assert_eq!(k.source_path, "./src/");
    assert_eq!(
        k.source_files,
        vec![comps(&[".", "src", "Main.java"]), comps(&[".", "src", "util", "Helper.java"])]
    );
    assert_eq!(k.libs, vec![comps(&[".", "libs", "dep.jar"])]);
}
