use kohi::{
    class_path_segments, resolve, strip_artifact_suffix, to_logical_name, Entry, Kohi,
    KohiError, ToolOutcome,
};

fn file(name: &str) -> Entry {
    Entry::File(name.to_string())
}

fn dir(name: &str, children: Vec<Entry>) -> Entry {
    Entry::Dir(name.to_string(), children)
}

fn comps(parts: &[&str]) -> Vec<String> {
    parts.iter().map(|s| s.to_string()).collect()
}

fn dist_tree() -> Vec<Entry> {
    vec![
        file("Main.class"),
        dir("com", vec![dir("Foo", vec![file("Bar.class"), file("Bar.java")])]),
        dir("org", vec![file("Bar.class")]),
    ]
}

fn session() -> Kohi {
    Kohi::new("./src/", &vec![file("Main.java")], None, &vec![]).unwrap()
}

#[test]
fn segments_are_lowercased_with_extension_on_last() {
    assert_eq!(class_path_segments("com.Foo.Bar"), comps(&["com", "foo", "bar.class"]));
    assert_eq!(class_path_segments("a..b"), comps(&["a", "", "b.class"]));
}

#[test]
fn resolve_finds_nested_artifact() {
    assert_eq!(resolve(&dist_tree(), "com.foo.Bar"), Some(comps(&["com", "Foo", "Bar.class"])));
    assert_eq!(resolve(&dist_tree(), "org.Bar"), Some(comps(&["org", "Bar.class"])));
}

#[test]
fn resolve_compares_every_segment() {
    assert_eq!(resolve(&dist_tree(), "Bar"), None);
    assert_eq!(resolve(&dist_tree(), "net.Bar"), None);
}

#[test]
fn resolve_is_case_insensitive() {
    let a = resolve(&dist_tree(), "COM.FOO.bar");
    let b = resolve(&dist_tree(), "com.foo.BAR");
    assert_eq!(a, Some(comps(&["com", "Foo", "Bar.class"])));
    assert_eq!(a, b);
    assert_eq!(resolve(&dist_tree(), "MAIN"), Some(comps(&["Main.class"])));
}

#[test]
fn resolve_without_match_is_none() {
    assert_eq!(resolve(&dist_tree(), "Missing"), None);
    assert_eq!(resolve(&dist_tree(), "com..Bar"), None);
    assert_eq!(resolve(&vec![], "Main"), None);
}

#[test]
fn logical_name_round_trip() {
    let p = resolve(&dist_tree(), "com.Foo.Bar").unwrap();
    assert_eq!(to_logical_name(&p), "com.Foo.Bar");
    assert_eq!(to_logical_name(&comps(&["Main.class"])), "Main");
    assert_eq!(to_logical_name(&comps(&[".hidden", "X.class"])), "hidden.X");
}

#[test]
fn artifact_suffix_is_stripped() {
    assert_eq!(strip_artifact_suffix("Main.class"), "Main");
    assert_eq!(strip_artifact_suffix("Main.class.class"), "Main");
    assert_eq!(strip_artifact_suffix("Main"), "Main");
    assert_eq!(strip_artifact_suffix("a.classy"), "a.classy");
}

#[test]
fn find_class_gives_dotted_name() {
    let k = session();
    assert_eq!(k.find_class(&dist_tree(), "COM.foo.bar"), Some("com.Foo.Bar".to_string()));
    assert_eq!(k.find_class(&dist_tree(), "nothing"), None);
}

#[test]
fn compile_then_run_main() {
    let k = session();
    let cp = k.compile_classpath();
    assert!(cp.is_empty());
    let cmd = k.compile_command(None, "");
    assert_eq!(
        cmd,
        comps(&["javac", "-d", "./dist/", "-cp", "", "-sourcepath", "./src/", "./src/Main.java"])
    );
    assert_eq!(k.prepare_output(false, false), Ok(true));
    let k = k.compile(ToolOutcome::Finished { success: true, code: Some(0) }).unwrap();
    let dist = vec![file("Main.class")];
    assert_eq!(k.run_classpath(), comps(&["./dist/"]));
    let run = k.run_command(&dist, "Main", "./dist/").unwrap();
    assert_eq!(run, comps(&["java", "-cp", "./dist/", "Main"]));
}

#[test]
fn run_with_artifact_suffix_matches_bare_name() {
    let k = session();
    let dist = vec![file("Main.class")];
    let a = k.run_command(&dist, "Main.class", "./dist/").unwrap();
    let b = k.run_command(&dist, "Main", "./dist/").unwrap();
    assert_eq!(a, b);
}

#[test]
fn run_of_unknown_class_fails() {
    let k = session();
    let r = k.run_command(&vec![file("Main.class")], "Other.class", "./dist/");
    assert_eq!(r, Err(KohiError::ClassNotFound("Other".to_string())));
}

#[test]
fn compile_command_with_target_and_libs() {
    let k = Kohi::new("./src/", &vec![file("A.java")], Some("./libs/"), &vec![file("x.jar")])
        .unwrap();
    assert_eq!(k.compile_classpath(), comps(&["./libs/x.jar"]));
    assert_eq!(k.run_classpath(), comps(&["./dist/", "./libs/x.jar"]));
    let cmd = k.compile_command(Some("1.8".to_string()), "./libs/x.jar");
    assert_eq!(
        cmd,
        comps(&[
            "javac", "-target", "1.8", "-d", "./dist/", "-cp", "./libs/x.jar", "-sourcepath",
            "./src/", "./src/A.java"
        ])
    );
}

#[test]
fn output_path_that_is_a_file_is_rejected() {
    let k = session();
    assert_eq!(k.prepare_output(true, false), Err(KohiError::DistNotDir("./dist/".to_string())));
    assert_eq!(k.prepare_output(true, true), Ok(false));
}

#[test]
fn package_commands() {
    let k = session();
    let dist = vec![file("Main.class"), dir("a", vec![file("B.class"), file("n.txt")])];
    assert_eq!(
        k.package_command(&dist, "app.jar", Some("Main")),
        comps(&["jar", "-cfe", "app.jar", "Main", "-C", "dist", "Main.class", "a/B.class"])
    );
    assert_eq!(
        k.package_command(&dist, "lib.jar", None),
        comps(&["jar", "-cf", "lib.jar", "-C", "dist", "Main.class", "a/B.class"])
    );
}

#[test]
fn stage_failures_name_the_tool() {
    let r = session().compile(ToolOutcome::LaunchFailed);
    assert_eq!(r.unwrap_err(), KohiError::ForkFailure("javac".to_string()));
    let r = session().run(ToolOutcome::Finished { success: false, code: Some(2) });
    assert_eq!(r.unwrap_err(), KohiError::ExitFailure("java".to_string(), Some(2)));
    let r = session().package(ToolOutcome::Finished { success: false, code: None });
    assert_eq!(r.unwrap_err(), KohiError::ExitFailure("jar".to_string(), None));
    assert!(session().package(ToolOutcome::Finished { success: true, code: Some(0) }).is_ok());
}
