use vstd::prelude::*;

use crate::layout::{
    class_files, components_of, first_existing, first_existing_directory, libs, libs_candidates,
    libs_search_paths, source_candidates, source_files, source_search_paths,
};
use crate::names::{join_spec, join_with};
use crate::resolve::{
    logical_name_of, resolve, resolve_spec, strip_artifact_suffix, to_logical_name,
    trim_artifact_suffix,
};
use crate::tree::{files_with_extension, Entry};

verus! {

/// Why discovery or a pipeline stage failed.
#[derive(Debug, PartialEq, Eq)]
pub enum KohiError {
    /// None of the conventional source directories exists.
    MissingSourceDir,
    /// The source root holds no source file.
    NoSources(String),
    /// The output path exists and is not a directory.
    DistNotDir(String),
    /// The named tool could not be started.
    ForkFailure(String),
    /// The named tool ran and exited with a failure status (its code, when
    /// it has one).
    ExitFailure(String, Option<i32>),
    /// No compiled artifact matches the requested class name.
    ClassNotFound(String),
}

/// What became of one run of an external tool.
#[derive(Debug, Clone, Copy, PartialEq, Eq)]
pub enum ToolOutcome {
    /// The process could not be spawned.
    LaunchFailed,
    /// The process ran to its end.
    Finished { success: bool, code: Option<i32> },
}

/// A discovered project: where its sources, libraries and compiled output
/// are. Each path is a sequence of components, or a path as written.
#[derive(Debug)]
pub struct Kohi {
    pub dist_path: String,
    pub libs: Vec<Vec<String>>,
    pub source_path: String,
    pub source_files: Vec<Vec<String>>,
}

/// The paths written out with `/` between their components.
pub open spec fn displayed(paths: Seq<Seq<Seq<char>>>) -> Seq<Seq<char>> {
    Seq::new(paths.len(), |i: int| join_spec(paths[i], '/'))
}

/// The output root, as written.
pub open spec fn dist_root() -> Seq<char> {
    "./dist/"@
}

/// What the source root's snapshot must hold for a build.
pub open spec fn java_files(root: Seq<char>, entries: Seq<Entry>) -> Seq<Seq<Seq<char>>> {
    files_with_extension(components_of(root), entries, "java"@)
}

/// The compiler's command line: program, optional target pair, output
/// directory, class path, source path, then every source file.
pub open spec fn compile_args(k: Kohi, target: Option<Seq<char>>, classpath: Seq<char>) -> Seq<
    Seq<char>,
> {
    seq!["javac"@] + match target {
        Some(v) => seq!["-target"@, v],
        None => Seq::empty(),
    } + seq!["-d"@, k.dist_path@, "-cp"@, classpath, "-sourcepath"@, k.source_path@]
        + displayed(k.source_files.deep_view())
}

/// The dotted name that a class identifier resolves to under the output
/// snapshot `dist`.
pub open spec fn find_class_spec(dist: Seq<Entry>, class: Seq<char>) -> Option<Seq<char>> {
    match resolve_spec(dist, class) {
        Some(p) => Some(logical_name_of(p)),
        None => None,
    }
}

/// The packager's command line.
pub open spec fn package_args(
    dist: Seq<Entry>,
    jar_name: Seq<char>,
    entry_point: Option<Seq<char>>,
) -> Seq<Seq<char>> {
    seq!["jar"@] + match entry_point {
        Some(e) => seq!["-cfe"@, jar_name, e],
        None => seq!["-cf"@, jar_name],
    } + seq!["-C"@, "dist"@] + displayed(
        files_with_extension(Seq::empty(), dist, "class"@),
    )
}

/// How a stage ends, given what became of its tool run.
pub open spec fn stage_result(
    k: Kohi,
    tool: Seq<char>,
    outcome: ToolOutcome,
    r: Result<Kohi, KohiError>,
) -> bool {
    match outcome {
        ToolOutcome::LaunchFailed => r matches Err(KohiError::ForkFailure(t)) && t@ == tool,
        ToolOutcome::Finished { success, code } => if success {
            r == Ok::<Kohi, KohiError>(k)
        } else {
            r matches Err(KohiError::ExitFailure(t, c)) && t@ == tool && c == code
        },
    }
}

/// The source root: the first of the conventional candidates that is a
/// directory, where `is_dir[i]` tells whether candidate `i` is one.
pub fn source_root(is_dir: &Vec<bool>) -> (r: Result<String, KohiError>)
    requires
        is_dir.len() == 3,
    ensures
        match first_existing(source_candidates(), is_dir@) {
            Some(c) => r matches Ok(s) && s@ == c,
            None => r matches Err(KohiError::MissingSourceDir),
        },
{
    let candidates = source_search_paths();
    match first_existing_directory(&candidates, is_dir) {
        Some(s) => Ok(s),
        None => Err(KohiError::MissingSourceDir),
    }
}

/// The library root, if one of its conventional candidates is a directory.
pub fn libs_root(is_dir: &Vec<bool>) -> (r: Option<String>)
    requires
        is_dir.len() == 2,
    ensures
        match first_existing(libs_candidates(), is_dir@) {
            Some(c) => r matches Some(s) && s@ == c,
            None => r is None,
        },
{
    let candidates = libs_search_paths();
    first_existing_directory(&candidates, is_dir)
}

/// Every path written out with `/` between its components.
pub fn display_paths(paths: &Vec<Vec<String>>) -> (r: Vec<String>)
    ensures
        r.deep_view() == displayed(paths.deep_view()),
{
    let mut r: Vec<String> = Vec::new();
    let mut i: usize = 0;
    while i < paths.len()
        invariant
            i <= paths.len(),
            r.deep_view() =~= displayed(paths.deep_view()).subrange(0, i as int),
        decreases paths.len() - i,
    {
        proof {
            reveal_strlit("/");
        }
        let ghost before = r.deep_view();
        let s = join_with(&paths[i], "/");
        r.push(s);
        assert(r.deep_view() =~= before.push(join_spec(paths.deep_view()[i as int], '/')));
        i = i + 1;
    }
    r
}

fn append_strings(dst: &mut Vec<String>, src: Vec<String>)
    ensures
        final(dst).deep_view() == old(dst).deep_view() + src.deep_view(),
{
    let ghost a = dst.deep_view();
    let ghost b = src.deep_view();
    let mut src = src;
    dst.append(&mut src);
    assert(dst.deep_view() =~= a + b);
}

impl Kohi {
    /// Discovery: the source files under `source_root` (whose snapshot is
    /// `source_entries`), and the library archives under `libs_root`, if
    /// any (snapshot `libs_entries`). Fails when there is no source file.
    pub fn new(
        source_root: &str,
        source_entries: &Vec<Entry>,
        libs_root: Option<&str>,
        libs_entries: &Vec<Entry>,
    ) -> (r: Result<Kohi, KohiError>)
        ensures
            java_files(source_root@, source_entries@).len() == 0 <==> r is Err,
            r matches Err(e) ==> (e matches KohiError::NoSources(p) && p@ == source_root@),
            r matches Ok(k) ==> {
                &&& k.dist_path@ == dist_root()
                &&& k.source_path@ == source_root@
                &&& k.source_files.deep_view() == java_files(source_root@, source_entries@)
                &&& match libs_root {
                    Some(d) => k.libs.deep_view() == files_with_extension(
                        components_of(d@),
                        libs_entries@,
                        "jar"@,
                    ),
                    None => k.libs@.len() == 0,
                }
            },
    {
        let files = source_files(source_root, source_entries);
        if files.len() == 0 {
            return Err(KohiError::NoSources(source_root.to_owned()));
        }
        Ok(Kohi {
            dist_path: "./dist/".to_owned(),
            libs: libs(libs_root, libs_entries),
            source_path: source_root.to_owned(),
            source_files: files,
        })
    }

    /// Before compiling: whether the output directory must be created, given
    /// whether its path exists and is a directory. An existing path that is
    /// not a directory is an error.
    pub fn prepare_output(&self, exists: bool, is_dir: bool) -> (r: Result<bool, KohiError>)
        ensures
            exists && !is_dir ==> (r matches Err(KohiError::DistNotDir(p)) && p@ == self.dist_path@),
            !(exists && !is_dir) ==> r == Ok::<bool, KohiError>(!exists),
    {
        if exists && !is_dir {
            Err(KohiError::DistNotDir(self.dist_path.clone()))
        } else {
            Ok(!exists)
        }
    }

    /// The entries of the compiler's class path: the library archives.
    pub fn compile_classpath(&self) -> (r: Vec<String>)
        ensures
            r.deep_view() == displayed(self.libs.deep_view()),
    {
        display_paths(&self.libs)
    }

    /// The entries of the runtime's class path: the output root, then the
    /// library archives.
    pub fn run_classpath(&self) -> (r: Vec<String>)
        ensures
            r.deep_view() == seq![self.dist_path@] + displayed(self.libs.deep_view()),
    {
        let mut r = vec![self.dist_path.clone()];
        assert(r.deep_view() =~= seq![self.dist_path@]);
        append_strings(&mut r, display_paths(&self.libs));
        r
    }

    /// The compiler's command line (program first), with `classpath` the
    /// joined compile class path.
    pub fn compile_command(&self, target_version: Option<String>, classpath: &str) -> (r: Vec<
        String,
    >)
        ensures
            r.deep_view() == compile_args(
                *self,
                match target_version {
                    Some(v) => Some(v@),
                    None => None,
                },
                classpath@,
            ),
    {
        let mut r = vec!["javac".to_owned()];
        let ghost t: Seq<Seq<char>> = if target_version is Some {
            seq!["-target"@, target_version->0@]
        } else {
            Seq::empty()
        };
        match target_version {
            Some(v) => {
                r.push("-target".to_owned());
                r.push(v);
            },
            None => {},
        }
        assert(r.deep_view() =~= seq!["javac"@] + t);
        let fixed = vec![
            "-d".to_owned(),
            self.dist_path.clone(),
            "-cp".to_owned(),
            classpath.to_owned(),
            "-sourcepath".to_owned(),
            self.source_path.clone(),
        ];
        append_strings(&mut r, fixed);
        append_strings(&mut r, display_paths(&self.source_files));
        r
    }

    /// The compile stage's end, given what became of the compiler run.
    pub fn compile(self, outcome: ToolOutcome) -> (r: Result<Kohi, KohiError>)
        ensures
            stage_result(self, "javac"@, outcome, r),
    {
        self.finish_stage("javac", outcome)
    }

    /// The dotted name of the compiled artifact that `class` resolves to in
    /// the output snapshot `dist`, matching without regard to case.
    pub fn find_class(&self, dist: &Vec<Entry>, class: &str) -> (r: Option<String>)
        ensures
            match find_class_spec(dist@, class@) {
                Some(n) => r matches Some(s) && s@ == n,
                None => r is None,
            },
    {
        match resolve(dist, class) {
            Some(p) => Some(to_logical_name(&p)),
            None => None,
        }
    }

    /// The runtime's command line (program first) for `run_class`, with any
    /// trailing artifact extension dropped, and `classpath` the joined runtime
    /// class path. Fails when no artifact matches the class.
    pub fn run_command(&self, dist: &Vec<Entry>, run_class: &str, classpath: &str) -> (r: Result<
        Vec<String>,
        KohiError,
    >)
        ensures
            match find_class_spec(dist@, trim_artifact_suffix(run_class@)) {
                Some(n) => r matches Ok(v) && v.deep_view() == seq![
                    "java"@,
                    "-cp"@,
                    classpath@,
                    n,
                ],
                None => r matches Err(KohiError::ClassNotFound(c)) && c@ == trim_artifact_suffix(
                    run_class@,
                ),
            },
    {
        let name = strip_artifact_suffix(run_class);
        match self.find_class(dist, name.as_str()) {
            Some(main) => {
                let r = vec!["java".to_owned(), "-cp".to_owned(), classpath.to_owned(), main];
                assert(r.deep_view() =~= seq![
                    "java"@,
                    "-cp"@,
                    classpath@,
                    r@[3]@,
                ]);
                Ok(r)
            },
            None => Err(KohiError::ClassNotFound(name)),
        }
    }

    /// The run stage's end, given what became of the runtime run.
    pub fn run(self, outcome: ToolOutcome) -> (r: Result<Kohi, KohiError>)
        ensures
            stage_result(self, "java"@, outcome, r),
    {
        self.finish_stage("java", outcome)
    }

    /// The packager's command line (program first): an executable archive
    /// when an entry point is given, a plain one otherwise, holding every
    /// compiled artifact of the output snapshot `dist`.
    pub fn package_command(&self, dist: &Vec<Entry>, jar_name: &str, entry_point: Option<&str>) -> (r:
        Vec<String>)
        ensures
            r.deep_view() == package_args(
                dist@,
                jar_name@,
                match entry_point {
                    Some(e) => Some(e@),
                    None => None,
                },
            ),
    {
        let mut r = vec!["jar".to_owned()];
        match entry_point {
            Some(e) => {
                let mode = vec!["-cfe".to_owned(), jar_name.to_owned(), e.to_owned()];
                append_strings(&mut r, mode);
            },
            None => {
                let mode = vec!["-cf".to_owned(), jar_name.to_owned()];
                append_strings(&mut r, mode);
            },
        }
        let base = vec!["-C".to_owned(), "dist".to_owned()];
        append_strings(&mut r, base);
        let members = class_files(dist);
        append_strings(&mut r, display_paths(&members));
        assert(r.deep_view() =~= package_args(
            dist@,
            jar_name@,
            match entry_point {
                Some(e) => Some(e@),
                None => None,
            },
        ));
        r
    }

    /// The package stage's end, given what became of the packager run.
    pub fn package(self, outcome: ToolOutcome) -> (r: Result<Kohi, KohiError>)
        ensures
            stage_result(self, "jar"@, outcome, r),
    {
        self.finish_stage("jar", outcome)
    }

    fn finish_stage(self, tool: &str, outcome: ToolOutcome) -> (r: Result<Kohi, KohiError>)
        ensures
            stage_result(self, tool@, outcome, r),
    {
        match outcome {
            ToolOutcome::LaunchFailed => Err(KohiError::ForkFailure(tool.to_owned())),
            ToolOutcome::Finished { success, code } => {
                if success {
                    Ok(self)
                } else {
                    Err(KohiError::ExitFailure(tool.to_owned(), code))
                }
            },
        }
    }
}

} // verus!
