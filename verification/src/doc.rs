//! The configuration document: three catalogs of named command
//! specifications and the single selected target name they share.

use vstd::prelude::*;
use vstd::string::StringExecFns;

verus! {

/// A named build command: executable plus arguments.
#[derive(Debug)]
pub struct BuildJson {
    pub name: String,
    pub command: String,
    pub args: Vec<String>,
}

/// A named run command; `pre_build` asks for the matching build entry to be
/// invoked first.
#[derive(Debug)]
pub struct RunJson {
    pub name: String,
    pub command: String,
    pub args: Vec<String>,
    pub pre_build: bool,
}

/// A named configure command: executable plus arguments.
#[derive(Debug)]
pub struct ConfigureJson {
    pub name: String,
    pub command: String,
    pub args: Vec<String>,
}

/// The whole persisted document for one workspace.
#[derive(Debug)]
pub struct CacheJson {
    pub workspace: String,
    pub build_targets: Vec<String>,
    pub current_build_target: String,
    pub builds: Vec<BuildJson>,
    pub runs: Vec<RunJson>,
    pub configurations: Vec<ConfigureJson>,
}

/// One external command ready to be spawned: working directory, executable,
/// arguments.
#[derive(Debug)]
pub struct Invocation {
    pub workspace: String,
    pub command: String,
    pub args: Vec<String>,
}

/// Mathematical model of a build or configure entry.
pub struct CmdModel {
    pub name: Seq<char>,
    pub command: Seq<char>,
    pub args: Seq<Seq<char>>,
}

/// Mathematical model of a run entry.
pub struct RunModel {
    pub name: Seq<char>,
    pub command: Seq<char>,
    pub args: Seq<Seq<char>>,
    pub pre_build: bool,
}

/// Mathematical model of the whole document.
pub struct DocModel {
    pub workspace: Seq<char>,
    pub build_targets: Seq<Seq<char>>,
    pub current_build_target: Seq<char>,
    pub builds: Seq<CmdModel>,
    pub runs: Seq<RunModel>,
    pub configurations: Seq<CmdModel>,
}

/// Mathematical model of an invocation.
pub struct InvModel {
    pub workspace: Seq<char>,
    pub command: Seq<char>,
    pub args: Seq<Seq<char>>,
}

impl BuildJson {
    pub open spec fn model(&self) -> CmdModel {
        CmdModel { name: self.name@, command: self.command@, args: self.args.deep_view() }
    }
}

impl RunJson {
    pub open spec fn model(&self) -> RunModel {
        RunModel {
            name: self.name@,
            command: self.command@,
            args: self.args.deep_view(),
            pre_build: self.pre_build,
        }
    }
}

impl ConfigureJson {
    pub open spec fn model(&self) -> CmdModel {
        CmdModel { name: self.name@, command: self.command@, args: self.args.deep_view() }
    }
}

/// Models of a build catalog's entries, in order.
pub open spec fn build_models(s: Seq<BuildJson>) -> Seq<CmdModel> {
    s.map(|i: int, b: BuildJson| b.model())
}

/// Models of a run catalog's entries, in order.
pub open spec fn run_models(s: Seq<RunJson>) -> Seq<RunModel> {
    s.map(|i: int, r: RunJson| r.model())
}

/// Models of a configure catalog's entries, in order.
pub open spec fn configure_models(s: Seq<ConfigureJson>) -> Seq<CmdModel> {
    s.map(|i: int, c: ConfigureJson| c.model())
}

impl CacheJson {
    pub open spec fn model(&self) -> DocModel {
        DocModel {
            workspace: self.workspace@,
            build_targets: self.build_targets.deep_view(),
            current_build_target: self.current_build_target@,
            builds: build_models(self.builds@),
            runs: run_models(self.runs@),
            configurations: configure_models(self.configurations@),
        }
    }
}

impl Invocation {
    pub open spec fn model(&self) -> InvModel {
        InvModel { workspace: self.workspace@, command: self.command@, args: self.args.deep_view() }
    }
}

/// The invocation a build or configure entry asks for, in a given workspace.
pub open spec fn invocation_of_cmd(c: CmdModel, workspace: Seq<char>) -> InvModel {
    InvModel { workspace: workspace, command: c.command, args: c.args }
}

/// The invocation a run entry asks for, in a given workspace.
pub open spec fn invocation_of_run(r: RunModel, workspace: Seq<char>) -> InvModel {
    InvModel { workspace: workspace, command: r.command, args: r.args }
}

/// Element-wise copy of a list of strings.
pub fn clone_strings(v: &Vec<String>) -> (r: Vec<String>)
    ensures
        r@ == v@,
{
    let mut r: Vec<String> = Vec::new();
    let mut i: usize = 0;
    while i < v.len()
        invariant
            i <= v.len(),
            r@ == v@.take(i as int),
        decreases v.len() - i,
    {
        r.push(v[i].clone());
        i = i + 1;
        proof {
            assert(r@ =~= v@.take(i as int));
        }
    }
    proof {
        assert(r@ =~= v@);
    }
    r
}

impl BuildJson {
    /// The command this build entry asks to spawn in `workspace`.
    pub fn build(&self, workspace: &str) -> (r: Invocation)
        ensures
            r.model() == invocation_of_cmd(self.model(), workspace@),
    {
        Invocation {
            workspace: String::from_str(workspace),
            command: self.command.clone(),
            args: clone_strings(&self.args),
        }
    }
}

impl RunJson {
    /// The command this run entry asks to spawn in `workspace`.
    pub fn run(&self, workspace: &str) -> (r: Invocation)
        ensures
            r.model() == invocation_of_run(self.model(), workspace@),
    {
        Invocation {
            workspace: String::from_str(workspace),
            command: self.command.clone(),
            args: clone_strings(&self.args),
        }
    }
}

impl ConfigureJson {
    /// The command this configure entry asks to spawn in `workspace`.
    pub fn configure(&self, workspace: &str) -> (r: Invocation)
        ensures
            r.model() == invocation_of_cmd(self.model(), workspace@),
    {
        Invocation {
            workspace: String::from_str(workspace),
            command: self.command.clone(),
            args: clone_strings(&self.args),
        }
    }
}

/// The scaffold document an init writes: sample entries meant to be edited
/// by hand, not a computed default.
pub open spec fn default_doc_model(ws: Seq<char>) -> DocModel {
    DocModel {
        workspace: ws,
        build_targets: seq!["test1"@, "test2"@],
        current_build_target: "test1"@,
        builds: seq![
            CmdModel {
                name: "test1"@,
                command: "cmake .."@,
                args: seq!["-DCMAKE_BUILD_TYPE=Debug"@],
            },
        ],
        runs: seq![
            RunModel {
                name: "test1"@,
                command: "/my/super/app"@,
                args: seq!["--arg1"@, "--arg2"@],
                pre_build: true,
            },
            RunModel {
                name: "test2"@,
                command: "/my/super/app"@,
                args: seq!["--arg1"@, "--arg2"@],
                pre_build: true,
            },
        ],
        configurations: seq![
            CmdModel {
                name: "test1"@,
                command: "cmake"@,
                args: seq![
                    "-DCMAKE_BUILD_TYPE=Debug"@,
                    "-DCMAKE_EXPORT_COMPILE_COMMANDS=ON"@,
                    "-G"@,
                    "Ninja"@,
                ],
            },
        ],
    }
}

/// Builds the scaffold document for `workspace`.
pub fn default_document(workspace: &str) -> (r: CacheJson)
    ensures
        r.model() == default_doc_model(workspace@),
{
    let mut build_targets: Vec<String> = Vec::new();
    build_targets.push(String::from_str("test1"));
    build_targets.push(String::from_str("test2"));

    let mut bargs: Vec<String> = Vec::new();
    bargs.push(String::from_str("-DCMAKE_BUILD_TYPE=Debug"));
    let mut builds: Vec<BuildJson> = Vec::new();
    builds.push(
        BuildJson {
            name: String::from_str("test1"),
            command: String::from_str("cmake .."),
            args: bargs,
        },
    );

    let mut rargs1: Vec<String> = Vec::new();
    rargs1.push(String::from_str("--arg1"));
    rargs1.push(String::from_str("--arg2"));
    let mut rargs2: Vec<String> = Vec::new();
    rargs2.push(String::from_str("--arg1"));
    rargs2.push(String::from_str("--arg2"));
    let mut runs: Vec<RunJson> = Vec::new();
    runs.push(
        RunJson {
            name: String::from_str("test1"),
            command: String::from_str("/my/super/app"),
            args: rargs1,
            pre_build: true,
        },
    );
    runs.push(
        RunJson {
            name: String::from_str("test2"),
            command: String::from_str("/my/super/app"),
            args: rargs2,
            pre_build: true,
        },
    );

    let mut cargs: Vec<String> = Vec::new();
    cargs.push(String::from_str("-DCMAKE_BUILD_TYPE=Debug"));
    cargs.push(String::from_str("-DCMAKE_EXPORT_COMPILE_COMMANDS=ON"));
    cargs.push(String::from_str("-G"));
    cargs.push(String::from_str("Ninja"));
    let mut configurations: Vec<ConfigureJson> = Vec::new();
    configurations.push(
        ConfigureJson {
            name: String::from_str("test1"),
            command: String::from_str("cmake"),
            args: cargs,
        },
    );

    let r = CacheJson {
        workspace: String::from_str(workspace),
        build_targets,
        current_build_target: String::from_str("test1"),
        builds,
        runs,
        configurations,
    };
    proof {
        let d = default_doc_model(workspace@);
        assert(r.build_targets.deep_view() =~= d.build_targets);
        assert(r.builds@[0].args.deep_view() =~= seq!["-DCMAKE_BUILD_TYPE=Debug"@]);
        assert(build_models(r.builds@) =~= d.builds);
        assert(r.runs@[0].args.deep_view() =~= seq!["--arg1"@, "--arg2"@]);
        assert(r.runs@[1].args.deep_view() =~= seq!["--arg1"@, "--arg2"@]);
        assert(run_models(r.runs@) =~= d.runs);
        assert(r.configurations@[0].args.deep_view() =~= seq![
            "-DCMAKE_BUILD_TYPE=Debug"@,
            "-DCMAKE_EXPORT_COMPILE_COMMANDS=ON"@,
            "-G"@,
            "Ninja"@,
        ]);
        assert(configure_models(r.configurations@) =~= d.configurations);
    }
    r
}

} // verus!
