//! Catalog lookup and the configure/build/run dispatch: each operation
//! resolves the shared current target name against its own catalog and
//! produces the invocations to perform, in order; the caller spawns them
//! one by one, stopping at the first failure.

use vstd::prelude::*;
use vstd::string::StringExecFns;
use crate::doc::{
    build_models, configure_models, invocation_of_cmd, invocation_of_run, run_models, BuildJson,
    CacheJson, CmdModel, ConfigureJson, DocModel, InvModel, Invocation, RunJson, RunModel,
};

verus! {

/// Index of the first build/configure entry named `name`, if any.
pub open spec fn find_cmd_spec(s: Seq<CmdModel>, name: Seq<char>) -> Option<int>
    decreases s.len(),
{
    if s.len() == 0 {
        None
    } else if s[0].name == name {
        Some(0)
    } else {
        match find_cmd_spec(s.skip(1), name) {
            None => None,
            Some(i) => Some(i + 1),
        }
    }
}

/// Index of the first run entry named `name`, if any.
pub open spec fn find_run_spec(s: Seq<RunModel>, name: Seq<char>) -> Option<int>
    decreases s.len(),
{
    if s.len() == 0 {
        None
    } else if s[0].name == name {
        Some(0)
    } else {
        match find_run_spec(s.skip(1), name) {
            None => None,
            Some(i) => Some(i + 1),
        }
    }
}

/// Law: lookup is first-match.  When several entries share a name the
/// earliest wins, and `None` comes back only when no entry matches.
pub proof fn lemma_find_cmd_first_match(s: Seq<CmdModel>, name: Seq<char>)
    ensures
        find_cmd_spec(s, name) matches Some(i) ==> 0 <= i < s.len() && s[i].name == name
            && (forall|j: int| 0 <= j < i ==> s[j].name != name),
        find_cmd_spec(s, name) is None ==> forall|j: int| 0 <= j < s.len() ==> s[j].name != name,
    decreases s.len(),
{
    if s.len() > 0 && s[0].name != name {
        lemma_find_cmd_first_match(s.skip(1), name);
        assert forall|j: int| 1 <= j < s.len() implies s[j] == s.skip(1)[j - 1] by {
            assert(s.skip(1)[j - 1] == s[j]);
        }
    }
}

/// Law: run lookup is first-match as well.
pub proof fn lemma_find_run_first_match(s: Seq<RunModel>, name: Seq<char>)
    ensures
        find_run_spec(s, name) matches Some(i) ==> 0 <= i < s.len() && s[i].name == name
            && (forall|j: int| 0 <= j < i ==> s[j].name != name),
        find_run_spec(s, name) is None ==> forall|j: int| 0 <= j < s.len() ==> s[j].name != name,
    decreases s.len(),
{
    if s.len() > 0 && s[0].name != name {
        lemma_find_run_first_match(s.skip(1), name);
        assert forall|j: int| 1 <= j < s.len() implies s[j] == s.skip(1)[j - 1] by {
            assert(s.skip(1)[j - 1] == s[j]);
        }
    }
}

pub open spec fn index_model(r: Option<usize>) -> Option<int> {
    match r {
        Some(i) => Some(i as int),
        None => None,
    }
}

/// First build entry named `name`, by index.
pub fn find_build_by_name(builds: &Vec<BuildJson>, name: &String) -> (r: Option<usize>)
    ensures
        index_model(r) == find_cmd_spec(build_models(builds@), name@),
{
    let ghost m = build_models(builds@);
    let mut i: usize = 0;
    while i < builds.len()
        invariant
            i <= builds.len(),
            m == build_models(builds@),
            m.len() == builds.len(),
            forall|j: int| 0 <= j < i ==> m[j].name != name@,
        decreases builds.len() - i,
    {
        if builds[i].name == *name {
            proof {
                lemma_find_cmd_first_match(m, name@);
                assert(m[i as int].name == name@);
            }
            return Some(i);
        }
        i = i + 1;
    }
    proof {
        lemma_find_cmd_first_match(m, name@);
    }
    None
}

/// First run entry named `name`, by index.
pub fn find_run_by_name(runs: &Vec<RunJson>, name: &String) -> (r: Option<usize>)
    ensures
        index_model(r) == find_run_spec(run_models(runs@), name@),
{
    let ghost m = run_models(runs@);
    let mut i: usize = 0;
    while i < runs.len()
        invariant
            i <= runs.len(),
            m == run_models(runs@),
            m.len() == runs.len(),
            forall|j: int| 0 <= j < i ==> m[j].name != name@,
        decreases runs.len() - i,
    {
        if runs[i].name == *name {
            proof {
                lemma_find_run_first_match(m, name@);
                assert(m[i as int].name == name@);
            }
            return Some(i);
        }
        i = i + 1;
    }
    proof {
        lemma_find_run_first_match(m, name@);
    }
    None
}

/// First configure entry named `name`, by index.
pub fn find_configure_by_name(configurations: &Vec<ConfigureJson>, name: &String) -> (r: Option<
    usize,
>)
    ensures
        index_model(r) == find_cmd_spec(configure_models(configurations@), name@),
{
    let ghost m = configure_models(configurations@);
    let mut i: usize = 0;
    while i < configurations.len()
        invariant
            i <= configurations.len(),
            m == configure_models(configurations@),
            m.len() == configurations.len(),
            forall|j: int| 0 <= j < i ==> m[j].name != name@,
        decreases configurations.len() - i,
    {
        if configurations[i].name == *name {
            proof {
                lemma_find_cmd_first_match(m, name@);
                assert(m[i as int].name == name@);
            }
            return Some(i);
        }
        i = i + 1;
    }
    proof {
        lemma_find_cmd_first_match(m, name@);
    }
    None
}

/// Why a dispatch failed: the current target name was missing from the
/// catalog the operation needed.
#[derive(Debug)]
pub enum DispatchError {
    BuildTargetNotFound { name: String },
    RunTargetNotFound { name: String },
    ConfigureTargetNotFound { name: String },
}

pub enum DispatchErrModel {
    BuildNotFound(Seq<char>),
    RunNotFound(Seq<char>),
    ConfigureNotFound(Seq<char>),
}

impl DispatchError {
    pub open spec fn model(&self) -> DispatchErrModel {
        match self {
            DispatchError::BuildTargetNotFound { name } => DispatchErrModel::BuildNotFound(name@),
            DispatchError::RunTargetNotFound { name } => DispatchErrModel::RunNotFound(name@),
            DispatchError::ConfigureTargetNotFound { name } => DispatchErrModel::ConfigureNotFound(
                name@,
            ),
        }
    }

    /// The message reported for this failure.
    pub fn message(&self) -> (r: String)
        ensures
            self matches DispatchError::BuildTargetNotFound { name } ==> r@
                == "Build target not found: "@ + name@,
            self matches DispatchError::RunTargetNotFound { name } ==> r@
                == "Run target not found: "@ + name@,
            self matches DispatchError::ConfigureTargetNotFound { name } ==> r@
                == "Configure target not found: "@ + name@,
    {
        match self {
            DispatchError::BuildTargetNotFound { name } => {
                let mut m = String::from_str("Build target not found: ");
                m.append(name.as_str());
                m
            },
            DispatchError::RunTargetNotFound { name } => {
                let mut m = String::from_str("Run target not found: ");
                m.append(name.as_str());
                m
            },
            DispatchError::ConfigureTargetNotFound { name } => {
                let mut m = String::from_str("Configure target not found: ");
                m.append(name.as_str());
                m
            },
        }
    }
}

/// What a build operation does: the first matching build entry's command,
/// or a not-found failure naming the current target.
pub open spec fn plan_build_spec(m: DocModel, workspace: Seq<char>) -> Result<
    InvModel,
    DispatchErrModel,
> {
    match find_cmd_spec(m.builds, m.current_build_target) {
        Some(i) => Ok(invocation_of_cmd(m.builds[i], workspace)),
        None => Err(DispatchErrModel::BuildNotFound(m.current_build_target)),
    }
}

/// What a configure operation does.
pub open spec fn plan_configure_spec(m: DocModel, workspace: Seq<char>) -> Result<
    InvModel,
    DispatchErrModel,
> {
    match find_cmd_spec(m.configurations, m.current_build_target) {
        Some(i) => Ok(invocation_of_cmd(m.configurations[i], workspace)),
        None => Err(DispatchErrModel::ConfigureNotFound(m.current_build_target)),
    }
}

/// What a run operation does: the first matching run entry's command,
/// preceded by the build invocation when the entry asks for a pre-build;
/// missing entries fail naming the current target, the run catalog being
/// consulted first.
pub open spec fn plan_run_spec(m: DocModel, workspace: Seq<char>) -> Result<
    Seq<InvModel>,
    DispatchErrModel,
> {
    match find_run_spec(m.runs, m.current_build_target) {
        None => Err(DispatchErrModel::RunNotFound(m.current_build_target)),
        Some(i) => {
            if m.runs[i].pre_build {
                match find_cmd_spec(m.builds, m.current_build_target) {
                    None => Err(DispatchErrModel::BuildNotFound(m.current_build_target)),
                    Some(k) => Ok(
                        seq![
                            invocation_of_cmd(m.builds[k], workspace),
                            invocation_of_run(m.runs[i], workspace),
                        ],
                    ),
                }
            } else {
                Ok(seq![invocation_of_run(m.runs[i], workspace)])
            }
        },
    }
}

pub open spec fn inv_result_model(r: Result<Invocation, DispatchError>) -> Result<
    InvModel,
    DispatchErrModel,
> {
    match r {
        Ok(inv) => Ok(inv.model()),
        Err(e) => Err(e.model()),
    }
}

pub open spec fn inv_models(v: Seq<Invocation>) -> Seq<InvModel> {
    v.map(|i: int, inv: Invocation| inv.model())
}

pub open spec fn steps_result_model(r: Result<Vec<Invocation>, DispatchError>) -> Result<
    Seq<InvModel>,
    DispatchErrModel,
> {
    match r {
        Ok(v) => Ok(inv_models(v@)),
        Err(e) => Err(e.model()),
    }
}

/// Resolves a build: the invocation of the first build entry matching the
/// current target, to be spawned in `workspace`.
pub fn plan_build(doc: &CacheJson, workspace: &str) -> (r: Result<Invocation, DispatchError>)
    ensures
        inv_result_model(r) == plan_build_spec(doc.model(), workspace@),
{
    match find_build_by_name(&doc.builds, &doc.current_build_target) {
        Some(i) => {
            proof {
                lemma_find_cmd_first_match(build_models(doc.builds@), doc.current_build_target@);
            }
            Ok(doc.builds[i].build(workspace))
        },
        None => Err(
            DispatchError::BuildTargetNotFound { name: doc.current_build_target.clone() },
        ),
    }
}

/// Resolves a configure: the invocation of the first configure entry
/// matching the current target.
pub fn plan_configure(doc: &CacheJson, workspace: &str) -> (r: Result<Invocation, DispatchError>)
    ensures
        inv_result_model(r) == plan_configure_spec(doc.model(), workspace@),
{
    match find_configure_by_name(&doc.configurations, &doc.current_build_target) {
        Some(i) => {
            proof {
                lemma_find_cmd_first_match(
                    configure_models(doc.configurations@),
                    doc.current_build_target@,
                );
            }
            Ok(doc.configurations[i].configure(workspace))
        },
        None => Err(
            DispatchError::ConfigureTargetNotFound { name: doc.current_build_target.clone() },
        ),
    }
}

/// Resolves a run: the invocations to perform in order — the matching
/// build entry first when the run entry asks for a pre-build.
pub fn plan_run(doc: &CacheJson, workspace: &str) -> (r: Result<Vec<Invocation>, DispatchError>)
    ensures
        steps_result_model(r) == plan_run_spec(doc.model(), workspace@),
{
    match find_run_by_name(&doc.runs, &doc.current_build_target) {
        None => Err(DispatchError::RunTargetNotFound { name: doc.current_build_target.clone() }),
        Some(i) => {
            proof {
                lemma_find_run_first_match(run_models(doc.runs@), doc.current_build_target@);
            }
            if doc.runs[i].pre_build {
                match find_build_by_name(&doc.builds, &doc.current_build_target) {
                    None => Err(
                        DispatchError::BuildTargetNotFound {
                            name: doc.current_build_target.clone(),
                        },
                    ),
                    Some(k) => {
                        proof {
                            lemma_find_cmd_first_match(
                                build_models(doc.builds@),
                                doc.current_build_target@,
                            );
                        }
                        let mut steps: Vec<Invocation> = Vec::new();
                        steps.push(doc.builds[k].build(workspace));
                        steps.push(doc.runs[i].run(workspace));
                        proof {
                            assert(inv_models(steps@) =~= plan_run_spec(
                                doc.model(),
                                workspace@,
                            )->Ok_0);
                        }
                        Ok(steps)
                    },
                }
            } else {
                let mut steps: Vec<Invocation> = Vec::new();
                steps.push(doc.runs[i].run(workspace));
                proof {
                    assert(inv_models(steps@) =~= plan_run_spec(doc.model(), workspace@)->Ok_0);
                }
                Ok(steps)
            }
        },
    }
}

/// What the caller's dispatch loop does next.
#[derive(Debug, PartialEq, Eq, Structural)]
pub enum NextAction {
    /// The previous step failed: stop, perform nothing further.
    Abort,
    /// Every step was performed.
    Done,
    /// Perform the step at this index.
    RunStep(usize),
}

/// The dispatch loop's decision after `completed` steps, the last of which
/// failed exactly when `last_failed`.  A failure aborts the remaining
/// steps: in a pre-build plan, a failed build means the run invocation is
/// never handed out.
pub fn next_step(steps: &Vec<Invocation>, completed: usize, last_failed: bool) -> (r: NextAction)
    ensures
        last_failed ==> r is Abort,
        !last_failed && completed >= steps.len() ==> r is Done,
        !last_failed && completed < steps.len() ==> r == NextAction::RunStep(completed),
{
    if last_failed {
        NextAction::Abort
    } else if completed >= steps.len() {
        NextAction::Done
    } else {
        NextAction::RunStep(completed)
    }
}

/// Law: when the selected run entry asks for a pre-build and a build entry
/// matches, the run plan holds exactly two steps, the build invocation
/// first and the run invocation second.  Paired with `next_step`, which
/// aborts after any failed step, a failed build invocation means the run
/// invocation is never performed.
pub proof fn lemma_pre_build_precedes_run(m: DocModel, workspace: Seq<char>)
    requires
        find_run_spec(m.runs, m.current_build_target) matches Some(i) && m.runs[i].pre_build,
        find_cmd_spec(m.builds, m.current_build_target) is Some,
    ensures
        plan_run_spec(m, workspace) matches Ok(steps) && steps.len() == 2 && steps[0]
            == invocation_of_cmd(
            m.builds[find_cmd_spec(m.builds, m.current_build_target).unwrap()],
            workspace,
        ) && steps[1] == invocation_of_run(
            m.runs[find_run_spec(m.runs, m.current_build_target).unwrap()],
            workspace,
        ),
{
}

} // verus!
