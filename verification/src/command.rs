//! What a task needs before it can run, and the command that runs it.
use vstd::prelude::*;

use crate::config::{CliRequirement, CliRequirementModel, ContainerMode, RepoConfig};
use crate::deep::{deep, filter_map, flat_map, lemma_filter_map_next, lemma_flat_map_next};
use crate::path::{join_path, path_joined};
use crate::strmap::StrMap;
use crate::tasks::{ResolvedTask, ResolvedTaskModel};
use crate::text::{cat, cat4, contains, copy, copy_all, has_char, join, joined, law_split_and_join, lemma_joined_parts, same, split, split_on};

verus! {

broadcast use {crate::deep::group_deep, crate::deep::lemma_take_next, crate::deep::lemma_take_all};

/// The variable that a declared variable is read from: the one that an alias names, or itself.
pub open spec fn source_of(aliases: Map<Seq<char>, Seq<char>>, declared: Seq<char>) -> Seq<char> {
    if aliases.contains_key(declared) {
        aliases[declared]
    } else {
        declared
    }
}

/// The variable that a declared variable is read from.
pub fn source_name<'a>(aliases: &'a StrMap<String>, declared: &'a str) -> (r: &'a str)
    ensures
        r@ == source_of(aliases@, declared@),
{
    match aliases.get(declared) {
        Some(s) => s.as_str(),
        None => declared,
    }
}

/// What is reported of a declared variable whose source has no value, or an empty one.
pub open spec fn missing_name(
    aliases: Map<Seq<char>, Seq<char>>,
    env: Map<Seq<char>, Seq<char>>,
    declared: Seq<char>,
) -> Option<Seq<char>> {
    let source = source_of(aliases, declared);
    if env.contains_key(source) && env[source].len() > 0 {
        None
    } else if source == declared {
        Some(declared)
    } else {
        Some(declared + " (via $"@ + source + ")"@)
    }
}

/// What is reported of a declared variable, as a function of the variable.
pub open spec fn of_declared(aliases: Map<Seq<char>, Seq<char>>, env: Map<Seq<char>, Seq<char>>) -> spec_fn(
    Seq<char>,
) -> Option<Seq<char>> {
    |declared: Seq<char>| missing_name(aliases, env, declared)
}

/// What is reported of the required variables that have no value.
pub open spec fn missing_env(
    required: Seq<Seq<char>>,
    aliases: Map<Seq<char>, Seq<char>>,
    env: Map<Seq<char>, Seq<char>>,
) -> Seq<Seq<char>> {
    filter_map(required, of_declared(aliases, env))
}

/// The required variables that have no value; `None` where all have one. `env` holds the variables
/// of the process.
pub fn missing_required_env(required: &Vec<String>, aliases: &StrMap<String>, env: &StrMap<String>) -> (r: Option<
    Vec<String>,
>)
    ensures
        ({
            let missing = missing_env(required.deep_view(), aliases@, env@);
            r.deep_view() == (if missing.len() == 0 {
                None
            } else {
                Some(missing)
            })
        }),
{
    let ghost all = deep(required@);
    let ghost f = of_declared(aliases@, env@);
    let mut missing: Vec<String> = Vec::new();
    let mut i: usize = 0;
    while i < required.len()
        invariant
            i <= required@.len(),
            all == deep(required@),
            f == of_declared(aliases@, env@),
            deep(missing@) == filter_map(all.take(i as int), f),
        decreases required.len() - i,
    {
        let declared = required[i].as_str();
        proof {
            lemma_filter_map_next(all, f, i as int);
        }
        let source = source_name(aliases, declared);
        let ok = match env.get(source) {
            Some(v) => !v.as_str().is_empty(),
            None => false,
        };
        if !ok {
            if same(source, declared) {
                missing.push(copy(declared));
            } else {
                missing.push(cat4(declared, " (via $", source, ")"));
            }
        }
        i += 1;
    }
    if missing.len() == 0 {
        None
    } else {
        Some(missing)
    }
}

/// The requirements whose program is not among those on `PATH`.
pub open spec fn absent(required: Seq<CliRequirementModel>, on_path: Seq<Seq<char>>) -> Seq<CliRequirementModel>
    decreases required.len(),
{
    if required.len() == 0 {
        Seq::empty()
    } else if on_path.contains(required.last().binary) {
        absent(required.drop_last(), on_path)
    } else {
        absent(required.drop_last(), on_path).push(required.last())
    }
}

/// The requirements whose program is not among those on `PATH`; `None` where all are.
pub fn missing_required_cli(required: &Vec<CliRequirement>, on_path: &Vec<String>) -> (r: Option<
    Vec<CliRequirement>,
>)
    ensures
        ({
            let missing = absent(required.deep_view(), on_path.deep_view());
            r.deep_view() == (if missing.len() == 0 {
                None
            } else {
                Some(missing)
            })
        }),
{
    let ghost all = deep(required@);
    let mut missing: Vec<CliRequirement> = Vec::new();
    let mut i: usize = 0;
    while i < required.len()
        invariant
            i <= required@.len(),
            all == deep(required@),
            deep(missing@) == absent(all.take(i as int), deep(on_path@)),
        decreases required.len() - i,
    {
        let req = &required[i];
        proof {
            assert(all.take(i + 1).drop_last() =~= all.take(i as int));
        }
        if !contains(on_path, req.binary.as_str()) {
            let c = CliRequirement {
                binary: copy(req.binary.as_str()),
                install_hint: copy(req.install_hint.as_str()),
            };
            assert(c.deep_view() == all[i as int]);
            missing.push(c);
        }
        i += 1;
    }
    if missing.len() == 0 {
        None
    } else {
        Some(missing)
    }
}

/// The line about a program that is not there.
pub open spec fn cli_line(c: CliRequirementModel) -> Seq<char> {
    "\n  "@ + c.binary + " — install: "@ + c.install_hint
}

/// The line about a program, as a function of the requirement.
pub open spec fn of_requirement() -> spec_fn(CliRequirementModel) -> Seq<char> {
    |c: CliRequirementModel| cli_line(c)
}

/// What is said of the programs that are not there.
pub fn format_missing_cli(missing: &Vec<CliRequirement>) -> (r: String)
    ensures
        r@ == "CLI binary not found on PATH:"@ + flat_map(missing.deep_view(), of_requirement()),
{
    let ghost all = deep(missing@);
    let ghost f = of_requirement();
    let mut out = copy("CLI binary not found on PATH:");
    let ghost head = out@;
    assert(head + Seq::<char>::empty() =~= head);
    let mut i: usize = 0;
    while i < missing.len()
        invariant
            i <= missing@.len(),
            all == deep(missing@),
            f == of_requirement(),
            out@ == head + flat_map(all.take(i as int), f),
        decreases missing.len() - i,
    {
        let line = cat4(
            "\n  ",
            missing[i].binary.as_str(),
            " — install: ",
            missing[i].install_hint.as_str(),
        );
        proof {
            lemma_flat_map_next(all, f, i as int);
            assert(f(all[i as int]) == line@);
            assert(head + (flat_map(all.take(i as int), f) + line@) =~= head + flat_map(all.take(i as int), f)
                + line@);
        }
        out.append(line.as_str());
        i += 1;
    }
    out
}

/// Why a task cannot run: variables without a value, or else programs that are not there.
pub open spec fn preflight(
    t: ResolvedTaskModel,
    aliases: Map<Seq<char>, Seq<char>>,
    env: Map<Seq<char>, Seq<char>>,
    on_path: Seq<Seq<char>>,
) -> Option<Seq<char>> {
    let vars = missing_env(t.required_env, aliases, env);
    let programs = absent(t.required_cli, on_path);
    if vars.len() > 0 {
        Some("missing required env var(s): "@ + joined(vars, ", "@))
    } else if programs.len() > 0 {
        Some("CLI binary not found on PATH:"@ + flat_map(programs, of_requirement()))
    } else {
        None
    }
}

/// Why a task cannot run; `None` where it can. `on_path` names the required programs that are there.
pub fn preflight_error(
    task: &ResolvedTask,
    aliases: &StrMap<String>,
    env: &StrMap<String>,
    on_path: &Vec<String>,
) -> (r: Option<String>)
    ensures
        r.deep_view() == preflight(task.deep_view(), aliases@, env@, on_path.deep_view()),
{
    match missing_required_env(&task.required_env, aliases, env) {
        Some(missing) => {
            let list = join(&missing, ", ");
            Some(cat("missing required env var(s): ", list.as_str()))
        },
        None => match missing_required_cli(&task.required_cli, on_path) {
            Some(missing) => Some(format_missing_cli(&missing)),
            None => None,
        },
    }
}

/// Where a program may lie: in each directory of a `PATH`.
pub fn path_candidates(path: &str, name: &str) -> (r: Vec<String>)
    ensures
        r.deep_view() == split_on(path@, ':').map_values(|d: Seq<char>| path_joined(d, name@)),
{
    let dirs = split(path, ':');
    let ghost want = deep(dirs@).map_values(|d: Seq<char>| path_joined(d, name@));
    let mut r: Vec<String> = Vec::new();
    let mut i: usize = 0;
    while i < dirs.len()
        invariant
            i <= dirs@.len(),
            want == deep(dirs@).map_values(|d: Seq<char>| path_joined(d, name@)),
            deep(r@) == want.take(i as int),
        decreases dirs.len() - i,
    {
        let c = join_path(dirs[i].as_str(), name);
        assert(want[i as int] == c@);
        r.push(c);
        i += 1;
    }
    r
}

/// The directories of a `PATH` with others before them.
pub open spec fn path_entries(prepend: Seq<Seq<char>>, path: Option<Seq<char>>) -> Seq<Seq<char>> {
    match path {
        Some(p) => prepend + split_on(p, ':'),
        None => prepend,
    }
}

/// Whether some text holds a colon.
pub open spec fn some_colon(entries: Seq<Seq<char>>) -> bool {
    exists|i: int| 0 <= i < entries.len() && (#[trigger] entries[i]).contains(':')
}

/// The `PATH` of some directories; empty where a directory cannot stand in a `PATH`.
pub open spec fn path_text(entries: Seq<Seq<char>>) -> Seq<char> {
    if some_colon(entries) {
        Seq::empty()
    } else {
        joined(entries, ":"@)
    }
}

/// A `PATH` with directories before those of the present one; empty where a directory cannot stand
/// in a `PATH`.
pub fn build_path(prepend: &Vec<String>, path: Option<&str>) -> (r: String)
    ensures
        r@ == path_text(path_entries(prepend.deep_view(), path.deep_view())),
{
    let mut entries = copy_all(prepend);
    if let Some(p) = path {
        let mut more = split(p, ':');
        let ghost added = more@;
        entries.append(&mut more);
        assert(deep(entries@) == deep(prepend@) + deep(added));
    }
    let ghost all = path_entries(prepend.deep_view(), path.deep_view());
    assert(deep(entries@) == all);
    let mut i: usize = 0;
    while i < entries.len()
        invariant
            i <= entries@.len(),
            all == deep(entries@),
            all == path_entries(prepend.deep_view(), path.deep_view()),
            forall|j: int| 0 <= j < i ==> !(#[trigger] all[j]).contains(':'),
        decreases entries.len() - i,
    {
        if has_char(entries[i].as_str(), ':') {
            assert(all[i as int].contains(':'));
            let r = String::new();
            assert(r@ =~= Seq::<char>::empty());
            return r;
        }
        i += 1;
    }
    join(&entries, ":")
}

/// The variables that a task is given: each declared one whose source has a value, under its declared
/// name.
pub open spec fn child_env(
    declared: Seq<Seq<char>>,
    aliases: Map<Seq<char>, Seq<char>>,
    env: Map<Seq<char>, Seq<char>>,
) -> Seq<(Seq<char>, Seq<char>)>
    decreases declared.len(),
{
    if declared.len() == 0 {
        Seq::empty()
    } else {
        let before = child_env(declared.drop_last(), aliases, env);
        let source = source_of(aliases, declared.last());
        if env.contains_key(source) {
            before.push((declared.last(), env[source]))
        } else {
            before
        }
    }
}

/// The variables that a task is given.
pub fn forwarded_env(declared: &Vec<String>, aliases: &StrMap<String>, env: &StrMap<String>) -> (r: Vec<
    (String, String),
>)
    ensures
        r.deep_view() == child_env(declared.deep_view(), aliases@, env@),
{
    let ghost all = deep(declared@);
    let mut r: Vec<(String, String)> = Vec::new();
    let mut i: usize = 0;
    while i < declared.len()
        invariant
            i <= declared@.len(),
            all == deep(declared@),
            deep(r@) == child_env(all.take(i as int), aliases@, env@),
        decreases declared.len() - i,
    {
        let name = declared[i].as_str();
        proof {
            assert(all.take(i + 1).drop_last() =~= all.take(i as int));
        }
        if let Some(v) = env.get(source_name(aliases, name)) {
            let pair: (String, String) = (copy(name), copy(v.as_str()));
            assert(pair.deep_view() == (name@, v@));
            r.push(pair);
        }
        i += 1;
    }
    r
}

/// A container runtime and the image to run in it.
#[derive(Debug)]
pub struct ContainerPlan {
    pub runtime: String,
    pub image: String,
}

#[verifier::ext_equal]
pub struct ContainerPlanModel {
    pub runtime: Seq<char>,
    pub image: Seq<char>,
}

impl DeepView for ContainerPlan {
    type V = ContainerPlanModel;

    open spec fn deep_view(&self) -> ContainerPlanModel {
        ContainerPlanModel { runtime: self.runtime@, image: self.image@ }
    }
}

/// The container runtime to use: the first of docker, podman and nerdctl that can be reached.
pub fn detect_runtime(docker: bool, podman: bool, nerdctl: bool) -> (r: Option<&'static str>)
    ensures
        r.deep_view() == runtime_among(docker, podman, nerdctl),
{
    if docker {
        Some("docker")
    } else if podman {
        Some("podman")
    } else if nerdctl {
        Some("nerdctl")
    } else {
        None
    }
}

/// How tasks run: in a container where one is wanted and both a runtime and an image are there,
/// natively otherwise.
pub open spec fn planned_container(
    mode: ContainerMode,
    image: Option<Seq<char>>,
    runtime: Option<Seq<char>>,
) -> Option<ContainerPlanModel> {
    match (runtime, image) {
        (Some(runtime), Some(image)) if mode != ContainerMode::Never => Some(
            ContainerPlanModel { runtime, image },
        ),
        _ => None,
    }
}

/// How tasks run; `None` where they run natively. `runtime` is the container runtime that can be
/// reached.
pub fn container_plan(repo: &RepoConfig, runtime: Option<&str>) -> (r: Option<ContainerPlan>)
    ensures
        r.deep_view() == planned_container(repo.container, repo.image.deep_view(), runtime.deep_view()),
{
    let want = match repo.container {
        ContainerMode::Never => false,
        ContainerMode::Always => true,
        ContainerMode::Auto => repo.image.is_some() && runtime.is_some(),
    };
    if !want {
        return None;
    }
    match (runtime, &repo.image) {
        (Some(r), Some(i)) => Some(ContainerPlan { runtime: copy(r), image: copy(i.as_str()) }),
        _ => None,
    }
}

/// A command.
#[derive(Debug)]
pub struct CommandLine {
    pub program: String,
    pub args: Vec<String>,
    /// The directory it runs in; the present one where there is none.
    pub dir: Option<String>,
    /// Its `PATH`; the present one where there is none.
    pub path: Option<String>,
    /// Variables set for it, in order.
    pub env: Vec<(String, String)>,
}

#[verifier::ext_equal]
pub struct CommandLineModel {
    pub program: Seq<char>,
    pub args: Seq<Seq<char>>,
    pub dir: Option<Seq<char>>,
    pub path: Option<Seq<char>>,
    pub env: Seq<(Seq<char>, Seq<char>)>,
}

impl DeepView for CommandLine {
    type V = CommandLineModel;

    open spec fn deep_view(&self) -> CommandLineModel {
        CommandLineModel {
            program: self.program@,
            args: self.args.deep_view(),
            dir: self.dir.deep_view(),
            path: self.path.deep_view(),
            env: self.env.deep_view(),
        }
    }
}

/// The arguments that hand variables on to a container.
pub open spec fn env_flags(env: Seq<(Seq<char>, Seq<char>)>) -> Seq<Seq<char>>
    decreases env.len(),
{
    if env.len() == 0 {
        Seq::empty()
    } else {
        env_flags(env.drop_last()).push("--env"@).push(env.last().0)
    }
}

/// The command that runs a task in a container: the unit's directory is the container's `/work`, and
/// the variables reach it by name.
pub open spec fn container_command(
    plan: ContainerPlanModel,
    run: Seq<char>,
    unit_dir: Seq<char>,
    user: Seq<char>,
    env: Seq<(Seq<char>, Seq<char>)>,
) -> CommandLineModel {
    CommandLineModel {
        program: plan.runtime,
        args: seq![
            "run"@,
            "--rm"@,
            "-i"@,
            "--user"@,
            user,
            "--volume"@,
            unit_dir + ":/work"@,
            "--workdir"@,
            "/work"@,
            "--env"@,
            "HOME=/work"@,
        ] + env_flags(env) + seq![plan.image, "sh"@, "-c"@, run],
        dir: None,
        path: None,
        env,
    }
}

/// The command that runs a task in a container.
pub fn build_container_command(
    plan: &ContainerPlan,
    task: &ResolvedTask,
    unit_dir: &str,
    aliases: &StrMap<String>,
    env: &StrMap<String>,
    user: &str,
) -> (r: CommandLine)
    ensures
        r.deep_view() == container_command(
            plan.deep_view(),
            task.run@,
            unit_dir@,
            user@,
            child_env(task.deep_view().env, aliases@, env@),
        ),
{
    let mut args: Vec<String> = Vec::new();
    args.push(copy("run"));
    args.push(copy("--rm"));
    args.push(copy("-i"));
    args.push(copy("--user"));
    args.push(copy(user));
    args.push(copy("--volume"));
    args.push(cat(unit_dir, ":/work"));
    args.push(copy("--workdir"));
    args.push(copy("/work"));
    args.push(copy("--env"));
    args.push(copy("HOME=/work"));
    let ghost head = deep(args@);
    proof {
        assert(head =~= seq![
            "run"@,
            "--rm"@,
            "-i"@,
            "--user"@,
            user@,
            "--volume"@,
            unit_dir@ + ":/work"@,
            "--workdir"@,
            "/work"@,
            "--env"@,
            "HOME=/work"@,
        ]);
        assert(head + Seq::<Seq<char>>::empty() =~= head);
    }
    let given = forwarded_env(&task.env, aliases, env);
    let ghost all = deep(given@);
    let mut i: usize = 0;
    while i < given.len()
        invariant
            i <= given@.len(),
            all == deep(given@),
            deep(args@) == head + env_flags(all.take(i as int)),
        decreases given.len() - i,
    {
        proof {
            assert(all.take(i + 1).drop_last() =~= all.take(i as int));
            assert(all.take(i + 1).last() == (given@[i as int].0@, given@[i as int].1@));
            assert((head + env_flags(all.take(i as int))).push("--env"@).push(given@[i as int].0@) =~= head
                + env_flags(all.take(i as int)).push("--env"@).push(given@[i as int].0@));
        }
        args.push(copy("--env"));
        args.push(copy(given[i].0.as_str()));
        i += 1;
    }
    let ghost before = deep(args@);
    args.push(copy(plan.image.as_str()));
    args.push(copy("sh"));
    args.push(copy("-c"));
    args.push(copy(task.run.as_str()));
    proof {
        assert(deep(args@) =~= before + seq![plan.image@, "sh"@, "-c"@, task.run@]);
    }
    CommandLine { program: copy(plan.runtime.as_str()), args, dir: None, path: None, env: given }
}

/// The command that runs a task: in a container where one is planned, in a shell in the unit's
/// directory otherwise, with the toolchains' directories first on its `PATH`.
pub open spec fn command_of(
    container: Option<ContainerPlanModel>,
    t: ResolvedTaskModel,
    unit_dir: Seq<char>,
    toolchain_paths: Seq<Seq<char>>,
    aliases: Map<Seq<char>, Seq<char>>,
    env: Map<Seq<char>, Seq<char>>,
    user: Seq<char>,
    c: CommandLineModel,
) -> bool {
    let given = child_env(t.env, aliases, env);
    match container {
        Some(plan) => c == container_command(plan, t.run, unit_dir, user, given),
        None => {
            let path = if env.contains_key("PATH"@) {
                Some(env["PATH"@])
            } else {
                None
            };
            c == (CommandLineModel {
                program: "sh"@,
                args: seq!["-c"@, t.run],
                dir: Some(unit_dir),
                path: if toolchain_paths.len() == 0 {
                    None
                } else {
                    Some(path_text(path_entries(toolchain_paths, path)))
                },
                env: given,
            })
        },
    }
}

/// The command that runs a task.
pub fn task_command(
    container: Option<&ContainerPlan>,
    task: &ResolvedTask,
    unit_dir: &str,
    toolchain_paths: &Vec<String>,
    aliases: &StrMap<String>,
    env: &StrMap<String>,
    user: &str,
) -> (r: CommandLine)
    ensures
        command_of(
            container.deep_view(),
            task.deep_view(),
            unit_dir@,
            toolchain_paths.deep_view(),
            aliases@,
            env@,
            user@,
            r.deep_view(),
        ),
{
    match container {
        Some(plan) => build_container_command(plan, task, unit_dir, aliases, env, user),
        None => {
            let path = if toolchain_paths.len() == 0 {
                None
            } else {
                let present = match env.get("PATH") {
                    Some(p) => Some(p.as_str()),
                    None => None,
                };
                Some(build_path(toolchain_paths, present))
            };
            let mut args: Vec<String> = Vec::new();
            args.push(copy("-c"));
            args.push(copy(task.run.as_str()));
            assert(deep(args@) =~= seq!["-c"@, task.run@]);
            CommandLine {
                program: copy("sh"),
                args,
                dir: Some(copy(unit_dir)),
                path,
                env: forwarded_env(&task.env, aliases, env),
            }
        },
    }
}

/// A variable with an alias is read from the alias's source, whatever the variable itself holds; one
/// without an alias is read directly.
pub proof fn law_aliases_redirect(
    declared: Seq<char>,
    aliases: Map<Seq<char>, Seq<char>>,
    env: Map<Seq<char>, Seq<char>>,
    other: Map<Seq<char>, Seq<char>>,
)
    requires
        env.contains_key(source_of(aliases, declared)) == other.contains_key(source_of(aliases, declared)),
        env[source_of(aliases, declared)] == other[source_of(aliases, declared)],
    ensures
        missing_name(aliases, env, declared) == missing_name(aliases, other, declared),
        child_env(seq![declared], aliases, env) == child_env(seq![declared], aliases, other),
{
    assert(seq![declared].drop_last() =~= Seq::<Seq<char>>::empty());
    assert(child_env(Seq::empty(), aliases, env) == child_env(Seq::empty(), aliases, other));
}

/// A required variable is missing if and only if the variable that it is read from has no value or an
/// empty one; a task passes only where none is missing.
pub proof fn law_missing_variables(
    required: Seq<Seq<char>>,
    aliases: Map<Seq<char>, Seq<char>>,
    env: Map<Seq<char>, Seq<char>>,
)
    ensures
        missing_env(required, aliases, env).len() == 0 <==> forall|i: int|
            0 <= i < required.len() ==> env.contains_key(source_of(aliases, #[trigger] required[i])) && env[source_of(
                aliases,
                required[i],
            )].len() > 0,
        forall|i: int|
            0 <= i < required.len() && !aliases.contains_key(#[trigger] required[i]) && !(env.contains_key(required[i])
                && env[required[i]].len() > 0) ==> missing_env(required, aliases, env).contains(required[i]),
{
    let f = of_declared(aliases, env);
    let missing = missing_env(required, aliases, env);
    if missing.len() > 0 {
        crate::deep::lemma_filter_map_contains(required, f, missing[0]);
        assert(missing.contains(missing[0]));
    }
    assert forall|i: int| 0 <= i < required.len() && missing.len() == 0 implies env.contains_key(
        source_of(aliases, #[trigger] required[i]),
    ) && env[source_of(aliases, required[i])].len() > 0 by {
        if f(required[i]) is Some {
            crate::deep::lemma_filter_map_contains(required, f, f(required[i])->0);
            assert(missing.contains(f(required[i])->0));
        }
    }
    assert forall|i: int|
        0 <= i < required.len() && !aliases.contains_key(#[trigger] required[i]) && !(env.contains_key(required[i])
            && env[required[i]].len() > 0) implies missing.contains(required[i]) by {
        assert(f(required[i]) == Some(required[i]));
        crate::deep::lemma_filter_map_contains(required, f, required[i]);
    }
}

/// A requirement is not met if and only if it is one of the task's and its program is not on `PATH`.
pub proof fn law_missing_programs(required: Seq<CliRequirementModel>, on_path: Seq<Seq<char>>, c: CliRequirementModel)
    ensures
        absent(required, on_path).contains(c) <==> required.contains(c) && !on_path.contains(c.binary),
        absent(required, on_path).len() <= required.len(),
    decreases required.len(),
{
    if required.len() > 0 {
        let rest = required.drop_last();
        law_missing_programs(rest, on_path, c);
        crate::deep::lemma_last_contains(required, c);
        crate::deep::lemma_push_contains(absent(rest, on_path), required.last(), c);
    }
}

/// A task is let through if and only if each variable that it requires has a value and each program
/// that it requires is on `PATH`.
pub proof fn law_preflight(
    t: ResolvedTaskModel,
    aliases: Map<Seq<char>, Seq<char>>,
    env: Map<Seq<char>, Seq<char>>,
    on_path: Seq<Seq<char>>,
)
    ensures
        preflight(t, aliases, env, on_path) is None <==> {
            &&& forall|i: int|
                0 <= i < t.required_env.len() ==> env.contains_key(source_of(aliases, #[trigger] t.required_env[i]))
                    && env[source_of(aliases, t.required_env[i])].len() > 0
            &&& forall|i: int|
                0 <= i < t.required_cli.len() ==> on_path.contains((#[trigger] t.required_cli[i]).binary)
        },
{
    law_missing_variables(t.required_env, aliases, env);
    let programs = absent(t.required_cli, on_path);
    if programs.len() > 0 {
        law_missing_programs(t.required_cli, on_path, programs[0]);
        assert(programs.contains(programs[0]));
        let i = choose|i: int| 0 <= i < t.required_cli.len() && t.required_cli[i] == programs[0];
        assert(!on_path.contains(t.required_cli[i].binary));
    }
    assert forall|i: int| 0 <= i < t.required_cli.len() && programs.len() == 0 implies on_path.contains(
        (#[trigger] t.required_cli[i]).binary,
    ) by {
        law_missing_programs(t.required_cli, on_path, t.required_cli[i]);
        assert(t.required_cli.contains(t.required_cli[i]));
        if !on_path.contains(t.required_cli[i].binary) {
            assert(programs.contains(t.required_cli[i]));
        }
    }
}

/// A task is given each variable that it declares and whose source has a value, under the declared name
/// and with the value of the source; and no other.
pub proof fn law_given_variables(
    declared: Seq<Seq<char>>,
    aliases: Map<Seq<char>, Seq<char>>,
    env: Map<Seq<char>, Seq<char>>,
    n: Seq<char>,
    v: Seq<char>,
)
    ensures
        child_env(declared, aliases, env).contains((n, v)) <==> declared.contains(n) && env.contains_key(
            source_of(aliases, n),
        ) && env[source_of(aliases, n)] == v,
    decreases declared.len(),
{
    if declared.len() > 0 {
        let rest = declared.drop_last();
        law_given_variables(rest, aliases, env, n, v);
        crate::deep::lemma_last_contains(declared, n);
        crate::deep::lemma_push_contains(
            child_env(rest, aliases, env),
            (declared.last(), env[source_of(aliases, declared.last())]),
            (n, v),
        );
    }
}

/// An alias decides where a declared variable is read from; without one, it is read from itself.
pub proof fn law_sources(aliases: Map<Seq<char>, Seq<char>>, n: Seq<char>)
    ensures
        aliases.contains_key(n) ==> source_of(aliases, n) == aliases[n],
        !aliases.contains_key(n) ==> source_of(aliases, n) == n,
{
}

/// Tasks run in a container if and only if there is both a runtime and an image and containers are not
/// ruled out; then in that image, by that runtime.
pub proof fn law_when_containers_run(mode: ContainerMode, image: Option<Seq<char>>, runtime: Option<Seq<char>>)
    ensures
        planned_container(mode, image, runtime) is Some <==> mode != ContainerMode::Never && image is Some && runtime
            is Some,
        planned_container(mode, image, runtime) matches Some(p) ==> image == Some(p.image) && runtime == Some(
            p.runtime,
        ),
{
}

/// The arguments hand each variable on by its name, one behind the other.
pub proof fn law_variables_reach_the_container(env: Seq<(Seq<char>, Seq<char>)>, i: int)
    requires
        0 <= i < env.len(),
    ensures
        env_flags(env).len() == 2 * env.len(),
        env_flags(env)[2 * i] == "--env"@,
        env_flags(env)[2 * i + 1] == env[i].0,
    decreases env.len(),
{
    let rest = env.drop_last();
    if rest.len() > 0 {
        law_variables_reach_the_container(rest, if i < rest.len() { i } else { 0 });
    }
    assert(env_flags(env) == env_flags(rest).push("--env"@).push(env.last().0));
    if i < rest.len() {
        assert(rest[i] == env[i]);
    }
}

/// A task runs its own command in a shell: natively in the unit's directory, or in the container's image
/// with that directory mounted; either way with the variables that it is given. The toolchains come
/// first on its `PATH`.
pub proof fn law_commands_run_the_task(
    container: Option<ContainerPlanModel>,
    t: ResolvedTaskModel,
    unit_dir: Seq<char>,
    toolchain_paths: Seq<Seq<char>>,
    aliases: Map<Seq<char>, Seq<char>>,
    env: Map<Seq<char>, Seq<char>>,
    user: Seq<char>,
    c: CommandLineModel,
)
    requires
        command_of(container, t, unit_dir, toolchain_paths, aliases, env, user, c),
    ensures
        c.env == child_env(t.env, aliases, env),
        c.args.len() >= 2,
        c.args.last() == t.run,
        c.args[c.args.len() - 2] == "-c"@,
        container is None ==> c.program == "sh"@ && c.dir == Some(unit_dir) && c.args.len() == 2 && (c.path is Some
            <==> toolchain_paths.len() > 0),
        container matches Some(plan) ==> {
            &&& c.program == plan.runtime
            &&& c.args[c.args.len() - 3] == "sh"@
            &&& c.args[c.args.len() - 4] == plan.image
            &&& c.args[0] == "run"@
            &&& c.args[3] == "--user"@ && c.args[4] == user
            &&& c.args[5] == "--volume"@ && c.args[6] == unit_dir + ":/work"@
            &&& c.args[7] == "--workdir"@ && c.args[8] == "/work"@
        },
{
}

/// A `PATH` with directories in front of the present one is just that: the directories, then the present
/// one as it was. Where one of the directories holds a colon, there is none.
pub proof fn law_toolchains_come_first(prepend: Seq<Seq<char>>, path: Seq<char>)
    requires
        prepend.len() > 0,
    ensures
        some_colon(prepend) ==> path_text(path_entries(prepend, Some(path))).len() == 0,
        !some_colon(prepend) ==> path_text(path_entries(prepend, Some(path))) == joined(prepend, ":"@) + ":"@ + path,
        !some_colon(prepend) ==> path_text(path_entries(prepend, None)) == joined(prepend, ":"@),
{
    reveal_strlit(":");
    assert(":"@ =~= seq![':']);
    let more = split_on(path, ':');
    let all = prepend + more;
    law_split_and_join(path, ':');
    if some_colon(prepend) {
        let i = choose|i: int| 0 <= i < prepend.len() && (#[trigger] prepend[i]).contains(':');
        assert(all[i].contains(':'));
    } else {
        if some_colon(all) {
            let i = choose|i: int| 0 <= i < all.len() && (#[trigger] all[i]).contains(':');
            if i < prepend.len() {
                assert(prepend[i].contains(':'));
            } else {
                assert(all[i] == more[i - prepend.len()]);
            }
        }
        lemma_joined_parts(prepend, more, ":"@);
    }
}

/// The first of docker, podman and nerdctl that can be reached.
pub open spec fn runtime_among(docker: bool, podman: bool, nerdctl: bool) -> Option<Seq<char>> {
    if docker {
        Some("docker"@)
    } else if podman {
        Some("podman"@)
    } else if nerdctl {
        Some("nerdctl"@)
    } else {
        None
    }
}

/// A runtime is found if and only if one can be reached; docker is preferred to podman, and podman to
/// nerdctl.
pub proof fn law_which_runtime(docker: bool, podman: bool, nerdctl: bool)
    ensures
        runtime_among(docker, podman, nerdctl) is Some <==> docker || podman || nerdctl,
        docker ==> runtime_among(docker, podman, nerdctl) == Some("docker"@),
        !docker && podman ==> runtime_among(docker, podman, nerdctl) == Some("podman"@),
        !docker && !podman && nerdctl ==> runtime_among(docker, podman, nerdctl) == Some("nerdctl"@),
{
}

} // verus!
