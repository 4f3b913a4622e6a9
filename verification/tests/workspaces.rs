use lux_lib::add::{add, partition, Add, AddStep, PackageReqOrGitShorthand};
use lux_lib::build_workspace::{
    lock_project, prepare_dependencies, unique_specs, BuildWorkspace, BuildWorkspaceError,
    LockChange, MemberDependencies, PackageInstallSpec, RockMatch, WorkspaceStep,
};
use lux_lib::lua_dependency::{DependencyType, LuaDependencySpec, LuaDependencyType};
use lux_lib::package::{
    EntryType, OptState, PackageName, PackageReq, PackageVersionReq, PinnedState, RockSourceSpec,
};

fn req(name: &str) -> PackageReq {
    PackageReq {
        name: PackageName(name.into()),
        version_req: PackageVersionReq { text: ">=1".into(), any: false },
    }
}

fn dep(name: &str) -> LuaDependencySpec {
    LuaDependencySpec {
        package_req: req(name),
        pin: PinnedState::Pinned,
        opt: OptState::Optional,
        source: Some(RockSourceSpec(format!("git:{name}"))),
    }
}

fn member(deps: &[(&str, RockMatch)], build: &[(&str, RockMatch)]) -> MemberDependencies {
    let all = |list: &[(&str, RockMatch)]| list.iter().map(|(n, m)| (dep(n), *m)).collect();
    MemberDependencies { dependencies: all(deps), build_dependencies: all(build) }
}

fn names(specs: &[PackageInstallSpec]) -> Vec<&str> {
    specs.iter().map(|spec| spec.package.name.0.as_str()).collect()
}

fn workspace(no_lock: bool, only_deps: bool) -> BuildWorkspace {
    BuildWorkspace { package: None, no_lock, only_deps }
}

#[test]
fn missing_dependencies_are_installed() {
    let mut deps = Vec::new();
    let mut build = Vec::new();
    prepare_dependencies(
        member(
            &[("a", RockMatch::Missing), ("b", RockMatch::Found), ("c", RockMatch::Unknown)],
            &[("d", RockMatch::Missing)],
        ),
        &mut deps,
        &mut build,
    );
    assert_eq!(names(&deps), ["a"]);
    assert_eq!(names(&build), ["d"]);
    assert_eq!(deps[0].entry_type, EntryType::Entrypoint);
    assert_eq!(deps[0].pin, PinnedState::Pinned);
    assert_eq!(deps[0].opt, OptState::Optional);
    assert_eq!(deps[0].source, Some(RockSourceSpec("git:a".into())));
    assert_eq!(deps[0].package, req("a"));
}

#[test]
fn packages_are_installed_once() {
    let spec = |name: &str, pin: PinnedState| PackageInstallSpec {
        package: req(name),
        entry_type: EntryType::Entrypoint,
        pin,
        opt: OptState::Required,
        source: None,
    };
    let unique = unique_specs(vec![
        spec("a", PinnedState::Pinned),
        spec("b", PinnedState::Pinned),
        spec("a", PinnedState::Pinned),
        spec("a", PinnedState::Unpinned),
    ]);
    assert_eq!(names(&unique), ["a", "b", "a"]);
    assert!(unique[0].same_spec(&spec("a", PinnedState::Pinned)));
    assert!(!unique[0].same_spec(&unique[2]));
}

#[test]
fn locked_builds_sync() {
    let build = workspace(false, false);
    let step = build.start();
    assert!(matches!(step, WorkspaceStep::SyncDependencies));
    let step = build.after(step);
    assert!(matches!(step, WorkspaceStep::SyncBuildDependencies));
    let step = build.after(step);
    assert!(matches!(step, WorkspaceStep::BuildMembers));
    let step = build.after(step);
    assert!(matches!(step, WorkspaceStep::Finished));
    assert!(matches!(build.after(step), WorkspaceStep::Finished));
    let build = workspace(false, true);
    let step = build.after(build.after(build.start()));
    assert!(matches!(step, WorkspaceStep::Finished));
}

#[test]
fn unlocked_builds_install() {
    let build = workspace(true, false);
    let step = build.start();
    assert!(matches!(step, WorkspaceStep::OpenLuaRocks));
    assert!(matches!(step.failed("x".into()), BuildWorkspaceError::LuaRocks(text) if text == "x"));
    assert!(matches!(build.after(step), WorkspaceStep::ReadMembers));
    let step = build.after_reading(vec![
        member(&[("a", RockMatch::Missing)], &[("d", RockMatch::Missing)]),
        member(&[("a", RockMatch::Missing), ("b", RockMatch::Missing)], &[]),
    ]);
    let WorkspaceStep::EnsureLuaRocks(dev, deps) = &step else { panic!("{step:?}") };
    assert_eq!(names(dev), ["d"]);
    assert_eq!(names(deps), ["a", "b"]);
    let step = build.after(step);
    let WorkspaceStep::InstallBuildDependencies(dev, _) = &step else { panic!("{step:?}") };
    assert_eq!(names(dev), ["d"]);
    let step = build.after(step);
    let WorkspaceStep::InstallDependencies(deps) = &step else { panic!("{step:?}") };
    assert_eq!(names(deps), ["a", "b"]);
    assert!(matches!(build.after(step), WorkspaceStep::BuildMembers));
    let build = workspace(true, true);
    let step = build.after_reading(vec![member(&[], &[("d", RockMatch::Found)])]);
    let WorkspaceStep::InstallDependencies(deps) = &step else { panic!("{step:?}") };
    assert!(deps.is_empty());
    assert!(matches!(build.after(step), WorkspaceStep::Finished));
}

#[test]
fn failed_steps_say_so() {
    let message = |step: WorkspaceStep| step.failed("boom".into()).to_message();
    assert_eq!(
        message(WorkspaceStep::SyncDependencies),
        "syncing dependencies with the project lockfile failed.\nUse --no-lock to force a new build.\n\nboom"
    );
    assert_eq!(
        message(WorkspaceStep::SyncBuildDependencies),
        "syncing build dependencies with the project lockfile failed.\nUse --no-lock to force a new build.\n\nboom"
    );
    assert_eq!(
        message(WorkspaceStep::InstallDependencies(Vec::new())),
        "error installind dependencies:\nboom"
    );
    assert_eq!(
        message(WorkspaceStep::InstallBuildDependencies(Vec::new(), Vec::new())),
        "error installind build dependencies:\nboom"
    );
    assert_eq!(message(WorkspaceStep::BuildMembers), "error building project:\nboom");
    assert_eq!(message(WorkspaceStep::EnsureLuaRocks(Vec::new(), Vec::new())), "boom");
    for err in [
        BuildWorkspaceError::LocalProjectTomlValidation("x".into()),
        BuildWorkspaceError::Workspace("x".into()),
        BuildWorkspaceError::WorkspaceTree("x".into()),
        BuildWorkspaceError::LuaInstallation("x".into()),
        BuildWorkspaceError::Tree("x".into()),
        BuildWorkspaceError::LuaRocks("x".into()),
    ] {
        assert_eq!(err.to_message(), "x");
    }
}

#[test]
fn entry_points_become_dependencies() {
    let changes = lock_project(
        "p",
        vec![("a".into(), true), ("b".into(), false), ("c".into(), true)],
    );
    let shown: Vec<String> = changes
        .iter()
        .map(|change| match change {
            LockChange::AddEntrypoint(id) => format!("+{id}"),
            LockChange::AddDependency(from, to) => format!("{from}->{to}"),
            LockChange::RemoveEntrypoint(id) => format!("-{id}"),
        })
        .collect();
    assert_eq!(shown, ["+p", "p->a", "-a", "p->c", "-c"]);
}

fn package(name: &str) -> PackageReqOrGitShorthand {
    PackageReqOrGitShorthand::PackageReq(req(name))
}

fn git(url: &str) -> PackageReqOrGitShorthand {
    PackageReqOrGitShorthand::GitShorthand(url.into())
}

fn req_names(reqs: &[PackageReq]) -> Vec<&str> {
    reqs.iter().map(|req| req.name.0.as_str()).collect()
}

#[test]
fn packages_and_repositories_are_told_apart() {
    let (reqs, urls) = partition(&vec![package("a"), git("github:x/y"), package("b")]);
    assert_eq!(req_names(&reqs), ["a", "b"]);
    assert_eq!(urls, ["github:x/y"]);
}

#[test]
fn packages_are_added_and_synced() {
    let steps = add(Add {
        package_req: vec![package("penlight"), git("github:x/y")],
        force: false,
        build: Some(Vec::new()),
        test: Some(vec![package("busted")]),
        package: None,
    });
    assert_eq!(steps.len(), 7);
    assert!(matches!(steps[0], AddStep::Select(None)));
    let steps = &steps[1..];
    let AddStep::Add(DependencyType::Regular(reqs)) = &steps[0] else { panic!() };
    assert_eq!(req_names(reqs), ["penlight"]);
    let AddStep::AddGit(LuaDependencyType::Regular(urls)) = &steps[1] else { panic!() };
    assert_eq!(*urls, ["github:x/y"]);
    let AddStep::Add(DependencyType::Test(reqs)) = &steps[2] else { panic!() };
    assert_eq!(req_names(reqs), ["busted"]);
    let AddStep::AddGit(LuaDependencyType::Test(urls)) = &steps[3] else { panic!() };
    assert!(urls.is_empty());
    assert!(matches!(steps[4], AddStep::SyncDependencies));
    assert!(matches!(steps[5], AddStep::SyncTestDependencies));
}

#[test]
fn build_dependencies_are_added_and_synced() {
    let steps = add(Add {
        package_req: Vec::new(),
        force: false,
        build: Some(vec![git("gitlab:x/y")]),
        test: None,
        package: None,
    });
    assert_eq!(steps.len(), 4);
    let steps = &steps[1..];
    let AddStep::Add(DependencyType::Build(reqs)) = &steps[0] else { panic!() };
    assert!(reqs.is_empty());
    let AddStep::AddGit(LuaDependencyType::Build(urls)) = &steps[1] else { panic!() };
    assert_eq!(*urls, ["gitlab:x/y"]);
    assert!(matches!(steps[2], AddStep::SyncBuildDependencies));
    let nothing = Add {
        package_req: Vec::new(),
        force: true,
        build: None,
        test: None,
        package: Some(PackageName("x".into())),
    };
    let steps = add(nothing);
    assert_eq!(steps.len(), 1);
    assert!(matches!(&steps[0], AddStep::Select(Some(name)) if name.0 == "x"));
}

#[test]
fn one_member_or_all_members_are_selected() {
    let names = vec![
        PackageName("a".into()),
        PackageName("b".into()),
        PackageName("b".into()),
    ];
    let build = |package: Option<&str>| BuildWorkspace {
        package: package.map(|name| PackageName(name.into())),
        no_lock: true,
        only_deps: false,
    };
    assert_eq!(build(None).selected(&names), Some(vec![0, 1, 2]));
    assert_eq!(build(Some("b")).selected(&names), Some(vec![1]));
    assert_eq!(build(Some("c")).selected(&names), None);
    assert_eq!(build(None).selected(&Vec::new()), Some(Vec::new()));
}
