//! Building the projects of a workspace: which steps are taken, in which order.

use crate::lua_dependency::LuaDependencySpec;
use crate::package::{EntryType, OptState, PackageName, PackageReq, PinnedState, RockSourceSpec};
use crate::table::Key;
use crate::text::{concat, copy, same_text};
use vstd::prelude::*;

verus! {

/// Why the projects of a workspace could not be built, each with what the failed step said.
#[derive(Debug)]
pub enum BuildWorkspaceError {
    LocalProjectTomlValidation(String),
    Workspace(String),
    WorkspaceTree(String),
    LuaInstallation(String),
    Tree(String),
    LuaRocks(String),
    LuaRocksInstall(String),
    InstallDependencies(String),
    InstallBuildDependencies(String),
    SyncDependencies(String),
    SyncBuildDependencies(String),
    Build(String),
}

impl BuildWorkspaceError {
    /// What the error says.
    pub open spec fn message(&self) -> Seq<char> {
        match self {
            BuildWorkspaceError::LocalProjectTomlValidation(text) => text@,
            BuildWorkspaceError::Workspace(text) => text@,
            BuildWorkspaceError::WorkspaceTree(text) => text@,
            BuildWorkspaceError::LuaInstallation(text) => text@,
            BuildWorkspaceError::Tree(text) => text@,
            BuildWorkspaceError::LuaRocks(text) => text@,
            BuildWorkspaceError::LuaRocksInstall(text) => text@,
            BuildWorkspaceError::InstallDependencies(text) => "error installind dependencies:\n"@
                + text@,
            BuildWorkspaceError::InstallBuildDependencies(text) => {
                "error installind build dependencies:\n"@ + text@
            },
            BuildWorkspaceError::SyncDependencies(text) => {
                "syncing dependencies with the project lockfile failed.\nUse --no-lock to force a new build.\n\n"@
                    + text@
            },
            BuildWorkspaceError::SyncBuildDependencies(text) => {
                "syncing build dependencies with the project lockfile failed.\nUse --no-lock to force a new build.\n\n"@
                    + text@
            },
            BuildWorkspaceError::Build(text) => "error building project:\n"@ + text@,
        }
    }

    /// What the error says.
    pub fn to_message(&self) -> (r: String)
        ensures
            r@ == self.message(),
    {
        match self {
            BuildWorkspaceError::LocalProjectTomlValidation(text)
            | BuildWorkspaceError::Workspace(text)
            | BuildWorkspaceError::WorkspaceTree(text)
            | BuildWorkspaceError::LuaInstallation(text)
            | BuildWorkspaceError::Tree(text)
            | BuildWorkspaceError::LuaRocks(text)
            | BuildWorkspaceError::LuaRocksInstall(text) => copy(text.as_str()),
            BuildWorkspaceError::InstallDependencies(text) => concat(
                "error installind dependencies:\n",
                text.as_str(),
            ),
            BuildWorkspaceError::InstallBuildDependencies(text) => concat(
                "error installind build dependencies:\n",
                text.as_str(),
            ),
            BuildWorkspaceError::SyncDependencies(text) => concat(
                "syncing dependencies with the project lockfile failed.\nUse --no-lock to force a new build.\n\n",
                text.as_str(),
            ),
            BuildWorkspaceError::SyncBuildDependencies(text) => concat(
                "syncing build dependencies with the project lockfile failed.\nUse --no-lock to force a new build.\n\n",
                text.as_str(),
            ),
            BuildWorkspaceError::Build(text) => concat("error building project:\n", text.as_str()),
        }
    }
}

/// What the tree says of a requirement.
#[derive(Debug, Clone, Copy, PartialEq, Eq, Structural)]
pub enum RockMatch {
    /// The tree has a rock that meets it.
    Found,
    /// The tree has none.
    Missing,
    /// The tree could not be asked.
    Unknown,
}

/// A package to install.
#[derive(Debug)]
pub struct PackageInstallSpec {
    pub package: PackageReq,
    pub entry_type: EntryType,
    pub pin: PinnedState,
    pub opt: OptState,
    pub source: Option<RockSourceSpec>,
}

/// What a [`PackageInstallSpec`] says.
pub struct InstallView {
    pub name: Seq<char>,
    pub version: Seq<char>,
    pub any: bool,
    pub entry_type: EntryType,
    pub pin: PinnedState,
    pub opt: OptState,
    pub source: Option<Seq<char>>,
}

/// Where the source is, where that is said.
pub open spec fn source_text(source: Option<RockSourceSpec>) -> Option<Seq<char>> {
    match source {
        Some(source) => Some(source.0@),
        None => None,
    }
}

impl View for PackageInstallSpec {
    type V = InstallView;

    open spec fn view(&self) -> InstallView {
        InstallView {
            name: self.package.name@,
            version: self.package.version_req.text@,
            any: self.package.version_req.any,
            entry_type: self.entry_type,
            pin: self.pin,
            opt: self.opt,
            source: source_text(self.source),
        }
    }
}

/// What the packages to install say.
pub open spec fn install_views(specs: Seq<PackageInstallSpec>) -> Seq<InstallView> {
    specs.map_values(|spec: PackageInstallSpec| spec@)
}

/// The package that is installed for a dependency: as an entry point, with what the dependency
/// says.
pub open spec fn install_view(dep: LuaDependencySpec) -> InstallView {
    InstallView {
        name: dep.package_req.name@,
        version: dep.package_req.version_req.text@,
        any: dep.package_req.version_req.any,
        entry_type: EntryType::Entrypoint,
        pin: dep.pin,
        opt: dep.opt,
        source: source_text(dep.source),
    }
}

/// The packages to install: those of the dependencies that the tree does not have.
pub open spec fn missing_packages(deps: Seq<(LuaDependencySpec, RockMatch)>) -> Seq<InstallView>
    decreases deps.len(),
{
    if deps.len() == 0 {
        Seq::empty()
    } else if deps.last().1 == RockMatch::Missing {
        missing_packages(deps.drop_last()).push(install_view(deps.last().0))
    } else {
        missing_packages(deps.drop_last())
    }
}

/// The list without those that stand earlier in it already.
pub open spec fn unique_views(all: Seq<InstallView>) -> Seq<InstallView>
    decreases all.len(),
{
    if all.len() == 0 {
        Seq::empty()
    } else {
        let before = unique_views(all.drop_last());
        if before.contains(all.last()) {
            before
        } else {
            before.push(all.last())
        }
    }
}

/// Appends the packages of the dependencies that the tree does not have.
fn append_missing(to_install: &mut Vec<PackageInstallSpec>, deps: Vec<(LuaDependencySpec, RockMatch)>)
    ensures
        install_views(final(to_install)@) == install_views(old(to_install)@) + missing_packages(
            deps@,
        ),
{
    let ghost before = install_views(to_install@);
    let ghost all = deps@;
    assert(before + missing_packages(all.take(0)) == before);
    for entry in it: deps
        invariant
            it.seq() == all,
            install_views(to_install@) == before + missing_packages(all.take(it.index())),
    {
        let ghost i = it.index();
        let ghost now = to_install@;
        proof {
            assert(all[i] == entry);
            assert(all.take(i + 1).drop_last() == all.take(i));
        }
        if entry.1 == RockMatch::Missing {
            let dep = entry.0;
            let ghost view = install_view(dep);
            let spec = PackageInstallSpec {
                package: dep.package_req,
                entry_type: EntryType::Entrypoint,
                pin: dep.pin,
                opt: dep.opt,
                source: dep.source,
            };
            to_install.push(spec);
            proof {
                assert(install_views(to_install@) == install_views(now).push(view));
                assert(install_views(to_install@) == before + missing_packages(all.take(i + 1)));
            }
        }
    }
    assert(all.take(all.len() as int) == all);
}

/// Appends the packages of the dependencies and of the build dependencies of a project that the
/// tree of the workspace does not have.
pub fn prepare_dependencies(
    project: MemberDependencies,
    dependencies_to_install: &mut Vec<PackageInstallSpec>,
    build_dependencies_to_install: &mut Vec<PackageInstallSpec>,
)
    ensures
        install_views(final(dependencies_to_install)@) == install_views(
            old(dependencies_to_install)@,
        ) + missing_packages(project.dependencies@),
        install_views(final(build_dependencies_to_install)@) == install_views(
            old(build_dependencies_to_install)@,
        ) + missing_packages(project.build_dependencies@),
{
    append_missing(dependencies_to_install, project.dependencies);
    append_missing(build_dependencies_to_install, project.build_dependencies);
}

/// Whether the two sources are at the same place.
fn same_source(a: &Option<RockSourceSpec>, b: &Option<RockSourceSpec>) -> (r: bool)
    ensures
        r == (source_text(*a) == source_text(*b)),
{
    match (a, b) {
        (Some(a), Some(b)) => same_text(a.0.as_str(), b.0.as_str()),
        (None, None) => true,
        _ => false,
    }
}

impl PackageInstallSpec {
    /// Whether the two packages to install are the same.
    pub fn same_spec(&self, other: &PackageInstallSpec) -> (r: bool)
        ensures
            r == (self@ == other@),
    {
        same_text(self.package.name.0.as_str(), other.package.name.0.as_str()) && same_text(
            self.package.version_req.text.as_str(),
            other.package.version_req.text.as_str(),
        ) && self.package.version_req.any == other.package.version_req.any && self.entry_type
            == other.entry_type && self.pin == other.pin && self.opt == other.opt && same_source(
            &self.source,
            &other.source,
        )
    }
}

/// Whether the list contains the package to install.
fn has_spec(all: &Vec<PackageInstallSpec>, spec: &PackageInstallSpec) -> (r: bool)
    ensures
        r == install_views(all@).contains(spec@),
{
    let ghost views = install_views(all@);
    let mut i: usize = 0;
    while i < all.len()
        invariant
            i <= all@.len(),
            views == install_views(all@),
            forall|k: int| 0 <= k < i ==> #[trigger] views[k] != spec@,
        decreases all@.len() - i,
    {
        assert(views[i as int] == all@[i as int]@);
        if all[i].same_spec(spec) {
            return true;
        }
        i = i + 1;
    }
    false
}

/// The packages to install without those that stand earlier in the list already.
pub fn unique_specs(specs: Vec<PackageInstallSpec>) -> (r: Vec<PackageInstallSpec>)
    ensures
        install_views(r@) == unique_views(install_views(specs@)),
{
    let ghost all = install_views(specs@);
    let mut r: Vec<PackageInstallSpec> = Vec::new();
    assert(install_views(r@) == unique_views(all.take(0)));
    for spec in it: specs
        invariant
            install_views(it.seq()) == all,
            install_views(r@) == unique_views(all.take(it.index())),
    {
        let ghost i = it.index();
        let ghost before = r@;
        proof {
            assert(all[i] == spec@);
            assert(all.take(i + 1).drop_last() == all.take(i));
        }
        if !has_spec(&r, &spec) {
            r.push(spec);
            assert(install_views(r@) == install_views(before).push(spec@));
        }
    }
    assert(all.take(all.len() as int) == all);
    r
}

/// The dependencies of a project, each with what the tree of the workspace says of it.
#[derive(Debug)]
pub struct MemberDependencies {
    pub dependencies: Vec<(LuaDependencySpec, RockMatch)>,
    pub build_dependencies: Vec<(LuaDependencySpec, RockMatch)>,
}

/// The packages to install for the projects, one project after the other.
pub open spec fn all_missing(members: Seq<MemberDependencies>) -> Seq<InstallView>
    decreases members.len(),
{
    if members.len() == 0 {
        Seq::empty()
    } else {
        all_missing(members.drop_last()) + missing_packages(members.last().dependencies@)
    }
}

/// The packages to install before the projects are built, one project after the other.
pub open spec fn all_missing_build(members: Seq<MemberDependencies>) -> Seq<InstallView>
    decreases members.len(),
{
    if members.len() == 0 {
        Seq::empty()
    } else {
        all_missing_build(members.drop_last()) + missing_packages(
            members.last().build_dependencies@,
        )
    }
}

/// Building the projects of a workspace.
#[derive(Debug)]
pub struct BuildWorkspace {
    /// Package to build
    pub package: Option<PackageName>,
    /// Ignore the project's lockfile and don't create one
    pub no_lock: bool,
    /// Build only the dependencies
    pub only_deps: bool,
}

/// What has to be done next.
#[derive(Debug)]
pub enum WorkspaceStep {
    /// Sync the dependencies with the lockfile.
    SyncDependencies,
    /// Sync the build dependencies with the lockfile.
    SyncBuildDependencies,
    /// Open the installation of luarocks.
    OpenLuaRocks,
    /// Read the dependencies of the members that [`BuildWorkspace::selected`] says.
    ReadMembers,
    /// Make sure that luarocks is installed. The build dependencies and the dependencies follow.
    EnsureLuaRocks(Vec<PackageInstallSpec>, Vec<PackageInstallSpec>),
    /// Install the build dependencies. The dependencies follow.
    InstallBuildDependencies(Vec<PackageInstallSpec>, Vec<PackageInstallSpec>),
    /// Install the dependencies.
    InstallDependencies(Vec<PackageInstallSpec>),
    /// Build the members that [`BuildWorkspace::selected`] says, one after the other.
    BuildMembers,
    /// Nothing.
    Finished,
}

/// What a [`WorkspaceStep`] says.
pub enum StepView {
    SyncDependencies,
    SyncBuildDependencies,
    OpenLuaRocks,
    ReadMembers,
    EnsureLuaRocks(Seq<InstallView>, Seq<InstallView>),
    InstallBuildDependencies(Seq<InstallView>, Seq<InstallView>),
    InstallDependencies(Seq<InstallView>),
    BuildMembers,
    Finished,
}

impl View for WorkspaceStep {
    type V = StepView;

    open spec fn view(&self) -> StepView {
        match self {
            WorkspaceStep::SyncDependencies => StepView::SyncDependencies,
            WorkspaceStep::SyncBuildDependencies => StepView::SyncBuildDependencies,
            WorkspaceStep::OpenLuaRocks => StepView::OpenLuaRocks,
            WorkspaceStep::ReadMembers => StepView::ReadMembers,
            WorkspaceStep::EnsureLuaRocks(build, deps) => StepView::EnsureLuaRocks(
                install_views(build@),
                install_views(deps@),
            ),
            WorkspaceStep::InstallBuildDependencies(build, deps) => {
                StepView::InstallBuildDependencies(install_views(build@), install_views(deps@))
            },
            WorkspaceStep::InstallDependencies(deps) => StepView::InstallDependencies(
                install_views(deps@),
            ),
            WorkspaceStep::BuildMembers => StepView::BuildMembers,
            WorkspaceStep::Finished => StepView::Finished,
        }
    }
}

/// The first step: syncing with the lockfile, or where it is ignored opening luarocks.
pub open spec fn first_step(no_lock: bool) -> StepView {
    if no_lock {
        StepView::OpenLuaRocks
    } else {
        StepView::SyncDependencies
    }
}

/// The step after the dependencies are there.
pub open spec fn last_step(only_deps: bool) -> StepView {
    if only_deps {
        StepView::Finished
    } else {
        StepView::BuildMembers
    }
}

/// The step after the members were read. The build dependencies come first, where there are any.
pub open spec fn install_step(members: Seq<MemberDependencies>) -> StepView {
    let build = all_missing_build(members);
    let deps = unique_views(all_missing(members));
    if build.len() == 0 {
        StepView::InstallDependencies(deps)
    } else {
        StepView::EnsureLuaRocks(unique_views(build), deps)
    }
}

/// The step after `step` was taken, where the members have the dependencies `members`.
pub open spec fn next_step(
    only_deps: bool,
    members: Seq<MemberDependencies>,
    step: StepView,
) -> StepView {
    match step {
        StepView::SyncDependencies => StepView::SyncBuildDependencies,
        StepView::SyncBuildDependencies => last_step(only_deps),
        StepView::OpenLuaRocks => StepView::ReadMembers,
        StepView::ReadMembers => install_step(members),
        StepView::EnsureLuaRocks(build, deps) => StepView::InstallBuildDependencies(build, deps),
        StepView::InstallBuildDependencies(_, deps) => StepView::InstallDependencies(deps),
        StepView::InstallDependencies(_) => last_step(only_deps),
        StepView::BuildMembers => StepView::Finished,
        StepView::Finished => StepView::Finished,
    }
}

/// The positions are those of the members to build: of the first one with the name of the package
/// to build, or of all members in order. There are none where no member has the name.
pub open spec fn are_selected(
    package: Option<PackageName>,
    members: Seq<PackageName>,
    r: Option<Vec<usize>>,
) -> bool {
    match (package, r) {
        (Some(package), Some(positions)) => {
            &&& positions@.len() == 1
            &&& positions@[0] < members.len()
            &&& members[positions@[0] as int]@ == package@
            &&& forall|i: int| 0 <= i < positions@[0] ==> (#[trigger] members[i])@ != package@
        },
        (Some(package), None) => forall|i: int|
            0 <= i < members.len() ==> (#[trigger] members[i])@ != package@,
        (None, Some(positions)) => {
            &&& positions@.len() == members.len()
            &&& forall|i: int| 0 <= i < members.len() ==> #[trigger] positions@[i] == i
        },
        (None, None) => false,
    }
}

impl BuildWorkspace {
    /// The positions of the members to read and to build, where `members` has the names of all
    /// members. There are none where no member is the package to build.
    pub fn selected(&self, members: &Vec<PackageName>) -> (r: Option<Vec<usize>>)
        ensures
            are_selected(self.package, members@, r),
    {
        let mut positions: Vec<usize> = Vec::new();
        let mut i: usize = 0;
        match &self.package {
            Some(package) => {
                while i < members.len()
                    invariant
                        i <= members@.len(),
                        positions@.len() == 0,
                        self.package == Some(*package),
                        forall|k: int| 0 <= k < i ==> (#[trigger] members@[k])@ != package@,
                    decreases members@.len() - i,
                {
                    if members[i].same_key(package) {
                        positions.push(i);
                        return Some(positions);
                    }
                    i = i + 1;
                }
                None
            },
            None => {
                while i < members.len()
                    invariant
                        i <= members@.len(),
                        positions@.len() == i,
                        forall|k: int| 0 <= k < i ==> #[trigger] positions@[k] == k,
                    decreases members@.len() - i,
                {
                    positions.push(i);
                    i = i + 1;
                }
                Some(positions)
            },
        }
    }

    /// The first step.
    pub fn start(&self) -> (r: WorkspaceStep)
        ensures
            r@ == first_step(self.no_lock),
    {
        if self.no_lock {
            WorkspaceStep::OpenLuaRocks
        } else {
            WorkspaceStep::SyncDependencies
        }
    }

    /// The step after the dependencies are there.
    fn finish(&self) -> (r: WorkspaceStep)
        ensures
            r@ == last_step(self.only_deps),
    {
        if self.only_deps {
            WorkspaceStep::Finished
        } else {
            WorkspaceStep::BuildMembers
        }
    }

    /// The step after the dependencies of the members were read.
    pub fn after_reading(&self, members: Vec<MemberDependencies>) -> (r: WorkspaceStep)
        ensures
            r@ == next_step(self.only_deps, members@, StepView::ReadMembers),
    {
        let mut deps: Vec<PackageInstallSpec> = Vec::new();
        let mut build: Vec<PackageInstallSpec> = Vec::new();
        let ghost all = members@;
        assert(install_views(deps@) == all_missing(all.take(0)));
        assert(install_views(build@) == all_missing_build(all.take(0)));
        for member in it: members
            invariant
                it.seq() == all,
                install_views(deps@) == all_missing(all.take(it.index())),
                install_views(build@) == all_missing_build(all.take(it.index())),
        {
            proof {
                let i = it.index();
                assert(all[i] == member);
                assert(all.take(i + 1).drop_last() == all.take(i));
            }
            prepare_dependencies(member, &mut deps, &mut build);
        }
        assert(all.take(all.len() as int) == all);
        assert(install_views(build@).len() == build@.len());
        if build.len() == 0 {
            WorkspaceStep::InstallDependencies(unique_specs(deps))
        } else {
            WorkspaceStep::EnsureLuaRocks(unique_specs(build), unique_specs(deps))
        }
    }

    /// The step after `step` was taken. What comes after reading the members depends on what was
    /// read, see [`BuildWorkspace::after_reading`].
    pub fn after(&self, step: WorkspaceStep) -> (r: WorkspaceStep)
        requires
            !(step is ReadMembers),
        ensures
            forall|members: Seq<MemberDependencies>|
                r@ == #[trigger] next_step(self.only_deps, members, step@),
    {
        match step {
            WorkspaceStep::SyncDependencies => WorkspaceStep::SyncBuildDependencies,
            WorkspaceStep::SyncBuildDependencies => self.finish(),
            WorkspaceStep::OpenLuaRocks => WorkspaceStep::ReadMembers,
            WorkspaceStep::ReadMembers => WorkspaceStep::ReadMembers,
            WorkspaceStep::EnsureLuaRocks(build, deps) => WorkspaceStep::InstallBuildDependencies(
                build,
                deps,
            ),
            WorkspaceStep::InstallBuildDependencies(_, deps) => WorkspaceStep::InstallDependencies(
                deps,
            ),
            WorkspaceStep::InstallDependencies(_) => self.finish(),
            WorkspaceStep::BuildMembers => WorkspaceStep::Finished,
            WorkspaceStep::Finished => WorkspaceStep::Finished,
        }
    }
}

impl WorkspaceStep {
    /// The error of the step, which failed with `text`. Reading the members has errors of its own.
    pub fn failed(&self, text: String) -> (r: BuildWorkspaceError)
        requires
            !(self is ReadMembers) && !(self is Finished),
        ensures
            match self {
                WorkspaceStep::SyncDependencies => r == BuildWorkspaceError::SyncDependencies(text),
                WorkspaceStep::SyncBuildDependencies => r
                    == BuildWorkspaceError::SyncBuildDependencies(text),
                WorkspaceStep::OpenLuaRocks => r == BuildWorkspaceError::LuaRocks(text),
                WorkspaceStep::EnsureLuaRocks(_, _) => r == BuildWorkspaceError::LuaRocksInstall(
                    text,
                ),
                WorkspaceStep::InstallBuildDependencies(_, _) => r
                    == BuildWorkspaceError::InstallBuildDependencies(text),
                WorkspaceStep::InstallDependencies(_) => r
                    == BuildWorkspaceError::InstallDependencies(text),
                _ => r == BuildWorkspaceError::Build(text),
            },
    {
        match self {
            WorkspaceStep::SyncDependencies => BuildWorkspaceError::SyncDependencies(text),
            WorkspaceStep::SyncBuildDependencies => BuildWorkspaceError::SyncBuildDependencies(
                text,
            ),
            WorkspaceStep::OpenLuaRocks => BuildWorkspaceError::LuaRocks(text),
            WorkspaceStep::EnsureLuaRocks(_, _) => BuildWorkspaceError::LuaRocksInstall(text),
            WorkspaceStep::InstallBuildDependencies(_, _) => {
                BuildWorkspaceError::InstallBuildDependencies(text)
            },
            WorkspaceStep::InstallDependencies(_) => BuildWorkspaceError::InstallDependencies(text),
            WorkspaceStep::ReadMembers
            | WorkspaceStep::BuildMembers
            | WorkspaceStep::Finished => BuildWorkspaceError::Build(text),
        }
    }
}

/// The step at position `n` of a run.
pub open spec fn step_at(
    build: BuildWorkspace,
    members: Seq<MemberDependencies>,
    n: nat,
) -> StepView
    decreases n,
{
    if n == 0 {
        first_step(build.no_lock)
    } else {
        next_step(build.only_deps, members, step_at(build, members, (n - 1) as nat))
    }
}

/// A run with the lockfile syncs the dependencies and then the build dependencies, and installs
/// nothing. Then it builds the members, unless only the dependencies are wanted.
pub proof fn locked_run(build: BuildWorkspace, members: Seq<MemberDependencies>)
    requires
        !build.no_lock,
    ensures
        step_at(build, members, 0) == StepView::SyncDependencies,
        step_at(build, members, 1) == StepView::SyncBuildDependencies,
        step_at(build, members, 2) == last_step(build.only_deps),
        forall|n: nat| 3 <= n ==> #[trigger] step_at(build, members, n) == StepView::Finished,
{
    reveal_with_fuel(step_at, 4);
    assert(step_at(build, members, 3) == StepView::Finished);
    assert forall|n: nat| 3 <= n implies #[trigger] step_at(build, members, n)
        == StepView::Finished by {
        stays_finished(build, members, 3, n);
    }
}

/// A run without the lockfile syncs nothing. It opens luarocks, also where nothing is missing, and
/// reads the members. It installs the build dependencies that are missing
/// before the dependencies that are missing. Then it builds the members, unless only the
/// dependencies are wanted.
pub proof fn unlocked_run(build: BuildWorkspace, members: Seq<MemberDependencies>)
    requires
        build.no_lock,
    ensures
        ({
            let dev = all_missing_build(members);
            let deps = unique_views(all_missing(members));
            let from: nat = if dev.len() == 0 {
                2
            } else {
                4
            };
            &&& step_at(build, members, 0) == StepView::OpenLuaRocks
            &&& step_at(build, members, 1) == StepView::ReadMembers
            &&& dev.len() > 0 ==> step_at(build, members, 2) == StepView::EnsureLuaRocks(
                unique_views(dev),
                deps,
            ) && step_at(build, members, 3) == StepView::InstallBuildDependencies(
                unique_views(dev),
                deps,
            )
            &&& step_at(build, members, from) == StepView::InstallDependencies(deps)
            &&& step_at(build, members, from + 1) == last_step(build.only_deps)
            &&& forall|n: nat|
                from + 2 <= n ==> #[trigger] step_at(build, members, n) == StepView::Finished
        }),
{
    reveal_with_fuel(step_at, 8);
    let from: nat = if all_missing_build(members).len() == 0 {
        2
    } else {
        4
    };
    assert(step_at(build, members, from + 2) == StepView::Finished);
    assert forall|n: nat| from + 2 <= n implies #[trigger] step_at(build, members, n)
        == StepView::Finished by {
        stays_finished(build, members, from + 2, n);
    }
}

/// A run that only wants the dependencies builds no member.
pub proof fn only_deps_builds_nothing(
    build: BuildWorkspace,
    members: Seq<MemberDependencies>,
    n: nat,
)
    requires
        build.only_deps,
    ensures
        step_at(build, members, n) != StepView::BuildMembers,
    decreases n,
{
    if 0 < n {
        only_deps_builds_nothing(build, members, (n - 1) as nat);
    }
}

proof fn stays_finished(
    build: BuildWorkspace,
    members: Seq<MemberDependencies>,
    from: nat,
    n: nat,
)
    requires
        from <= n,
        step_at(build, members, from) == StepView::Finished,
    ensures
        step_at(build, members, n) == StepView::Finished,
    decreases n - from,
{
    if from < n {
        stays_finished(build, members, from, (n - 1) as nat);
    }
}

/// No package is installed twice, and each one that is missing is installed.
pub proof fn unique_views_are_the_views(all: Seq<InstallView>)
    ensures
        unique_views(all).no_duplicates(),
        forall|view: InstallView| #[trigger] unique_views(all).contains(view) <==> all.contains(view),
    decreases all.len(),
{
    if 0 < all.len() {
        let before = all.drop_last();
        let kept = unique_views(before);
        unique_views_are_the_views(before);
        assert forall|view: InstallView| #[trigger]
            unique_views(all).contains(view) <==> all.contains(view) by {
            if all.contains(view) {
                let i = choose|i: int| 0 <= i < all.len() && all[i] == view;
                if i < before.len() {
                    assert(before[i] == view);
                    assert(unique_views(before).contains(view));
                    let j = choose|j: int| 0 <= j < kept.len() && kept[j] == view;
                    assert(unique_views(all)[j] == view);
                } else if !kept.contains(view) {
                    assert(unique_views(all)[kept.len() as int] == view);
                }
            }
            if unique_views(all).contains(view) {
                let i = choose|i: int|
                    0 <= i < unique_views(all).len() && unique_views(all)[i] == view;
                if i < kept.len() {
                    assert(kept[i] == view);
                    assert(unique_views(before).contains(view));
                    let j = choose|j: int| 0 <= j < before.len() && before[j] == view;
                    assert(all[j] == view);
                } else {
                    assert(all[all.len() - 1] == view);
                }
            }
        }
    }
}

/// A change of the lockfile.
#[derive(Debug)]
pub enum LockChange {
    /// The package becomes an entry point.
    AddEntrypoint(String),
    /// The first package depends on the second.
    AddDependency(String, String),
    /// The package is no entry point any more.
    RemoveEntrypoint(String),
}

/// The two changes make `dep` a dependency of `package` and no entry point.
pub open spec fn demotes(
    package: Seq<char>,
    dep: Seq<char>,
    change: LockChange,
    next: LockChange,
) -> bool {
    &&& change matches LockChange::AddDependency(from, to)
    &&& from@ == package
    &&& to@ == dep
    &&& next matches LockChange::RemoveEntrypoint(id)
    &&& id@ == dep
}

/// The changes for the entry points `deps`, which become dependencies of `package`.
pub open spec fn are_dependency_changes(
    package: Seq<char>,
    deps: Seq<Seq<char>>,
    changes: Seq<LockChange>,
) -> bool {
    &&& changes.len() == 2 * deps.len()
    &&& forall|i: int|
        0 <= i < deps.len() ==> demotes(
            package,
            #[trigger] deps[i],
            changes[2 * i],
            changes[2 * i + 1],
        )
}

/// The packages of the lockfile that are entry points.
pub open spec fn entrypoints_of(rocks: Seq<(String, bool)>) -> Seq<Seq<char>>
    decreases rocks.len(),
{
    if rocks.len() == 0 {
        Seq::empty()
    } else if rocks.last().1 {
        entrypoints_of(rocks.drop_last()).push(rocks.last().0@)
    } else {
        entrypoints_of(rocks.drop_last())
    }
}

/// The changes of the lockfile after the project `package` was built. `rocks` are the packages of
/// the lockfile, each with whether it is an entry point. The project becomes an entry point, and
/// then each one of before becomes its dependency and is no entry point any more.
pub fn lock_project(package: &str, rocks: Vec<(String, bool)>) -> (r: Vec<LockChange>)
    ensures
        1 <= r@.len(),
        r@[0] matches LockChange::AddEntrypoint(id) && id@ == package@,
        are_dependency_changes(package@, entrypoints_of(rocks@), r@.skip(1)),
{
    let mut r: Vec<LockChange> = Vec::new();
    r.push(LockChange::AddEntrypoint(copy(package)));
    let ghost all = rocks@;
    assert(are_dependency_changes(package@, entrypoints_of(all.take(0)), r@.skip(1)));
    for rock in it: rocks
        invariant
            it.seq() == all,
            1 <= r@.len(),
            r@[0] matches LockChange::AddEntrypoint(id) && id@ == package@,
            are_dependency_changes(package@, entrypoints_of(all.take(it.index())), r@.skip(1)),
    {
        let ghost i = it.index();
        let ghost before = r@.skip(1);
        let ghost deps = entrypoints_of(all.take(i));
        proof {
            assert(all[i] == rock);
            assert(all.take(i + 1).drop_last() == all.take(i));
        }
        if rock.1 {
            r.push(LockChange::AddDependency(copy(package), copy(rock.0.as_str())));
            r.push(LockChange::RemoveEntrypoint(rock.0));
            proof {
                let changes = r@.skip(1);
                let now = deps.push(rock.0@);
                assert(now == entrypoints_of(all.take(i + 1)));
                assert forall|k: int| 0 <= k < now.len() implies demotes(
                    package@,
                    #[trigger] now[k],
                    changes[2 * k],
                    changes[2 * k + 1],
                ) by {
                    if k < deps.len() {
                        assert(deps[k] == now[k]);
                        assert(changes[2 * k] == before[2 * k]);
                        assert(changes[2 * k + 1] == before[2 * k + 1]);
                    }
                }
            }
        }
    }
    assert(all.take(all.len() as int) == all);
    r
}

/// The entry points after a change.
pub open spec fn changed(entrypoints: Set<Seq<char>>, change: LockChange) -> Set<Seq<char>> {
    match change {
        LockChange::AddEntrypoint(id) => entrypoints.insert(id@),
        LockChange::AddDependency(_, _) => entrypoints,
        LockChange::RemoveEntrypoint(id) => entrypoints.remove(id@),
    }
}

/// The entry points after the changes.
pub open spec fn all_changed(entrypoints: Set<Seq<char>>, changes: Seq<LockChange>) -> Set<
    Seq<char>,
>
    decreases changes.len(),
{
    if changes.len() == 0 {
        entrypoints
    } else {
        all_changed(changed(entrypoints, changes[0]), changes.skip(1))
    }
}

proof fn lemma_demoted(
    package: Seq<char>,
    entrypoints: Set<Seq<char>>,
    deps: Seq<Seq<char>>,
    changes: Seq<LockChange>,
)
    requires
        are_dependency_changes(package, deps, changes),
    ensures
        all_changed(entrypoints, changes) == entrypoints.difference(deps.to_set()),
    decreases deps.len(),
{
    if 0 < deps.len() {
        let rest = deps.skip(1);
        let later = changes.skip(2);
        assert(demotes(package, deps[0], changes[0], changes[1]));
        assert forall|i: int| 0 <= i < rest.len() implies demotes(
            package,
            #[trigger] rest[i],
            later[2 * i],
            later[2 * i + 1],
        ) by {
            assert(demotes(
                package,
                deps[i + 1],
                changes[2 * (i + 1)],
                changes[2 * (i + 1) + 1],
            ));
        }
        let removed = entrypoints.remove(deps[0]);
        lemma_demoted(package, removed, rest, later);
        reveal_with_fuel(all_changed, 3);
        assert(changes.skip(1).skip(1) == later);
        assert(changes.skip(1)[0] == changes[1]);
        assert(all_changed(entrypoints, changes) == all_changed(removed, later));
        assert(removed.difference(rest.to_set()) == entrypoints.difference(deps.to_set())) by {
            assert forall|id: Seq<char>| deps.to_set().contains(id) <==> (id == deps[0]
                || rest.to_set().contains(id)) by {
                if deps.contains(id) {
                    let i = choose|i: int| 0 <= i < deps.len() && deps[i] == id;
                    if 0 < i {
                        assert(rest[i - 1] == id);
                    }
                }
                if rest.contains(id) {
                    let i = choose|i: int| 0 <= i < rest.len() && rest[i] == id;
                    assert(deps[i + 1] == id);
                }
            }
        }
    } else {
        assert(entrypoints.difference(deps.to_set()) == entrypoints);
    }
}

/// After a project was built it is the only entry point, unless it was one before: then there is
/// none.
pub proof fn project_is_the_only_entrypoint(
    package: Seq<char>,
    deps: Seq<Seq<char>>,
    changes: Seq<LockChange>,
)
    requires
        1 <= changes.len(),
        changes[0] matches LockChange::AddEntrypoint(id) && id@ == package,
        are_dependency_changes(package, deps, changes.skip(1)),
    ensures
        all_changed(deps.to_set(), changes) == if deps.contains(package) {
            Set::<Seq<char>>::empty()
        } else {
            set![package]
        },
{
    lemma_demoted(package, deps.to_set().insert(package), deps, changes.skip(1));
    assert(deps.to_set().insert(package).difference(deps.to_set()) == if deps.contains(package) {
        Set::<Seq<char>>::empty()
    } else {
        set![package]
    });
}

/// What is installed for a missing dependency: its requirement, as an entrypoint, with its pin,
/// its option and its source.
pub open spec fn installs(view: InstallView, dep: LuaDependencySpec) -> bool {
    &&& view.name == dep.package_req.name@
    &&& view.version == dep.package_req.version_req.text@
    &&& view.any == dep.package_req.version_req.any
    &&& view.entry_type == EntryType::Entrypoint
    &&& view.pin == dep.pin
    &&& view.opt == dep.opt
    &&& dep.source is Some ==> view.source == Some((dep.source->0).0@)
    &&& dep.source is None ==> view.source is None
}

proof fn lemma_missing(deps: Seq<(LuaDependencySpec, RockMatch)>, i: int)
    requires
        0 <= i < deps.len(),
        deps[i].1 == RockMatch::Missing,
    ensures
        missing_packages(deps).contains(install_view(deps[i].0)),
    decreases deps.len(),
{
    let all = missing_packages(deps);
    if i < deps.len() - 1 {
        let before = deps.drop_last();
        assert(before[i] == deps[i]);
        lemma_missing(before, i);
        let less = missing_packages(before);
        let k = choose|k: int| 0 <= k < less.len() && less[k] == install_view(deps[i].0);
        assert(all[k] == install_view(deps[i].0));
    } else {
        assert(all.last() == install_view(deps[i].0));
    }
}

proof fn lemma_only_missing(deps: Seq<(LuaDependencySpec, RockMatch)>, k: int)
    requires
        0 <= k < missing_packages(deps).len(),
    ensures
        exists|i: int|
            0 <= i < deps.len() && (#[trigger] deps[i]).1 == RockMatch::Missing
                && missing_packages(deps)[k] == install_view(deps[i].0),
    decreases deps.len(),
{
    if 0 < deps.len() {
        let before = deps.drop_last();
        let less = missing_packages(before);
        if k < less.len() {
            lemma_only_missing(before, k);
            let i = choose|i: int|
                0 <= i < before.len() && (#[trigger] before[i]).1 == RockMatch::Missing && less[k]
                    == install_view(before[i].0);
            assert(deps[i] == before[i]);
            assert(missing_packages(deps)[k] == less[k]);
        } else {
            assert(deps[deps.len() - 1].1 == RockMatch::Missing);
        }
    }
}

proof fn lemma_missing_len(deps: Seq<(LuaDependencySpec, RockMatch)>)
    ensures
        missing_packages(deps).len() == deps.filter(
            |dep: (LuaDependencySpec, RockMatch)| dep.1 == RockMatch::Missing,
        ).len(),
    decreases deps.len(),
{
    reveal(Seq::filter);
    if 0 < deps.len() {
        lemma_missing_len(deps.drop_last());
    }
}

/// Every dependency of a project that is missing is installed as it is required, and no other;
/// what was to be installed before stays in front. So it is with the build dependencies, on their
/// own list.
pub proof fn missing_dependencies_are_installed(
    project: MemberDependencies,
    deps: &mut Vec<PackageInstallSpec>,
    build: &mut Vec<PackageInstallSpec>,
    i: int,
)
    requires
        call_ensures(prepare_dependencies, (project, deps, build), ()),
    ensures
        final(deps)@.len() == old(deps)@.len() + project.dependencies@.filter(
            |dep: (LuaDependencySpec, RockMatch)| dep.1 == RockMatch::Missing,
        ).len(),
        final(build)@.len() == old(build)@.len() + project.build_dependencies@.filter(
            |dep: (LuaDependencySpec, RockMatch)| dep.1 == RockMatch::Missing,
        ).len(),
        forall|k: int| 0 <= k < old(deps)@.len() ==> (#[trigger] final(deps)@[k])@ == old(deps)@[k]@,
        forall|k: int|
            0 <= k < old(build)@.len() ==> (#[trigger] final(build)@[k])@ == old(build)@[k]@,
        0 <= i < project.dependencies@.len() && project.dependencies@[i].1 == RockMatch::Missing
            ==> exists|k: int|
            old(deps)@.len() <= k < final(deps)@.len() && installs(
                (#[trigger] final(deps)@[k])@,
                project.dependencies@[i].0,
            ),
        0 <= i < project.build_dependencies@.len() && project.build_dependencies@[i].1
            == RockMatch::Missing ==> exists|k: int|
            old(build)@.len() <= k < final(build)@.len() && installs(
                (#[trigger] final(build)@[k])@,
                project.build_dependencies@[i].0,
            ),
{
    let a = install_views(old(deps)@);
    let b = install_views(old(build)@);
    let c = install_views(final(deps)@);
    let d = install_views(final(build)@);
    let m = missing_packages(project.dependencies@);
    let n = missing_packages(project.build_dependencies@);
    assert(a.len() == old(deps)@.len() && b.len() == old(build)@.len());
    assert(c.len() == final(deps)@.len() && d.len() == final(build)@.len());
    lemma_missing_len(project.dependencies@);
    lemma_missing_len(project.build_dependencies@);
    assert forall|k: int| 0 <= k < old(deps)@.len() implies (#[trigger] final(deps)@[k])@ == old(
        deps,
    )@[k]@ by {
        assert(c[k] == a[k]);
    }
    assert forall|k: int| 0 <= k < old(build)@.len() implies (#[trigger] final(build)@[k])@ == old(
        build,
    )@[k]@ by {
        assert(d[k] == b[k]);
    }
    if 0 <= i < project.dependencies@.len() && project.dependencies@[i].1 == RockMatch::Missing {
        lemma_missing(project.dependencies@, i);
        let k = choose|k: int| 0 <= k < m.len() && m[k] == install_view(project.dependencies@[i].0);
        assert(c[a.len() + k] == m[k]);
        assert(installs(final(deps)@[a.len() + k]@, project.dependencies@[i].0));
    }
    if 0 <= i < project.build_dependencies@.len() && project.build_dependencies@[i].1
        == RockMatch::Missing {
        lemma_missing(project.build_dependencies@, i);
        let k = choose|k: int|
            0 <= k < n.len() && n[k] == install_view(project.build_dependencies@[i].0);
        assert(d[b.len() + k] == n[k]);
        assert(installs(final(build)@[b.len() + k]@, project.build_dependencies@[i].0));
    }
}

/// Of specifications that say the same, one is left; none is lost and none is added.
pub proof fn specifications_are_installed_once(
    specs: Vec<PackageInstallSpec>,
    r: Vec<PackageInstallSpec>,
)
    requires
        call_ensures(unique_specs, (specs,), r),
    ensures
        forall|i: int|
            0 <= i < specs@.len() ==> exists|j: int|
                0 <= j < r@.len() && (#[trigger] r@[j])@ == (#[trigger] specs@[i])@,
        forall|j: int|
            0 <= j < r@.len() ==> exists|i: int|
                0 <= i < specs@.len() && (#[trigger] specs@[i])@ == (#[trigger] r@[j])@,
        forall|i: int, j: int| 0 <= i < j < r@.len() ==> (#[trigger] r@[i])@ != (#[trigger] r@[j])@,
{
    let all = install_views(specs@);
    let kept = install_views(r@);
    unique_views_are_the_views(all);
    assert forall|i: int| 0 <= i < specs@.len() implies exists|j: int|
        0 <= j < r@.len() && (#[trigger] r@[j])@ == (#[trigger] specs@[i])@ by {
        assert(all[i] == specs@[i]@);
        assert(unique_views(all).contains(all[i]));
        let j = choose|j: int| 0 <= j < kept.len() && kept[j] == all[i];
        assert(r@[j]@ == specs@[i]@);
    }
    assert forall|j: int| 0 <= j < r@.len() implies exists|i: int|
        0 <= i < specs@.len() && (#[trigger] specs@[i])@ == (#[trigger] r@[j])@ by {
        assert(kept[j] == r@[j]@);
        assert(unique_views(all).contains(kept[j]));
        let i = choose|i: int| 0 <= i < all.len() && all[i] == kept[j];
        assert(specs@[i]@ == r@[j]@);
    }
    assert forall|i: int, j: int| 0 <= i < j < r@.len() implies (#[trigger] r@[i])@ != (
    #[trigger] r@[j])@ by {
        assert(kept[i] == r@[i]@ && kept[j] == r@[j]@);
    }
}

/// Two specifications are the same exactly if they ask for the same version of the same package,
/// as the same kind of entry, with the same pin, option and source.
pub proof fn specifications_are_compared_whole(
    a: &PackageInstallSpec,
    b: &PackageInstallSpec,
    r: bool,
)
    requires
        call_ensures(PackageInstallSpec::same_spec, (a, b), r),
    ensures
        r <==> {
            &&& a.package.name@ == b.package.name@
            &&& a.package.version_req.text@ == b.package.version_req.text@
            &&& a.package.version_req.any == b.package.version_req.any
            &&& a.entry_type == b.entry_type
            &&& a.pin == b.pin
            &&& a.opt == b.opt
            &&& a.source is Some <==> b.source is Some
            &&& a.source is Some ==> (a.source->0).0@ == (b.source->0).0@
        },
{
}

/// Without a package every member is built, in their order; with one, the first member of that
/// name alone; and there is none to build exactly if no member has the name.
pub proof fn named_member_is_selected(
    build: &BuildWorkspace,
    members: &Vec<PackageName>,
    r: Option<Vec<usize>>,
    i: int,
)
    requires
        call_ensures(BuildWorkspace::selected, (build, members), r),
        0 <= i < members@.len(),
    ensures
        build.package is None ==> r is Some && r->0@.len() == members@.len() && r->0@[i] == i,
        build.package is Some && members@[i]@ == build.package->0@ ==> r is Some,
        build.package is Some && members@[i]@ == build.package->0@ && (forall|j: int|
            0 <= j < i ==> (#[trigger] members@[j])@ != build.package->0@) ==> r->0@.len() == 1
            && r->0@[0] == i,
        build.package is Some && r is Some ==> r->0@.len() == 1 && r->0@[0] < members@.len()
            && members@[r->0@[0] as int]@ == build.package->0@,
{
    if build.package is Some && r is Some {
        let k = r->0@[0] as int;
        assert(k < i ==> members@[k]@ == build.package->0@);
    }
}

/// A build with a lockfile begins by syncing the dependencies, and goes on with the build
/// dependencies; one without it opens LuaRocks and then reads the members. Either ends with the
/// build of the members unless only their dependencies are wanted. A finished build stays so.
pub proof fn steps_are_taken_in_order(
    build: &BuildWorkspace,
    first: WorkspaceStep,
    step: WorkspaceStep,
    next: WorkspaceStep,
)
    requires
        call_ensures(BuildWorkspace::start, (build,), first),
        !(step is ReadMembers),
        call_ensures(BuildWorkspace::after, (build, step), next),
    ensures
        first is OpenLuaRocks <==> build.no_lock,
        first is SyncDependencies <==> !build.no_lock,
        step is SyncDependencies ==> next is SyncBuildDependencies,
        step is OpenLuaRocks ==> next is ReadMembers,
        step is SyncBuildDependencies && build.only_deps ==> next is Finished,
        step is SyncBuildDependencies && !build.only_deps ==> next is BuildMembers,
        step is InstallDependencies && build.only_deps ==> next is Finished,
        step is InstallDependencies && !build.only_deps ==> next is BuildMembers,
        step is BuildMembers || step is Finished ==> next is Finished,
        step is EnsureLuaRocks ==> {
            &&& next is InstallBuildDependencies
            &&& same_installs(next->InstallBuildDependencies_0@, step->EnsureLuaRocks_0@)
            &&& same_installs(next->InstallBuildDependencies_1@, step->EnsureLuaRocks_1@)
        },
        step is InstallBuildDependencies ==> {
            &&& next is InstallDependencies
            &&& same_installs(next->InstallDependencies_0@, step->InstallBuildDependencies_1@)
        },
{
    let none = Seq::<MemberDependencies>::empty();
    assert(next@ == next_step(build.only_deps, none, step@));
    if step is EnsureLuaRocks {
        lemma_same_installs(next->InstallBuildDependencies_0@, step->EnsureLuaRocks_0@);
        lemma_same_installs(next->InstallBuildDependencies_1@, step->EnsureLuaRocks_1@);
    }
    if step is InstallBuildDependencies {
        lemma_same_installs(next->InstallDependencies_0@, step->InstallBuildDependencies_1@);
    }
}

/// The lists install the same, in the same order.
pub open spec fn same_installs(a: Seq<PackageInstallSpec>, b: Seq<PackageInstallSpec>) -> bool {
    a.len() == b.len() && forall|i: int| 0 <= i < a.len() ==> (#[trigger] a[i])@ == b[i]@
}

proof fn lemma_same_installs(a: Seq<PackageInstallSpec>, b: Seq<PackageInstallSpec>)
    requires
        install_views(a) == install_views(b),
    ensures
        same_installs(a, b),
{
    assert(install_views(a).len() == a.len() && install_views(b).len() == b.len());
    assert forall|i: int| 0 <= i < a.len() implies (#[trigger] a[i])@ == b[i]@ by {
        assert(install_views(a)[i] == a[i]@ && install_views(b)[i] == b[i]@);
    }
}

proof fn lemma_all_missing(members: Seq<MemberDependencies>, m: int, i: int)
    requires
        0 <= m < members.len(),
    ensures
        0 <= i < members[m].dependencies@.len() && members[m].dependencies@[i].1
            == RockMatch::Missing ==> all_missing(members).contains(
            install_view(members[m].dependencies@[i].0),
        ),
        0 <= i < members[m].build_dependencies@.len() && members[m].build_dependencies@[i].1
            == RockMatch::Missing ==> all_missing_build(members).contains(
            install_view(members[m].build_dependencies@[i].0),
        ),
    decreases members.len(),
{
    let before = members.drop_last();
    let member = members[m];
    let a = all_missing(before);
    let b = all_missing_build(before);
    let c = missing_packages(members.last().dependencies@);
    let d = missing_packages(members.last().build_dependencies@);
    if 0 <= i < member.dependencies@.len() && member.dependencies@[i].1 == RockMatch::Missing {
        let view = install_view(member.dependencies@[i].0);
        if m < before.len() {
            lemma_all_missing(before, m, i);
            let k = choose|k: int| 0 <= k < a.len() && a[k] == view;
            assert(all_missing(members)[k] == view);
        } else {
            lemma_missing(member.dependencies@, i);
            let k = choose|k: int| 0 <= k < c.len() && c[k] == view;
            assert(all_missing(members)[a.len() + k] == view);
        }
    }
    if 0 <= i < member.build_dependencies@.len() && member.build_dependencies@[i].1
        == RockMatch::Missing {
        let view = install_view(member.build_dependencies@[i].0);
        if m < before.len() {
            lemma_all_missing(before, m, i);
            let k = choose|k: int| 0 <= k < b.len() && b[k] == view;
            assert(all_missing_build(members)[k] == view);
        } else {
            lemma_missing(member.build_dependencies@, i);
            let k = choose|k: int| 0 <= k < d.len() && d[k] == view;
            assert(all_missing_build(members)[b.len() + k] == view);
        }
    }
}

/// The specification installs one of the member's missing dependencies.
pub open spec fn is_missing_in(view: InstallView, deps: Seq<(LuaDependencySpec, RockMatch)>) -> bool {
    exists|i: int|
        0 <= i < deps.len() && (#[trigger] deps[i]).1 == RockMatch::Missing && installs(
            view,
            deps[i].0,
        )
}

proof fn lemma_only_all_missing(members: Seq<MemberDependencies>, k: int)
    ensures
        0 <= k < all_missing(members).len() ==> exists|m: int|
            0 <= m < members.len() && is_missing_in(
                all_missing(members)[k],
                (#[trigger] members[m]).dependencies@,
            ),
        0 <= k < all_missing_build(members).len() ==> exists|m: int|
            0 <= m < members.len() && is_missing_in(
                all_missing_build(members)[k],
                (#[trigger] members[m]).build_dependencies@,
            ),
    decreases members.len(),
{
    if 0 < members.len() {
        let before = members.drop_last();
        let last = members[members.len() - 1];
        let a = all_missing(before);
        let b = all_missing_build(before);
        lemma_only_all_missing(before, k);
        if 0 <= k < all_missing(members).len() {
            let view = all_missing(members)[k];
            if k < a.len() {
                assert(view == a[k]);
                let m = choose|m: int|
                    0 <= m < before.len() && is_missing_in(a[k], (
                    #[trigger] before[m]).dependencies@);
                assert(members[m] == before[m]);
            } else {
                lemma_only_missing(last.dependencies@, k - a.len());
                let i = choose|i: int|
                    0 <= i < last.dependencies@.len() && (#[trigger] last.dependencies@[i]).1
                        == RockMatch::Missing && view == install_view(last.dependencies@[i].0);
                assert(installs(view, last.dependencies@[i].0));
                assert(is_missing_in(view, last.dependencies@));
            }
        }
        if 0 <= k < all_missing_build(members).len() {
            let view = all_missing_build(members)[k];
            if k < b.len() {
                assert(view == b[k]);
                let m = choose|m: int|
                    0 <= m < before.len() && is_missing_in(
                        b[k],
                        (#[trigger] before[m]).build_dependencies@,
                    );
                assert(members[m] == before[m]);
            } else {
                lemma_only_missing(last.build_dependencies@, k - b.len());
                let i = choose|i: int|
                    0 <= i < last.build_dependencies@.len() && (
                    #[trigger] last.build_dependencies@[i]).1 == RockMatch::Missing && view
                        == install_view(last.build_dependencies@[i].0);
                assert(installs(view, last.build_dependencies@[i].0));
                assert(is_missing_in(view, last.build_dependencies@));
            }
        }
    }
}

/// The dependencies that the step installs.
pub open spec fn dependencies_of(step: WorkspaceStep) -> Seq<PackageInstallSpec> {
    match step {
        WorkspaceStep::EnsureLuaRocks(_, deps) => deps@,
        WorkspaceStep::InstallDependencies(deps) => deps@,
        _ => Seq::empty(),
    }
}

/// The build dependencies that the step installs.
pub open spec fn build_dependencies_of(step: WorkspaceStep) -> Seq<PackageInstallSpec> {
    match step {
        WorkspaceStep::EnsureLuaRocks(build, _) => build@,
        _ => Seq::empty(),
    }
}

/// Every missing dependency of every member is installed, each once, and nothing else; so are the
/// build dependencies, and LuaRocks is made ready exactly if there are such to install.
pub proof fn missing_dependencies_of_every_member_are_installed(
    build: &BuildWorkspace,
    members: Vec<MemberDependencies>,
    r: WorkspaceStep,
    m: int,
    i: int,
)
    requires
        call_ensures(BuildWorkspace::after_reading, (build, members), r),
        0 <= m < members@.len(),
    ensures
        r is EnsureLuaRocks || r is InstallDependencies,
        r is EnsureLuaRocks <==> 0 < build_dependencies_of(r).len(),
        0 <= i < members@[m].dependencies@.len() && members@[m].dependencies@[i].1
            == RockMatch::Missing ==> exists|k: int|
            0 <= k < dependencies_of(r).len() && installs(
                (#[trigger] dependencies_of(r)[k])@,
                members@[m].dependencies@[i].0,
            ),
        0 <= i < members@[m].build_dependencies@.len() && members@[m].build_dependencies@[i].1
            == RockMatch::Missing ==> exists|k: int|
            0 <= k < build_dependencies_of(r).len() && installs(
                (#[trigger] build_dependencies_of(r)[k])@,
                members@[m].build_dependencies@[i].0,
            ),
        forall|k: int|
            0 <= k < dependencies_of(r).len() ==> exists|n: int|
                0 <= n < members@.len() && is_missing_in(
                    (#[trigger] dependencies_of(r)[k])@,
                    (#[trigger] members@[n]).dependencies@,
                ),
        forall|k: int|
            0 <= k < build_dependencies_of(r).len() ==> exists|n: int|
                0 <= n < members@.len() && is_missing_in(
                    (#[trigger] build_dependencies_of(r)[k])@,
                    (#[trigger] members@[n]).build_dependencies@,
                ),
        forall|j: int, k: int|
            0 <= j < k < dependencies_of(r).len() ==> (#[trigger] dependencies_of(r)[j])@ != (
            #[trigger] dependencies_of(r)[k])@,
        forall|j: int, k: int|
            0 <= j < k < build_dependencies_of(r).len() ==> (#[trigger] build_dependencies_of(
                r,
            )[j])@ != (#[trigger] build_dependencies_of(r)[k])@,
{
    let all = all_missing(members@);
    let all_build = all_missing_build(members@);
    let deps = install_views(dependencies_of(r));
    let dev = install_views(build_dependencies_of(r));
    assert(deps == unique_views(all));
    unique_views_are_the_views(all);
    unique_views_are_the_views(all_build);
    assert(dev == unique_views(all_build)) by {
        if all_build.len() == 0 {
            assert(unique_views(all_build).len() == 0);
        }
    }
    if 0 < all_build.len() {
        assert(all_build.contains(all_build[0]));
        assert(unique_views(all_build).contains(all_build[0]));
    }
    assert(dev.len() == build_dependencies_of(r).len());
    lemma_all_missing(members@, m, i);
    if 0 <= i < members@[m].dependencies@.len() && members@[m].dependencies@[i].1
        == RockMatch::Missing {
        let view = install_view(members@[m].dependencies@[i].0);
        assert(unique_views(all).contains(view));
        let k = choose|k: int| 0 <= k < deps.len() && deps[k] == view;
        assert(installs(dependencies_of(r)[k]@, members@[m].dependencies@[i].0));
    }
    if 0 <= i < members@[m].build_dependencies@.len() && members@[m].build_dependencies@[i].1
        == RockMatch::Missing {
        let view = install_view(members@[m].build_dependencies@[i].0);
        assert(unique_views(all_build).contains(view));
        let k = choose|k: int| 0 <= k < dev.len() && dev[k] == view;
        assert(installs(build_dependencies_of(r)[k]@, members@[m].build_dependencies@[i].0));
    }
    assert forall|k: int| 0 <= k < dependencies_of(r).len() implies exists|n: int|
        0 <= n < members@.len() && is_missing_in(
            (#[trigger] dependencies_of(r)[k])@,
            (#[trigger] members@[n]).dependencies@,
        ) by {
        let view = dependencies_of(r)[k]@;
        assert(deps[k] == view);
        assert(unique_views(all).contains(view));
        let j = choose|j: int| 0 <= j < all.len() && all[j] == view;
        lemma_only_all_missing(members@, j);
    }
    assert forall|k: int| 0 <= k < build_dependencies_of(r).len() implies exists|n: int|
        0 <= n < members@.len() && is_missing_in(
            (#[trigger] build_dependencies_of(r)[k])@,
            (#[trigger] members@[n]).build_dependencies@,
        ) by {
        let view = build_dependencies_of(r)[k]@;
        assert(dev[k] == view);
        assert(unique_views(all_build).contains(view));
        let j = choose|j: int| 0 <= j < all_build.len() && all_build[j] == view;
        lemma_only_all_missing(members@, j);
    }
    assert forall|j: int, k: int| 0 <= j < k < dependencies_of(r).len() implies (
    #[trigger] dependencies_of(r)[j])@ != (#[trigger] dependencies_of(r)[k])@ by {
        assert(deps[j] == dependencies_of(r)[j]@ && deps[k] == dependencies_of(r)[k]@);
    }
    assert forall|j: int, k: int| 0 <= j < k < build_dependencies_of(r).len() implies (
    #[trigger] build_dependencies_of(r)[j])@ != (#[trigger] build_dependencies_of(r)[k])@ by {
        assert(dev[j] == build_dependencies_of(r)[j]@ && dev[k] == build_dependencies_of(r)[k]@);
    }
}

/// A step that failed is reported as that step, with the reason.
pub proof fn failed_steps_are_told_apart(step: &WorkspaceStep, text: String, r: BuildWorkspaceError)
    requires
        !(step is ReadMembers) && !(step is Finished),
        call_ensures(WorkspaceStep::failed, (step, text), r),
    ensures
        step is SyncDependencies <==> r is SyncDependencies,
        step is SyncBuildDependencies <==> r is SyncBuildDependencies,
        step is OpenLuaRocks <==> r is LuaRocks,
        step is EnsureLuaRocks <==> r is LuaRocksInstall,
        step is InstallBuildDependencies <==> r is InstallBuildDependencies,
        step is InstallDependencies <==> r is InstallDependencies,
        step is BuildMembers <==> r is Build,
        step is SyncDependencies ==> r->SyncDependencies_0 == text,
        step is SyncBuildDependencies ==> r->SyncBuildDependencies_0 == text,
        step is OpenLuaRocks ==> r->LuaRocks_0 == text,
        step is EnsureLuaRocks ==> r->LuaRocksInstall_0 == text,
        step is InstallBuildDependencies ==> r->InstallBuildDependencies_0 == text,
        step is InstallDependencies ==> r->InstallDependencies_0 == text,
        step is BuildMembers ==> r->Build_0 == text,
{
}

proof fn lemma_entrypoints(rocks: Seq<(String, bool)>)
    ensures
        entrypoints_of(rocks) == rocks.filter(|rock: (String, bool)| rock.1).map_values(
            |rock: (String, bool)| rock.0@,
        ),
    decreases rocks.len(),
{
    reveal(Seq::filter);
    let keep = |rock: (String, bool)| rock.1;
    let id = |rock: (String, bool)| rock.0@;
    if 0 < rocks.len() {
        let before = rocks.drop_last();
        lemma_entrypoints(before);
        let kept = before.filter(keep);
        assert(kept.push(rocks.last()).map_values(id) == kept.map_values(id).push(
            id(rocks.last()),
        ));
    } else {
        assert(rocks.filter(keep).map_values(id) == Seq::<Seq<char>>::empty());
    }
}

/// A project is locked as an entrypoint first. Then every rock that was an entrypoint becomes a
/// dependency of it and no entrypoint any more, in that order; other rocks stay as they are.
pub proof fn entrypoints_become_dependencies(
    package: &str,
    rocks: Vec<(String, bool)>,
    r: Vec<LockChange>,
    i: int,
)
    requires
        call_ensures(lock_project, (package, rocks), r),
    ensures
        ({
            let ids = rocks@.filter(|rock: (String, bool)| rock.1).map_values(
                |rock: (String, bool)| rock.0@,
            );
            &&& r@.len() == 1 + 2 * ids.len()
            &&& r@[0] is AddEntrypoint
            &&& r@[0]->AddEntrypoint_0@ == package@
            &&& 0 <= i < ids.len() ==> {
                &&& r@[1 + 2 * i] is AddDependency
                &&& r@[1 + 2 * i]->AddDependency_0@ == package@
                &&& r@[1 + 2 * i]->AddDependency_1@ == ids[i]
                &&& r@[2 + 2 * i] is RemoveEntrypoint
                &&& r@[2 + 2 * i]->RemoveEntrypoint_0@ == ids[i]
            }
        }),
{
    lemma_entrypoints(rocks@);
    let deps = entrypoints_of(rocks@);
    let changes = r@.skip(1);
    if 0 <= i < deps.len() {
        assert(demotes(package@, deps[i], changes[2 * i], changes[2 * i + 1]));
        assert(changes[2 * i] == r@[1 + 2 * i]);
        assert(changes[2 * i + 1] == r@[2 + 2 * i]);
    }
}

/// An error of a build says what failed, and why.
pub proof fn workspace_errors_say_what_failed(err: &BuildWorkspaceError, r: String)
    requires
        call_ensures(BuildWorkspaceError::to_message, (err,), r),
    ensures
        err is LocalProjectTomlValidation ==> r@ == err->LocalProjectTomlValidation_0@,
        err is Workspace ==> r@ == err->Workspace_0@,
        err is WorkspaceTree ==> r@ == err->WorkspaceTree_0@,
        err is LuaInstallation ==> r@ == err->LuaInstallation_0@,
        err is Tree ==> r@ == err->Tree_0@,
        err is LuaRocks ==> r@ == err->LuaRocks_0@,
        err is LuaRocksInstall ==> r@ == err->LuaRocksInstall_0@,
        err is InstallDependencies ==> r@ == "error installind dependencies:\n"@ + err->InstallDependencies_0@,
        err is InstallBuildDependencies ==> r@ == "error installind build dependencies:\n"@
            + err->InstallBuildDependencies_0@,
        err is SyncDependencies ==> r@ == "syncing dependencies with the project lockfile failed.\nUse --no-lock to force a new build.\n\n"@
            + err->SyncDependencies_0@,
        err is SyncBuildDependencies ==> r@ == "syncing build dependencies with the project lockfile failed.\nUse --no-lock to force a new build.\n\n"@
            + err->SyncBuildDependencies_0@,
        err is Build ==> r@ == "error building project:\n"@ + err->Build_0@,
{
}

/// What is installed for a dependency.
pub open spec fn wanted(dep: LuaDependencySpec) -> InstallView {
    InstallView {
        name: dep.package_req.name@,
        version: dep.package_req.version_req.text@,
        any: dep.package_req.version_req.any,
        entry_type: EntryType::Entrypoint,
        pin: dep.pin,
        opt: dep.opt,
        source: if dep.source is Some {
            Some((dep.source->0).0@)
        } else {
            None
        },
    }
}

/// What is installed for the dependencies that are missing, in their order.
pub open spec fn wanted_of(deps: Seq<(LuaDependencySpec, RockMatch)>) -> Seq<InstallView> {
    deps.filter(
        |dep: (LuaDependencySpec, RockMatch)| dep.1 == RockMatch::Missing,
    ).map_values(|dep: (LuaDependencySpec, RockMatch)| wanted(dep.0))
}

proof fn lemma_wanted(deps: Seq<(LuaDependencySpec, RockMatch)>)
    ensures
        missing_packages(deps) == wanted_of(deps),
    decreases deps.len(),
{
    reveal(Seq::filter);
    let missing = |dep: (LuaDependencySpec, RockMatch)| dep.1 == RockMatch::Missing;
    let view = |dep: (LuaDependencySpec, RockMatch)| wanted(dep.0);
    if 0 < deps.len() {
        let before = deps.drop_last();
        lemma_wanted(before);
        let kept = before.filter(missing);
        let last = deps.last();
        assert(install_view(last.0) == wanted(last.0));
        assert(kept.push(last).map_values(view) == kept.map_values(view).push(view(last)));
    } else {
        assert(deps.filter(missing).map_values(view) == Seq::<InstallView>::empty());
    }
}

proof fn lemma_all_wanted(members: Seq<MemberDependencies>)
    ensures
        all_missing(members) == members.map_values(
            |member: MemberDependencies| wanted_of(member.dependencies@),
        ).flatten(),
        all_missing_build(members) == members.map_values(
            |member: MemberDependencies| wanted_of(member.build_dependencies@),
        ).flatten(),
    decreases members.len(),
{
    let deps = |member: MemberDependencies| wanted_of(member.dependencies@);
    let build = |member: MemberDependencies| wanted_of(member.build_dependencies@);
    let a = members.map_values(deps);
    let b = members.map_values(build);
    a.lemma_flatten_and_flatten_alt_are_equivalent();
    b.lemma_flatten_and_flatten_alt_are_equivalent();
    if 0 < members.len() {
        let before = members.drop_last();
        lemma_all_wanted(before);
        before.map_values(deps).lemma_flatten_and_flatten_alt_are_equivalent();
        before.map_values(build).lemma_flatten_and_flatten_alt_are_equivalent();
        assert(a.drop_last() == before.map_values(deps));
        assert(b.drop_last() == before.map_values(build));
        lemma_wanted(members.last().dependencies@);
        lemma_wanted(members.last().build_dependencies@);
        assert(a.last() == wanted_of(members.last().dependencies@));
        assert(b.last() == wanted_of(members.last().build_dependencies@));
    }
}

/// `a` stands before `b` in the list.
pub open spec fn comes_before(all: Seq<InstallView>, a: InstallView, b: InstallView) -> bool {
    exists|i: int, j: int|
        0 <= i < j < all.len() && #[trigger] all[i] == a && #[trigger] all[j] == b
}

proof fn lemma_unique_in_order(all: Seq<InstallView>)
    ensures
        forall|i: int, j: int|
            0 <= i < j < unique_views(all).len() ==> comes_before(
                all,
                #[trigger] unique_views(all)[i],
                #[trigger] unique_views(all)[j],
            ),
    decreases all.len(),
{
    if 0 < all.len() {
        let before = all.drop_last();
        let less = unique_views(before);
        let once = unique_views(all);
        lemma_unique_in_order(before);
        unique_views_are_the_views(before);
        assert forall|i: int, j: int| 0 <= i < j < once.len() implies comes_before(
            all,
            #[trigger] once[i],
            #[trigger] once[j],
        ) by {
            assert(once[i] == less[i]);
            if j < less.len() {
                assert(once[j] == less[j]);
                assert(comes_before(before, less[i], less[j]));
                let (p, q) = choose|p: int, q: int|
                    0 <= p < q < before.len() && #[trigger] before[p] == less[i]
                        && #[trigger] before[q] == less[j];
                assert(all[p] == less[i] && all[q] == less[j]);
            } else {
                assert(unique_views(before).contains(less[i]));
                let p = choose|p: int| 0 <= p < before.len() && before[p] == less[i];
                assert(all[p] == less[i]);
                assert(all[all.len() - 1] == once[j]);
            }
        }
    }
}

/// What is missing is added to the list in the order of the dependencies.
pub proof fn missing_dependencies_are_added_in_order(
    project: MemberDependencies,
    deps: &mut Vec<PackageInstallSpec>,
    build: &mut Vec<PackageInstallSpec>,
)
    requires
        call_ensures(prepare_dependencies, (project, deps, build), ()),
    ensures
        final(deps)@.map_values(|spec: PackageInstallSpec| spec@) == old(deps)@.map_values(
            |spec: PackageInstallSpec| spec@,
        ) + wanted_of(project.dependencies@),
        final(build)@.map_values(|spec: PackageInstallSpec| spec@) == old(build)@.map_values(
            |spec: PackageInstallSpec| spec@,
        ) + wanted_of(project.build_dependencies@),
{
    lemma_wanted(project.dependencies@);
    lemma_wanted(project.build_dependencies@);
}

/// Specifications that are left stay in their order.
pub proof fn specifications_stay_in_order(
    specs: Vec<PackageInstallSpec>,
    r: Vec<PackageInstallSpec>,
    i: int,
    j: int,
)
    requires
        call_ensures(unique_specs, (specs,), r),
        0 <= i < j < r@.len(),
    ensures
        comes_before(specs@.map_values(|spec: PackageInstallSpec| spec@), r@[i]@, r@[j]@),
{
    let all = install_views(specs@);
    lemma_unique_in_order(all);
    assert(install_views(r@)[i] == r@[i]@ && install_views(r@)[j] == r@[j]@);
}

/// What is installed for the members stands in the order of the members and of their
/// dependencies.
pub proof fn members_are_served_in_order(
    build: &BuildWorkspace,
    members: Vec<MemberDependencies>,
    r: WorkspaceStep,
    i: int,
    j: int,
)
    requires
        call_ensures(BuildWorkspace::after_reading, (build, members), r),
        0 <= i < j,
    ensures
        j < dependencies_of(r).len() ==> comes_before(
            members@.map_values(
                |member: MemberDependencies| wanted_of(member.dependencies@),
            ).flatten(),
            dependencies_of(r)[i]@,
            dependencies_of(r)[j]@,
        ),
        j < build_dependencies_of(r).len() ==> comes_before(
            members@.map_values(
                |member: MemberDependencies| wanted_of(member.build_dependencies@),
            ).flatten(),
            build_dependencies_of(r)[i]@,
            build_dependencies_of(r)[j]@,
        ),
{
    lemma_all_wanted(members@);
    lemma_unique_in_order(all_missing(members@));
    lemma_unique_in_order(all_missing_build(members@));
    let deps = install_views(dependencies_of(r));
    let dev = install_views(build_dependencies_of(r));
    if j < dependencies_of(r).len() {
        assert(deps[i] == dependencies_of(r)[i]@ && deps[j] == dependencies_of(r)[j]@);
    }
    if j < build_dependencies_of(r).len() {
        assert(dev[i] == build_dependencies_of(r)[i]@ && dev[j] == build_dependencies_of(r)[j]@);
    }
}

} // verus!
