//! Adding dependencies to a project.

use crate::lua_dependency::{DependencyType, LuaDependencyType};
use crate::package::{PackageName, PackageReq};
use crate::text::texts;
use vstd::prelude::*;

verus! {

/// A package to add, by a requirement on it or by the git repository it is in.
#[derive(Debug)]
pub enum PackageReqOrGitShorthand {
    PackageReq(PackageReq),
    GitShorthand(String),
}

/// What to add to a project.
#[derive(Debug)]
pub struct Add {
    /// Packages to add to the dependencies.
    pub package_req: Vec<PackageReqOrGitShorthand>,
    /// Reinstall without prompt if a package is already installed.
    pub force: bool,
    /// Packages to add to the build dependencies.
    pub build: Option<Vec<PackageReqOrGitShorthand>>,
    /// Packages to add to the test dependencies.
    pub test: Option<Vec<PackageReqOrGitShorthand>>,
    /// Project to modify.
    pub package: Option<PackageName>,
}

/// A step of adding dependencies.
#[derive(Debug)]
pub enum AddStep {
    /// Select the project to modify: the one with the name, or without a name the only one.
    Select(Option<PackageName>),
    /// Add these requirements to the project.
    Add(DependencyType<PackageReq>),
    /// Add these git repositories to the project.
    AddGit(LuaDependencyType<String>),
    /// Sync the dependencies, if there is a lockfile.
    SyncDependencies,
    /// Sync the build dependencies, if there is a lockfile.
    SyncBuildDependencies,
    /// Sync the test dependencies, if there is a lockfile.
    SyncTestDependencies,
}

/// The kinds of dependencies.
#[derive(Debug, Clone, Copy, PartialEq, Eq, Structural)]
pub enum DependencyKind {
    Regular,
    Build,
    Test,
}

/// The requirements in the list.
pub open spec fn requirements(all: Seq<PackageReqOrGitShorthand>) -> Seq<PackageReq>
    decreases all.len(),
{
    if all.len() == 0 {
        Seq::empty()
    } else {
        match all.last() {
            PackageReqOrGitShorthand::PackageReq(req) => requirements(all.drop_last()).push(req),
            PackageReqOrGitShorthand::GitShorthand(_) => requirements(all.drop_last()),
        }
    }
}

/// The git repositories in the list.
pub open spec fn repositories(all: Seq<PackageReqOrGitShorthand>) -> Seq<Seq<char>>
    decreases all.len(),
{
    if all.len() == 0 {
        Seq::empty()
    } else {
        match all.last() {
            PackageReqOrGitShorthand::PackageReq(_) => repositories(all.drop_last()),
            PackageReqOrGitShorthand::GitShorthand(url) => repositories(all.drop_last()).push(url@),
        }
    }
}

/// The requirements and the git repositories in the list.
pub fn partition(all: &Vec<PackageReqOrGitShorthand>) -> (r: (Vec<PackageReq>, Vec<String>))
    ensures
        r.0@ == requirements(all@),
        texts(r.1@) == repositories(all@),
{
    let mut reqs: Vec<PackageReq> = Vec::new();
    let mut urls: Vec<String> = Vec::new();
    let mut i: usize = 0;
    assert(texts(urls@) == repositories(all@.take(0)));
    while i < all.len()
        invariant
            i <= all@.len(),
            reqs@ == requirements(all@.take(i as int)),
            texts(urls@) == repositories(all@.take(i as int)),
        decreases all@.len() - i,
    {
        let ghost before = urls@;
        assert(all@.take(i + 1).drop_last() == all@.take(i as int));
        match &all[i] {
            PackageReqOrGitShorthand::PackageReq(req) => reqs.push(req.copied()),
            PackageReqOrGitShorthand::GitShorthand(url) => {
                urls.push(url.clone());
                assert(texts(urls@) == texts(before).push(url@));
            },
        }
        i = i + 1;
    }
    assert(all@.take(all@.len() as int) == all@);
    (reqs, urls)
}

/// Every package of the list is either among the requirements or among the git repositories.
pub proof fn partition_is_complete(all: Seq<PackageReqOrGitShorthand>)
    ensures
        requirements(all).len() + repositories(all).len() == all.len(),
        forall|i: int|
            0 <= i < all.len() ==> match #[trigger] all[i] {
                PackageReqOrGitShorthand::PackageReq(req) => requirements(all).contains(req),
                PackageReqOrGitShorthand::GitShorthand(url) => repositories(all).contains(url@),
            },
    decreases all.len(),
{
    if 0 < all.len() {
        let before = all.drop_last();
        partition_is_complete(before);
        assert forall|i: int| 0 <= i < all.len() implies match #[trigger] all[i] {
            PackageReqOrGitShorthand::PackageReq(req) => requirements(all).contains(req),
            PackageReqOrGitShorthand::GitShorthand(url) => repositories(all).contains(url@),
        } by {
            if i < before.len() {
                assert(before[i] == all[i]);
                match all[i] {
                    PackageReqOrGitShorthand::PackageReq(req) => {
                        let reqs = requirements(before);
                        let k = choose|k: int| 0 <= k < reqs.len() && reqs[k] == req;
                        assert(requirements(all)[k] == req);
                    },
                    PackageReqOrGitShorthand::GitShorthand(url) => {
                        let urls = repositories(before);
                        let k = choose|k: int| 0 <= k < urls.len() && urls[k] == url@;
                        assert(repositories(all)[k] == url@);
                    },
                }
            } else {
                match all[i] {
                    PackageReqOrGitShorthand::PackageReq(req) => {
                        assert(requirements(all).last() == req);
                    },
                    PackageReqOrGitShorthand::GitShorthand(url) => {
                        assert(repositories(all).last() == url@);
                    },
                }
            }
        }
    }
}

/// The step adds these requirements.
pub open spec fn adds(kind: DependencyKind, reqs: Seq<PackageReq>, step: AddStep) -> bool {
    match kind {
        DependencyKind::Regular => step matches AddStep::Add(DependencyType::Regular(all)) && all@
            == reqs,
        DependencyKind::Build => step matches AddStep::Add(DependencyType::Build(all)) && all@
            == reqs,
        DependencyKind::Test => step matches AddStep::Add(DependencyType::Test(all)) && all@
            == reqs,
    }
}

/// The step adds these git repositories.
pub open spec fn adds_git(kind: DependencyKind, urls: Seq<Seq<char>>, step: AddStep) -> bool {
    match kind {
        DependencyKind::Regular => step matches AddStep::AddGit(LuaDependencyType::Regular(all))
            && texts(all@) == urls,
        DependencyKind::Build => step matches AddStep::AddGit(LuaDependencyType::Build(all))
            && texts(all@) == urls,
        DependencyKind::Test => step matches AddStep::AddGit(LuaDependencyType::Test(all)) && texts(
            all@,
        ) == urls,
    }
}

/// The steps that add the packages of one kind: none where there are none, and else the
/// requirements and then the git repositories.
pub open spec fn are_add_steps(
    kind: DependencyKind,
    all: Seq<PackageReqOrGitShorthand>,
    steps: Seq<AddStep>,
) -> bool {
    if all.len() == 0 {
        steps.len() == 0
    } else {
        &&& steps.len() == 2
        &&& adds(kind, requirements(all), steps[0])
        &&& adds_git(kind, repositories(all), steps[1])
    }
}

/// The step that syncs the packages of one kind.
pub open spec fn sync_step(kind: DependencyKind) -> AddStep {
    match kind {
        DependencyKind::Regular => AddStep::SyncDependencies,
        DependencyKind::Build => AddStep::SyncBuildDependencies,
        DependencyKind::Test => AddStep::SyncTestDependencies,
    }
}

/// The steps that sync the packages of one kind: none where there are none.
pub open spec fn sync_steps(kind: DependencyKind, all: Seq<PackageReqOrGitShorthand>) -> Seq<
    AddStep,
> {
    if all.len() == 0 {
        Seq::empty()
    } else {
        seq![sync_step(kind)]
    }
}

/// The packages, where there are any.
pub open spec fn packages_of(all: Option<Vec<PackageReqOrGitShorthand>>) -> Seq<
    PackageReqOrGitShorthand,
> {
    match all {
        Some(all) => all@,
        None => Seq::empty(),
    }
}

/// The number of steps that add the packages.
pub open spec fn add_count(all: Seq<PackageReqOrGitShorthand>) -> int {
    if all.len() == 0 {
        0
    } else {
        2
    }
}

/// The steps that add the packages: first the project is selected, then all kinds are added, and
/// then all kinds are synced.
pub open spec fn are_steps(data: Add, steps: Seq<AddStep>) -> bool {
    let regular = data.package_req@;
    let build = packages_of(data.build);
    let test = packages_of(data.test);
    let a = 1 + add_count(regular);
    let b = a + add_count(build);
    let c = b + add_count(test);
    &&& c <= steps.len()
    &&& steps[0] == AddStep::Select(data.package)
    &&& are_add_steps(DependencyKind::Regular, regular, steps.subrange(1, a))
    &&& are_add_steps(DependencyKind::Build, build, steps.subrange(a, b))
    &&& are_add_steps(DependencyKind::Test, test, steps.subrange(b, c))
    &&& steps.skip(c) == sync_steps(DependencyKind::Regular, regular) + sync_steps(
        DependencyKind::Build,
        build,
    ) + sync_steps(DependencyKind::Test, test)
}

/// The steps that add the packages of one kind.
fn add_steps(kind: DependencyKind, all: &Vec<PackageReqOrGitShorthand>) -> (r: Vec<AddStep>)
    ensures
        are_add_steps(kind, all@, r@),
{
    let mut r: Vec<AddStep> = Vec::new();
    if 0 < all.len() {
        let (reqs, urls) = partition(all);
        match kind {
            DependencyKind::Regular => {
                r.push(AddStep::Add(DependencyType::Regular(reqs)));
                r.push(AddStep::AddGit(LuaDependencyType::Regular(urls)));
            },
            DependencyKind::Build => {
                r.push(AddStep::Add(DependencyType::Build(reqs)));
                r.push(AddStep::AddGit(LuaDependencyType::Build(urls)));
            },
            DependencyKind::Test => {
                r.push(AddStep::Add(DependencyType::Test(reqs)));
                r.push(AddStep::AddGit(LuaDependencyType::Test(urls)));
            },
        }
    }
    r
}

/// The steps that add the packages to the project.
pub fn add(data: Add) -> (r: Vec<AddStep>)
    ensures
        are_steps(data, r@),
{
    let package_req = data.package_req;
    let build = match data.build {
        Some(all) => all,
        None => Vec::new(),
    };
    let test = match data.test {
        Some(all) => all,
        None => Vec::new(),
    };
    let mut r: Vec<AddStep> = Vec::new();
    r.push(AddStep::Select(data.package));
    let mut first = add_steps(DependencyKind::Regular, &package_req);
    let mut more = add_steps(DependencyKind::Build, &build);
    let mut last = add_steps(DependencyKind::Test, &test);
    let ghost regular = first@;
    let ghost second = more@;
    let ghost third = last@;
    r.append(&mut first);
    r.append(&mut more);
    r.append(&mut last);
    assert(r@ == seq![AddStep::Select(data.package)] + regular + second + third);
    if 0 < package_req.len() {
        r.push(AddStep::SyncDependencies);
    }
    if 0 < build.len() {
        r.push(AddStep::SyncBuildDependencies);
    }
    if 0 < test.len() {
        r.push(AddStep::SyncTestDependencies);
    }
    proof {
        let a = 1 + add_count(package_req@);
        let b = a + add_count(build@);
        let c = b + add_count(test@);
        assert(r@.subrange(1, a) == regular);
        assert(r@.subrange(a, b) == second);
        assert(r@.subrange(b, c) == third);
        assert(r@.skip(c) == sync_steps(DependencyKind::Regular, package_req@) + sync_steps(
            DependencyKind::Build,
            build@,
        ) + sync_steps(DependencyKind::Test, test@));
    }
    r
}

/// The packages that were given for a kind of dependencies.
pub open spec fn given(data: Add, kind: DependencyKind) -> Seq<PackageReqOrGitShorthand> {
    match (kind, data.build, data.test) {
        (DependencyKind::Regular, _, _) => data.package_req@,
        (DependencyKind::Build, Some(all), _) => all@,
        (DependencyKind::Test, _, Some(all)) => all@,
        _ => Seq::empty(),
    }
}

/// The package requirements that a step adds to the dependencies of a kind.
pub open spec fn added_reqs(kind: DependencyKind, step: AddStep) -> Seq<PackageReq> {
    match (kind, step) {
        (DependencyKind::Regular, AddStep::Add(DependencyType::Regular(all))) => all@,
        (DependencyKind::Build, AddStep::Add(DependencyType::Build(all))) => all@,
        (DependencyKind::Test, AddStep::Add(DependencyType::Test(all))) => all@,
        _ => Seq::empty(),
    }
}

/// The git repositories that a step adds to the dependencies of a kind.
pub open spec fn added_urls(kind: DependencyKind, step: AddStep) -> Seq<Seq<char>> {
    match (kind, step) {
        (DependencyKind::Regular, AddStep::AddGit(LuaDependencyType::Regular(all))) => {
            all@.map_values(|url: String| url@)
        },
        (DependencyKind::Build, AddStep::AddGit(LuaDependencyType::Build(all))) => {
            all@.map_values(|url: String| url@)
        },
        (DependencyKind::Test, AddStep::AddGit(LuaDependencyType::Test(all))) => {
            all@.map_values(|url: String| url@)
        },
        _ => Seq::empty(),
    }
}

/// The package requirements that the steps add to the dependencies of a kind, one step after the
/// other.
pub open spec fn all_added_reqs(kind: DependencyKind, steps: Seq<AddStep>) -> Seq<PackageReq>
    decreases steps.len(),
{
    if steps.len() == 0 {
        Seq::empty()
    } else {
        all_added_reqs(kind, steps.drop_last()) + added_reqs(kind, steps.last())
    }
}

/// The git repositories that the steps add to the dependencies of a kind, one step after the
/// other.
pub open spec fn all_added_urls(kind: DependencyKind, steps: Seq<AddStep>) -> Seq<Seq<char>>
    decreases steps.len(),
{
    if steps.len() == 0 {
        Seq::empty()
    } else {
        all_added_urls(kind, steps.drop_last()) + added_urls(kind, steps.last())
    }
}

proof fn lemma_added_concat(kind: DependencyKind, a: Seq<AddStep>, b: Seq<AddStep>)
    ensures
        all_added_reqs(kind, a + b) == all_added_reqs(kind, a) + all_added_reqs(kind, b),
        all_added_urls(kind, a + b) == all_added_urls(kind, a) + all_added_urls(kind, b),
    decreases b.len(),
{
    if b.len() == 0 {
        assert(a + b == a);
    } else {
        lemma_added_concat(kind, a, b.drop_last());
        assert((a + b).drop_last() == a + b.drop_last());
        assert((a + b).last() == b.last());
    }
}

proof fn lemma_filtered(all: Seq<PackageReqOrGitShorthand>)
    ensures
        requirements(all) == all.filter(
            |package: PackageReqOrGitShorthand| package is PackageReq,
        ).map_values(|package: PackageReqOrGitShorthand| package->PackageReq_0),
        repositories(all) == all.filter(
            |package: PackageReqOrGitShorthand| package is GitShorthand,
        ).map_values(|package: PackageReqOrGitShorthand| package->GitShorthand_0@),
    decreases all.len(),
{
    reveal(Seq::filter);
    let is_req = |package: PackageReqOrGitShorthand| package is PackageReq;
    let is_url = |package: PackageReqOrGitShorthand| package is GitShorthand;
    let req = |package: PackageReqOrGitShorthand| package->PackageReq_0;
    let url = |package: PackageReqOrGitShorthand| package->GitShorthand_0@;
    if 0 < all.len() {
        let before = all.drop_last();
        lemma_filtered(before);
        let reqs = before.filter(is_req);
        let urls = before.filter(is_url);
        assert(reqs.push(all.last()).map_values(req) == reqs.map_values(req).push(
            req(all.last()),
        ));
        assert(urls.push(all.last()).map_values(url) == urls.map_values(url).push(
            url(all.last()),
        ));
    } else {
        assert(all.filter(is_req).map_values(req) == Seq::<PackageReq>::empty());
        assert(all.filter(is_url).map_values(url) == Seq::<Seq<char>>::empty());
    }
}

proof fn lemma_added_by(
    kind: DependencyKind,
    of: DependencyKind,
    all: Seq<PackageReqOrGitShorthand>,
    steps: Seq<AddStep>,
)
    requires
        are_add_steps(of, all, steps),
    ensures
        kind == of ==> all_added_reqs(kind, steps) == requirements(all),
        kind == of ==> all_added_urls(kind, steps) == repositories(all),
        kind != of ==> all_added_reqs(kind, steps).len() == 0,
        kind != of ==> all_added_urls(kind, steps).len() == 0,
{
    reveal_with_fuel(all_added_reqs, 3);
    reveal_with_fuel(all_added_urls, 3);
    if 0 < all.len() {
        assert(steps.drop_last()[0] == steps[0]);
        assert(steps.drop_last().last() == steps[0]);
        assert(all_added_reqs(kind, steps) == added_reqs(kind, steps[0]) + added_reqs(
            kind,
            steps[1],
        ));
        assert(all_added_urls(kind, steps) == added_urls(kind, steps[0]) + added_urls(
            kind,
            steps[1],
        ));
    }
}

proof fn lemma_others_add_nothing(kind: DependencyKind, steps: Seq<AddStep>)
    requires
        forall|i: int|
            0 <= i < steps.len() ==> !((#[trigger] steps[i]) is Add) && !(steps[i] is AddGit),
    ensures
        all_added_reqs(kind, steps).len() == 0,
        all_added_urls(kind, steps).len() == 0,
    decreases steps.len(),
{
    if 0 < steps.len() {
        lemma_others_add_nothing(kind, steps.drop_last());
        assert(steps.last() == steps[steps.len() - 1]);
    }
}

/// Nothing that is given is lost or added to other dependencies: the requirements that the steps
/// of `add` add for a kind are the ones that were given for it, in their order, and so are the git
/// repositories. Together they are as many as the given packages, and each given package is among
/// them.
pub proof fn every_given_package_is_added(data: Add, steps: Vec<AddStep>, kind: DependencyKind)
    requires
        call_ensures(add, (data,), steps),
    ensures
        all_added_reqs(kind, steps@) == given(data, kind).filter(
            |package: PackageReqOrGitShorthand| package is PackageReq,
        ).map_values(|package: PackageReqOrGitShorthand| package->PackageReq_0),
        all_added_urls(kind, steps@) == given(data, kind).filter(
            |package: PackageReqOrGitShorthand| package is GitShorthand,
        ).map_values(|package: PackageReqOrGitShorthand| package->GitShorthand_0@),
        all_added_reqs(kind, steps@).len() + all_added_urls(kind, steps@).len() == given(
            data,
            kind,
        ).len(),
        forall|i: int|
            0 <= i < given(data, kind).len() ==> match #[trigger] given(data, kind)[i] {
                PackageReqOrGitShorthand::PackageReq(req) => all_added_reqs(
                    kind,
                    steps@,
                ).contains(req),
                PackageReqOrGitShorthand::GitShorthand(url) => all_added_urls(
                    kind,
                    steps@,
                ).contains(url@),
            },
{
    let regular = data.package_req@;
    let build = packages_of(data.build);
    let test = packages_of(data.test);
    let a = 1 + add_count(regular);
    let b = a + add_count(build);
    let c = b + add_count(test);
    let s = steps@;
    let parts = (s.take(1), s.subrange(1, a), s.subrange(a, b), s.subrange(b, c), s.skip(c));
    assert(s == parts.0 + parts.1 + parts.2 + parts.3 + parts.4);
    lemma_added_concat(kind, parts.0 + parts.1 + parts.2 + parts.3, parts.4);
    lemma_added_concat(kind, parts.0 + parts.1 + parts.2, parts.3);
    lemma_added_concat(kind, parts.0 + parts.1, parts.2);
    lemma_added_concat(kind, parts.0, parts.1);
    lemma_added_by(kind, DependencyKind::Regular, regular, parts.1);
    lemma_added_by(kind, DependencyKind::Build, build, parts.2);
    lemma_added_by(kind, DependencyKind::Test, test, parts.3);
    assert(parts.0[0] == s[0]);
    lemma_others_add_nothing(kind, parts.0);
    lemma_others_add_nothing(kind, parts.4);
    let all = given(data, kind);
    lemma_filtered(all);
    partition_is_complete(all);
    assert(all_added_reqs(kind, s) == requirements(all));
    assert(all_added_urls(kind, s) == repositories(all));
}

/// The steps of `add` first select the project, once. The dependencies of a kind are synced once
/// if packages were given for it, and not otherwise, and what is synced was added before.
pub proof fn what_is_added_is_synced(data: Add, steps: Vec<AddStep>)
    requires
        call_ensures(add, (data,), steps),
    ensures
        0 < steps@.len(),
        steps@[0] == AddStep::Select(data.package),
        forall|i: int| 0 < i < steps@.len() ==> !(#[trigger] steps@[i] is Select),
        data.package_req@.len() == 0 <==> !steps@.contains(AddStep::SyncDependencies),
        given(data, DependencyKind::Build).len() == 0 <==> !steps@.contains(
            AddStep::SyncBuildDependencies,
        ),
        given(data, DependencyKind::Test).len() == 0 <==> !steps@.contains(
            AddStep::SyncTestDependencies,
        ),
        steps@.len() == 1 + (if data.package_req@.len() == 0 {
            0int
        } else {
            3
        }) + (if given(data, DependencyKind::Build).len() == 0 {
            0int
        } else {
            3
        }) + (if given(data, DependencyKind::Test).len() == 0 {
            0int
        } else {
            3
        }),
        forall|i: int, j: int|
            0 <= i < j < steps@.len() && (#[trigger] steps@[i] is SyncDependencies || steps@[i]
                is SyncBuildDependencies || steps@[i] is SyncTestDependencies) ==> !(
            #[trigger] steps@[j] is Add) && !(steps@[j] is AddGit),
{
    let regular = data.package_req@;
    let build = packages_of(data.build);
    let test = packages_of(data.test);
    let a = 1 + add_count(regular);
    let b = a + add_count(build);
    let c = b + add_count(test);
    let s = steps@;
    let synced = s.skip(c);
    let first = s.subrange(1, a);
    let second = s.subrange(a, b);
    let third = s.subrange(b, c);
    assert forall|i: int| 1 <= i < c implies (#[trigger] s[i]) is Add || s[i] is AddGit by {
        if i < a {
            assert(s[i] == first[i - 1]);
        } else if i < b {
            assert(s[i] == second[i - a]);
        } else {
            assert(s[i] == third[i - b]);
        }
    }
    assert forall|i: int| c <= i < s.len() implies s[i] == synced[i - c] by {}
    assert forall|i: int| 0 <= i < synced.len() implies s[c + i] == #[trigger] synced[i] by {}
    let counts = (
        sync_steps(DependencyKind::Regular, regular).len() as int,
        sync_steps(DependencyKind::Build, build).len() as int,
    );
    if 0 < regular.len() {
        assert(synced[0] == AddStep::SyncDependencies);
        assert(s[c] == AddStep::SyncDependencies);
    }
    if 0 < build.len() {
        assert(synced[counts.0] == AddStep::SyncBuildDependencies);
        assert(s[c + counts.0] == AddStep::SyncBuildDependencies);
    }
    if 0 < test.len() {
        assert(synced[counts.0 + counts.1] == AddStep::SyncTestDependencies);
        assert(s[c + counts.0 + counts.1] == AddStep::SyncTestDependencies);
    }
}

/// Packages are parted into the requirements and the git repositories, each in their order; none
/// is lost, and none is added.
pub proof fn packages_are_parted(
    all: &Vec<PackageReqOrGitShorthand>,
    r: (Vec<PackageReq>, Vec<String>),
)
    requires
        call_ensures(partition, (all,), r),
    ensures
        r.0@ == all@.filter(
            |package: PackageReqOrGitShorthand| package is PackageReq,
        ).map_values(|package: PackageReqOrGitShorthand| package->PackageReq_0),
        r.1@.map_values(|url: String| url@) == all@.filter(
            |package: PackageReqOrGitShorthand| package is GitShorthand,
        ).map_values(|package: PackageReqOrGitShorthand| package->GitShorthand_0@),
        r.0@.len() + r.1@.len() == all@.len(),
{
    lemma_filtered(all@);
    partition_is_complete(all@);
    assert(texts(r.1@).len() == r.1@.len());
}

/// The place of a step: the project is selected first, then the regular, the build and the test
/// dependencies are added, the requirements of a kind before its git repositories, and then each
/// kind is synced in the same order.
pub open spec fn place_of(step: AddStep) -> int {
    match step {
        AddStep::Select(_) => 0,
        AddStep::Add(DependencyType::Regular(_)) => 1,
        AddStep::AddGit(LuaDependencyType::Regular(_)) => 2,
        AddStep::Add(DependencyType::Build(_)) => 3,
        AddStep::AddGit(LuaDependencyType::Build(_)) => 4,
        AddStep::Add(DependencyType::Test(_)) => 5,
        AddStep::AddGit(LuaDependencyType::Test(_)) => 6,
        AddStep::SyncDependencies => 7,
        AddStep::SyncBuildDependencies => 8,
        AddStep::SyncTestDependencies => 9,
        AddStep::Add(DependencyType::External(_)) => 10,
    }
}

/// The steps of `add` are taken in the order of their places, each at most once, and none of them
/// adds an external dependency.
pub proof fn steps_are_taken_in_their_places(data: Add, steps: Vec<AddStep>)
    requires
        call_ensures(add, (data,), steps),
    ensures
        forall|i: int, j: int|
            0 <= i < j < steps@.len() ==> place_of(#[trigger] steps@[i]) < place_of(
                #[trigger] steps@[j],
            ),
        forall|i: int| 0 <= i < steps@.len() ==> place_of(#[trigger] steps@[i]) < 10,
{
    let regular = data.package_req@;
    let build = packages_of(data.build);
    let test = packages_of(data.test);
    let a = 1 + add_count(regular);
    let b = a + add_count(build);
    let c = b + add_count(test);
    let s = steps@;
    let first = s.subrange(1, a);
    let second = s.subrange(a, b);
    let third = s.subrange(b, c);
    let synced = s.skip(c);
    let n = sync_steps(DependencyKind::Regular, regular).len() as int;
    let m = n + sync_steps(DependencyKind::Build, build).len();
    assert forall|i: int| 0 <= i < s.len() implies place_of(#[trigger] s[i]) == (if i == 0 {
        0
    } else if i < a {
        i
    } else if i < b {
        3 + (i - a)
    } else if i < c {
        5 + (i - b)
    } else if i < c + n {
        7
    } else if i < c + m {
        8
    } else {
        9int
    }) by {
        if 1 <= i < a {
            assert(s[i] == first[i - 1]);
        } else if a <= i < b {
            assert(s[i] == second[i - a]);
        } else if b <= i < c {
            assert(s[i] == third[i - b]);
        } else if c <= i {
            assert(s[i] == synced[i - c]);
        }
    }
    assert(synced.len() <= m + 1);
}

} // verus!
