//! The dependencies of a rock on other rocks.

use crate::package::{
    ExternalDependencySpec, OptState, PackageName, PackageReq, PackageVersionReq, PinnedState,
    RockSourceSpec,
};
use crate::table::{entries_map, later_wins, lemma_entries_map, lemma_entries_map_concat, Table};
use crate::text::{concat, copy};
use vstd::prelude::*;

verus! {

/// Why a text is no dependency.
#[derive(Debug)]
pub enum LuaDependencySpecParseError {
    /// The text is no requirement on a package, with what is said of that
    PackageReq(String),
}

impl LuaDependencySpecParseError {
    /// What the error says.
    pub fn to_message(&self) -> (r: String)
        ensures
            match self {
                LuaDependencySpecParseError::PackageReq(message) => r@ == message@,
            },
    {
        match self {
            LuaDependencySpecParseError::PackageReq(message) => copy(message.as_str()),
        }
    }
}

/// A dependency on a rock.
#[derive(Debug, Clone, PartialEq)]
pub struct LuaDependencySpec {
    pub package_req: PackageReq,
    pub pin: PinnedState,
    pub opt: OptState,
    pub source: Option<RockSourceSpec>,
}

/// How the dependency is written: the name alone where every version meets the requirement.
pub open spec fn dependency_text(dep: LuaDependencySpec) -> Seq<char> {
    if dep.package_req.version_req.any {
        dep.package_req.name@
    } else {
        dep.package_req.name@ + dep.package_req.version_req.text@
    }
}

/// A dependency on any source of what is required: it is not pinned, and it is needed.
pub open spec fn plain_dependency(package_req: PackageReq) -> LuaDependencySpec {
    LuaDependencySpec {
        package_req,
        pin: PinnedState::Unpinned,
        opt: OptState::Required,
        source: None,
    }
}

impl LuaDependencySpec {
    /// What is required.
    pub fn package_req(&self) -> (r: &PackageReq)
        ensures
            *r == self.package_req,
    {
        &self.package_req
    }

    /// Whether the rock stays at its version.
    pub fn pin(&self) -> (r: &PinnedState)
        ensures
            *r == self.pin,
    {
        &self.pin
    }

    /// Whether the rock is needed.
    pub fn opt(&self) -> (r: &OptState)
        ensures
            *r == self.opt,
    {
        &self.opt
    }

    /// Where the source of the rock is.
    pub fn source(&self) -> (r: &Option<RockSourceSpec>)
        ensures
            *r == self.source,
    {
        &self.source
    }

    /// What is required.
    pub fn into_package_req(self) -> (r: PackageReq)
        ensures
            r == self.package_req,
    {
        self.package_req
    }

    /// The name of the rock.
    pub fn name(&self) -> (r: &PackageName)
        ensures
            *r == self.package_req.name,
    {
        self.package_req.name()
    }

    /// The requirement on the version of the rock.
    pub fn version_req(&self) -> (r: &PackageVersionReq)
        ensures
            *r == self.package_req.version_req,
    {
        self.package_req.version_req()
    }

    /// The dependency on what is required.
    pub fn from_package_req(package_req: PackageReq) -> (r: LuaDependencySpec)
        ensures
            r == plain_dependency(package_req),
    {
        LuaDependencySpec {
            package_req,
            pin: PinnedState::Unpinned,
            opt: OptState::Required,
            source: None,
        }
    }

    /// The dependency on any version of the rock.
    pub fn from_package_name(name: PackageName) -> (r: LuaDependencySpec)
        ensures
            r == plain_dependency(r.package_req),
            r.package_req.name == name,
            r.package_req.version_req.any,
            dependency_text(r) == name@,
    {
        LuaDependencySpec::from_package_req(PackageReq::from_name(name))
    }

    /// The dependency on what a text requires, or why the text requires nothing.
    pub fn from_parsed(parsed: Result<PackageReq, String>) -> (r: Result<
        LuaDependencySpec,
        LuaDependencySpecParseError,
    >)
        ensures
            match parsed {
                Ok(package_req) => r == Ok::<LuaDependencySpec, LuaDependencySpecParseError>(
                    plain_dependency(package_req),
                ),
                Err(message) => r == Err::<LuaDependencySpec, LuaDependencySpecParseError>(
                    LuaDependencySpecParseError::PackageReq(message),
                ),
            },
    {
        match parsed {
            Ok(package_req) => Ok(LuaDependencySpec::from_package_req(package_req)),
            Err(message) => Err(LuaDependencySpecParseError::PackageReq(message)),
        }
    }

    /// How the dependency is written.
    pub fn to_text(&self) -> (r: String)
        ensures
            r@ == dependency_text(*self),
    {
        if self.version_req().is_any() {
            copy(self.name().0.as_str())
        } else {
            concat(self.name().0.as_str(), self.version_req().text.as_str())
        }
    }
}

/// The dependencies by the names of the rocks. Of two with the same name, the later one counts.
pub open spec fn dependency_map(deps: Seq<LuaDependencySpec>) -> Map<Seq<char>, LuaDependencySpec> {
    later_wins(deps.map_values(|dep: LuaDependencySpec| (dep.package_req.name@, dep)))
}

/// No two dependencies have the same name.
pub open spec fn distinct_names(deps: Seq<LuaDependencySpec>) -> bool {
    forall|i: int, j: int|
        0 <= i < j < deps.len() ==> #[trigger] deps[i].package_req.name@
            != #[trigger] deps[j].package_req.name@
}

/// The entries are the dependencies by their names.
spec fn are_named(entries: Seq<(PackageName, LuaDependencySpec)>) -> bool {
    forall|i: int|
        0 <= i < entries.len() ==> (#[trigger] entries[i]).0@ == entries[i].1.package_req.name@
}

/// The dependencies of the entries.
spec fn values_of(entries: Seq<(PackageName, LuaDependencySpec)>) -> Seq<LuaDependencySpec> {
    entries.map_values(|entry: (PackageName, LuaDependencySpec)| entry.1)
}

proof fn lemma_named_map(entries: Seq<(PackageName, LuaDependencySpec)>)
    requires
        are_named(entries),
    ensures
        entries_map(entries) == dependency_map(values_of(entries)),
    decreases entries.len(),
{
    let deps = values_of(entries);
    let pairs = deps.map_values(|dep: LuaDependencySpec| (dep.package_req.name@, dep));
    if 0 < entries.len() {
        let before = entries.drop_last();
        lemma_named_map(before);
        assert(values_of(before) == deps.drop_last());
        assert(deps.drop_last().map_values(
            |dep: LuaDependencySpec| (dep.package_req.name@, dep),
        ) == pairs.drop_last());
        assert(entries.last() == entries[entries.len() - 1]);
        assert(pairs.last() == (entries.last().0@, entries.last().1));
    } else {
        assert(pairs.len() == 0);
    }
}

/// In the map of named dependencies each one stands under its name.
proof fn lemma_named_values(entries: Seq<(PackageName, LuaDependencySpec)>)
    requires
        are_named(entries),
    ensures
        forall|name: Seq<char>| #[trigger]
            entries_map(entries).contains_key(name) ==> entries_map(
                entries,
            )[name].package_req.name@ == name,
    decreases entries.len(),
{
    if 0 < entries.len() {
        lemma_named_values(entries.drop_last());
        assert(entries.last() == entries[entries.len() - 1]);
    }
}

/// The dependencies with their names.
fn named(deps: Vec<LuaDependencySpec>) -> (r: Vec<(PackageName, LuaDependencySpec)>)
    ensures
        are_named(r@),
        values_of(r@) == deps@,
{
    let ghost all = deps@;
    let mut r: Vec<(PackageName, LuaDependencySpec)> = Vec::new();
    for dep in it: deps
        invariant
            it.seq() == all,
            are_named(r@),
            values_of(r@) == all.take(it.index()),
    {
        let ghost i = it.index();
        let ghost before = r@;
        r.push((dep.package_req.name.copied(), dep));
        proof {
            assert(values_of(r@) == values_of(before).push(dep));
            assert(all.take(i + 1) == all.take(i).push(dep));
        }
    }
    assert(all.take(all.len() as int) == all);
    r
}

/// The dependencies `base` with the platform override `over`, which adds those that are missing
/// and replaces those with the same name.
pub fn apply_overrides(base: Vec<LuaDependencySpec>, over: Vec<LuaDependencySpec>) -> (r: Vec<
    LuaDependencySpec,
>)
    ensures
        distinct_names(r@),
        dependency_map(r@) == dependency_map(base@).union_prefer_right(dependency_map(over@)),
{
    let mut all = named(base);
    let mut rest = named(over);
    let ghost first = all@;
    let ghost second = rest@;
    all.append(&mut rest);
    proof {
        assert(all@ == first + second);
        lemma_named_map(first);
        lemma_named_map(second);
        lemma_entries_map_concat(first, second);
    }
    let ghost given = all@;
    let entries = Table::from_entries(all).into_entries();
    let ghost kept = entries@;
    proof {
        lemma_named_values(given);
        lemma_entries_map(kept);
        assert forall|i: int| 0 <= i < kept.len() implies (#[trigger] kept[i]).0@
            == kept[i].1.package_req.name@ by {
            assert(entries_map(kept).contains_key(kept[i].0@));
            assert(entries_map(kept)[kept[i].0@] == kept[i].1);
        }
        lemma_named_map(kept);
    }
    let mut r: Vec<LuaDependencySpec> = Vec::new();
    for entry in it: entries
        invariant
            it.seq() == kept,
            r@ == values_of(kept).take(it.index()),
    {
        assert(values_of(kept)[it.index()] == entry.1);
        r.push(entry.1);
    }
    proof {
        assert(r@ == values_of(kept));
        assert forall|i: int, j: int| 0 <= i < j < r@.len() implies #[trigger] r@[i].package_req.name@
            != #[trigger] r@[j].package_req.name@ by {
            assert(kept[i].0@ != kept[j].0@);
        }
    }
    r
}

/// The map without the last dependency, and then with it.
proof fn lemma_last_dependency(deps: Seq<LuaDependencySpec>)
    requires
        0 < deps.len(),
    ensures
        dependency_map(deps) == dependency_map(deps.drop_last()).insert(
            deps.last().package_req.name@,
            deps.last(),
        ),
{
    let pairs = deps.map_values(|dep: LuaDependencySpec| (dep.package_req.name@, dep));
    assert(deps.drop_last().map_values(
        |dep: LuaDependencySpec| (dep.package_req.name@, dep),
    ) == pairs.drop_last());
}

/// Of the dependencies with the same name, the last one stands under that name.
pub proof fn last_dependency_counts(deps: Seq<LuaDependencySpec>, i: int)
    requires
        0 <= i < deps.len(),
        forall|j: int|
            i < j < deps.len() ==> (#[trigger] deps[j]).package_req.name@
                != deps[i].package_req.name@,
    ensures
        dependency_map(deps).contains_key(deps[i].package_req.name@),
        dependency_map(deps)[deps[i].package_req.name@] == deps[i],
    decreases deps.len(),
{
    lemma_last_dependency(deps);
    let before = deps.drop_last();
    if i < before.len() {
        assert(deps[deps.len() - 1].package_req.name@ != deps[i].package_req.name@);
        assert forall|j: int| i < j < before.len() implies (#[trigger] before[j]).package_req.name@
            != before[i].package_req.name@ by {
            assert(before[j] == deps[j]);
        }
        last_dependency_counts(before, i);
    }
}

/// What stands under a name is a dependency with that name.
pub proof fn named_dependency_is_a_dependency(deps: Seq<LuaDependencySpec>, name: Seq<char>)
    requires
        dependency_map(deps).contains_key(name),
    ensures
        deps.contains(dependency_map(deps)[name]),
        dependency_map(deps)[name].package_req.name@ == name,
    decreases deps.len(),
{
    if 0 < deps.len() {
        lemma_last_dependency(deps);
        let before = deps.drop_last();
        if name == deps.last().package_req.name@ {
            assert(deps[deps.len() - 1] == deps.last());
        } else {
            named_dependency_is_a_dependency(before, name);
            let i = choose|i: int|
                0 <= i < before.len() && before[i] == dependency_map(before)[name];
            assert(deps[i] == before[i]);
        }
    } else {
        assert(deps.map_values(|dep: LuaDependencySpec| (dep.package_req.name@, dep)).len() == 0);
    }
}

/// An override adds the dependencies that are missing and replaces those with the same name: what
/// it names is as it says, and all else is as it was.
pub proof fn override_adds_and_replaces(
    base: Seq<LuaDependencySpec>,
    over: Seq<LuaDependencySpec>,
    r: Seq<LuaDependencySpec>,
    name: Seq<char>,
)
    requires
        dependency_map(r) == dependency_map(base).union_prefer_right(dependency_map(over)),
    ensures
        dependency_map(r).contains_key(name) <==> dependency_map(base).contains_key(name)
            || dependency_map(over).contains_key(name),
        dependency_map(over).contains_key(name) ==> dependency_map(r)[name] == dependency_map(
            over,
        )[name],
        !dependency_map(over).contains_key(name) && dependency_map(base).contains_key(name)
            ==> dependency_map(r)[name] == dependency_map(base)[name],
{
}

/// Dependencies of one kind.
#[derive(Debug)]
pub enum DependencyType<T> {
    Regular(Vec<T>),
    Build(Vec<T>),
    Test(Vec<T>),
    External(Table<String, ExternalDependencySpec>),
}

/// Dependencies on rocks, of one kind.
#[derive(Debug)]
pub enum LuaDependencyType<T> {
    Regular(Vec<T>),
    Build(Vec<T>),
    Test(Vec<T>),
}

/// References to the elements of a list.
fn references<T>(all: &Vec<T>) -> (r: Vec<&T>)
    ensures
        are_references(r@, all@),
{
    let mut r: Vec<&T> = Vec::new();
    let mut i: usize = 0;
    while i < all.len()
        invariant
            i <= all@.len(),
            r@.len() == i,
            forall|k: int| 0 <= k < i ==> *(#[trigger] r@[k]) == all@[k],
        decreases all@.len() - i,
    {
        r.push(&all[i]);
        i = i + 1;
    }
    r
}

/// The references are those to the elements, in order.
pub open spec fn are_references<T>(refs: Seq<&T>, all: Seq<T>) -> bool {
    refs.len() == all.len() && forall|i: int| 0 <= i < all.len() ==> *(#[trigger] refs[i]) == all[i]
}

impl<T> DependencyType<T> {
    /// References to the dependencies.
    pub fn as_ref(&self) -> (r: DependencyType<&T>)
        ensures
            match (self, r) {
                (DependencyType::Regular(all), DependencyType::Regular(refs)) => are_references(
                    refs@,
                    all@,
                ),
                (DependencyType::Build(all), DependencyType::Build(refs)) => are_references(
                    refs@,
                    all@,
                ),
                (DependencyType::Test(all), DependencyType::Test(refs)) => are_references(
                    refs@,
                    all@,
                ),
                (DependencyType::External(all), DependencyType::External(copied)) => copied@
                    == all@,
                _ => false,
            },
    {
        match self {
            DependencyType::Regular(all) => DependencyType::Regular(references(all)),
            DependencyType::Build(all) => DependencyType::Build(references(all)),
            DependencyType::Test(all) => DependencyType::Test(references(all)),
            DependencyType::External(all) => DependencyType::External(copy_external(all)),
        }
    }
}

/// A table with the same dependencies.
fn copy_external(table: &Table<String, ExternalDependencySpec>) -> (r: Table<
    String,
    ExternalDependencySpec,
>)
    ensures
        r@ == table@,
{
    let mut r: Table<String, ExternalDependencySpec> = Table::new();
    let ghost all = table.entries();
    let mut i: usize = 0;
    while i < table.len()
        invariant
            i <= all.len(),
            all == table.entries(),
            r@ == entries_map(all.take(i as int)),
        decreases all.len() - i,
    {
        let entry = table.entry(i);
        assert(all.take(i + 1).drop_last() == all.take(i as int));
        r.insert(entry.0.clone(), entry.1.copied());
        i = i + 1;
    }
    proof {
        assert(all.take(all.len() as int) == all);
        table.lemma_view();
    }
    r
}

/// A dependency that is made of a package requirement has it, is not pinned, is required, and
/// comes from no source of its own; so it is with a package name, of which any version will do,
/// and with a requirement that could be read. One that could not be read stays the error.
pub proof fn plain_dependencies_ask_for_the_package(
    package_req: PackageReq,
    a: LuaDependencySpec,
    name: PackageName,
    b: LuaDependencySpec,
    message: String,
    c: Result<LuaDependencySpec, LuaDependencySpecParseError>,
    d: Result<LuaDependencySpec, LuaDependencySpecParseError>,
)
    requires
        call_ensures(LuaDependencySpec::from_package_req, (package_req,), a),
        call_ensures(LuaDependencySpec::from_package_name, (name,), b),
        call_ensures(LuaDependencySpec::from_parsed, (Ok::<PackageReq, String>(package_req),), c),
        call_ensures(LuaDependencySpec::from_parsed, (Err::<PackageReq, String>(message),), d),
    ensures
        a.package_req == package_req,
        a.pin == PinnedState::Unpinned,
        a.opt == OptState::Required,
        a.source is None,
        b.package_req.name == name,
        b.package_req.version_req.any,
        b.pin == PinnedState::Unpinned,
        b.opt == OptState::Required,
        b.source is None,
        c is Ok,
        c->Ok_0 == a,
        d is Err,
        d->Err_0 is PackageReq,
        d->Err_0->PackageReq_0 == message,
{
}

/// A dependency is written as its name, with the required version behind it unless any will do.
pub proof fn dependency_is_written_with_its_version(dep: &LuaDependencySpec, r: String)
    requires
        call_ensures(LuaDependencySpec::to_text, (dep,), r),
    ensures
        dep.package_req.version_req.any ==> r@ == dep.package_req.name@,
        !dep.package_req.version_req.any ==> r@ == dep.package_req.name@
            + dep.package_req.version_req.text@,
{
}

/// A dependency hands out what it holds.
pub proof fn dependency_hands_out_what_it_holds(
    dep: &LuaDependencySpec,
    req: &PackageReq,
    pin: &PinnedState,
    opt: &OptState,
    source: &Option<RockSourceSpec>,
    name: &PackageName,
    version: &PackageVersionReq,
    this: LuaDependencySpec,
    into: PackageReq,
)
    requires
        call_ensures(LuaDependencySpec::package_req, (dep,), req),
        call_ensures(LuaDependencySpec::pin, (dep,), pin),
        call_ensures(LuaDependencySpec::opt, (dep,), opt),
        call_ensures(LuaDependencySpec::source, (dep,), source),
        call_ensures(LuaDependencySpec::name, (dep,), name),
        call_ensures(LuaDependencySpec::version_req, (dep,), version),
        this == *dep,
        call_ensures(LuaDependencySpec::into_package_req, (this,), into),
    ensures
        *req == dep.package_req,
        *pin == dep.pin,
        *opt == dep.opt,
        *source == dep.source,
        *name == dep.package_req.name,
        *version == dep.package_req.version_req,
        into == dep.package_req,
{
}

/// Overriding dependencies loses no name of either list and adds none, and no name is there
/// twice. The last dependency with a name in the overriding list counts; of a name that is only
/// in the base, the last one there.
pub proof fn dependencies_are_overridden_by_name(
    base: Vec<LuaDependencySpec>,
    over: Vec<LuaDependencySpec>,
    r: Vec<LuaDependencySpec>,
    i: int,
)
    requires
        call_ensures(apply_overrides, (base, over), r),
    ensures
        forall|a: int, b: int|
            0 <= a < b < r@.len() ==> (#[trigger] r@[a]).package_req.name@ != (
            #[trigger] r@[b]).package_req.name@,
        0 <= i < over@.len() && (forall|j: int|
            i < j < over@.len() ==> (#[trigger] over@[j]).package_req.name@
                != over@[i].package_req.name@) ==> r@.contains(over@[i]),
        0 <= i < base@.len() && (forall|j: int|
            i < j < base@.len() ==> (#[trigger] base@[j]).package_req.name@
                != base@[i].package_req.name@) && (forall|j: int|
            0 <= j < over@.len() ==> (#[trigger] over@[j]).package_req.name@
                != base@[i].package_req.name@) ==> r@.contains(base@[i]),
        forall|k: int|
            0 <= k < r@.len() ==> base@.contains(#[trigger] r@[k]) || over@.contains(r@[k]),
{
    let a = dependency_map(base@);
    let b = dependency_map(over@);
    let c = dependency_map(r@);
    assert forall|k: int| 0 <= k < r@.len() implies c.contains_key(
        (#[trigger] r@[k]).package_req.name@,
    ) && c[r@[k].package_req.name@] == r@[k] by {
        assert forall|j: int| k < j < r@.len() implies (#[trigger] r@[j]).package_req.name@
            != r@[k].package_req.name@ by {}
        last_dependency_counts(r@, k);
    }
    if 0 <= i < over@.len() && (forall|j: int|
        i < j < over@.len() ==> (#[trigger] over@[j]).package_req.name@
            != over@[i].package_req.name@) {
        last_dependency_counts(over@, i);
        let name = over@[i].package_req.name@;
        assert(c.contains_key(name));
        named_dependency_is_a_dependency(r@, name);
    }
    if 0 <= i < base@.len() && (forall|j: int|
        i < j < base@.len() ==> (#[trigger] base@[j]).package_req.name@
            != base@[i].package_req.name@) && (forall|j: int|
        0 <= j < over@.len() ==> (#[trigger] over@[j]).package_req.name@
            != base@[i].package_req.name@) {
        last_dependency_counts(base@, i);
        let name = base@[i].package_req.name@;
        if b.contains_key(name) {
            named_dependency_is_a_dependency(over@, name);
            let j = choose|j: int| 0 <= j < over@.len() && over@[j] == b[name];
            assert(over@[j].package_req.name@ == name);
        }
        assert(c.contains_key(name));
        named_dependency_is_a_dependency(r@, name);
    }
    assert forall|k: int| 0 <= k < r@.len() implies base@.contains(#[trigger] r@[k])
        || over@.contains(r@[k]) by {
        let name = r@[k].package_req.name@;
        assert(c.contains_key(name));
        if b.contains_key(name) {
            named_dependency_is_a_dependency(over@, name);
        } else {
            named_dependency_is_a_dependency(base@, name);
        }
    }
}

/// Dependencies by reference are of the same kind and are the same dependencies, in their order.
pub proof fn references_are_to_the_dependencies<T>(
    deps: &DependencyType<T>,
    r: DependencyType<&T>,
)
    requires
        call_ensures(DependencyType::<T>::as_ref, (deps,), r),
    ensures
        deps is Regular ==> r is Regular && r->Regular_0@.len() == deps->Regular_0@.len() && forall|
            i: int,
        |
            0 <= i < r->Regular_0@.len() ==> *(#[trigger] r->Regular_0@[i]) == deps->Regular_0@[i],
        deps is Build ==> r is Build && r->Build_0@.len() == deps->Build_0@.len() && forall|i: int|
            0 <= i < r->Build_0@.len() ==> *(#[trigger] r->Build_0@[i]) == deps->Build_0@[i],
        deps is Test ==> r is Test && r->Test_0@.len() == deps->Test_0@.len() && forall|i: int|
            0 <= i < r->Test_0@.len() ==> *(#[trigger] r->Test_0@[i]) == deps->Test_0@[i],
        deps is External ==> r is External && r->External_0@ == deps->External_0@,
{
}

/// A dependency that could not be read is reported as it was said.
pub proof fn unreadable_dependency_is_reported(err: &LuaDependencySpecParseError, r: String)
    requires
        call_ensures(LuaDependencySpecParseError::to_message, (err,), r),
    ensures
        r@ == err->PackageReq_0@,
{
}

} // verus!
