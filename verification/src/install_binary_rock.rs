//! Installing a packed rock: what is unpacked where.

use crate::package::{
    EntryType, OptState, PackageVersionReq, PinnedState, RemotePackageSource,
    RemotePackageSourceUrl,
};
use crate::slash_path::{joined_in, parent_in, path_join_in, path_parent_in, PathStyle};
use crate::text::{concat, copy, opt_text};
use vstd::prelude::*;

verus! {

/// Why a packed rock could not be installed.
#[derive(Debug)]
pub enum InstallBinaryRockError {
    Io(String),
    Lockfile(String),
    Tree(String),
    ExternalDependencyError(String),
    LuaVersionError(String),
    Zip(String),
    RockManifestNotFound,
    RockManifestError(String),
    /// The path of the entry, and the metadata of what is there as debug output shows it
    NotAFileOrDirectory(String, String),
}

impl InstallBinaryRockError {
    /// What the error says.
    pub open spec fn message(&self) -> Seq<char> {
        match self {
            InstallBinaryRockError::Io(text) => "IO operation failed: "@ + text@,
            InstallBinaryRockError::Lockfile(text) => text@,
            InstallBinaryRockError::Tree(text) => text@,
            InstallBinaryRockError::ExternalDependencyError(text) => text@,
            InstallBinaryRockError::LuaVersionError(text) => text@,
            InstallBinaryRockError::Zip(text) => "failed to unpack packed rock: "@ + text@,
            InstallBinaryRockError::RockManifestNotFound => {
                "rock_manifest not found. Cannot install rock files that were packed using LuaRocks version 1"@
            },
            InstallBinaryRockError::RockManifestError(text) => text@,
            InstallBinaryRockError::NotAFileOrDirectory(path, metadata) => "the entry "@ + path@
                + " listed in the `rock_manifest` is neither a file nor a directory: "@ + metadata@,
        }
    }

    /// What the error says.
    pub fn to_message(&self) -> (r: String)
        ensures
            r@ == self.message(),
    {
        match self {
            InstallBinaryRockError::Io(text) => concat("IO operation failed: ", text.as_str()),
            InstallBinaryRockError::Lockfile(text)
            | InstallBinaryRockError::Tree(text)
            | InstallBinaryRockError::ExternalDependencyError(text)
            | InstallBinaryRockError::LuaVersionError(text)
            | InstallBinaryRockError::RockManifestError(text) => copy(text.as_str()),
            InstallBinaryRockError::Zip(text) => concat(
                "failed to unpack packed rock: ",
                text.as_str(),
            ),
            InstallBinaryRockError::RockManifestNotFound => copy(
                "rock_manifest not found. Cannot install rock files that were packed using LuaRocks version 1",
            ),
            InstallBinaryRockError::NotAFileOrDirectory(path, metadata) => concat(
                concat(
                    concat("the entry ", path.as_str()).as_str(),
                    " listed in the `rock_manifest` is neither a file nor a directory: ",
                ).as_str(),
                metadata.as_str(),
            ),
        }
    }
}

/// Whether a package is built though it is installed already.
#[derive(Debug, Clone, Copy, PartialEq, Eq, Structural)]
pub enum BuildBehaviour {
    NoForce,
    Force,
}

/// What a lockfile demands of the version of a package.
#[derive(Debug)]
pub enum LockConstraint {
    Unconstrained,
    Constrained(PackageVersionReq),
}

impl LockConstraint {
    /// The same constraint.
    pub fn copied(&self) -> (r: LockConstraint)
        ensures
            r == *self,
    {
        match self {
            LockConstraint::Unconstrained => LockConstraint::Unconstrained,
            LockConstraint::Constrained(req) => LockConstraint::Constrained(req.copied()),
        }
    }
}

/// The hashes of the rockspec and of the packed rock.
#[derive(Debug, Clone, PartialEq, Eq)]
pub struct RockHashes {
    pub rockspec: String,
    pub source: String,
}

/// What the lockfile records of a rock.
#[derive(Debug)]
pub struct RockRecord {
    pub name: String,
    pub version: String,
    pub constraint: LockConstraint,
    /// The scripts that the rock installs
    pub binaries: Vec<String>,
    pub source: RemotePackageSource,
    /// The address of the packed rock, where a luarocks server has it
    pub source_url: Option<RemotePackageSourceUrl>,
    pub hashes: RockHashes,
    pub pinned: PinnedState,
    pub opt: OptState,
}

/// Which directories of a tree a rock is installed in.
#[derive(Debug, Clone, Copy, PartialEq, Eq, Structural)]
pub enum RockLayout {
    /// Those of a rock that was asked for
    Entrypoint,
    /// Those of a rock that another one depends on
    Dependency,
}

/// How a packed rock is installed.
#[derive(Debug)]
pub struct BinaryRockInstall {
    pub source: RemotePackageSource,
    pub pin: PinnedState,
    pub opt: OptState,
    pub entry_type: EntryType,
    pub constraint: LockConstraint,
    pub behaviour: BuildBehaviour,
}

/// What has to be done next to install a rock.
#[derive(Debug)]
pub enum InstallStep {
    /// Look for the dependencies outside Lua.
    ProbeExternalDependencies,
    /// Make sure that the rock is for the Lua version of the configuration.
    ValidateLuaVersion,
    /// Hash the rock and look for it in the lockfile.
    LookUp,
    /// Return the rock of the lockfile.
    Keep,
    /// Unpack the rock and look for its manifest.
    Unpack,
    /// Read the manifest and make the directories that the rock is installed in, which are those
    /// of the layout.
    ReadManifest(RockLayout),
    /// Copy the entries, one after the other.
    CopyEntries(Vec<ManifestCopy>),
    /// Move the rockspec to its place, where the rock has one.
    MoveRockspec(RockspecMove),
    /// Return the rock that was installed.
    Installed,
}

/// The files and directories that a packed rock lists, each below the directory of its kind.
#[derive(Debug)]
pub struct RockManifest {
    pub lib: Vec<String>,
    pub lua: Vec<String>,
    pub bin: Vec<String>,
    pub doc: Vec<String>,
    pub root: Vec<String>,
}

/// The directories that a rock is installed in.
#[derive(Debug)]
pub struct RockOutput {
    pub lib: String,
    pub src: String,
    pub bin: String,
    pub doc: String,
    pub etc: String,
    /// The path of the rockspec
    pub rockspec: String,
}

/// A file or a directory to copy.
#[derive(Debug)]
pub struct ManifestCopy {
    pub src: String,
    pub target: String,
}

/// What there is at a path.
#[derive(Debug, Clone, Copy, PartialEq, Eq, Structural)]
pub enum PathKind {
    Directory,
    File,
    Other,
}

/// How an entry of the manifest is installed.
#[derive(Debug)]
pub enum CopyAction {
    /// Copy the directory with all that it holds.
    CopyDirectory { src: String, target: String },
    /// Create the directory, where there is one to create, and copy the file.
    CopyFile { create: Option<String>, src: String, target: String },
}

/// How the rockspec is moved to its place.
#[derive(Debug)]
pub struct RockspecMove {
    pub from: String,
    pub to: String,
}

/// The step `next` can come after `step`. Nothing comes after the rock of the lockfile was
/// returned, or the one that was installed.
pub open spec fn can_follow(step: InstallStep, next: InstallStep) -> bool {
    match step {
        InstallStep::ProbeExternalDependencies => next is ValidateLuaVersion,
        InstallStep::ValidateLuaVersion => next is LookUp,
        InstallStep::LookUp => next is Keep || next is Unpack,
        InstallStep::Unpack => next is ReadManifest,
        InstallStep::ReadManifest(_) => next is CopyEntries,
        InstallStep::CopyEntries(_) => next is MoveRockspec,
        InstallStep::MoveRockspec(_) => next is Installed,
        InstallStep::Keep | InstallStep::Installed => false,
    }
}

/// The steps are taken one after the other, from the first one on.
pub open spec fn is_run(steps: Seq<InstallStep>) -> bool {
    &&& 0 < steps.len()
    &&& steps[0] is ProbeExternalDependencies
    &&& forall|i: int|
        #![trigger steps[i]]
        0 <= i < steps.len() - 1 ==> can_follow(steps[i], steps[i + 1])
}

/// A rock is unpacked only after its dependencies and its Lua version were checked and it was
/// looked up in the lockfile. A rock that is kept is not unpacked, before or after.
pub proof fn rocks_are_checked_before_they_are_unpacked(steps: Seq<InstallStep>, i: int)
    requires
        is_run(steps),
        0 <= i < steps.len(),
    ensures
        steps[i] is Unpack ==> i == 3 && steps[1] is ValidateLuaVersion && steps[2] is LookUp,
        steps[i] is Keep ==> i == 3 && steps.len() == 4 && steps[2] is LookUp,
{
    assert(1 < steps.len() ==> can_follow(steps[0], steps[1]));
    assert(2 < steps.len() ==> can_follow(steps[1], steps[2]));
    assert(3 < steps.len() ==> can_follow(steps[2], steps[3]));
    assert(4 < steps.len() ==> can_follow(steps[3], steps[4]));
    if 4 <= i {
        lemma_later_steps(steps, i);
    }
}

/// After the fourth step there is neither unpacking nor keeping.
proof fn lemma_later_steps(steps: Seq<InstallStep>, i: int)
    requires
        is_run(steps),
        4 <= i < steps.len(),
        steps[3] is Keep || steps[3] is Unpack,
    ensures
        steps[i] is ReadManifest || steps[i] is CopyEntries || steps[i] is MoveRockspec || steps[i]
            is Installed,
    decreases i,
{
    assert(can_follow(steps[i - 1], steps[i]));
    if 4 < i {
        lemma_later_steps(steps, i - 1);
    }
}

/// The address of the packed rock, where a luarocks server has it.
pub open spec fn url_of(source: RemotePackageSource) -> Option<RemotePackageSourceUrl> {
    match source {
        RemotePackageSource::LuarocksBinaryRock(url) => Some(RemotePackageSourceUrl::Url { url }),
        RemotePackageSource::Local | RemotePackageSource::Other(_) => None,
    }
}

/// The record is that of a rock that is installed in this way: it has the pin, the opt, the
/// constraint and the source of the installation.
pub open spec fn is_fresh_record(install: BinaryRockInstall, record: RockRecord) -> bool {
    &&& record.pinned == install.pin
    &&& record.opt == install.opt
    &&& record.constraint == install.constraint
    &&& record.source == install.source
    &&& record.source_url == url_of(install.source)
}

/// The rock of the lockfile stays: there is one, and the installation is not forced.
pub open spec fn is_kept(install: BinaryRockInstall, locked: bool) -> bool {
    locked && install.behaviour == BuildBehaviour::NoForce
}

/// The record of the rock after the installation: that of the lockfile where it stays, and else
/// the fresh one.
pub open spec fn returned_record(
    install: BinaryRockInstall,
    locked: Option<RockRecord>,
    fresh: RockRecord,
) -> RockRecord {
    if is_kept(install, locked is Some) {
        locked->0
    } else {
        fresh
    }
}

/// The layout that a rock is installed in.
pub open spec fn layout_of(entry_type: EntryType) -> RockLayout {
    match entry_type {
        EntryType::Entrypoint => RockLayout::Entrypoint,
        EntryType::DependencyOnly => RockLayout::Dependency,
    }
}

/// The rock that is returned is the one of the lockfile, unless there is none or the installation
/// is forced. Then it has the name and the version of the rockspec and the pin and the opt of the
/// installation.
pub proof fn installed_rocks_have_the_pin_and_the_opt(
    install: BinaryRockInstall,
    locked: Option<RockRecord>,
    fresh: RockRecord,
)
    requires
        is_fresh_record(install, fresh),
    ensures
        install.behaviour == BuildBehaviour::NoForce && locked is Some ==> returned_record(
            install,
            locked,
            fresh,
        ) == locked->0,
        install.behaviour == BuildBehaviour::Force || locked is None ==> {
            let returned = returned_record(install, locked, fresh);
            &&& returned.name == fresh.name
            &&& returned.version == fresh.version
            &&& returned.pinned == install.pin
            &&& returned.opt == install.opt
            &&& returned.constraint == install.constraint
        },
{
}

impl BinaryRockInstall {
    /// The installation of a rock that is not pinned, is needed, has no constraint and is not
    /// forced.
    pub fn new(source: RemotePackageSource, entry_type: EntryType) -> (r: BinaryRockInstall)
        ensures
            r == (BinaryRockInstall {
                source,
                pin: PinnedState::Unpinned,
                opt: OptState::Required,
                entry_type,
                constraint: LockConstraint::Unconstrained,
                behaviour: BuildBehaviour::NoForce,
            }),
    {
        BinaryRockInstall {
            source,
            pin: PinnedState::Unpinned,
            opt: OptState::Required,
            entry_type,
            constraint: LockConstraint::Unconstrained,
            behaviour: BuildBehaviour::NoForce,
        }
    }

    /// The same installation with `pin`.
    pub fn pin(self, pin: PinnedState) -> (r: BinaryRockInstall)
        ensures
            r == (BinaryRockInstall { pin, ..self }),
    {
        BinaryRockInstall { pin, ..self }
    }

    /// The same installation with `opt`.
    pub fn opt(self, opt: OptState) -> (r: BinaryRockInstall)
        ensures
            r == (BinaryRockInstall { opt, ..self }),
    {
        BinaryRockInstall { opt, ..self }
    }

    /// The same installation with `constraint`.
    pub fn constraint(self, constraint: LockConstraint) -> (r: BinaryRockInstall)
        ensures
            r == (BinaryRockInstall { constraint, ..self }),
    {
        BinaryRockInstall { constraint, ..self }
    }

    /// The same installation with `behaviour`.
    pub fn behaviour(self, behaviour: BuildBehaviour) -> (r: BinaryRockInstall)
        ensures
            r == (BinaryRockInstall { behaviour, ..self }),
    {
        BinaryRockInstall { behaviour, ..self }
    }

    /// The address of the packed rock, where a luarocks server has it.
    pub fn source_url(&self) -> (r: Option<RemotePackageSourceUrl>)
        ensures
            r == url_of(self.source),
    {
        match &self.source {
            RemotePackageSource::LuarocksBinaryRock(url) => Some(
                RemotePackageSourceUrl::Url { url: url.clone() },
            ),
            RemotePackageSource::Local | RemotePackageSource::Other(_) => None,
        }
    }

    /// What the lockfile is to record of the rock with the name and the version of the rockspec.
    pub fn record(
        &self,
        name: String,
        version: String,
        binaries: Vec<String>,
        hashes: RockHashes,
    ) -> (r: RockRecord)
        ensures
            r.name == name,
            r.version == version,
            r.binaries == binaries,
            r.hashes == hashes,
            is_fresh_record(*self, r),
    {
        RockRecord {
            name,
            version,
            constraint: self.constraint.copied(),
            binaries,
            source: self.source.copied(),
            source_url: self.source_url(),
            hashes,
            pinned: self.pin,
            opt: self.opt,
        }
    }

    /// The record of the rock after the installation, where `locked` is the one of the lockfile
    /// and `fresh` the one that [`BinaryRockInstall::record`] made.
    pub fn returned(&self, locked: Option<RockRecord>, fresh: RockRecord) -> (r: RockRecord)
        ensures
            r == returned_record(*self, locked, fresh),
    {
        match locked {
            Some(locked) if self.behaviour == BuildBehaviour::NoForce => locked,
            _ => fresh,
        }
    }

    /// The layout that the rock is installed in.
    pub fn layout(&self) -> (r: RockLayout)
        ensures
            r == layout_of(self.entry_type),
    {
        match self.entry_type {
            EntryType::Entrypoint => RockLayout::Entrypoint,
            EntryType::DependencyOnly => RockLayout::Dependency,
        }
    }

    /// The first step.
    pub fn start(&self) -> (r: InstallStep)
        ensures
            r is ProbeExternalDependencies,
    {
        InstallStep::ProbeExternalDependencies
    }

    /// The step after the rock was looked up. A rock of the lockfile stays, unless the
    /// installation is forced.
    pub fn after_look_up(&self, locked: bool) -> (r: InstallStep)
        ensures
            r == if is_kept(*self, locked) {
                InstallStep::Keep
            } else {
                InstallStep::Unpack
            },
            can_follow(InstallStep::LookUp, r),
    {
        if locked && self.behaviour == BuildBehaviour::NoForce {
            InstallStep::Keep
        } else {
            InstallStep::Unpack
        }
    }

    /// The step after the rock was unpacked: it is installed in the layout of its entry type. A
    /// rock without a manifest cannot be installed.
    pub fn after_unpacking(&self, has_manifest: bool) -> (r: Result<
        InstallStep,
        InstallBinaryRockError,
    >)
        ensures
            match r {
                Ok(step) => has_manifest && step == InstallStep::ReadManifest(
                    layout_of(self.entry_type),
                ) && can_follow(InstallStep::Unpack, step),
                Err(err) => !has_manifest && err is RockManifestNotFound,
            },
    {
        if has_manifest {
            Ok(InstallStep::ReadManifest(self.layout()))
        } else {
            Err(InstallBinaryRockError::RockManifestNotFound)
        }
    }

    /// The step after the manifest was read.
    pub fn after_reading(
        &self,
        manifest: &RockManifest,
        unpack_dir: &str,
        output: &RockOutput,
        style: PathStyle,
    ) -> (r: InstallStep)
        ensures
            can_follow(InstallStep::ReadManifest(layout_of(self.entry_type)), r),
            r matches InstallStep::CopyEntries(copies) && are_rock_copies(
                style,
                *manifest,
                unpack_dir@,
                *output,
                copies@,
            ),
    {
        InstallStep::CopyEntries(rock_copies(manifest, unpack_dir, output, style))
    }

    /// The step after the entries were copied.
    pub fn after_copying(
        &self,
        name: &str,
        version: &str,
        output: &RockOutput,
        style: PathStyle,
    ) -> (r: InstallStep)
        ensures
            r matches InstallStep::MoveRockspec(rockspec) && is_rockspec_move(
                style,
                name@,
                version@,
                *output,
                rockspec,
            ),
    {
        InstallStep::MoveRockspec(rockspec_move(name, version, output, style))
    }

    /// The step after a step whose outcome decides nothing.
    pub fn after(&self, step: InstallStep) -> (r: InstallStep)
        requires
            step is ProbeExternalDependencies || step is ValidateLuaVersion
                || step is MoveRockspec,
        ensures
            can_follow(step, r),
    {
        match step {
            InstallStep::ProbeExternalDependencies => InstallStep::ValidateLuaVersion,
            InstallStep::ValidateLuaVersion => InstallStep::LookUp,
            _ => InstallStep::Installed,
        }
    }
}

/// What is said while a rock is installed.
pub fn install_message(package: &str, version: &str) -> (r: String)
    ensures
        r@ == "Unpacking and installing "@ + package@ + "@"@ + version@ + "..."@,
{
    concat(
        concat(
            concat(concat("Unpacking and installing ", package).as_str(), "@").as_str(),
            version,
        ).as_str(),
        "...",
    )
}

/// The path of the manifest in the directory that a rock was unpacked in.
pub fn manifest_path(unpack_dir: &str, style: PathStyle) -> (r: String)
    ensures
        r@ == joined_in(style, unpack_dir@, "rock_manifest"@),
{
    path_join_in(style, unpack_dir, "rock_manifest")
}

/// The copies bring the entries from below `src` to below `dest`.
pub open spec fn are_copies(
    style: PathStyle,
    entries: Seq<String>,
    src: Seq<char>,
    dest: Seq<char>,
    copies: Seq<ManifestCopy>,
) -> bool {
    &&& copies.len() == entries.len()
    &&& forall|i: int|
        0 <= i < entries.len() ==> (#[trigger] copies[i]).src@ == joined_in(style, src, entries[i]@)
            && copies[i].target@ == joined_in(style, dest, entries[i]@)
}

/// The copies that bring the entries from below `src` to below `dest`.
fn manifest_entries(entries: &Vec<String>, src: &str, dest: &str, style: PathStyle) -> (r: Vec<
    ManifestCopy,
>)
    ensures
        are_copies(style, entries@, src@, dest@, r@),
{
    let mut r: Vec<ManifestCopy> = Vec::new();
    let mut i: usize = 0;
    while i < entries.len()
        invariant
            i <= entries@.len(),
            r@.len() == i,
            forall|k: int|
                0 <= k < i ==> (#[trigger] r@[k]).src@ == joined_in(style, src@, entries@[k]@)
                    && r@[k].target@ == joined_in(style, dest@, entries@[k]@),
        decreases entries@.len() - i,
    {
        let entry = &entries[i];
        r.push(
            ManifestCopy {
                src: path_join_in(style, src, entry.as_str()),
                target: path_join_in(style, dest, entry.as_str()),
            },
        );
        i = i + 1;
    }
    r
}

/// The copies of a rock: the libraries, the Lua files, the scripts, the documentation and then
/// what else it lists, each to the directory of its kind.
pub open spec fn are_rock_copies(
    style: PathStyle,
    manifest: RockManifest,
    unpack_dir: Seq<char>,
    output: RockOutput,
    copies: Seq<ManifestCopy>,
) -> bool {
    let lua = manifest.lib@.len();
    let bin = lua + manifest.lua@.len();
    let doc = bin + manifest.bin@.len();
    let root = doc + manifest.doc@.len();
    let end = root + manifest.root@.len();
    &&& copies.len() == end
    &&& are_copies(
        style,
        manifest.lib@,
        joined_in(style, unpack_dir, "lib"@),
        output.lib@,
        copies.subrange(0, lua as int),
    )
    &&& are_copies(
        style,
        manifest.lua@,
        joined_in(style, unpack_dir, "lua"@),
        output.src@,
        copies.subrange(lua as int, bin as int),
    )
    &&& are_copies(
        style,
        manifest.bin@,
        joined_in(style, unpack_dir, "bin"@),
        output.bin@,
        copies.subrange(bin as int, doc as int),
    )
    &&& are_copies(
        style,
        manifest.doc@,
        joined_in(style, unpack_dir, "doc"@),
        output.doc@,
        copies.subrange(doc as int, root as int),
    )
    &&& are_copies(
        style,
        manifest.root@,
        unpack_dir,
        output.etc@,
        copies.subrange(root as int, end as int),
    )
}

/// The copies that install the rock that was unpacked in `unpack_dir`.
fn rock_copies(
    manifest: &RockManifest,
    unpack_dir: &str,
    output: &RockOutput,
    style: PathStyle,
) -> (r: Vec<ManifestCopy>)
    ensures
        are_rock_copies(style, *manifest, unpack_dir@, *output, r@),
{
    let lib_dir = path_join_in(style, unpack_dir, "lib");
    let lua_dir = path_join_in(style, unpack_dir, "lua");
    let bin_dir = path_join_in(style, unpack_dir, "bin");
    let doc_dir = path_join_in(style, unpack_dir, "doc");
    let mut r = manifest_entries(&manifest.lib, lib_dir.as_str(), output.lib.as_str(), style);
    let mut lua = manifest_entries(&manifest.lua, lua_dir.as_str(), output.src.as_str(), style);
    let mut bin = manifest_entries(&manifest.bin, bin_dir.as_str(), output.bin.as_str(), style);
    let mut doc = manifest_entries(&manifest.doc, doc_dir.as_str(), output.doc.as_str(), style);
    let mut root = manifest_entries(&manifest.root, unpack_dir, output.etc.as_str(), style);
    let ghost a = r@;
    let ghost b = lua@;
    let ghost c = bin@;
    let ghost d = doc@;
    let ghost e = root@;
    r.append(&mut lua);
    r.append(&mut bin);
    r.append(&mut doc);
    r.append(&mut root);
    proof {
        let lua = a.len() as int;
        let bin = lua + b.len();
        let doc = bin + c.len();
        let root = doc + d.len();
        assert(r@ == a + b + c + d + e);
        assert(r@.subrange(0, lua) == a);
        assert(r@.subrange(lua, bin) == b);
        assert(r@.subrange(bin, doc) == c);
        assert(r@.subrange(doc, root) == d);
        assert(r@.subrange(root, root + e.len()) == e);
    }
    r
}

/// How the entry is installed, where `kind` says what there is and `metadata` is the metadata of
/// what is neither a file nor a directory.
pub fn install_manifest_entry(
    entry: ManifestCopy,
    kind: PathKind,
    metadata: String,
    style: PathStyle,
) -> (r: Result<CopyAction, InstallBinaryRockError>)
    ensures
        match (kind, r) {
            (PathKind::Directory, Ok(CopyAction::CopyDirectory { src, target })) => src
                == entry.src && target == entry.target,
            (PathKind::File, Ok(CopyAction::CopyFile { create, src, target })) => opt_text(create)
                == parent_in(style, entry.target@) && src == entry.src && target == entry.target,
            (PathKind::Other, Err(InstallBinaryRockError::NotAFileOrDirectory(path, shown))) => path
                == entry.src && shown == metadata,
            _ => false,
        },
{
    match kind {
        PathKind::Directory => Ok(
            CopyAction::CopyDirectory { src: entry.src, target: entry.target },
        ),
        PathKind::File => {
            let create = path_parent_in(style, entry.target.as_str());
            Ok(CopyAction::CopyFile { create, src: entry.src, target: entry.target })
        },
        PathKind::Other => Err(
            InstallBinaryRockError::NotAFileOrDirectory(entry.src, metadata),
        ),
    }
}

/// The rockspec `<name>-<version>.rockspec` is moved to its place.
pub open spec fn is_rockspec_move(
    style: PathStyle,
    name: Seq<char>,
    version: Seq<char>,
    output: RockOutput,
    rockspec: RockspecMove,
) -> bool {
    &&& rockspec.from@ == joined_in(style, output.etc@, name + "-"@ + version + ".rockspec"@)
    &&& rockspec.to@ == output.rockspec@
}

/// How the rockspec `<name>-<version>.rockspec` is moved to its place.
fn rockspec_move(name: &str, version: &str, output: &RockOutput, style: PathStyle) -> (r:
    RockspecMove)
    ensures
        is_rockspec_move(style, name@, version@, *output, r),
{
    let file = concat(
        concat(concat(name, "-").as_str(), version).as_str(),
        ".rockspec",
    );
    RockspecMove {
        from: path_join_in(style, output.etc.as_str(), file.as_str()),
        to: copy(output.rockspec.as_str()),
    }
}

/// A new installation is not pinned, required, not constrained and not forced; each setting
/// changes what it says and nothing else.
pub proof fn settings_change_what_they_say(
    source: RemotePackageSource,
    entry_type: EntryType,
    fresh: BinaryRockInstall,
    install: BinaryRockInstall,
    pin: PinnedState,
    opt: OptState,
    constraint: LockConstraint,
    behaviour: BuildBehaviour,
    r: (BinaryRockInstall, BinaryRockInstall, BinaryRockInstall, BinaryRockInstall),
)
    requires
        call_ensures(BinaryRockInstall::new, (source, entry_type), fresh),
        call_ensures(BinaryRockInstall::pin, (install, pin), r.0),
        call_ensures(BinaryRockInstall::opt, (install, opt), r.1),
        call_ensures(BinaryRockInstall::constraint, (install, constraint), r.2),
        call_ensures(BinaryRockInstall::behaviour, (install, behaviour), r.3),
    ensures
        fresh.source == source && fresh.entry_type == entry_type,
        fresh.pin == PinnedState::Unpinned && fresh.opt == OptState::Required,
        fresh.constraint is Unconstrained && fresh.behaviour == BuildBehaviour::NoForce,
        r.0.pin == pin && r.0.opt == install.opt && r.0.constraint == install.constraint
            && r.0.behaviour == install.behaviour && r.0.source == install.source
            && r.0.entry_type == install.entry_type,
        r.1.opt == opt && r.1.pin == install.pin && r.1.constraint == install.constraint
            && r.1.behaviour == install.behaviour && r.1.source == install.source
            && r.1.entry_type == install.entry_type,
        r.2.constraint == constraint && r.2.pin == install.pin && r.2.opt == install.opt
            && r.2.behaviour == install.behaviour && r.2.source == install.source
            && r.2.entry_type == install.entry_type,
        r.3.behaviour == behaviour && r.3.pin == install.pin && r.3.opt == install.opt
            && r.3.constraint == install.constraint && r.3.source == install.source
            && r.3.entry_type == install.entry_type,
{
}

/// The record of an installed rock has its name, version, binaries and hashes, and the pin, the
/// option, the constraint and the source that it was installed with; the URL of a rock from
/// LuaRocks is recorded, too.
pub proof fn record_says_how_the_rock_was_installed(
    install: &BinaryRockInstall,
    name: String,
    version: String,
    binaries: Vec<String>,
    hashes: RockHashes,
    record: RockRecord,
    url: Option<RemotePackageSourceUrl>,
)
    requires
        call_ensures(BinaryRockInstall::record, (install, name, version, binaries, hashes), record),
        call_ensures(BinaryRockInstall::source_url, (install,), url),
    ensures
        record.name == name,
        record.version == version,
        record.binaries == binaries,
        record.hashes == hashes,
        record.pinned == install.pin,
        record.opt == install.opt,
        record.constraint == install.constraint,
        record.source == install.source,
        record.source_url == url,
        url is Some <==> install.source is LuarocksBinaryRock,
        url is Some ==> url->0 is Url && url->0->url == install.source->LuarocksBinaryRock_0,
{
}

/// A rock that is locked already is kept unless its installation is forced: then, and for a rock
/// that is not locked, it is unpacked, and the new record is returned.
pub proof fn locked_rocks_are_kept_unless_forced(
    install: &BinaryRockInstall,
    locked: Option<RockRecord>,
    fresh: RockRecord,
    r: RockRecord,
    step: InstallStep,
)
    requires
        call_ensures(BinaryRockInstall::returned, (install, locked, fresh), r),
        call_ensures(BinaryRockInstall::after_look_up, (install, locked is Some), step),
    ensures
        locked is Some && install.behaviour == BuildBehaviour::NoForce ==> step is Keep && r
            == locked->0,
        locked is None || install.behaviour == BuildBehaviour::Force ==> step is Unpack && r
            == fresh,
{
}

/// An installation probes the external dependencies, checks the Lua version and looks the rock
/// up, in this order, and ends behind the move of the rockspec.
pub proof fn installation_goes_step_by_step(
    install: &BinaryRockInstall,
    first: InstallStep,
    step: InstallStep,
    next: InstallStep,
)
    requires
        step is ProbeExternalDependencies || step is ValidateLuaVersion || step is MoveRockspec,
        call_ensures(BinaryRockInstall::start, (install,), first),
        call_ensures(BinaryRockInstall::after, (install, step), next),
    ensures
        first is ProbeExternalDependencies,
        step is ProbeExternalDependencies ==> next is ValidateLuaVersion,
        step is ValidateLuaVersion ==> next is LookUp,
        step is MoveRockspec ==> next is Installed,
{
}

/// An unpacked rock is installed exactly if it has a manifest: an entrypoint in the layout of
/// entrypoints, and a dependency in that of dependencies.
pub proof fn unpacked_rocks_need_a_manifest(
    install: &BinaryRockInstall,
    has_manifest: bool,
    r: Result<InstallStep, InstallBinaryRockError>,
    layout: RockLayout,
)
    requires
        call_ensures(BinaryRockInstall::after_unpacking, (install, has_manifest), r),
        call_ensures(BinaryRockInstall::layout, (install,), layout),
    ensures
        r is Ok <==> has_manifest,
        r is Err ==> r->Err_0 is RockManifestNotFound,
        r is Ok ==> r->Ok_0 is ReadManifest && r->Ok_0->ReadManifest_0 == layout,
        layout == RockLayout::Entrypoint <==> install.entry_type == EntryType::Entrypoint,
        layout == RockLayout::Dependency <==> install.entry_type == EntryType::DependencyOnly,
{
}

proof fn lemma_copied(
    style: PathStyle,
    entries: Seq<String>,
    src: Seq<char>,
    dest: Seq<char>,
    copies: Seq<ManifestCopy>,
    from: int,
    to: int,
    i: int,
)
    requires
        0 <= from <= to <= copies.len(),
        are_copies(style, entries, src, dest, copies.subrange(from, to)),
        0 <= i < entries.len(),
    ensures
        copies[from + i].src@ == joined_in(style, src, entries[i]@),
        copies[from + i].target@ == joined_in(style, dest, entries[i]@),
{
    let part = copies.subrange(from, to);
    assert(part[i] == copies[from + i]);
}

/// Every entry of the manifest is copied, and nothing else: libraries from `lib` of the unpacked
/// rock to the libraries, Lua files from `lua` to the sources, binaries from `bin` to the
/// binaries, documentation from `doc` to the documentation, and what is in the root from there
/// to `etc`.
pub proof fn every_manifest_entry_is_copied(
    install: &BinaryRockInstall,
    manifest: &RockManifest,
    unpack_dir: &str,
    output: &RockOutput,
    style: PathStyle,
    r: InstallStep,
    i: int,
)
    requires
        call_ensures(BinaryRockInstall::after_reading, (install, manifest, unpack_dir, output, style), r),
    ensures
        r is CopyEntries,
        ({
            let copies = r->CopyEntries_0@;
            let lua = manifest.lib@.len() as int;
            let bin = lua + manifest.lua@.len();
            let doc = bin + manifest.bin@.len();
            let root = doc + manifest.doc@.len();
            &&& copies.len() == root + manifest.root@.len()
            &&& 0 <= i < manifest.lib@.len() ==> copies[i].src@ == joined_in(
                style,
                joined_in(style, unpack_dir@, "lib"@),
                manifest.lib@[i]@,
            ) && copies[i].target@ == joined_in(style, output.lib@, manifest.lib@[i]@)
            &&& 0 <= i < manifest.lua@.len() ==> copies[lua + i].src@ == joined_in(
                style,
                joined_in(style, unpack_dir@, "lua"@),
                manifest.lua@[i]@,
            ) && copies[lua + i].target@ == joined_in(style, output.src@, manifest.lua@[i]@)
            &&& 0 <= i < manifest.bin@.len() ==> copies[bin + i].src@ == joined_in(
                style,
                joined_in(style, unpack_dir@, "bin"@),
                manifest.bin@[i]@,
            ) && copies[bin + i].target@ == joined_in(style, output.bin@, manifest.bin@[i]@)
            &&& 0 <= i < manifest.doc@.len() ==> copies[doc + i].src@ == joined_in(
                style,
                joined_in(style, unpack_dir@, "doc"@),
                manifest.doc@[i]@,
            ) && copies[doc + i].target@ == joined_in(style, output.doc@, manifest.doc@[i]@)
            &&& 0 <= i < manifest.root@.len() ==> copies[root + i].src@ == joined_in(
                style,
                unpack_dir@,
                manifest.root@[i]@,
            ) && copies[root + i].target@ == joined_in(style, output.etc@, manifest.root@[i]@)
        }),
{
    let copies = r->CopyEntries_0@;
    let lua = manifest.lib@.len() as int;
    let bin = lua + manifest.lua@.len();
    let doc = bin + manifest.bin@.len();
    let root = doc + manifest.doc@.len();
    let end = root + manifest.root@.len();
    let dir = unpack_dir@;
    if 0 <= i < manifest.lib@.len() {
        lemma_copied(
            style,
            manifest.lib@,
            joined_in(style, dir, "lib"@),
            output.lib@,
            copies,
            0,
            lua,
            i,
        );
    }
    if 0 <= i < manifest.lua@.len() {
        lemma_copied(
            style,
            manifest.lua@,
            joined_in(style, dir, "lua"@),
            output.src@,
            copies,
            lua,
            bin,
            i,
        );
    }
    if 0 <= i < manifest.bin@.len() {
        lemma_copied(
            style,
            manifest.bin@,
            joined_in(style, dir, "bin"@),
            output.bin@,
            copies,
            bin,
            doc,
            i,
        );
    }
    if 0 <= i < manifest.doc@.len() {
        lemma_copied(
            style,
            manifest.doc@,
            joined_in(style, dir, "doc"@),
            output.doc@,
            copies,
            doc,
            root,
            i,
        );
    }
    if 0 <= i < manifest.root@.len() {
        lemma_copied(style, manifest.root@, dir, output.etc@, copies, root, end, i);
    }
}

/// The rockspec is moved from `etc`, where it has the name and the version of the rock, to its
/// place. The manifest is `rock_manifest` of the unpacked rock.
pub proof fn rockspec_is_moved_to_its_place(
    install: &BinaryRockInstall,
    name: &str,
    version: &str,
    output: &RockOutput,
    style: PathStyle,
    r: InstallStep,
    etc: &str,
    file: &str,
    from: String,
    unpack_dir: &str,
    manifest: String,
    expected: String,
    message: String,
)
    requires
        call_ensures(BinaryRockInstall::after_copying, (install, name, version, output, style), r),
        etc@ == output.etc@,
        file@ == name@ + "-"@ + version@ + ".rockspec"@,
        call_ensures(path_join_in, (style, etc, file), from),
        call_ensures(manifest_path, (unpack_dir, style), manifest),
        call_ensures(path_join_in, (style, unpack_dir, "rock_manifest"), expected),
        call_ensures(install_message, (name, version), message),
    ensures
        r is MoveRockspec,
        r->MoveRockspec_0.from@ == from@,
        r->MoveRockspec_0.to@ == output.rockspec@,
        manifest@ == expected@,
        message@ == "Unpacking and installing "@ + name@ + "@"@ + version@ + "..."@,
{
}

/// A directory is copied as a directory and a file as a file, from where it is to where it
/// belongs; the directory that a file goes to is made first. Anything else is refused, and named.
pub proof fn entries_are_copied_as_what_they_are(
    entry: ManifestCopy,
    kind: PathKind,
    metadata: String,
    style: PathStyle,
    r: Result<CopyAction, InstallBinaryRockError>,
    target: &str,
    dir: Option<String>,
)
    requires
        call_ensures(install_manifest_entry, (entry, kind, metadata, style), r),
        target@ == entry.target@,
        call_ensures(path_parent_in, (style, target), dir),
    ensures
        kind == PathKind::Directory ==> r is Ok && r->Ok_0 is CopyDirectory
            && r->Ok_0->CopyDirectory_src@ == entry.src@ && r->Ok_0->CopyDirectory_target@
            == entry.target@,
        kind == PathKind::File ==> r is Ok && r->Ok_0 is CopyFile && r->Ok_0->CopyFile_src@
            == entry.src@ && r->Ok_0->CopyFile_target@ == entry.target@ && (r->Ok_0->create is Some
            <==> dir is Some) && (dir is Some ==> r->Ok_0->create->0@ == dir->0@),
        kind == PathKind::Other ==> r is Err && r->Err_0 is NotAFileOrDirectory
            && r->Err_0->NotAFileOrDirectory_0@ == entry.src@ && r->Err_0->NotAFileOrDirectory_1@
            == metadata@,
{
}

/// An error of a packed rock says what failed, and why.
pub proof fn binary_rock_errors_say_what_failed(err: &InstallBinaryRockError, r: String)
    requires
        call_ensures(InstallBinaryRockError::to_message, (err,), r),
    ensures
        err is Io ==> r@ == "IO operation failed: "@ + err->Io_0@,
        err is Lockfile ==> r@ == err->Lockfile_0@,
        err is Tree ==> r@ == err->Tree_0@,
        err is ExternalDependencyError ==> r@ == err->ExternalDependencyError_0@,
        err is LuaVersionError ==> r@ == err->LuaVersionError_0@,
        err is Zip ==> r@ == "failed to unpack packed rock: "@ + err->Zip_0@,
        err is RockManifestNotFound ==> r@ == "rock_manifest not found. Cannot install rock files that were packed using LuaRocks version 1"@,
        err is RockManifestError ==> r@ == err->RockManifestError_0@,
        err is NotAFileOrDirectory ==> r@ == "the entry "@ + err->NotAFileOrDirectory_0@
            + " listed in the `rock_manifest` is neither a file nor a directory: "@
            + err->NotAFileOrDirectory_1@,
{
}

/// A copy of a constraint is the same constraint.
pub proof fn copied_constraint_is_the_same(constraint: &LockConstraint, r: LockConstraint)
    requires
        call_ensures(LockConstraint::copied, (constraint,), r),
    ensures
        r is Unconstrained <==> *constraint is Unconstrained,
        r is Constrained ==> r->Constrained_0 == constraint->Constrained_0,
{
}

} // verus!
