use lux_lib::fetch_vendored::{
    fetch_vendored_rock, load_vendored_package, load_vendored_rockspec, rock_path, rockspec_path,
    source_path, unparsable_rockspec, unreadable_rock, unreadable_rockspec, FetchVendoredError,
    PackageSpec, VendoredDownload, VendoredPackage,
};
use lux_lib::install_binary_rock::{
    install_manifest_entry, install_message, manifest_path, BinaryRockInstall, BuildBehaviour,
    CopyAction, InstallBinaryRockError, InstallStep, LockConstraint, ManifestCopy, PathKind,
    RockHashes, RockLayout, RockManifest, RockOutput, RockRecord,
};
use lux_lib::slash_path::PathStyle;
use lux_lib::package::{
    EntryType, OptState, PackageVersionReq, PinnedState, RemotePackageSource,
    RemotePackageSourceUrl,
};

fn strings(all: &[&str]) -> Vec<String> {
    all.iter().map(|s| s.to_string()).collect()
}

fn package(name: &str) -> PackageSpec {
    PackageSpec {
        name: name.into(),
        version: "1.0.0-1".into(),
        text: format!("{name} 1.0.0-1"),
    }
}

#[test]
fn test_load_vendored_rockspec() {
    let package_spec = package("foo");
    assert_eq!(rockspec_path("vendor", &package_spec, PathStyle::Unix), "vendor/foo-1.0.0-1.rockspec");
    let rockspec = load_vendored_rockspec("vendor", &package_spec, true, PathStyle::Unix);
    assert!(rockspec.is_ok());
}

#[test]
fn test_load_vendored_package() {
    let package_spec = package("foo");
    assert_eq!(source_path("vendor", &package_spec, PathStyle::Unix), "vendor/foo@1.0.0-1");
    assert!(matches!(
        load_vendored_package("vendor", &package_spec, true, false, PathStyle::Unix),
        Ok(VendoredPackage::Source { .. })
    ));

    let package_spec = package("bar");
    assert_eq!(rock_path("vendor", &package_spec, PathStyle::Unix), "vendor/bar@1.0.0-1.rock");
    assert!(matches!(
        load_vendored_package("vendor", &package_spec, false, true, PathStyle::Unix),
        Ok(VendoredPackage::BinaryRock { .. })
    ));
}

#[test]
fn vendored_source_comes_first() {
    let found = load_vendored_package("vendor", &package("foo"), true, true, PathStyle::Unix).unwrap();
    assert_eq!(found, VendoredPackage::Source("vendor/foo@1.0.0-1".into()));
    match fetch_vendored_rock(found) {
        VendoredDownload::RockspecOnly { source, source_url } => {
            assert_eq!(source, RemotePackageSource::Local);
            assert_eq!(
                source_url,
                Some(RemotePackageSourceUrl::File { path: "vendor/foo@1.0.0-1".into() })
            );
        }
        other => panic!("{other:?}"),
    }
    let found = VendoredPackage::BinaryRock("vendor/x.rock".into());
    assert!(matches!(
        fetch_vendored_rock(found),
        VendoredDownload::BinaryRock {
            source: RemotePackageSource::Local,
            source_url: None,
            rock_path,
        } if rock_path == "vendor/x.rock"
    ));
}

#[test]
fn vendored_faults() {
    let err = load_vendored_rockspec("vendor", &package("foo"), false, PathStyle::Unix).unwrap_err();
    assert_eq!(
        err.to_message(),
        "could not find a vendored RockSpec for package foo 1.0.0-1 in vendor directory vendor."
    );
    let err = load_vendored_package("vendor", &package("foo"), false, false, PathStyle::Unix).unwrap_err();
    assert_eq!(
        err.to_message(),
        "could not find a source or .rock archive for foo 1.0.0-1 in vendor directory vendor."
    );
    assert_eq!(
        unreadable_rock("v/x.rock", "gone".into()).to_message(),
        "unable to read binary rock: v/x.rock:\ngone"
    );
    assert_eq!(
        unreadable_rockspec("v/x.rockspec", "gone".into()).to_message(),
        "could not read vendored RockSpec content at v/x.rockspec:\ngone"
    );
    assert_eq!(
        unparsable_rockspec("v/x.rockspec", "odd".into()).to_message(),
        "could not parse vendored RockSpec v/x.rockspec:\nodd"
    );
    assert_eq!(FetchVendoredError::Search("none".into()).to_message(), "none");
}

fn install() -> BinaryRockInstall {
    BinaryRockInstall::new(
        RemotePackageSource::LuarocksBinaryRock("https://test.org".into()),
        EntryType::Entrypoint,
    )
}

#[test]
fn installed_rocks_are_kept() {
    let rock = install();
    assert_eq!(rock.pin, PinnedState::Unpinned);
    assert_eq!(rock.opt, OptState::Required);
    assert!(matches!(rock.constraint, LockConstraint::Unconstrained));
    assert!(matches!(rock.after_look_up(true), InstallStep::Keep));
    assert!(matches!(rock.after_look_up(false), InstallStep::Unpack));
    let rock = rock
        .pin(PinnedState::Pinned)
        .opt(OptState::Optional)
        .constraint(LockConstraint::Unconstrained)
        .behaviour(BuildBehaviour::Force);
    assert!(matches!(rock.after_look_up(true), InstallStep::Unpack));
    assert_eq!(rock.pin, PinnedState::Pinned);
    assert_eq!(rock.opt, OptState::Optional);
    assert_eq!(
        rock.source_url(),
        Some(RemotePackageSourceUrl::Url { url: "https://test.org".into() })
    );
    let rock = BinaryRockInstall::new(
        RemotePackageSource::Other("local".into()),
        EntryType::DependencyOnly,
    );
    assert_eq!(rock.source_url(), None);
}

fn record(install: &BinaryRockInstall, name: &str) -> RockRecord {
    let hashes = RockHashes { rockspec: "sha256-a".into(), source: "sha256-b".into() };
    install.record(name.into(), "1.0-1".into(), strings(&["tool"]), hashes)
}

#[test]
fn fresh_rocks_have_the_pin_and_the_opt() {
    let rock = install()
        .pin(PinnedState::Pinned)
        .opt(OptState::Optional)
        .constraint(LockConstraint::Constrained(PackageVersionReq {
            text: ">=1.0".into(),
            any: false,
        }));
    let fresh = record(&rock, "foo");
    assert_eq!(fresh.name, "foo");
    assert_eq!(fresh.version, "1.0-1");
    assert_eq!(fresh.binaries, ["tool"]);
    assert_eq!(fresh.hashes.rockspec, "sha256-a");
    assert_eq!(fresh.hashes.source, "sha256-b");
    assert_eq!(fresh.source, rock.source);
    assert_eq!(
        fresh.source_url,
        Some(RemotePackageSourceUrl::Url { url: "https://test.org".into() })
    );
    assert!(matches!(&fresh.constraint, LockConstraint::Constrained(req) if req.text == ">=1.0"));
    let returned = rock.returned(None, fresh);
    assert_eq!(returned.name, "foo");
    assert_eq!(returned.pinned, PinnedState::Pinned);
    assert_eq!(returned.opt, OptState::Optional);

    // the rock of the lockfile stays as it is
    let locked = record(&install(), "foo");
    let kept = rock.returned(Some(locked), record(&rock, "foo"));
    assert_eq!(kept.pinned, PinnedState::Unpinned);
    assert_eq!(kept.opt, OptState::Required);
    let forced = rock.behaviour(BuildBehaviour::Force);
    let locked = record(&install(), "foo");
    let returned = forced.returned(Some(locked), record(&forced, "foo"));
    assert_eq!(returned.pinned, PinnedState::Pinned);
    assert_eq!(returned.opt, OptState::Optional);
}

#[test]
fn rocks_have_the_layout_of_their_entry_type() {
    assert_eq!(install().layout(), RockLayout::Entrypoint);
    assert!(matches!(
        install().after_unpacking(true),
        Ok(InstallStep::ReadManifest(RockLayout::Entrypoint))
    ));
    let dependency = BinaryRockInstall::new(RemotePackageSource::Local, EntryType::DependencyOnly);
    assert_eq!(dependency.layout(), RockLayout::Dependency);
    assert_eq!(dependency.source_url(), None);
    assert!(matches!(
        dependency.after_unpacking(true),
        Ok(InstallStep::ReadManifest(RockLayout::Dependency))
    ));
}

#[test]
fn rocks_are_checked_first() {
    let rock = install();
    let step = rock.start();
    assert!(matches!(step, InstallStep::ProbeExternalDependencies));
    let step = rock.after(step);
    assert!(matches!(step, InstallStep::ValidateLuaVersion));
    let step = rock.after(step);
    assert!(matches!(step, InstallStep::LookUp));
    assert!(matches!(rock.after_unpacking(true).unwrap(), InstallStep::ReadManifest(_)));
    let step = rock.after_copying("foo", "1.0-1", &output(), PathStyle::Unix);
    match &step {
        InstallStep::MoveRockspec(moved) => {
            assert_eq!(moved.from, "/t/etc/foo-1.0-1.rockspec");
            assert_eq!(moved.to, "/t/x.rockspec");
        }
        other => panic!("{other:?}"),
    }
    assert!(matches!(rock.after(step), InstallStep::Installed));
}

fn output() -> RockOutput {
    RockOutput {
        lib: "/t/lib".into(),
        src: "/t/src".into(),
        bin: "/t/bin".into(),
        doc: "/t/doc".into(),
        etc: "/t/etc".into(),
        rockspec: "/t/x.rockspec".into(),
    }
}

#[test]
fn rocks_are_copied_by_kind() {
    let manifest = RockManifest {
        lib: strings(&["toml_edit.so"]),
        lua: strings(&["foo/bar.lua", "x.lua"]),
        bin: strings(&["tool"]),
        doc: Vec::new(),
        root: strings(&["foo-1.rockspec"]),
    };
    let InstallStep::CopyEntries(copies) =
        install().after_reading(&manifest, "/tmp/u", &output(), PathStyle::Unix)
    else {
        panic!()
    };
    let pairs: Vec<(&str, &str)> =
        copies.iter().map(|c| (c.src.as_str(), c.target.as_str())).collect();
    assert_eq!(
        pairs,
        [
            ("/tmp/u/lib/toml_edit.so", "/t/lib/toml_edit.so"),
            ("/tmp/u/lua/foo/bar.lua", "/t/src/foo/bar.lua"),
            ("/tmp/u/lua/x.lua", "/t/src/x.lua"),
            ("/tmp/u/bin/tool", "/t/bin/tool"),
            ("/tmp/u/foo-1.rockspec", "/t/etc/foo-1.rockspec"),
        ]
    );
}

#[test]
fn entries_are_directories_or_files() {
    let entry = || ManifestCopy { src: "/u/lua/foo".into(), target: "/t/src/foo".into() };
    let action = |kind: PathKind| {
        install_manifest_entry(entry(), kind, "meta".into(), PathStyle::Unix)
    };
    assert!(matches!(
        action(PathKind::Directory).unwrap(),
        CopyAction::CopyDirectory { src, target } if src == "/u/lua/foo" && target == "/t/src/foo"
    ));
    match action(PathKind::File).unwrap() {
        CopyAction::CopyFile { create, src, target } => {
            assert_eq!(create.as_deref(), Some("/t/src"));
            assert_eq!(src, "/u/lua/foo");
            assert_eq!(target, "/t/src/foo");
        }
        other => panic!("{other:?}"),
    }
    assert_eq!(
        action(PathKind::Other).unwrap_err().to_message(),
        "the entry /u/lua/foo listed in the `rock_manifest` is neither a file nor a directory: meta"
    );
}

#[test]
fn rocks_need_a_manifest() {
    assert_eq!(manifest_path("/u", PathStyle::Unix), "/u/rock_manifest");
    assert_eq!(
        install().after_unpacking(false).unwrap_err().to_message(),
        "rock_manifest not found. Cannot install rock files that were packed using LuaRocks version 1"
    );
    assert_eq!(install_message("foo", "1.0"), "Unpacking and installing foo@1.0...");
}

#[test]
fn install_faults() {
    assert_eq!(InstallBinaryRockError::Io("x".into()).to_message(), "IO operation failed: x");
    assert_eq!(
        InstallBinaryRockError::Zip("x".into()).to_message(),
        "failed to unpack packed rock: x"
    );
    for err in [
        InstallBinaryRockError::Lockfile("x".into()),
        InstallBinaryRockError::Tree("x".into()),
        InstallBinaryRockError::ExternalDependencyError("x".into()),
        InstallBinaryRockError::LuaVersionError("x".into()),
        InstallBinaryRockError::RockManifestError("x".into()),
    ] {
        assert_eq!(err.to_message(), "x");
    }
}
