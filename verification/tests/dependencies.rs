use lux_lib::lua_dependency::{
    apply_overrides, DependencyType, LuaDependencySpec, LuaDependencySpecParseError,
};
use lux_lib::package::{
    ExternalDependencySpec, OptState, PackageName, PackageReq, PackageVersionReq, PinnedState,
    RockSourceSpec,
};
use lux_lib::table::Table;

fn parse(text: &str) -> LuaDependencySpec {
    let (name, version) = text.split_once(' ').unwrap();
    LuaDependencySpec::from_parsed(Ok(PackageReq {
        name: PackageName(name.into()),
        version_req: PackageVersionReq { text: format!("=={version}"), any: false },
    }))
    .unwrap()
}

#[test]
fn test_override_lua_dependency_spec() {
    let neorg_a: LuaDependencySpec = parse("neorg 1.0.0");
    let neorg_b: LuaDependencySpec = parse("neorg 2.0.0");
    let foo: LuaDependencySpec = parse("foo 1.0.0");
    let bar: LuaDependencySpec = parse("bar 1.0.0");
    let base_vec = vec![neorg_a, foo.clone()];
    let override_vec = vec![neorg_b.clone(), bar.clone()];
    let result = apply_overrides(base_vec, override_vec);
    assert_eq!(result.clone().len(), 3);
    assert_eq!(
        result
            .into_iter()
            .filter(|dep| *dep == neorg_b || *dep == foo || *dep == bar)
            .count(),
        3
    );
}

#[test]
fn overriding_with_nothing_keeps_the_last_of_each_name() {
    let result = apply_overrides(
        vec![parse("a 1"), parse("b 1"), parse("a 2")],
        Vec::new(),
    );
    let texts: Vec<String> = result.iter().map(|dep| dep.to_text()).collect();
    assert_eq!(texts, ["a==2", "b==1"]);
}

#[test]
fn names_require_any_version() {
    let dep = LuaDependencySpec::from_package_name(PackageName("foo".into()));
    assert_eq!(dep.name(), &PackageName("foo".into()));
    assert!(dep.version_req().is_any());
    assert_eq!(dep.pin(), &PinnedState::Unpinned);
    assert_eq!(dep.opt(), &OptState::Required);
    assert_eq!(dep.source(), &None);
    assert_eq!(dep.to_text(), "foo");
}

#[test]
fn dependencies_say_what_they_require() {
    let dep = parse("neorg 1.0.0");
    assert_eq!(dep.to_text(), "neorg==1.0.0");
    assert_eq!(dep.name(), &PackageName("neorg".into()));
    assert_eq!(dep.version_req().text, "==1.0.0");
    assert_eq!(dep.package_req().name().0, "neorg");
    assert_eq!(dep.pin(), &PinnedState::Unpinned);
    assert_eq!(dep.opt(), &OptState::Required);
    assert_eq!(dep.source(), &None);
    let dep = LuaDependencySpec {
        package_req: PackageReq {
            name: PackageName("foo".into()),
            version_req: PackageVersionReq { text: ">=0".into(), any: true },
        },
        pin: PinnedState::Pinned,
        opt: OptState::Optional,
        source: Some(RockSourceSpec("git+https://x".into())),
    };
    assert_eq!(dep.to_text(), "foo");
    assert_eq!(dep.pin(), &PinnedState::Pinned);
    assert_eq!(dep.into_package_req().name, PackageName("foo".into()));
}

#[test]
fn what_is_no_dependency() {
    let err = LuaDependencySpec::from_parsed(Err("not a package".into())).unwrap_err();
    assert!(matches!(&err, LuaDependencySpecParseError::PackageReq(_)));
    assert_eq!(err.to_message(), "not a package");
}

#[test]
fn references_to_dependencies() {
    let deps = DependencyType::Build(vec![parse("a 1"), parse("b 2")]);
    match deps.as_ref() {
        DependencyType::Build(refs) => {
            let texts: Vec<String> = refs.iter().map(|dep| dep.to_text()).collect();
            assert_eq!(texts, ["a==1", "b==2"]);
        }
        other => panic!("{other:?}"),
    }
    let external: DependencyType<LuaDependencySpec> = DependencyType::External(Table::from_entries(
        vec![(
            "foo".to_string(),
            ExternalDependencySpec { header: Some("foo.h".into()), library: None },
        )],
    ));
    match external.as_ref() {
        DependencyType::External(table) => {
            let foo = table.get(&"foo".to_string()).unwrap();
            assert_eq!(foo.header.as_deref(), Some("foo.h"));
            assert_eq!(foo.library, None);
        }
        other => panic!("{other:?}"),
    }
    assert!(matches!(
        DependencyType::Regular(vec![1, 2]).as_ref(),
        DependencyType::Regular(refs) if refs == [&1, &2]
    ));
    assert!(matches!(
        DependencyType::Test(vec![3]).as_ref(),
        DependencyType::Test(refs) if refs == [&3]
    ));
}
