use morphir_naming::distribution::ApplicationDistributionInfo;
use morphir_naming::distribution::Distribution;
use morphir_naming::distribution::Distributions;
use morphir_naming::fq_name::FQName;
use morphir_naming::host::Host;
use morphir_naming::host::HostId;
use morphir_naming::name::Name;
use morphir_naming::package_management::greet;
use morphir_naming::path::Path;
use morphir_naming::project::PackageName;
use morphir_naming::services::Workspace;
use morphir_naming::tools::morphir;
use morphir_naming::tools::tool_name;
use morphir_naming::tools::Morphir;
use morphir_naming::tools::Tool;
use morphir_naming::tools::ToolName;
use morphir_naming::workspace::NoWorkspaceDir;
use morphir_naming::workspace::WorkspaceBuilder;
use morphir_naming::workspace::WorkspaceDir;
use morphir_naming::workspace::WorkspaceResolutionError;

#[test]
fn path_from_str_splits_on_dots() {
    let path = Path::from_str("foo.bar.baz");
    let names = vec![
        Name::from_str("foo"),
        Name::from_str("bar"),
        Name::from_str("baz"),
    ];
    assert_eq!(path, Path::from_names(names));
}

#[test]
fn path_canonicalizes_each_piece() {
    let path = Path::from_str("myPackage.someModule");
    let names = path.names();
    assert_eq!(names.len(), 2);
    assert_eq!(names[0].to_vec(), vec!["my".to_string(), "package".to_string()]);
    assert_eq!(names[1].to_vec(), vec!["some".to_string(), "module".to_string()]);
}

#[test]
fn path_parse_takes_the_separator() {
    let slashed = Path::parse("foo/bar", '/');
    assert_eq!(slashed, Path::from_str("foo.bar"));
}

#[test]
fn a_name_rebuilds_from_its_transparent_form() {
    let name = Name::from_str("valueInUSD");
    let strings = name.to_vec();
    let parts: Vec<&str> = strings.iter().map(|s| s.as_str()).collect();
    let rebuilt = Name::from_slices(&parts);
    assert_eq!(rebuilt, name);
}

#[test]
fn path_order_is_significant() {
    let a = Name::from_str("alpha");
    let b = Name::from_str("beta");
    let ab = Path::from_names(vec![a.clone(), b.clone()]);
    let ba = Path::from_names(vec![b, a]);
    assert_ne!(ab, ba);
}

#[test]
fn fq_name_equality_needs_all_three_components() {
    let pkg = Path::from_str("my.package");
    let md = Path::from_str("my.module");
    let local = Name::from_str("someValue");
    let x = FQName::new(pkg.clone(), md.clone(), local.clone());
    let y = FQName::new(pkg.clone(), md.clone(), local.clone());
    assert_eq!(x, y);

    let other_pkg = FQName::new(Path::from_str("other.package"), md.clone(), local.clone());
    let other_mod = FQName::new(pkg.clone(), Path::from_str("other.module"), local.clone());
    let other_local = FQName::new(pkg.clone(), md.clone(), Name::from_str("otherValue"));
    assert_ne!(x, other_pkg);
    assert_ne!(x, other_mod);
    assert_ne!(x, other_local);
}

#[test]
fn fq_name_accessors_return_the_components() {
    let pkg = Path::from_str("my.package");
    let md = Path::from_str("my.module");
    let local = Name::from_str("someValue");
    let fq = FQName::new(pkg.clone(), md.clone(), local.clone());
    assert_eq!(*fq.package_path(), pkg);
    assert_eq!(*fq.mod_path(), md);
    assert_eq!(*fq.local_name(), local);
}

#[test]
fn tool_names_compare_by_spelling() {
    let tool = ToolName::new("morphir");
    assert!(tool.is("morphir"));
    assert!(!tool.is("morphir2"));
    assert_eq!(ToolName::default().as_str(), "morphir");
    assert_eq!(ToolName::morphir().as_str(), "morphir");
    assert_eq!(morphir().as_str(), "morphir");
    assert_eq!(tool_name(&Morphir).as_str(), "morphir");
    assert_eq!(Morphir.name().as_str(), "morphir");
}

#[test]
fn test_workspace_new() {
    let root = String::from("test");
    let workspace = Workspace::new(root);
    assert_eq!(workspace.root(), "test");
}

#[test]
fn workspace_dir_prefers_the_directory_itself() {
    let dir = WorkspaceDir::from_path("/ws/project", true, Some("/ws")).unwrap();
    assert_eq!(dir.as_path(), "/ws/project");
}

#[test]
fn workspace_dir_falls_back_to_the_parent() {
    let dir = WorkspaceDir::from_path("/ws/project/file.txt", false, Some("/ws/project")).unwrap();
    assert_eq!(dir.as_path(), "/ws/project");
}

#[test]
fn workspace_dir_without_parent_is_unresolvable() {
    assert!(WorkspaceDir::from_path("", false, None).is_none());
    let err = WorkspaceDir::from_str("", false, None).unwrap_err();
    assert!(matches!(err, WorkspaceResolutionError::WorkspaceUnresolvable(_)));
    assert_eq!(
        err.message(),
        "unable to resolve workspace directory given path "
    );
}

#[test]
fn workspace_dir_should_be_friendly_to_ownership_changes() {
    let file = "crates/codemodel/src/internals/workspace.rs";
    let parent = "crates/codemodel/src/internals";
    let workspace_dir = WorkspaceDir::from_str(file, false, Some(parent)).unwrap();
    assert_eq!(workspace_dir.as_path(), parent);
}

#[test]
fn workspace_workspace_dir_should_be_friendly_to_ownership_changes() {
    let file = "crates/services/src/internals/workspace.rs";
    let parent = "crates/services/src/internals";
    let workspace_dir =
        morphir_naming::services::WorkspaceDir::from_path(file, false, Some(parent)).unwrap();
    assert_eq!(workspace_dir.as_path(), parent);
    assert_eq!(workspace_dir.into_string(), parent.to_string());
}

#[test]
fn workspace_not_found_message_names_the_path() {
    let err = morphir_naming::services::WorkspaceResolutionError::WorkspaceNotFound(
        "/nowhere".to_string(),
    );
    assert_eq!(
        err.message(),
        "unable to resolve workspace directory from path /nowhere"
    );
    let not_found = WorkspaceResolutionError::WorkspaceDirNotFound("/gone".to_string());
    assert_eq!(
        not_found.message(),
        "unable to find workspace directory at path /gone"
    );
}

#[test]
fn workspace_builder_carries_the_root() {
    let builder: WorkspaceBuilder<NoWorkspaceDir> = WorkspaceBuilder::new();
    let built = builder.root(WorkspaceDir::new("/ws".to_string()));
    drop(built);
}

#[test]
fn host_folder_name_prefixes_a_dot() {
    let host = Host::new(HostId::morphir());
    assert_eq!(host.host_folder_name(), ".morphir");
    assert_eq!(host.id.id(), "morphir");
    let other = Host::new(HostId::new("my_host"));
    assert_eq!(other.host_folder_name(), ".my_host");
}

#[test]
fn host_ids_compare_by_spelling() {
    assert_eq!(HostId::morphir(), HostId::new("morphir"));
    assert_ne!(HostId::morphir(), HostId::new("other"));
}

#[test]
fn distribution_package_name_reaches_through_every_variant() {
    let info = ApplicationDistributionInfo { package_name: PackageName("test".to_string()) };
    let app = Distribution::Application(info.clone());
    let lib = Distribution::Library(info);
    assert_eq!(app.package_name().0, "test");
    assert_eq!(lib.package_name().0, "test");
    assert_eq!(Distributions::empty().0.len(), 0);
}

#[test]
fn greet_names_the_guest() {
    assert_eq!(greet("World"), "Hello, World!");
}

#[test]
fn names_order_lexicographically() {
    let a = Name::from_str("alpha");
    let b = Name::from_str("beta");
    assert_eq!(a.compare(&b), std::cmp::Ordering::Less);
    assert_eq!(b.compare(&a), std::cmp::Ordering::Greater);
    assert_eq!(a.compare(&Name::from_str("alpha")), std::cmp::Ordering::Equal);
    let prefix = Name::from_str("alphaBeta");
    assert_eq!(a.compare(&prefix), std::cmp::Ordering::Less);
}

#[test]
fn paths_order_by_their_first_differing_name() {
    let ab = Path::from_str("alpha.beta");
    let ag = Path::from_str("alpha.gamma");
    let a = Path::from_str("alpha");
    assert_eq!(ab.compare(&ag), std::cmp::Ordering::Less);
    assert_eq!(ag.compare(&ab), std::cmp::Ordering::Greater);
    assert_eq!(a.compare(&ab), std::cmp::Ordering::Less);
    assert_eq!(ab.compare(&Path::from_str("alpha.beta")), std::cmp::Ordering::Equal);
}

#[test]
fn fq_names_order_package_then_module_then_local() {
    let make = |p: &str, m: &str, l: &str| {
        FQName::new(Path::from_str(p), Path::from_str(m), Name::from_str(l))
    };
    let base = make("pkg.a", "mod.a", "valueA");
    assert_eq!(
        base.compare(&make("pkg.b", "mod.a", "valueA")),
        std::cmp::Ordering::Less
    );
    assert_eq!(
        base.compare(&make("pkg.a", "mod.b", "valueA")),
        std::cmp::Ordering::Less
    );
    assert_eq!(
        base.compare(&make("pkg.a", "mod.a", "valueB")),
        std::cmp::Ordering::Less
    );
    assert_eq!(
        base.compare(&make("pkg.a", "mod.a", "valueA")),
        std::cmp::Ordering::Equal
    );
    assert_eq!(
        make("pkg.b", "mod.a", "valueA").compare(&base),
        std::cmp::Ordering::Greater
    );
}
