use ipm::package::depend::get_dependencies_from_list;
use ipm::package::detail::{description_markdown, detail_lines, show_from_info};
use ipm::package::import::{classify_local_path, import_destination, LocalImport};
use ipm::package::install::{get_package_dependencies, install_packages, resolve_dependencies};
use ipm::package::order::{determine_install_order, topological_sort, DependencyTable};
use ipm::package::search::hit_summary;
use ipm::package::uninstall::{uninstall_packages, uninstall_targets, UninstallStep};
use ipm::package::{
    group_dependencies_by_index, parse_deb_version, parse_dependency_type, search_packages, About,
    Author, DependInfo, DependencyType, FileMapping, Files, PackageInfo,
};
use ipm::www::WwwPackageInfo;

fn dep(t: DependencyType, name: &str, index: Option<u32>) -> DependInfo {
    DependInfo { depend_type: t, name: name.to_string(), version: "*".to_string(), index }
}

fn about(id: &str, deps: Vec<DependInfo>) -> About {
    About {
        name: id.to_string(),
        id: id.to_string(),
        version: "1.0".to_string(),
        author: Author { name: "Alice".to_string(), id: "alice".to_string(), email: String::new() },
        description: String::new(),
        license: "MIT".to_string(),
        dependencies: deps,
        architecture: vec!["amd64".to_string()],
        size: 0,
    }
}

fn offered(id: &str, deps: Vec<DependInfo>) -> WwwPackageInfo {
    WwwPackageInfo {
        about: about(id, deps),
        package_type: "ipm".to_string(),
        package_url: format!("http://example.org/package/{}.ipm", id),
    }
}

fn installed_info(id: &str, deps: Vec<DependInfo>) -> PackageInfo {
    PackageInfo { about: about(id, deps), files: Files { global: vec![], local: vec![] } }
}

fn green(s: &str) -> String {
    format!("\x1b[38;2;0;255;0m{}\x1b[m", s)
}

fn position(v: &[String], s: &str) -> usize {
    v.iter().position(|x| x == s).unwrap()
}

#[test]
fn dependency_type_names() {
    assert_eq!(DependencyType::Must.to_string(), "must");
    assert_eq!(DependencyType::MustPre.to_string(), "must.pre");
    assert_eq!(DependencyType::CannotConflict.to_string(), "cannot.conflict");
}

#[test]
fn dependency_type_read_back() {
    assert_eq!(parse_dependency_type("should"), (DependencyType::Should, None));
    assert_eq!(parse_dependency_type("may"), (DependencyType::May, None));
    assert_eq!(parse_dependency_type(&DependencyType::Must.to_string()), (DependencyType::Must, None));
}

#[test]
fn dependency_type_with_group_index() {
    assert_eq!(parse_dependency_type("must.index.3"), (DependencyType::Must, Some(3)));
    assert_eq!(parse_dependency_type("may.index.x"), (DependencyType::May, None));
    assert_eq!(parse_dependency_type("may.other.3"), (DependencyType::May, None));
}

#[test]
fn dotted_type_names_read_back_as_must() {
    assert_eq!(parse_dependency_type("must.pre"), (DependencyType::Must, None));
    assert_eq!(parse_dependency_type("cannot.break"), (DependencyType::Must, None));
    assert_eq!(parse_dependency_type("nonsense"), (DependencyType::Must, None));
}

#[test]
fn deb_version_is_kept() {
    assert_eq!(parse_deb_version(">= 1.0.0"), ">= 1.0.0");
}

#[test]
fn groups_follow_the_index_order() {
    let deps = vec![
        dep(DependencyType::Must, "a", Some(2)),
        dep(DependencyType::Should, "b", None),
        dep(DependencyType::May, "c", Some(1)),
        dep(DependencyType::Must, "e", Some(2)),
    ];
    let groups = group_dependencies_by_index(deps);
    let names: Vec<Vec<String>> =
        groups.iter().map(|g| g.iter().map(|d| d.name.clone()).collect()).collect();
    assert_eq!(names, vec![vec!["b"], vec!["c"], vec!["a", "e"]]);
}

#[test]
fn no_dependencies_no_groups() {
    assert!(group_dependencies_by_index(vec![]).is_empty());
}

#[test]
fn dependencies_of_a_listed_package() {
    let list = vec![offered("a", vec![dep(DependencyType::MustPre, "b", Some(4))]), offered("b", vec![])];
    let deps = get_package_dependencies("a", &list);
    assert_eq!(deps.len(), 1);
    assert_eq!(deps[0].name, "b");
    assert_eq!(deps[0].depend_type, DependencyType::Must);
    assert_eq!(deps[0].index, None);
    assert!(get_package_dependencies("missing", &list).is_empty());
}

#[test]
fn install_order_puts_dependencies_first() {
    let mut table = DependencyTable::new();
    table.insert("app".to_string(), vec![dep(DependencyType::Must, "lib", None)]);
    table.insert("lib".to_string(), vec![dep(DependencyType::Must, "base", None)]);
    let order = determine_install_order(&table);
    assert_eq!(order.len(), 3);
    assert!(position(&order, "base") < position(&order, "lib"));
    assert!(position(&order, "lib") < position(&order, "app"));
}

#[test]
fn install_order_survives_a_cycle() {
    let mut table = DependencyTable::new();
    table.insert("x".to_string(), vec![dep(DependencyType::Must, "y", None)]);
    table.insert("y".to_string(), vec![dep(DependencyType::Must, "x", None)]);
    let mut order = determine_install_order(&table);
    order.sort();
    assert_eq!(order, vec!["x", "y"]);
}

#[test]
fn table_insert_replaces() {
    let mut table = DependencyTable::new();
    table.insert("p".to_string(), vec![dep(DependencyType::Must, "q", None)]);
    table.insert("p".to_string(), vec![]);
    assert!(table.get("p").unwrap().is_empty());
    assert!(table.get("q").is_none());
}

#[test]
fn resolving_skips_installed_packages() {
    let list = vec![
        offered("a", vec![dep(DependencyType::Must, "b", None)]),
        offered("b", vec![dep(DependencyType::Must, "c", None)]),
        offered("c", vec![]),
    ];
    let installed = vec!["b".to_string()];
    let mut pending: Vec<String> = vec![];
    let mut resolved = DependencyTable::new();
    resolve_dependencies("a", &list, &installed, &mut pending, &mut resolved);
    assert!(pending.is_empty());
    assert_eq!(resolved.get("a").unwrap()[0].name, "b");
    assert!(resolved.get("b").is_none());
    assert!(resolved.get("c").is_none());
}

#[test]
fn install_plan_for_remote_and_local_packages() {
    let list = vec![
        offered("a", vec![dep(DependencyType::MustPre, "b", None)]),
        offered("b", vec![dep(DependencyType::Must, "c", None)]),
        offered("c", vec![]),
    ];
    let args = vec!["a".to_string(), "./local.ipm".to_string()];
    let is_local = vec![false, true];
    let mut installed = vec!["c".to_string()];
    let plan = install_packages(&args, &is_local, &list, &mut installed).unwrap();
    assert_eq!(plan.local_packages, vec!["./local.ipm"]);
    assert_eq!(plan.resolved.get("a").unwrap()[0].depend_type, DependencyType::Must);
    assert!(plan.resolved.get("b").is_some());
    assert!(plan.resolved.get("c").is_none());
    assert_eq!(plan.install_order, vec!["c", "b", "a"]);
    assert_eq!(plan.to_install, vec!["b", "a"]);
    assert_eq!(installed, vec!["c", "b", "a"]);
}

#[test]
fn installing_again_installs_nothing() {
    let list = vec![offered("a", vec![])];
    let args = vec!["a".to_string()];
    let mut installed = vec![];
    let first = install_packages(&args, &vec![false], &list, &mut installed).unwrap();
    assert_eq!(first.to_install, vec!["a"]);
    let second = install_packages(&args, &vec![false], &list, &mut installed).unwrap();
    assert!(second.to_install.is_empty());
    assert_eq!(installed, vec!["a"]);
}

#[test]
fn installing_nothing_is_refused() {
    let mut installed = vec!["z".to_string()];
    assert!(install_packages(&vec![], &vec![], &vec![], &mut installed).is_none());
    assert_eq!(installed, vec!["z"]);
}

#[test]
fn dependency_graph_of_installed_packages() {
    let data = vec![
        installed_info("a", vec![dep(DependencyType::Must, "b", None)]),
        installed_info("c", vec![]),
    ];
    let graph = get_dependencies_from_list(&data);
    assert_eq!(graph.count, 2);
    assert_eq!(graph.depends[0].name, "a");
    assert_eq!(graph.depends[0].info[0].name, "b");
    assert!(graph.depends[1].info.is_empty());
}

#[test]
fn search_ignores_case() {
    let list = vec![offered("Curl", vec![]), offered("wget", vec![]), offered("libcurl", vec![])];
    assert_eq!(search_packages("CURL", &list), vec![0, 2]);
    assert!(search_packages("zsh", &list).is_empty());
}

#[test]
fn search_hit_is_shown_in_colour() {
    let p = WwwPackageInfo {
        about: about("Curl", vec![]),
        package_type: "ipm".to_string(),
        package_url: "http://x".to_string(),
    };
    assert_eq!(
        hit_summary(&p),
        "\nPackage: \x1b[38;2;0;255;0mCurl\x1b[m\nURL: \x1b[38;2;0;200;255mhttp://x\x1b[m\nType: \x1b[38;2;255;200;0mipm\x1b[m\n----------------------------------------"
    );
}

#[test]
fn uninstall_reports_each_package() {
    let packages = vec![installed_info("a", vec![])];
    let args = vec!["a".to_string(), "zz".to_string()];
    let steps = uninstall_packages(&args, &packages).unwrap();
    assert_eq!(steps.len(), 2);
    assert!(matches!(&steps[0], UninstallStep::Uninstall(s) if s == "a"));
    assert!(matches!(&steps[1], UninstallStep::NotFound(s) if s == "zz"));
    assert!(uninstall_packages(&vec![], &packages).is_none());
}

#[test]
fn uninstall_targets_are_rooted() {
    let mut info = installed_info("tool", vec![]);
    info.files.global.push(FileMapping {
        from: "bin/tool".to_string(),
        to: vec!["usr/bin/tool".to_string(), "/opt/tool".to_string()],
        file_type: "bin".to_string(),
    });
    assert_eq!(uninstall_targets(&info), vec!["/usr/bin/tool", "/opt/tool"]);
}

#[test]
fn local_paths_are_classified() {
    assert_eq!(classify_local_path("pkg.tar.gz", false), LocalImport::TarGz);
    assert_eq!(classify_local_path("pkg.zip.gz", false), LocalImport::UnsupportedGz);
    assert_eq!(classify_local_path("pkg.gz", false), LocalImport::IgnoredGz);
    assert_eq!(classify_local_path("dir/a.tar", false), LocalImport::Tar);
    assert_eq!(classify_local_path("a.zip", false), LocalImport::Zip);
    assert_eq!(classify_local_path("notes.txt", false), LocalImport::PlainFile);
    assert_eq!(classify_local_path("Makefile", false), LocalImport::NoExtension);
    assert_eq!(classify_local_path(".bashrc", false), LocalImport::NoExtension);
    assert_eq!(classify_local_path("whatever.zip", true), LocalImport::Directory);
}

#[test]
fn import_destination_keeps_the_file_name() {
    assert_eq!(
        import_destination("/home/u/pkg.tar", "/opt/ipm/tmp"),
        Some("/opt/ipm/tmp/pkg.tar".to_string())
    );
    assert_eq!(import_destination("/", "/opt/ipm/tmp"), None);
    assert_eq!(import_destination("a/..", "/opt/ipm/tmp"), None);
}

#[test]
fn detail_lines_describe_the_package() {
    let mut info = installed_info("hello", vec![]);
    info.about.name = "Hello".to_string();
    info.about.dependencies.push(DependInfo {
        depend_type: DependencyType::Must,
        name: "libc".to_string(),
        version: ">= 2".to_string(),
        index: None,
    });
    info.about.architecture.push("arm64".to_string());
    let lines = detail_lines(&info, "R");
    assert_eq!(
        lines,
        vec![
            format!("{}Hello (hello)", green("name: ")),
            format!("{}1.0", green("version: ")),
            format!("{}Alice (alice)", green("author: ")),
            format!("{}R", green("description: |\n")),
            format!("{}    must: libc(version: >= 2)\n", green("dependencies: |\n")),
            format!("{}MIT", green("License: ")),
            format!("{}    amd64\n    arm64\n", green("Architecture: ")),
        ]
    );
}

#[test]
fn description_is_indented_for_markdown() {
    let mut info = installed_info("hello", vec![]);
    info.about.description = "line1\nline2".to_string();
    assert_eq!(description_markdown(&info), "    line1\n    line2");
}

#[test]
fn shown_details_keep_the_fixed_lines() {
    let info = installed_info("hello", vec![]);
    let lines = show_from_info(&info);
    assert_eq!(lines.len(), 7);
    assert_eq!(lines[0], format!("{}hello (hello)", green("name: ")));
    assert!(lines[3].starts_with(&green("description: |\n")));
}

#[test]
fn walk_from_a_visited_or_explored_package_changes_nothing() {
    let mut table = DependencyTable::new();
    table.insert("a".to_string(), vec![dep(DependencyType::Must, "b", None)]);
    let mut visited = vec!["a".to_string()];
    let mut temp = vec!["x".to_string()];
    let mut result = vec!["z".to_string()];
    topological_sort("a", &table, &mut visited, &mut temp, &mut result);
    topological_sort("x", &table, &mut visited, &mut temp, &mut result);
    assert_eq!(visited, vec!["a"]);
    assert_eq!(temp, vec!["x"]);
    assert_eq!(result, vec!["z"]);
}

#[test]
fn walk_appends_new_names_ending_with_the_start() {
    let mut table = DependencyTable::new();
    table.insert("a".to_string(), vec![dep(DependencyType::Must, "b", None), dep(DependencyType::Must, "c", None)]);
    table.insert("b".to_string(), vec![dep(DependencyType::Must, "c", None)]);
    let mut visited = vec!["c".to_string()];
    let mut temp = vec![];
    let mut result = vec![];
    topological_sort("a", &table, &mut visited, &mut temp, &mut result);
    assert_eq!(result, vec!["b", "a"]);
    assert_eq!(visited, vec!["c", "b", "a"]);
    assert!(temp.is_empty());
}

#[test]
fn resolving_with_an_unlisted_pending_package() {
    let list = vec![offered("a", vec![dep(DependencyType::Must, "ghost", None)])];
    let mut pending = vec!["ghost".to_string()];
    let mut resolved = DependencyTable::new();
    resolve_dependencies("a", &list, &vec![], &mut pending, &mut resolved);
    assert_eq!(pending, vec!["ghost"]);
    assert_eq!(resolved.get("a").unwrap()[0].name, "ghost");
    assert!(resolved.get("ghost").is_none());
    resolve_dependencies("ghost", &list, &vec![], &mut pending, &mut resolved);
    assert_eq!(resolved.entries.len(), 1);
}
