use ipm::package::{About, Author};
use ipm::third::apt::repository::AptRepositoryInfo;
use ipm::www::{
    check_apt_repository, collect_server_packages, index_file_url, package_url,
    parse_apt_arguments, server_packages, www_kind, AptRepositoryError, ArgIssue, WwwInfo,
    WwwKind,
};

fn strings(v: &[&str]) -> Vec<String> {
    v.iter().map(|s| s.to_string()).collect()
}

fn about(id: &str) -> About {
    About {
        name: id.to_string(),
        id: id.to_string(),
        version: "1.0".to_string(),
        author: Author { name: "A".to_string(), id: "a".to_string(), email: String::new() },
        description: String::new(),
        license: String::new(),
        dependencies: vec![],
        architecture: vec![],
        size: 3,
    }
}

fn repo(name: &str, suites: &[&str], comps: &[&str], archs: &[&str]) -> AptRepositoryInfo {
    AptRepositoryInfo {
        name: name.to_string(),
        url: "http://deb.example.org".to_string(),
        suites: strings(suites),
        components: strings(comps),
        architectures: strings(archs),
        signed_by: String::new(),
        options: vec![],
    }
}

#[test]
fn server_kinds() {
    assert_eq!(www_kind("ipm"), WwwKind::Ipm);
    assert_eq!(www_kind("apt"), WwwKind::Apt);
    assert_eq!(www_kind("APT"), WwwKind::Unknown);
}

#[test]
fn server_addresses() {
    assert_eq!(index_file_url("https://pkg.example.org"), "https://pkg.example.org/ipm-server-index.json");
    assert_eq!(package_url("https://pkg.example.org", "hello"), "https://pkg.example.org/package/hello.ipm");
}

#[test]
fn packages_offered_by_a_server() {
    let list = server_packages("https://s", vec![about("a"), about("b")]);
    assert_eq!(list.len(), 2);
    assert_eq!(list[1].about.id, "b");
    assert_eq!(list[1].about.size, 3);
    assert_eq!(list[0].package_type, "ipm");
    assert_eq!(list[0].package_url, "https://s/package/a.ipm");
}

#[test]
fn apt_options_are_read() {
    let args = strings(&[
        "--name= Ubuntu ",
        "--suites=jammy, jammy-updates",
        "--components=main",
        "--architectures=amd64,arm64",
        "--options=trusted=yes",
    ]);
    let (info, issues) = parse_apt_arguments("http://archive.ubuntu.com/ubuntu".to_string(), &args);
    assert!(issues.is_empty());
    assert_eq!(info.url, "http://archive.ubuntu.com/ubuntu");
    assert_eq!(info.name, "Ubuntu");
    assert_eq!(info.suites, vec!["jammy", "jammy-updates"]);
    assert_eq!(info.components, vec!["main"]);
    assert_eq!(info.architectures, vec!["amd64", "arm64"]);
    assert_eq!(info.options, vec!["trusted=yes"]);
    assert_eq!(info.signed_by, "");
    assert_eq!(check_apt_repository(&info), Ok(()));
}

#[test]
fn apt_option_problems_are_reported() {
    let args = strings(&["--colour=red", "plain", "--suites=a", "--suites=b"]);
    let (info, issues) = parse_apt_arguments("u".to_string(), &args);
    assert_eq!(info.suites, vec!["b"]);
    assert_eq!(issues.len(), 2);
    assert!(matches!(&issues[0], ArgIssue::UnknownArgument(k) if k == "--colour"));
    assert!(matches!(&issues[1], ArgIssue::InvalidFormat(a) if a == "plain"));
}

#[test]
fn apt_repository_needs_every_part() {
    assert_eq!(check_apt_repository(&repo("", &["s"], &["c"], &["a"])), Err(AptRepositoryError::MissingName));
    assert_eq!(check_apt_repository(&repo("n", &[], &[], &[])), Err(AptRepositoryError::MissingSuites));
    assert_eq!(check_apt_repository(&repo("n", &["s"], &[], &["a"])), Err(AptRepositoryError::MissingComponents));
    assert_eq!(check_apt_repository(&repo("n", &["s"], &["c"], &[])), Err(AptRepositoryError::MissingArchitectures));
}

fn server(url: &str, kind: &str) -> WwwInfo {
    WwwInfo { name: url.to_string(), url: url.to_string(), www_type: kind.to_string() }
}

#[test]
fn package_list_from_the_servers() {
    let servers = vec![server("https://one", "ipm"), server("http://deb", "apt"), server("https://two", "ipm"), server("https://three", "ipm")];
    let indexes = vec![Some(vec![about("a"), about("b")]), Some(vec![about("x")]), Some(vec![about("c")]), None];
    let list = collect_server_packages(&servers, indexes);
    let got: Vec<(String, String)> = list.iter().map(|p| (p.about.id.clone(), p.package_url.clone())).collect();
    assert_eq!(
        got,
        vec![
            ("a".to_string(), "https://one/package/a.ipm".to_string()),
            ("b".to_string(), "https://one/package/b.ipm".to_string()),
            ("c".to_string(), "https://two/package/c.ipm".to_string()),
        ]
    );
    assert!(list.iter().all(|p| p.package_type == "ipm"));
}
