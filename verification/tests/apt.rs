use ipm::package::DependencyType;
use ipm::third::apt::package::{AptPackageInfo, DebPackageInfo};
use ipm::third::apt::parse_dependency;
use ipm::third::apt::repository::{
    collect_index_text, parse_package_index, AptReleaseInfo, AptRepositoryInfo,
};
use std::io::Write;

const CURL: &str = "Package: curl\nArchitecture: amd64\nVersion: 7.81.0-1\nInstalled-Size: 453\nMaintainer: Ubuntu Developers\nDepends: libc6 (>= 2.34), libcurl4 (= 7.81.0-1) | libcurl3, zlib1g\nSuggests: ca-certificates\nSize: 194\nDescription: command line tool\n";

fn gzip(text: &str) -> Vec<u8> {
    let mut e = flate2::write::GzEncoder::new(Vec::new(), flate2::Compression::default());
    e.write_all(text.as_bytes()).unwrap();
    e.finish().unwrap()
}

#[test]
fn apt_record_fields_are_read() {
    let info = AptPackageInfo::from_string(CURL).unwrap();
    assert_eq!(info.package, "curl");
    assert_eq!(info.architecture, "amd64");
    assert_eq!(info.version, "7.81.0-1");
    assert_eq!(info.installed_size, 453);
    assert_eq!(info.size, 194);
    assert_eq!(info.maintainer, "Ubuntu Developers");
    assert_eq!(
        info.depends,
        vec!["libc6 (>= 2.34)", "libcurl4 (= 7.81.0-1) | libcurl3", "zlib1g"]
    );
    assert_eq!(info.suggests, vec!["ca-certificates"]);
    assert!(info.recommended.is_empty());
    assert_eq!(info.description, "command line tool");
    assert_eq!(info.homepage, "");
}

#[test]
fn apt_record_missing_fields_are_empty() {
    let info = AptPackageInfo::from_string("no fields here").unwrap();
    assert_eq!(info.package, "");
    assert_eq!(info.installed_size, 0);
    assert!(info.depends.is_empty());
    assert!(info.task.is_empty());
}

#[test]
fn apt_record_bad_number_reads_as_zero() {
    let info = AptPackageInfo::from_string("Installed-Size: many\nSize: -3").unwrap();
    assert_eq!(info.installed_size, 0);
    assert_eq!(info.size, 0);
}

#[test]
fn apt_record_later_field_wins_and_values_are_trimmed() {
    let info = AptPackageInfo::from_string("Package: a\nPackage:   b  \n").unwrap();
    assert_eq!(info.package, "b");
}

#[test]
fn apt_record_list_fields_are_cut_at_comma_space() {
    let info = AptPackageInfo::from_string("Depends: \nTask: x, y,z").unwrap();
    assert_eq!(info.depends, vec![""]);
    assert_eq!(info.task, vec!["x", "y,z"]);
}

#[test]
fn dependency_with_requirement() {
    assert_eq!(
        parse_dependency("libc6 (>= 2.34)"),
        ("libc6".to_string(), ">= 2.34".to_string())
    );
}

#[test]
fn dependency_without_requirement() {
    assert_eq!(parse_dependency("zlib1g"), ("zlib1g".to_string(), "*".to_string()));
}

#[test]
fn apt_to_about_numbers_groups_and_splits_alternatives() {
    let info = AptPackageInfo::from_string(CURL).unwrap();
    assert!(info.dependencies_readable());
    let about = info.to_about();
    assert_eq!(about.name, "curl");
    assert_eq!(about.id, "curl");
    assert_eq!(about.version, "7.81.0-1");
    assert_eq!(about.author.name, "Ubuntu Developers");
    assert_eq!(about.author.id, "Ubuntu Developers");
    assert_eq!(about.author.email, "");
    assert_eq!(about.license, "");
    assert_eq!(about.architecture, vec!["amd64"]);
    assert_eq!(about.size, 453);
    let got: Vec<(DependencyType, String, String, Option<u32>)> = about
        .dependencies
        .iter()
        .map(|d| (d.depend_type, d.name.clone(), d.version.clone(), d.index))
        .collect();
    assert_eq!(
        got,
        vec![
            (DependencyType::Must, "libc6".to_string(), ">= 2.34".to_string(), Some(1)),
            (DependencyType::Must, "libcurl4".to_string(), "= 7.81.0-1".to_string(), Some(2)),
            (DependencyType::Must, "libcurl3".to_string(), "*".to_string(), Some(2)),
            (DependencyType::Must, "zlib1g".to_string(), "*".to_string(), Some(3)),
            (DependencyType::Should, "ca-certificates".to_string(), "*".to_string(), Some(1)),
        ]
    );
}

#[test]
fn apt_conflicts_and_breaks_are_kept() {
    let info = AptPackageInfo::from_string("Package: p\nConflicts: q\nBreaks: r (<< 2)\nRecommends: s").unwrap();
    let about = info.to_about();
    let got: Vec<(DependencyType, String)> =
        about.dependencies.iter().map(|d| (d.depend_type, d.name.clone())).collect();
    assert_eq!(
        got,
        vec![
            (DependencyType::May, "s".to_string()),
            (DependencyType::CannotConflict, "q".to_string()),
            (DependencyType::CannotBreak, "r".to_string()),
        ]
    );
}

#[test]
fn unreadable_dependency_is_detected() {
    let info = AptPackageInfo::from_string("Depends: broken (").unwrap();
    assert!(!info.dependencies_readable());
}

#[test]
fn deb_control_to_about() {
    let data = "Package: hello\nVersion: 2.10-2\nArchitecture: amd64\nMaintainer: Santiago\nInstalled-Size: 280\nDepends: libc6 (>= 2.34), dpkg\nDescription: greeting";
    let info = DebPackageInfo::from_string(data).unwrap();
    assert_eq!(info.package, "hello");
    assert_eq!(info.installed_size, 280);
    assert!(info.dependencies_readable());
    let about = info.to_about();
    assert_eq!(about.id, "hello");
    assert_eq!(about.size, 280);
    let got: Vec<(DependencyType, String, String, Option<u32>)> = about
        .dependencies
        .iter()
        .map(|d| (d.depend_type, d.name.clone(), d.version.clone(), d.index))
        .collect();
    assert_eq!(
        got,
        vec![
            (DependencyType::Must, "libc6".to_string(), ">= 2.34".to_string(), None),
            (DependencyType::Must, "dpkg".to_string(), "*".to_string(), None),
        ]
    );
}

#[test]
fn release_file_is_read() {
    let data = "Origin: Ubuntu\nLabel: Ubuntu\nSuite: jammy\nCodename: jammy\nArchitectures: amd64 arm64  i386\nComponents: main restricted\nDescription: Ubuntu Jammy 22.04\n";
    let info = AptReleaseInfo::from_string(data).unwrap();
    assert_eq!(info.origin, "Ubuntu");
    assert_eq!(info.suite, "jammy");
    assert_eq!(info.architectures, vec!["amd64", "arm64", "i386"]);
    assert_eq!(info.components, vec!["main", "restricted"]);
    assert_eq!(info.hash, "");
}

#[test]
fn index_urls_cover_every_combination() {
    let repo = AptRepositoryInfo {
        name: "ubuntu".to_string(),
        url: "http://archive.ubuntu.com/ubuntu".to_string(),
        suites: vec!["jammy".to_string(), "jammy-updates".to_string()],
        components: vec!["main".to_string()],
        architectures: vec!["amd64".to_string(), "arm64".to_string()],
        signed_by: String::new(),
        options: vec![],
    };
    assert_eq!(
        repo.package_index_urls(),
        vec![
            "http://archive.ubuntu.com/ubuntu/dists/jammy/main/binary-amd64/Packages.gz",
            "http://archive.ubuntu.com/ubuntu/dists/jammy/main/binary-arm64/Packages.gz",
            "http://archive.ubuntu.com/ubuntu/dists/jammy-updates/main/binary-amd64/Packages.gz",
            "http://archive.ubuntu.com/ubuntu/dists/jammy-updates/main/binary-arm64/Packages.gz",
        ]
    );
}

#[test]
fn index_text_joins_the_archives_that_decompress() {
    let archives = vec![gzip("Package: a"), vec![1, 2, 3], gzip("Package: b")];
    let (text, ok) = collect_index_text(&archives);
    assert_eq!(text, "Package: a\nPackage: b\n");
    assert_eq!(ok, vec![true, false, true]);
}

#[test]
fn package_index_records_are_cut_at_blank_lines() {
    let index = "Package: a\nVersion: 1\n\nPackage: b\nVersion: 2\n\n";
    let infos = parse_package_index(index);
    assert_eq!(infos.len(), 2);
    assert_eq!(infos[0].package, "a");
    assert_eq!(infos[1].version, "2");
}

#[test]
fn package_index_last_piece_is_not_a_record() {
    assert!(parse_package_index("Package: a\nVersion: 1").is_empty());
}
