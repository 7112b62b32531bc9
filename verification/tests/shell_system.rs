use ipm::cli::{dispatch, sub_cmd, CliAction};
use ipm::help::{fill_help, help_topic, welcome_text, HelpTopic};
use ipm::library::package::install::{
    global_file_action, global_file_steps, install_steps, GlobalFileAction,
};
use ipm::library::package::list::installed_line;
use ipm::library::package::{About, Author, FileMapping, Files, PackageInfo};
use ipm::library::system::{
    current_dir, current_path, join_path, package_dir, package_path, system_info_path, tmp_dir,
    tmp_path, work_dir, work_path, SystemEnv,
};
use ipm::server::{server_init_step, server_readme, ServerInitStep};
use ipm::system::{confirmation, init_request, system_layout_entries, Confirmation, InitRequest};
use ipm::utils::shell::{
    answer_kind, answer_verdict, check_answer, color_txt, question_prompt, retry_message,
    AnswerKind,
};

fn strings(v: &[&str]) -> Vec<String> {
    v.iter().map(|s| s.to_string()).collect()
}

fn installed(id: &str) -> PackageInfo {
    PackageInfo {
        about: About {
            name: id.to_string(),
            id: id.to_string(),
            version: "2.1".to_string(),
            author: Author { name: "Bob".to_string(), id: "bob".to_string() },
            description: String::new(),
            license: String::new(),
            dependencies: vec![],
            architecture: vec![],
        },
        files: Files { global: vec![], local: vec![] },
    }
}

#[test]
fn colour_escape_is_exact() {
    assert_eq!(color_txt("X", 0, 255, 0), "\x1b[38;2;0;255;0mX\x1b[m");
    assert_eq!(ipm::utilities::shell::color_txt("ok", 7, 80, 100), "\x1b[38;2;7;80;100mok\x1b[m");
    assert_eq!(color_txt("", 255, 0, 0), "\x1b[38;2;255;0;0m\x1b[m");
}

#[test]
fn answer_kinds_by_name() {
    assert_eq!(answer_kind("yesno"), Some(AnswerKind::YesNo));
    assert_eq!(answer_kind("float"), Some(AnswerKind::Float));
    assert_eq!(answer_kind("Int"), None);
}

#[test]
fn text_answers_are_trimmed() {
    assert_eq!(check_answer("  hello world \n", "string"), Ok("hello world".to_string()));
}

#[test]
fn integer_answers() {
    assert_eq!(check_answer(" +42\n", "int"), Ok("42".to_string()));
    assert_eq!(check_answer("-2147483648", "int"), Ok("-2147483648".to_string()));
    assert_eq!(check_answer("2147483648", "int"), Err("invalid integer input".to_string()));
    assert_eq!(check_answer("4x", "int"), Err("invalid integer input".to_string()));
}

#[test]
fn yes_no_answers() {
    assert_eq!(check_answer("YES\n", "yesno"), Ok("yes".to_string()));
    assert_eq!(check_answer("y", "yesno"), Ok("yes".to_string()));
    assert_eq!(check_answer(" No ", "yesno"), Ok("no".to_string()));
    assert_eq!(check_answer("maybe", "yesno"), Err("invalid yes/no input".to_string()));
}

#[test]
fn case_style_answers() {
    assert_eq!(check_answer("myName1", "camel"), Ok("myName1".to_string()));
    assert_eq!(check_answer("MyName", "camel"), Err("invalid camel case input".to_string()));
    assert_eq!(check_answer("MyName", "pascal"), Ok("MyName".to_string()));
    assert_eq!(check_answer("my_name_2", "snake"), Ok("my_name_2".to_string()));
    assert_eq!(check_answer("my-name", "snake"), Err("invalid snake case input".to_string()));
    assert_eq!(check_answer("MAX_SIZE", "constant"), Ok("MAX_SIZE".to_string()));
    assert_eq!(check_answer("max", "constant"), Err("invalid constant case input".to_string()));
    assert_eq!(check_answer("my-name", "kebab"), Ok("my-name".to_string()));
    assert_eq!(check_answer("my_name", "kebab"), Err("invalid kebab case input".to_string()));
}

#[test]
fn email_answers() {
    assert_eq!(check_answer(" a.b@example.org ", "email"), Ok("a.b@example.org".to_string()));
    assert_eq!(check_answer("a@b", "email"), Err("invalid email input".to_string()));
}

#[test]
fn unknown_answer_type() {
    assert_eq!(check_answer("x", "colour"), Err("Unsupported answer type".to_string()));
}

#[test]
fn verdict_on_given_outcomes() {
    assert_eq!(answer_verdict(Some(AnswerKind::Email), "x", "", Some(true)), Ok("x".to_string()));
    assert_eq!(
        answer_verdict(Some(AnswerKind::Camel), "x", "", None),
        Err("invalid camel case input".to_string())
    );
    assert_eq!(answer_verdict(Some(AnswerKind::YesNo), "Ja", "n", None), Ok("no".to_string()));
}

#[test]
fn retry_message_and_prompt() {
    let m = retry_message("abc", "invalid integer input");
    assert_eq!(
        m,
        "\x1b[38;2;255;0;0m(Error:\"abc\" is invalid integer input. Please try again) \x1b[m"
    );
    assert_eq!(question_prompt("Name", None), "\x1b[38;2;0;255;0mName\x1b[m: ");
    assert_eq!(
        question_prompt("Name", Some("E ")),
        "E \x1b[38;2;0;255;0mName\x1b[m: "
    );
}

#[test]
fn init_arguments() {
    assert_eq!(init_request(&vec![]), InitRequest::Ask);
    assert_eq!(init_request(&strings(&["local"])), InitRequest::Local);
    assert_eq!(init_request(&strings(&["global"])), InitRequest::Global);
    assert_eq!(init_request(&strings(&["force"])), InitRequest::BadArgument);
    assert_eq!(init_request(&strings(&["local", "x"])), InitRequest::BadCount);
}

#[test]
fn init_confirmation() {
    assert_eq!(confirmation("Yes\n"), Confirmation::Proceed);
    assert_eq!(confirmation(" N "), Confirmation::Cancel);
    assert_eq!(confirmation("yEs"), Confirmation::Invalid);
}

#[test]
fn fresh_work_directory_layout() {
    let entries = system_layout_entries("{\"list\":[]}");
    let got: Vec<(String, bool, Option<String>)> =
        entries.into_iter().map(|e| (e.path, e.is_dir, e.content)).collect();
    assert_eq!(got.len(), 12);
    assert_eq!(got[0], ("package".to_string(), true, None));
    assert_eq!(got[1], ("package/list.json".to_string(), false, Some("{}".to_string())));
    assert_eq!(got[3], ("www/list.json".to_string(), false, Some("{\"list\":[]}".to_string())));
    assert_eq!(got[9], ("log/log.txt".to_string(), false, None));
    assert_eq!(got[11], ("tmp/tmp".to_string(), false, None));
}

#[test]
fn paths_under_the_work_directory() {
    let env = SystemEnv { current_dir: "/home/u".to_string(), work_dir: "ipm".to_string() };
    assert_eq!(current_path(&env), "/home/u");
    assert_eq!(current_dir(&env), "/home/u");
    assert_eq!(work_path(&env), "/home/u/ipm");
    assert_eq!(work_dir(&env), "/home/u/ipm");
    assert_eq!(tmp_path(&env), "/home/u/ipm/tmp");
    assert_eq!(tmp_dir(&env), "/home/u/ipm/tmp");
    assert_eq!(package_path(&env), "/home/u/ipm/package");
    assert_eq!(package_dir(&env), "/home/u/ipm/package");
    assert_eq!(system_info_path(&env), "/home/u/ipm/bin/ipm-info.json");
}

#[test]
fn absolute_work_directory_replaces_the_start() {
    let env = SystemEnv { current_dir: "/home/u/".to_string(), work_dir: "/opt/ipm".to_string() };
    assert_eq!(work_path(&env), "/opt/ipm");
    assert_eq!(tmp_path(&env), "/opt/ipm/tmp");
}

#[test]
fn joining_paths() {
    assert_eq!(join_path("/a/", "b"), "/a/b");
    assert_eq!(join_path("", "b"), "b");
    assert_eq!(join_path("/a", "/b"), "/b");
}

#[test]
fn global_file_actions() {
    assert_eq!(global_file_action("bin"), GlobalFileAction::Link);
    assert_eq!(global_file_action("data"), GlobalFileAction::Copy);
    assert_eq!(global_file_action("config"), GlobalFileAction::Copy);
    assert_eq!(global_file_action("lib"), GlobalFileAction::Unknown);
}

#[test]
fn global_file_steps_for_each_place() {
    let mut info = installed("tool");
    info.files.global.push(FileMapping {
        from: "bin/tool".to_string(),
        to: vec!["usr/bin/tool".to_string(), "/usr/local/bin/tool".to_string()],
        file_type: "bin".to_string(),
    });
    info.files.global.push(FileMapping {
        from: "etc/tool.conf".to_string(),
        to: vec!["etc/tool.conf".to_string()],
        file_type: "config".to_string(),
    });
    let steps = global_file_steps(&info, "/opt/ipm/package/tool");
    let got: Vec<(String, String, GlobalFileAction)> =
        steps.into_iter().map(|s| (s.from, s.to, s.action)).collect();
    assert_eq!(
        got,
        vec![
            ("/opt/ipm/package/tool/bin/tool".to_string(), "/usr/bin/tool".to_string(), GlobalFileAction::Link),
            ("/opt/ipm/package/tool/bin/tool".to_string(), "/usr/local/bin/tool".to_string(), GlobalFileAction::Link),
            ("/opt/ipm/package/tool/etc/tool.conf".to_string(), "/etc/tool.conf".to_string(), GlobalFileAction::Copy),
        ]
    );
}

#[test]
fn installed_package_line() {
    assert_eq!(installed_line(&installed("tool")), "\x1b[38;2;0;255;0mtool\x1b[m(version: 2.1) by bob");
}

#[test]
fn help_topics_and_text() {
    assert_eq!(help_topic(""), Some(HelpTopic::General));
    assert_eq!(help_topic("install"), Some(HelpTopic::Install));
    assert_eq!(help_topic("www"), None);
    assert_eq!(fill_help("Run {command_name} install", "ipm"), "Run ipm install");
    assert_eq!(welcome_text("{command_name} v{version}", "0.1.0", "ipm"), "ipm v0.1.0");
}

#[test]
fn server_readme_text() {
    assert_eq!(
        server_readme("Main", "main-1", "Carol", "c@x.org", "1.0"),
        "# Main\n\n**Server ID:** main-1\n\n**Author:** Carol\n\n**Email:** c@x.org\n\n**Version:** 1.0\n\nThis is the README file for the IPM server 'Main'."
    );
}

#[test]
fn command_dispatch() {
    assert!(matches!(dispatch(&strings(&["ipm"])), CliAction::Welcome));
    assert!(matches!(dispatch(&strings(&["ipm", "install", "a", "b"])), CliAction::Install(v) if v == vec!["a", "b"]));
    assert!(matches!(dispatch(&strings(&["ipm", "install"])), CliAction::Help(t) if t == "install"));
    assert!(matches!(sub_cmd("help", &vec![]), CliAction::Help(t) if t.is_empty()));
    assert!(matches!(sub_cmd("www", &strings(&["add", "ipm", "http://x"])), CliAction::WwwAdd(v) if v == vec!["ipm", "http://x"]));
    assert!(matches!(sub_cmd("www", &strings(&["fly"])), CliAction::Help(t) if t == "www"));
    assert!(matches!(sub_cmd("system", &strings(&["other"])), CliAction::Nothing));
    assert!(matches!(sub_cmd("frobnicate", &vec![]), CliAction::NotFound(c) if c == "frobnicate"));
}

#[test]
fn server_setup_decision() {
    assert_eq!(server_init_step("yes", false), ServerInitStep::Create);
    assert_eq!(server_init_step("yes", true), ServerInitStep::AlreadyExists);
    assert_eq!(server_init_step("no", true), ServerInitStep::Canceled);
}

#[test]
fn install_steps_link_globals_and_copy_locals_to_homes() {
    let mut info = installed("tool");
    info.files.global.push(FileMapping {
        from: "bin/tool".to_string(),
        to: vec!["usr/bin/tool".to_string()],
        file_type: "bin".to_string(),
    });
    info.files.local.push(FileMapping {
        from: "conf/toolrc".to_string(),
        to: vec![".toolrc".to_string(), ".config/tool/rc".to_string()],
        file_type: "config".to_string(),
    });
    let homes = strings(&["/home/a", "/home/b"]);
    let steps = install_steps(&info, "/opt/ipm/package/tool", &homes);
    let got: Vec<(String, String, bool)> = steps.into_iter().map(|s| (s.from, s.to, s.link)).collect();
    let rc = "/opt/ipm/package/tool/conf/toolrc".to_string();
    assert_eq!(
        got,
        vec![
            ("/opt/ipm/package/tool/bin/tool".to_string(), "/usr/bin/tool".to_string(), true),
            (rc.clone(), "/home/a/.toolrc".to_string(), false),
            (rc.clone(), "/home/b/.toolrc".to_string(), false),
            (rc.clone(), "/home/a/.config/tool/rc".to_string(), false),
            (rc, "/home/b/.config/tool/rc".to_string(), false),
        ]
    );
}
