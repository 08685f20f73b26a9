use valis_core::admin::authinfo::{
    find_auth_info_for_machine, parse_auth_info, AuthInfo, AuthInfoError,
};
use valis_core::admin::backup::kopia::{backup, kopia_connect_s3, S3Endpoint};
use valis_core::formats::text::replace_matching_line;
use valis_core::k8s::kind::{start, KindConfig};
use valis_core::paths::{file_name_of, join_paths, path_extension_of};
use valis_core::projects::git::from_root;
use valis_core::script::engine::remove_comment_lines;
use valis_core::software::definitions::{Component, Installation};
use valis_core::system::{command_tokens, from_home, path_candidates};
use valis_core::text::{
    from_chars, parse_u16, push_decimal, split_chars, split_lines, split_words, to_chars, trimmed,
};

fn chars(s: &str) -> Vec<char> {
    s.chars().collect()
}

fn texts(v: Vec<Vec<char>>) -> Vec<String> {
    v.iter().map(|w| w.iter().collect()).collect()
}

#[test]
fn auth_info_is_parsed_from_a_line() {
    let info = parse_auth_info("machine api.github.com login me password s3cret").unwrap();
    assert_eq!(info.machine, "api.github.com");
    assert_eq!(info.login.name, "me");
    assert_eq!(info.login.domain, None);
    assert_eq!(info.password, "s3cret");
    assert_eq!(info.port, None);
    let info = parse_auth_info("  machine\tmail.example.org login me^corp   password pw port 993 rest").unwrap();
    assert_eq!(info.machine, "mail.example.org");
    assert_eq!(info.login.name, "me");
    assert_eq!(info.login.domain, Some("corp".to_string()));
    assert_eq!(info.password, "pw");
    assert_eq!(info.port, Some(993));
}

#[test]
fn auth_info_ports() {
    let port = |tail: &str| parse_auth_info(&format!("machine m login l password p {}", tail)).unwrap().port;
    assert_eq!(port("port 22"), Some(22));
    assert_eq!(port("port +22"), Some(22));
    assert_eq!(port("port 0022"), Some(22));
    assert_eq!(port("port 65535"), Some(65535));
    assert_eq!(port("port 65536"), None);
    assert_eq!(port("port 99999999999999999999"), None);
    assert_eq!(port("port -1"), None);
    assert_eq!(port("port 2x"), None);
    assert_eq!(port("port +"), None);
    assert_eq!(port("port"), None);
    assert_eq!(port("Port 22"), None);
    assert_eq!(port("other 22"), None);
    assert_eq!(port(""), None);
}

#[test]
fn auth_info_errors() {
    assert_eq!(parse_auth_info("").err(), Some(AuthInfoError::InvalidFormat));
    assert_eq!(
        parse_auth_info("machine m login l password").err(),
        Some(AuthInfoError::InvalidFormat)
    );
    assert_eq!(
        parse_auth_info("machine m login a^b^c password p").err(),
        Some(AuthInfoError::InvalidLogin)
    );
    assert_eq!(AuthInfoError::InvalidFormat.message(), "Invalid auth info format");
    assert_eq!(AuthInfoError::InvalidLogin.message(), "Invalid login format");
    let edge = parse_auth_info("machine m login ^ password p").unwrap();
    assert_eq!(edge.login.name, "");
    assert_eq!(edge.login.domain, Some("".to_string()));
}

#[test]
fn auth_infos_are_found_by_machine() {
    let lines = [
        "machine a login one password p1",
        "machine b login two password p2",
        "machine a login three password p3",
    ];
    let infos: Vec<AuthInfo> = lines.iter().map(|l| parse_auth_info(l).unwrap()).collect();
    let found = find_auth_info_for_machine("a", infos.clone());
    let names: Vec<&str> = found.iter().map(|i| i.login.name.as_str()).collect();
    assert_eq!(names, vec!["one", "three"]);
    assert!(find_auth_info_for_machine("A", infos).is_empty());
}

#[test]
fn numerals_are_read_as_std_reads_them() {
    for s in ["0", "7", "+7", "007", "65535", "65536", "70000", "", "+", "-", "-0", "1 ", " 1", "1_0", "\u{661}", "12a", "++1", "4294967296", "18446744073709551616"] {
        assert_eq!(parse_u16(&chars(s)), s.parse::<u16>().ok(), "{:?}", s);
    }
}

#[test]
fn numbers_are_written_as_std_writes_them() {
    for n in [0usize, 1, 9, 10, 11, 99, 100, 101, 12345, 1000000, usize::MAX] {
        let mut out = chars("n=");
        push_decimal(&mut out, n);
        assert_eq!(from_chars(&out), format!("n={}", n));
    }
}

#[test]
fn words_lines_and_pieces_are_split_as_std_splits_them() {
    let samples = [
        "", " ", "a", " a ", "a b", "a  b", "\ta\u{a0}b\u{3000}c\n", "one\ntwo", "one\ntwo\n",
        "one\r\ntwo\r\n", "one\rtwo", "\n", "\n\n", "\r\n", "a\r", "a\r\n\r\nb", ":", "a:b::c:",
        "kind create cluster --image=x ",
    ];
    for s in samples {
        let words: Vec<String> = s.split_whitespace().map(|w| w.to_string()).collect();
        assert_eq!(texts(split_words(&chars(s))), words, "{:?}", s);
        let lines: Vec<String> = s.lines().map(|w| w.to_string()).collect();
        assert_eq!(texts(split_lines(&chars(s))), lines, "{:?}", s);
        let by_colon: Vec<String> = s.split(':').map(|w| w.to_string()).collect();
        assert_eq!(texts(split_chars(&chars(s), ':')), by_colon, "{:?}", s);
        assert_eq!(from_chars(&trimmed(&chars(s))), s.trim(), "{:?}", s);
        assert_eq!(from_chars(&to_chars(s)), s);
    }
}

#[test]
fn commands_are_split_at_single_spaces() {
    assert_eq!(command_tokens("kopia snapshot create /home "), vec!["kopia", "snapshot", "create", "/home", ""]);
    assert_eq!(command_tokens("ls"), vec!["ls"]);
    assert_eq!(command_tokens(""), vec![""]);
    assert_eq!(command_tokens("a  b"), vec!["a", "", "b"]);
}

#[test]
fn programs_are_looked_up_in_each_directory() {
    assert_eq!(
        path_candidates("/usr/bin:/bin::/opt/x/", "kind"),
        vec!["/usr/bin/kind", "/bin/kind", "/kind", "/opt/x//kind"]
    );
    assert_eq!(path_candidates("", "ls"), vec!["/ls"]);
}

#[test]
fn paths_are_joined_below_home_and_root() {
    assert_eq!(from_home(Some("/home/me"), ".authinfo"), Some("/home/me/.authinfo".to_string()));
    assert_eq!(from_home(Some("/home/me/"), "a/b"), Some("/home/me/a/b".to_string()));
    assert_eq!(from_home(Some("/home/me"), "/etc/x"), Some("/etc/x".to_string()));
    assert_eq!(from_home(None, "x"), None);
    assert_eq!(from_root(Some("/repo"), "src/lib.rs"), Some("/repo/src/lib.rs".to_string()));
    assert_eq!(from_root(None, "src"), None);
    for (base, rel) in [("a", "b"), ("a/", "b"), ("", "b"), ("a", ""), ("a", "/b"), ("/", "b"), ("a/b", "c/d.png")] {
        let std_joined = std::path::Path::new(base).join(rel);
        assert_eq!(from_chars(&join_paths(&chars(base), &chars(rel))), std_joined.to_str().unwrap(), "{:?} {:?}", base, rel);
    }
    for p in ["a/b.png", "b.png", "a.b/c", "a/.png", "a/b.", "a/b.tar.gz", "x"] {
        let path = std::path::Path::new(p);
        assert_eq!(from_chars(&file_name_of(&chars(p))), path.file_name().unwrap().to_str().unwrap(), "{:?}", p);
        let ext = path.extension().map(|e| e.to_str().unwrap().to_string());
        assert_eq!(path_extension_of(&chars(p)).map(|e| from_chars(&e)), ext, "{:?}", p);
    }
}

#[test]
fn kopia_commands() {
    let s3 = S3Endpoint {
        bucket: "b".to_string(),
        access_key: "ak".to_string(),
        secret_key: "sk".to_string(),
        endpoint: "s3.example.org".to_string(),
        password: "pw".to_string(),
    };
    assert_eq!(
        kopia_connect_s3(&s3),
        "kopia repository connect s3 --bucket=b --access-key=ak --secret-access-key=sk --endpoint=s3.example.org --password=pw"
    );
    assert_eq!(
        backup(&s3, &vec!["/home/me".to_string(), "/etc".to_string()]),
        vec![
            kopia_connect_s3(&s3),
            "kopia snapshot create /home/me ".to_string(),
            "kopia snapshot create /etc ".to_string(),
        ]
    );
    assert_eq!(backup(&s3, &vec![]), vec![kopia_connect_s3(&s3)]);
}

#[test]
fn kind_commands() {
    let config = KindConfig::default();
    assert_eq!(config.version, "1.22.15");
    assert_eq!(config.config, None);
    assert_eq!(config.context, "kind");
    assert_eq!(start(config), "kind create cluster --image=kindest/node:v1.22.15");
    let config = KindConfig {
        version: "1.27.3".to_string(),
        config: Some("conf/kind \"x\".yaml".to_string()),
        context: "dev".to_string(),
    };
    assert_eq!(
        start(config),
        "kind create cluster --image=kindest/node:v1.27.3--config Some(\"conf/kind \\\"x\\\".yaml\")"
    );
}

#[test]
fn comment_lines_are_removed() {
    assert_eq!(remove_comment_lines("#!/usr/bin/env valis\nprint(1)\n  # note\nprint(2)\n"), "print(1)\nprint(2)");
    assert_eq!(remove_comment_lines("a # not a comment\r\n#x\r\nb"), "a # not a comment\nb");
    assert_eq!(remove_comment_lines(""), "");
    assert_eq!(remove_comment_lines("#only"), "");
    assert_eq!(remove_comment_lines("\n\n"), "\n");
    for s in ["#!/bin/x\na\n\n#b\n c", "x\r\n #y\r\nz\r\n", "# \n#\n", "one"] {
        let expected = s
            .lines()
            .filter(|line| !line.trim().starts_with("#"))
            .collect::<Vec<&str>>()
            .join("\n");
        assert_eq!(remove_comment_lines(s), expected, "{:?}", s);
    }
}

#[test]
fn matching_lines_are_replaced() {
    assert_eq!(
        replace_matching_line("a\n  version: 1  \nb", "version: 1", "version: 2"),
        "a\nversion: 2\nb\n"
    );
    assert_eq!(replace_matching_line("x\r\ny\r\n", "y", "z"), "x\nz\n");
    assert_eq!(replace_matching_line("", "y", "z"), "");
    assert_eq!(replace_matching_line("y y\ny", "y", ""), "y y\n\n");
    assert_eq!(replace_matching_line("\n", "", "empty"), "empty\n");
}

#[test]
fn auth_files_are_read_line_by_line() {
    let text = "machine a login one password p1\n\n   \nnot an entry\n  machine b login two^d password p2 port 25\r\nmachine c login x^y^z password p\nmachine d login four password p4";
    let infos = valis_core::admin::authinfo::parse_auth_lines(text);
    let machines: Vec<&str> = infos.iter().map(|i| i.machine.as_str()).collect();
    assert_eq!(machines, vec!["a", "b", "d"]);
    assert_eq!(infos[1].login.domain, Some("d".to_string()));
    assert_eq!(infos[1].port, Some(25));
    assert!(valis_core::admin::authinfo::parse_auth_lines("").is_empty());
}

#[test]
fn schemas_are_split_at_three_dashes() {
    let tables = "CREATE TABLE a (id);\n---\nCREATE TABLE b (id);\n---";
    assert_eq!(
        valis_core::db::get_sql_schema(tables),
        vec!["CREATE TABLE a (id);\n", "\nCREATE TABLE b (id);\n", ""]
    );
    for s in ["", "---", "a", "a---b", "a----b", "------", "-- - --", "x---y---z"] {
        let expected: Vec<String> = s.split("---").map(|p| p.to_string()).collect();
        assert_eq!(valis_core::db::get_sql_schema(s), expected, "{:?}", s);
    }
}

#[test]
fn stored_tasks_that_are_gone_are_stale() {
    let task = |id: &str| valis_core::tasks::todoist::Task {
        id: id.to_string(),
        content: None,
        labels: vec![],
    };
    let tasks = vec![task("1"), task("3")];
    let stored = vec!["3".to_string(), "2".to_string(), "1".to_string(), "4".to_string(), "2".to_string()];
    assert_eq!(
        valis_core::tasks::todoist::stale_tasks(&stored, &tasks),
        vec!["2".to_string(), "4".to_string(), "2".to_string()]
    );
    assert!(valis_core::tasks::todoist::stale_tasks(&vec![], &tasks).is_empty());
    assert_eq!(valis_core::tasks::todoist::stale_tasks(&stored, &vec![]), stored);
}

#[test]
fn programs_are_installed_after_what_they_need() {
    let leaf = |name: &str| Component {
        name: name.to_string(),
        executable: name.to_string(),
        dependencies: None,
        install_darwin: vec![format!("brew install {}", name)],
        install_linux: vec![format!("apt install {}", name)],
    };
    let mut git = leaf("git");
    git.dependencies = Some(vec![leaf("curl"), leaf("openssl")]);
    let tool = Component {
        name: "tool".to_string(),
        executable: "tl".to_string(),
        dependencies: Some(vec![git, leaf("make")]),
        install_darwin: vec!["brew tap x/y".to_string(), "brew install tool".to_string()],
        install_linux: vec![],
    };
    assert_eq!(
        tool.install("macos"),
        vec![
            "brew install curl",
            "brew install openssl",
            "brew install git",
            "brew install make",
            "brew tap x/y",
            "brew install tool",
        ]
    );
    assert!(tool.install("linux").is_empty());
    assert!(tool.install("").is_empty());
    assert_eq!(tool.check_install(true), "\u{2705} tool is installed");
    assert_eq!(tool.check_install(false), "\u{274c} tool is not installed");
    let all = vec![tool, leaf("kind")];
    assert_eq!(
        valis_core::software::doctor::doctor(&all, &vec![false, true]),
        vec!["\u{274c} tool is not installed", "\u{2705} kind is installed"]
    );
}

#[test]
fn secrets_are_looked_up_by_title_and_key() {
    use_secrets();
}

fn use_secrets() {
    let entry = |title: Option<&str>, fields: Vec<(&str, Option<&str>)>| valis_core::admin::secrets::Entry {
        title: title.map(|t| t.to_string()),
        fields: fields
            .into_iter()
            .map(|(k, v)| (k.to_string(), v.map(|v| v.to_string())))
            .collect(),
    };
    let secret = |e: &str, f: &str| valis_core::admin::secrets::Secret {
        entry: e.to_string(),
        field: f.to_string(),
        env_var: "X".to_string(),
    };
    let entries = vec![
        entry(Some("mail"), vec![("UserName", Some("me")), ("Password", Some("pw1")), ("Password", Some("later"))]),
        entry(Some("bank"), vec![("Password", None), ("Pin", Some("1234"))]),
        entry(Some("mail"), vec![("Password", Some("second entry"))]),
        entry(None, vec![]),
        entry(Some("last"), vec![("Password", Some("pw9"))]),
    ];
    let read = |secrets: Vec<valis_core::admin::secrets::Secret>| {
        valis_core::admin::secrets::read_fields_from_entry(&entries, &secrets)
    };
    assert_eq!(
        read(vec![secret("mail", "Password"), secret("bank", "Pin"), secret("mail", "Url")]),
        Ok(vec![Some("pw1".to_string()), Some("1234".to_string()), None])
    );
    assert_eq!(read(vec![]), Ok(vec![]));
    assert_eq!(
        read(vec![secret("mail", "UserName"), secret("bank", "Password")]),
        Err(valis_core::admin::secrets::SecretError::EmptyField)
    );
    assert_eq!(
        read(vec![secret("last", "Password")]),
        Err(valis_core::admin::secrets::SecretError::UntitledEntry)
    );
    assert_eq!(
        read(vec![secret("none", "Password")]),
        Err(valis_core::admin::secrets::SecretError::UntitledEntry)
    );
}

#[test]
fn virtual_environments_lie_below_home() {
    let venv = valis_core::projects::venv::get_venv_info("/work/project", "/home/me");
    assert_eq!(venv.name, "project");
    assert_eq!(venv.root, "/work/project");
    assert_eq!(venv.requirements, "/work/project/requirements.txt");
    assert_eq!(venv.location, "/home/me/.virtualenvs/project");
    let venv = valis_core::projects::venv::get_venv_info("solo", "/home/me/");
    assert_eq!(venv.name, "solo");
    assert_eq!(venv.requirements, "solo/requirements.txt");
    assert_eq!(venv.location, "/home/me/.virtualenvs/solo");
}
