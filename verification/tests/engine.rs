use aide_sandbox::engine::{
    build_aide_exec_args, build_run_args, get_dockerfile_content, parse_container_list,
    parse_running_flag, FolderMount,
};
use aide_sandbox::errors::Error;

fn strings(items: &[&str]) -> Vec<String> {
    items.iter().map(|s| s.to_string()).collect()
}

#[test]
fn run_args_carry_name_mounts_ports_and_image() {
    let mounts = vec![FolderMount {
        host_path: "/home/user/app".to_string(),
        name: "app".to_string(),
    }];
    let args = build_run_args(
        &"aide-app".to_string(),
        &"/home/user/.aide-sandbox".to_string(),
        &mounts,
        Some(&"4g".to_string()),
        Some(&"2".to_string()),
        &strings(&["3000"]),
        &strings(&["FOO=bar"]),
    )
    .unwrap();
    let expected = vec![
        "run",
        "-d",
        "--name",
        "aide-app",
        "-v",
        "/home/user/app:/home/aide/workspace/app",
        "-v",
        "/home/user/.aide-sandbox/.aide:/home/aide/.aide",
        "-v",
        "/home/user/.aide-sandbox/containers/aide-app/conversations:/home/aide/.aide/projects",
        "-v",
        "/home/user/.aide-sandbox/.aide.json:/home/aide/.aide.json",
        "-v",
        "/home/user/.aide-sandbox/.aide.json.backup:/home/aide/.aide.json.backup",
        "-v",
        "/home/user/.aide-sandbox/.config:/home/aide/.config",
        "--memory",
        "4g",
        "--cpus",
        "2",
        "-p",
        "3000:3000",
        "-e",
        "AIDE_API_KEY",
        "-e",
        "TERM=xterm-256color",
        "-e",
        "FOO=bar",
        "--network",
        "bridge",
        "aide-code-sandbox",
    ];
    assert_eq!(args, strings(&expected));
}

#[test]
fn run_args_without_options_skip_the_optional_flags() {
    let args = build_run_args(
        &"aide-app".to_string(),
        &"/root-dir".to_string(),
        &Vec::new(),
        None,
        None,
        &Vec::new(),
        &Vec::new(),
    )
    .unwrap();
    assert!(!args.contains(&"--memory".to_string()));
    assert!(!args.contains(&"--cpus".to_string()));
    assert!(!args.contains(&"-p".to_string()));
    assert_eq!(args[0], "run");
    assert_eq!(args[args.len() - 1], "aide-code-sandbox");
}

#[test]
fn run_args_reject_a_bad_port() {
    let r = build_run_args(
        &"aide-app".to_string(),
        &"/root-dir".to_string(),
        &Vec::new(),
        None,
        None,
        &strings(&["3000", "1:2:3:4"]),
        &Vec::new(),
    );
    assert_eq!(r.unwrap_err(), Error::InvalidPortSpec("1:2:3:4".to_string()));
}

#[test]
fn exec_args_for_a_plain_attach() {
    let args = build_aide_exec_args(&"aide-app".to_string(), None, false, false, None);
    assert_eq!(args, strings(&["exec", "-it", "aide-app", "aide"]));
}

#[test]
fn exec_args_continue_takes_precedence_over_resume() {
    let args = build_aide_exec_args(
        &"aide-app".to_string(),
        None,
        false,
        true,
        Some(&"conv-9".to_string()),
    );
    assert_eq!(args, strings(&["exec", "-it", "aide-app", "aide", "-c"]));
}

#[test]
fn exec_args_resume_names_the_conversation() {
    let args = build_aide_exec_args(
        &"aide-app".to_string(),
        None,
        false,
        false,
        Some(&"conv-9".to_string()),
    );
    assert_eq!(
        args,
        strings(&["exec", "-it", "aide-app", "aide", "-r", "conv-9"])
    );
}

#[test]
fn exec_args_prompt_comes_last_after_flags() {
    let args = build_aide_exec_args(
        &"aide-app".to_string(),
        Some(&"fix the tests".to_string()),
        true,
        false,
        None,
    );
    assert_eq!(
        args,
        strings(&[
            "exec",
            "-it",
            "aide-app",
            "aide",
            "--dangerously-skip-permissions",
            "fix the tests",
        ])
    );
}

#[test]
fn container_listing_keeps_only_non_blank_lines() {
    assert_eq!(
        parse_container_list("aide-app\n\naide-web\n"),
        strings(&["aide-app", "aide-web"])
    );
    assert_eq!(parse_container_list(""), Vec::<String>::new());
    assert_eq!(parse_container_list("\n\n"), Vec::<String>::new());
}

#[test]
fn running_flag_is_trimmed_true() {
    assert!(parse_running_flag("true\n"));
    assert!(parse_running_flag("  true  "));
    assert!(!parse_running_flag("false\n"));
    assert!(!parse_running_flag(""));
}

#[test]
fn dockerfile_builds_the_sandbox_image() {
    let content = get_dockerfile_content();
    assert!(content.starts_with("FROM debian:bookworm-slim"));
    assert!(content.contains("USER aide"));
    assert!(content.contains("WORKDIR /home/aide/workspace"));
    assert!(content.contains("npm install -g @aide-dev/aide-code"));
}
