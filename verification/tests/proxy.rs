use termproxy::cli::{ArgsError, CliError, CliFailure, PortOrFd};
use termproxy::proxy::{filter_environment, keeps_env_var, parse_args, time_left, ProxyInvocation, ProxyOptions};

fn args(list: &[&str]) -> Vec<Vec<u8>> {
    list.iter().map(|s| s.as_bytes().to_vec()).collect()
}

fn run(list: &[&str]) -> ProxyOptions {
    match parse_args(args(list)) {
        Ok(ProxyInvocation::Run(o)) => o,
        other => panic!("unexpected outcome: {other:?}"),
    }
}

#[test]
fn proxy_command_line_in_documented_order() {
    let o = run(&["--path", "/vms/100", "5900", "--", "/bin/login"]);
    assert_eq!(o.listen_port, PortOrFd::Port(5900));
    assert_eq!(o.api_daemon_port, 85);
    assert_eq!(o.acl_path, "/vms/100");
    assert_eq!(o.acl_permission, None);
    assert_eq!(o.terminal_command, args(&["/bin/login"]));
}

#[test]
fn proxy_command_line_with_listen_port_first() {
    let o = run(&["5900", "--path", "/vms/1", "--perm", "VM.Console", "--", "login"]);
    assert_eq!(o.listen_port, PortOrFd::Port(5900));
    assert_eq!(o.api_daemon_port, 85);
    assert_eq!(o.acl_path, "/vms/1");
    assert_eq!(o.acl_permission, Some("VM.Console".to_string()));
    assert_eq!(o.terminal_command, args(&["login"]));
}

#[test]
fn proxy_command_line_authport_and_fd() {
    let o = run(&["4", "--port-as-fd", "--authport", "8007", "--path", "/", "--", "sh"]);
    assert_eq!(o.listen_port, PortOrFd::Fd(4));
    assert_eq!(o.api_daemon_port, 8007);
}

#[test]
fn proxy_command_line_refusals() {
    let kind = |list: &[&str]| match parse_args(args(list)) {
        Err(e) => e.kind(),
        other => panic!("unexpected outcome: {other:?}"),
    };
    assert_eq!(kind(&["--path", "/", "port", "--", "sh"]), CliFailure::InvalidNumber);
    assert_eq!(kind(&["5900", "--", "sh"]), CliFailure::Arguments);
    assert_eq!(kind(&["--", "sh"]), CliFailure::Arguments);
    assert_eq!(kind(&["5900", "--path", "/"]), CliFailure::MissingTerminalCommand);
    assert_eq!(kind(&["5900", "--path", "/", "x", "--", "sh"]), CliFailure::ExtraArguments);
    assert_eq!(kind(&["99999", "--path", "/", "--", "sh"]), CliFailure::InvalidPort);
    assert!(matches!(parse_args(args(&["--help"])), Ok(ProxyInvocation::Help)));
}

#[test]
fn environment_keeps_locale_and_basics() {
    assert!(keeps_env_var(b"PATH"));
    assert!(keeps_env_var(b"LANGUAGE"));
    assert!(keeps_env_var(b"LC_ALL"));
    assert!(keeps_env_var(b"LC_"));
    assert!(!keeps_env_var(b"LC"));
    assert!(!keeps_env_var(b"TERM"));
    assert!(!keeps_env_var(b"SHELL"));
    assert!(!keeps_env_var(b"path"));

    let vars = vec![
        (b"SHELL".to_vec(), b"/bin/sh".to_vec()),
        (b"PATH".to_vec(), b"/usr/bin".to_vec()),
        (b"TERM".to_vec(), b"dumb".to_vec()),
        (b"LC_TIME".to_vec(), b"C".to_vec()),
        (b"HOME".to_vec(), b"/root".to_vec()),
    ];
    let env = filter_environment(vars);
    assert_eq!(
        env,
        vec![
            (b"PATH".to_vec(), b"/usr/bin".to_vec()),
            (b"LC_TIME".to_vec(), b"C".to_vec()),
            (b"HOME".to_vec(), b"/root".to_vec()),
            (b"TERM".to_vec(), b"xterm-256color".to_vec()),
        ]
    );
}

#[test]
fn deadline_leaves_the_rest_of_the_timeout() {
    assert_eq!(time_left(10_000, 0), Some(10_000));
    assert_eq!(time_left(10_000, 2_500), Some(7_500));
    assert_eq!(time_left(10_000, 10_000), Some(0));
    assert_eq!(time_left(10_000, 10_001), None);
}

#[test]
fn proxy_options_in_any_order_give_the_same_result() {
    let orders: [&[&str]; 4] = [
        &["--path", "/vms/3", "--perm", "Sys.Console", "--authport", "8007", "--port-as-fd", "6", "--", "sh"],
        &["6", "--port-as-fd", "--authport", "8007", "--perm", "Sys.Console", "--path", "/vms/3", "--", "sh"],
        &["--perm", "Sys.Console", "6", "--path", "/vms/3", "--port-as-fd", "--authport", "8007", "--", "sh"],
        &["--port-as-fd", "--path", "/vms/3", "6", "--authport", "8007", "--perm", "Sys.Console", "--", "sh"],
    ];
    let first = format!("{:?}", run(orders[0]));
    for order in orders.iter() {
        let o = run(order);
        assert_eq!(format!("{o:?}"), first);
        assert_eq!(o.listen_port, PortOrFd::Fd(6));
        assert_eq!(o.api_daemon_port, 8007);
        assert_eq!(o.acl_path, "/vms/3");
        assert_eq!(o.acl_permission, Some("Sys.Console".to_string()));
        assert_eq!(o.terminal_command, args(&["sh"]));
    }
}

#[test]
fn proxy_non_utf8_value_is_refused_by_the_parser() {
    let mut list = args(&["--path"]);
    list.push(vec![0xfe]);
    list.extend(args(&["5900", "--", "sh"]));
    match parse_args(list) {
        Err(CliError::Arguments(ArgsError::NonUtf8Argument)) => {}
        other => panic!("unexpected outcome: {other:?}"),
    }
    let mut list = args(&["5900", "--path", "/"]);
    list.push(vec![0xfe]);
    list.extend(args(&["--", "sh"]));
    assert_eq!(parse_args(list).unwrap_err().kind(), CliFailure::ExtraArguments);
}
