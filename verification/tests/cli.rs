use termproxy::cli::{ArgsError, CliError, CliFailure, DaemonAddress, Invocation, Options, PortOrFd};

fn args(list: &[&str]) -> Vec<Vec<u8>> {
    list.iter().map(|s| s.as_bytes().to_vec()).collect()
}

fn run(list: &[&str]) -> Options {
    match Options::from_args(args(list)) {
        Ok(Invocation::Run(o)) => o,
        other => panic!("unexpected outcome: {other:?}"),
    }
}

fn failure(list: &[&str]) -> CliFailure {
    match Options::from_args(args(list)) {
        Err(e) => e.kind(),
        other => panic!("unexpected outcome: {other:?}"),
    }
}

#[test]
fn full_command_line_is_read() {
    let o = run(&[
        "--path", "/vms/100", "--perm", "VM.Console", "5900", "--", "/bin/login", "-f", "root",
    ]);
    assert_eq!(o.terminal_command, args(&["/bin/login", "-f", "root"]));
    assert_eq!(o.listen_port, PortOrFd::Port(5900));
    assert_eq!(o.api_daemon_address, DaemonAddress::Port(85));
    assert_eq!(o.acl_path, "/vms/100");
    assert_eq!(o.acl_permission, Some("VM.Console".to_string()));
    assert!(!o.vncticket_endpoint);
    assert!(!o.use_listen_port_as_fd());
}

#[test]
fn listen_port_may_come_first() {
    let o = run(&["5900", "--path", "/", "--", "sh"]);
    assert_eq!(o.listen_port, PortOrFd::Port(5900));
    assert_eq!(o.acl_path, "/");
    assert_eq!(o.acl_permission, None);
}

#[test]
fn port_as_fd_gives_descriptor() {
    let o = run(&["--port-as-fd", "--path", "/", "3", "--", "sh"]);
    assert_eq!(o.listen_port, PortOrFd::Fd(3));
    assert!(o.use_listen_port_as_fd());
    assert!(o.listen_port.is_fd());
}

#[test]
fn auth_port_and_socket_choose_daemon_address() {
    let o = run(&["--auth-port", "8006", "--path", "/", "1", "--", "sh"]);
    assert_eq!(o.api_daemon_address, DaemonAddress::Port(8006));
    let o = run(&["--authport", "82", "--path", "/", "1", "--", "sh"]);
    assert_eq!(o.api_daemon_address, DaemonAddress::Port(82));
    let o = run(&["--authport", "82", "--auth-port", "83", "--path", "/", "1", "--", "sh"]);
    assert_eq!(o.api_daemon_address, DaemonAddress::Port(83));
    let o = run(&["--auth-socket", "/run/daemon.sock", "--path", "/", "1", "--", "sh"]);
    assert_eq!(o.api_daemon_address, DaemonAddress::UnixSocket("/run/daemon.sock".to_string()));
}

#[test]
fn vncticket_endpoint_flag_is_read() {
    let o = run(&["--vncticket-endpoint", "--path", "/", "1", "--", "sh"]);
    assert!(o.vncticket_endpoint);
}

#[test]
fn help_wins_over_everything() {
    assert!(matches!(Options::from_args(args(&["-h"])), Ok(Invocation::Help)));
    assert!(matches!(Options::from_args(args(&["--bogus", "--help"])), Ok(Invocation::Help)));
    assert!(matches!(
        Options::from_args(args(&["--path", "/", "1", "--", "-h"])),
        Ok(Invocation::Run(_))
    ));
}

#[test]
fn refused_command_lines() {
    assert_eq!(failure(&["--path", "/", "1"]), CliFailure::MissingTerminalCommand);
    assert_eq!(failure(&["1", "--", "sh"]), CliFailure::Arguments);
    assert_eq!(failure(&["--path"]), CliFailure::MissingTerminalCommand);
    assert_eq!(failure(&["1", "--path", "--", "sh"]), CliFailure::Arguments);
    assert_eq!(failure(&["--path", "/", "--", "sh"]), CliFailure::Arguments);
    assert_eq!(failure(&["--path", "/", "port", "--", "sh"]), CliFailure::InvalidNumber);
    assert_eq!(failure(&["--path", "/", "70000", "--", "sh"]), CliFailure::InvalidPort);
    assert_eq!(
        failure(&["--port-as-fd", "--path", "/", "2147483648", "--", "sh"]),
        CliFailure::FdTooBig
    );
    assert_eq!(
        failure(&["--auth-port", "1", "--auth-socket", "/s", "--path", "/", "1", "--", "sh"]),
        CliFailure::ConflictingAuthOptions
    );
    assert_eq!(failure(&["--auth-port", "x", "--path", "/", "1", "--", "sh"]), CliFailure::InvalidNumber);
    assert_eq!(failure(&["--path", "/", "1", "extra", "--", "sh"]), CliFailure::ExtraArguments);
}

#[test]
fn only_first_dash_dash_ends_options() {
    let o = run(&["--path", "/", "1", "--", "sh", "--", "x"]);
    assert_eq!(o.terminal_command, args(&["sh", "--", "x"]));
}

#[test]
fn invalid_number_names_the_value() {
    match Options::from_args(args(&["--auth-port", "x1", "--path", "/", "1", "--", "sh"])) {
        Err(CliError::InvalidNumber(v)) => assert_eq!(v, "x1"),
        other => panic!("unexpected outcome: {other:?}"),
    }
}

#[test]
fn terminal_command_keeps_non_utf8_bytes() {
    let mut list = args(&["--path", "/", "1", "--", "sh"]);
    list.push(vec![0xff, b'x']);
    match Options::from_args(list) {
        Ok(Invocation::Run(o)) => {
            assert_eq!(o.terminal_command, vec![b"sh".to_vec(), vec![0xff, b'x']])
        }
        other => panic!("unexpected outcome: {other:?}"),
    }
}

fn parser_error(list: Vec<Vec<u8>>) -> ArgsError {
    match Options::from_args(list) {
        Err(CliError::Arguments(e)) => e,
        other => panic!("unexpected outcome: {other:?}"),
    }
}

#[test]
fn parser_errors_say_what_is_missing() {
    assert!(matches!(parser_error(args(&["1", "--", "sh"])), ArgsError::MissingOption("--path")));
    assert!(matches!(
        parser_error(args(&["1", "--path", "--", "sh"])),
        ArgsError::OptionWithoutAValue("--path")
    ));
    assert!(matches!(
        parser_error(args(&["--path", "/", "1", "--perm", "--", "sh"])),
        ArgsError::OptionWithoutAValue("--perm")
    ));
    assert!(matches!(parser_error(args(&["--path", "/", "--", "sh"])), ArgsError::MissingArgument));
}

#[test]
fn non_utf8_options_are_refused_where_they_are_read() {
    let with = |before: &[&str], after: &[&str]| {
        let mut list = args(before);
        list.push(vec![0xff, b'x']);
        list.extend(args(after));
        list
    };
    // read as the listen port
    assert!(matches!(parser_error(with(&[], &["--path", "/", "1", "--", "sh"])), ArgsError::NonUtf8Argument));
    // read as the value of an option
    assert!(matches!(parser_error(with(&["--path"], &["1", "--", "sh"])), ArgsError::NonUtf8Argument));
    // never taken: left over
    assert_eq!(failure_of(with(&["--path", "/", "1"], &["--", "sh"])), CliFailure::ExtraArguments);
    // an option that is missing is reported first
    assert!(matches!(
        parser_error(with(&[], &["--perm", "x", "1", "--", "sh"])),
        ArgsError::MissingOption("--path")
    ));
    // help and the terminal command are checked first
    assert_eq!(failure_of(with(&["--path", "/", "1"], &[])), CliFailure::MissingTerminalCommand);
    assert!(matches!(Options::from_args(with(&["--help"], &[])), Ok(Invocation::Help)));
}

fn failure_of(list: Vec<Vec<u8>>) -> CliFailure {
    match Options::from_args(list) {
        Err(e) => e.kind(),
        other => panic!("unexpected outcome: {other:?}"),
    }
}

#[test]
fn from_cli_checks_ranges() {
    assert_eq!(PortOrFd::from_cli(65535, false).unwrap(), PortOrFd::Port(65535));
    assert_eq!(PortOrFd::from_cli(65536, false).unwrap_err().kind(), CliFailure::InvalidPort);
    assert_eq!(PortOrFd::from_cli(2147483647, true).unwrap(), PortOrFd::Fd(2147483647));
    assert_eq!(PortOrFd::from_cli(2147483648, true).unwrap_err().kind(), CliFailure::FdTooBig);
}

#[test]
fn options_in_any_order_give_the_same_result() {
    let orders: [&[&str]; 4] = [
        &["--path", "/vms/7", "--perm", "VM.Console", "--auth-port", "8006", "--vncticket-endpoint", "5900", "--", "sh"],
        &["5900", "--vncticket-endpoint", "--auth-port", "8006", "--perm", "VM.Console", "--path", "/vms/7", "--", "sh"],
        &["--perm", "VM.Console", "5900", "--path", "/vms/7", "--vncticket-endpoint", "--auth-port", "8006", "--", "sh"],
        &["--auth-port", "8006", "--path", "/vms/7", "5900", "--perm", "VM.Console", "--vncticket-endpoint", "--", "sh"],
    ];
    let first = format!("{:?}", run(orders[0]));
    for order in orders.iter() {
        let o = run(order);
        assert_eq!(format!("{o:?}"), first);
        assert_eq!(o.acl_path, "/vms/7");
        assert_eq!(o.acl_permission, Some("VM.Console".to_string()));
        assert_eq!(o.api_daemon_address, DaemonAddress::Port(8006));
        assert!(o.vncticket_endpoint);
        assert_eq!(o.listen_port, PortOrFd::Port(5900));
    }
}

#[test]
fn auth_address_choice_in_any_order() {
    let o = run(&["--auth-port", "83", "--path", "/", "--authport", "82", "1", "--", "sh"]);
    assert_eq!(o.api_daemon_address, DaemonAddress::Port(83));
    let o = run(&["1", "--authport", "82", "--path", "/", "--", "sh"]);
    assert_eq!(o.api_daemon_address, DaemonAddress::Port(82));
    let o = run(&["1", "--path", "/", "--", "sh"]);
    assert_eq!(o.api_daemon_address, DaemonAddress::Port(85));
    assert_eq!(
        failure(&["--auth-socket", "/s", "1", "--path", "/", "--auth-port", "83", "--", "sh"]),
        CliFailure::ConflictingAuthOptions
    );
}

#[test]
fn missing_path_is_refused_in_any_order() {
    assert_eq!(failure(&["1", "--perm", "x", "--", "sh"]), CliFailure::Arguments);
    assert_eq!(failure(&["--perm", "x", "1", "--vncticket-endpoint", "--", "sh"]), CliFailure::Arguments);
}
