use termproxy::buffer::ByteBuffer;
use termproxy::cli::PortOrFd;
use termproxy::proxy::ProxyOptions;
use termproxy::ticket::{
    auth_granted, auth_request, take_ticket_line, ticket_progress, TicketError, TicketProgress,
};

fn buffer_with(data: &[u8]) -> ByteBuffer {
    let mut buf = ByteBuffer::new();
    buf.extend_from_slice(data);
    buf
}

fn options(listen_port: PortOrFd, perm: Option<&str>) -> ProxyOptions {
    ProxyOptions {
        terminal_command: vec![b"sh".to_vec()],
        listen_port,
        api_daemon_port: 85,
        acl_path: "/vms/100".to_string(),
        acl_permission: perm.map(|p| p.to_string()),
    }
}

fn pairs(list: &[(&str, &str)]) -> Vec<(String, String)> {
    list.iter().map(|(k, v)| (k.to_string(), v.to_string())).collect()
}

#[test]
fn progress_of_reading_the_ticket_line() {
    let buf = buffer_with(b"root@pam:ticket\n");
    assert_eq!(ticket_progress(&buf, Some(16)), TicketProgress::Complete);
    assert_eq!(ticket_progress(&buf, None), TicketProgress::Complete);
    assert_eq!(ticket_progress(&buf, Some(0)), TicketProgress::Closed);
    let partial = buffer_with(b"root@pam:tick");
    assert_eq!(ticket_progress(&partial, Some(13)), TicketProgress::Waiting);
    let mut full = ByteBuffer::with_capacity(4);
    full.extend_from_slice(b"abcd");
    assert_eq!(ticket_progress(&full, Some(4)), TicketProgress::Incomplete);
}

#[test]
fn ticket_line_is_split_at_first_colon() {
    let mut buf = buffer_with(b"root@pam:PVE:abc::x\n0:2:ls");
    let (user, ticket) = take_ticket_line(&mut buf).unwrap();
    assert_eq!(user, b"root@pam".to_vec());
    assert_eq!(ticket, b"PVE:abc::x".to_vec());
    assert_eq!(buf.as_slice(), b"0:2:ls");
}

#[test]
fn ticket_line_without_colon_is_invalid() {
    let mut buf = buffer_with(b"nocolon\nrest");
    assert_eq!(take_ticket_line(&mut buf), Err(TicketError::InvalidData));
    assert_eq!(buf.as_slice(), b"rest");
}

#[test]
fn auth_request_for_a_port() {
    let req = auth_request(b"root@pam".to_vec(), b"secret".to_vec(), &options(PortOrFd::Port(5900), Some("VM.Console")), 5900)
        .unwrap();
    assert_eq!(req.url, "http://localhost:85/api2/json/access/ticket");
    assert_eq!(
        req.form,
        pairs(&[
            ("username", "root@pam"),
            ("password", "secret"),
            ("path", "/vms/100"),
            ("privs", "VM.Console"),
        ])
    );
}

#[test]
fn auth_request_for_a_descriptor_names_the_port() {
    let mut o = options(PortOrFd::Fd(3), None);
    o.api_daemon_port = 8006;
    let req = auth_request(b"u".to_vec(), b"t".to_vec(), &o, 5901).unwrap();
    assert_eq!(req.url, "http://localhost:8006/api2/json/access/ticket");
    assert_eq!(
        req.form,
        pairs(&[("username", "u"), ("password", "t"), ("path", "/vms/100"), ("port", "5901")])
    );
}

#[test]
fn auth_request_refuses_invalid_utf8() {
    let o = options(PortOrFd::Port(1), None);
    assert_eq!(auth_request(vec![0xff], b"t".to_vec(), &o, 1).unwrap_err(), TicketError::NotUtf8);
    assert_eq!(auth_request(b"u".to_vec(), vec![0xc3], &o, 1).unwrap_err(), TicketError::NotUtf8);
    let req = auth_request("jürgen".as_bytes().to_vec(), b"t".to_vec(), &o, 1).unwrap();
    assert_eq!(req.form[0].1, "jürgen");
}

#[test]
fn only_status_ok_grants_access() {
    assert!(auth_granted(200));
    assert!(!auth_granted(204));
    assert!(!auth_granted(401));
}
