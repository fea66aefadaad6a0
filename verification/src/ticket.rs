//! The authentication line a client sends first, and the request that relays
//! it to the local daemon.

use vstd::prelude::*;
use vstd::utf8::{valid_utf8, decode_utf8};
use crate::text::{utf8_text, ascii_text, push_decimal_text};
use crate::buffer::ByteBuffer;
use crate::seqs::{first_index, lemma_first_index};
use crate::decimal::decimal;
use crate::proxy::{ProxyOptions, ProxyOptionsView};

verus! {

/// The end of the authentication line, `\n`.
pub const NEWLINE: u8 = 10;

/// The separator of user name and ticket, `:`.
pub const TICKET_SEPARATOR: u8 = 58;

/// The status of a granted authentication request.
pub const HTTP_OK: u16 = 200;

/// Where the reading of the authentication line stands after a read.
#[derive(PartialEq, Eq, Debug, Clone, Copy)]
pub enum TicketProgress {
    /// The client closed the connection before a whole line arrived.
    Closed,
    /// A whole line is in the buffer.
    Complete,
    /// The buffer is full and holds no line end.
    Incomplete,
    /// More data is needed.
    Waiting,
}

/// Where the reading stands, given what the last read returned (`None` when
/// it would have blocked) and the buffer after it.
pub open spec fn ticket_progress_spec(data: Seq<u8>, capacity: nat, read: Option<usize>) -> TicketProgress {
    if read == Some(0usize) {
        TicketProgress::Closed
    } else if data.contains(NEWLINE) {
        TicketProgress::Complete
    } else if data.len() >= capacity {
        TicketProgress::Incomplete
    } else {
        TicketProgress::Waiting
    }
}

/// Decides, after a read from the client, whether the authentication line is
/// complete, still coming, or cannot come.
pub fn ticket_progress(buf: &ByteBuffer, read: Option<usize>) -> (p: TicketProgress)
    ensures
        p == ticket_progress_spec(buf@, buf.spec_capacity(), read),
{
    if let Some(n) = read {
        if n == 0 {
            return TicketProgress::Closed;
        }
    }
    if buf.contains(NEWLINE) {
        TicketProgress::Complete
    } else if buf.is_full() {
        TicketProgress::Incomplete
    } else {
        TicketProgress::Waiting
    }
}

/// Why the authentication data was refused.
#[derive(PartialEq, Eq, Debug, Clone, Copy)]
pub enum TicketError {
    /// The line holds no `:` between user name and ticket.
    InvalidData,
    /// The user name or the ticket is not UTF-8 text.
    NotUtf8,
}

/// The first line of `data` split at its first `:` into user name and ticket,
/// and what follows the line; `None` for the pair when the line has no `:`.
pub open spec fn ticket_line(data: Seq<u8>) -> (Option<(Seq<u8>, Seq<u8>)>, Seq<u8>)
    recommends
        data.contains(NEWLINE),
{
    let i = first_index(data, NEWLINE)->Some_0;
    let line = data.take(i);
    (
        match first_index(line, TICKET_SEPARATOR) {
            Some(p) => Some((line.take(p), line.skip(p + 1))),
            None => None,
        },
        data.skip(i + 1),
    )
}

/// Law of the authentication line: user name, `:` and ticket spell the
/// line in front of the first `\n`, the user name holds no `:`, and what
/// follows the `\n` is left.
pub proof fn lemma_ticket_line_split(data: Seq<u8>)
    requires
        data.contains(NEWLINE),
    ensures
        ({
            let i = first_index(data, NEWLINE)->Some_0;
            &&& ticket_line(data).1 == data.skip(i + 1)
            &&& ticket_line(data).0 matches Some((u, t)) ==> {
                &&& u + seq![TICKET_SEPARATOR] + t == data.take(i)
                &&& !u.contains(TICKET_SEPARATOR)
            }
            &&& ticket_line(data).0 is None ==> !data.take(i).contains(TICKET_SEPARATOR)
        }),
{
    lemma_first_index(data, NEWLINE);
    let i = first_index(data, NEWLINE)->Some_0;
    let line = data.take(i);
    lemma_first_index(line, TICKET_SEPARATOR);
    if let Some(p) = first_index(line, TICKET_SEPARATOR) {
        assert(line.take(p) + seq![TICKET_SEPARATOR] + line.skip(p + 1) =~= line);
        if line.take(p).contains(TICKET_SEPARATOR) {
            let k = choose|k: int| 0 <= k < line.take(p).len() && line.take(p)[k] == TICKET_SEPARATOR;
            assert(line[k] == TICKET_SEPARATOR);
        }
    }
}

/// Removes the first line, with its `\n`, from the buffer and splits it at
/// the first `:` into user name and ticket.
pub fn take_ticket_line(buf: &mut ByteBuffer) -> (r: Result<(Vec<u8>, Vec<u8>), TicketError>)
    requires
        old(buf)@.contains(NEWLINE),
    ensures
        final(buf)@ == ticket_line(old(buf)@).1,
        final(buf).spec_capacity() == old(buf).spec_capacity(),
        match ticket_line(old(buf)@).0 {
            Some((user, ticket)) => r matches Ok((u, t)) && u@ == user && t@ == ticket,
            None => r == Err::<(Vec<u8>, Vec<u8>), TicketError>(TicketError::InvalidData),
        },
{
    let ghost s = buf@;
    proof {
        lemma_first_index(s, NEWLINE);
    }
    let newline_idx = match buf.position(NEWLINE) {
        Some(i) => i,
        None => {
            return Err(TicketError::InvalidData);
        },
    };
    let mut line = buf.remove_data(newline_idx);
    buf.consume(1);
    assert(buf@ == s.skip(newline_idx + 1));
    let mut pos: usize = 0;
    while pos < line.len()
        invariant
            pos <= line@.len(),
            forall|j: int| 0 <= j < pos ==> line@[j] != TICKET_SEPARATOR,
            s == old(buf)@,
            first_index(s, NEWLINE) == Some(newline_idx as int),
            line@ == s.take(newline_idx as int),
            buf@ == s.skip(newline_idx + 1),
            buf.spec_capacity() == old(buf).spec_capacity(),
        decreases line@.len() - pos,
    {
        if line[pos] == TICKET_SEPARATOR {
            proof {
                crate::seqs::lemma_first_index_is(line@, TICKET_SEPARATOR, pos as int);
            }
            let ghost whole = line@;
            let mut ticket = line.split_off(pos);
            let ticket = ticket.split_off(1);
            assert(ticket@ == whole.skip(pos + 1));
            return Ok((line, ticket));
        }
        pos = pos + 1;
    }
    proof {
        lemma_first_index(line@, TICKET_SEPARATOR);
        if line@.contains(TICKET_SEPARATOR) {
            let k = choose|k: int| 0 <= k < line@.len() && line@[k] == TICKET_SEPARATOR;
            assert(line@[k] != TICKET_SEPARATOR);
        }
    }
    Err(TicketError::InvalidData)
}

/// A request that asks the local daemon whether a ticket grants access.
#[derive(Debug)]
pub struct AuthRequest {
    /// Where the form is posted.
    pub url: String,
    /// The form fields, in order.
    pub form: Vec<(String, String)>,
}

/// The view of the form fields.
pub open spec fn form_view(f: Seq<(String, String)>) -> Seq<(Seq<char>, Seq<char>)> {
    f.map_values(|p: (String, String)| (p.0@, p.1@))
}

/// The address of the ticket check of the daemon on `port`.
pub open spec fn auth_url(port: u16) -> Seq<char> {
    "http://localhost:"@ + ascii_text(decimal(port as nat)) + "/api2/json/access/ticket"@
}

/// The form that asks for the check of `password` for `user` on the path
/// of the options, with the permission if one is set, and with the listen
/// port when the proxy was handed its socket as a descriptor.
pub open spec fn auth_form(user: Seq<char>, password: Seq<char>, o: ProxyOptionsView, listen_port: u16) -> Seq<(Seq<char>, Seq<char>)> {
    let base = seq![("username"@, user), ("password"@, password), ("path"@, o.acl_path)];
    let with_perm = match o.acl_permission {
        Some(p) => base.push(("privs"@, p)),
        None => base,
    };
    if o.listen_port is Fd {
        with_perm.push(("port"@, ascii_text(decimal(listen_port as nat))))
    } else {
        with_perm
    }
}

/// Law of the request to the daemon: the form names the user, the ticket as
/// password and the path, in that order; it has a `privs` field exactly when
/// a permission is set, holding that permission, and a `port` field exactly
/// when the proxy listens on a descriptor it was handed, holding the listen
/// port in decimal; the two do not depend on each other.
pub proof fn lemma_auth_form_fields(user: Seq<char>, password: Seq<char>, o: ProxyOptionsView, listen_port: u16)
    ensures
        ({
            let f = auth_form(user, password, o, listen_port);
            &&& f.len() == 3 + (if o.acl_permission is Some { 1int } else { 0 }) + (if o.listen_port is Fd { 1int } else { 0 })
            &&& f[0] == ("username"@, user)
            &&& f[1] == ("password"@, password)
            &&& f[2] == ("path"@, o.acl_path)
            &&& forall|p: Seq<char>| f.contains(("privs"@, p)) <==> o.acl_permission == Some(p)
            &&& forall|v: Seq<char>| f.contains(("port"@, v)) <==> (o.listen_port is Fd && v == ascii_text(decimal(listen_port as nat)))
        }),
{
    reveal_strlit("username");
    reveal_strlit("password");
    reveal_strlit("path");
    reveal_strlit("privs");
    reveal_strlit("port");
    let f = auth_form(user, password, o, listen_port);
    assert("username"@.len() == 8 && "password"@.len() == 8 && "path"@.len() == 4);
    assert("privs"@.len() == 5 && "port"@.len() == 4 && "path"@[1] != "port"@[1]);
    assert forall|p: Seq<char>| f.contains(("privs"@, p)) <==> o.acl_permission == Some(p) by {
        if f.contains(("privs"@, p)) {
            let j = choose|j: int| 0 <= j < f.len() && f[j] == ("privs"@, p);
            assert(j == 3);
        }
        if o.acl_permission == Some(p) {
            assert(f[3] == ("privs"@, p));
        }
    }
    assert forall|v: Seq<char>| f.contains(("port"@, v)) <==> (o.listen_port is Fd && v == ascii_text(decimal(listen_port as nat))) by {
        if f.contains(("port"@, v)) {
            let j = choose|j: int| 0 <= j < f.len() && f[j] == ("port"@, v);
            assert(j == f.len() - 1);
        }
        if o.listen_port is Fd && v == ascii_text(decimal(listen_port as nat)) {
            assert(f[f.len() - 1] == ("port"@, v));
        }
    }
}

/// The request for the user name and ticket bytes, when both are UTF-8.
pub open spec fn auth_request_spec(user: Seq<u8>, ticket: Seq<u8>, o: ProxyOptionsView, listen_port: u16) -> Result<(Seq<char>, Seq<(Seq<char>, Seq<char>)>), TicketError> {
    if !valid_utf8(user) || !valid_utf8(ticket) {
        Err(TicketError::NotUtf8)
    } else {
        Ok((auth_url(o.api_daemon_port), auth_form(decode_utf8(user), decode_utf8(ticket), o, listen_port)))
    }
}

/// Builds the request that relays the user name and ticket to the daemon.
/// `listen_port` is the port the proxy listens on.
pub fn auth_request(username: Vec<u8>, ticket: Vec<u8>, options: &ProxyOptions, listen_port: u16) -> (r: Result<AuthRequest, TicketError>)
    ensures
        match r {
            Ok(req) => auth_request_spec(username@, ticket@, options@, listen_port) == Ok::<(Seq<char>, Seq<(Seq<char>, Seq<char>)>), TicketError>((req.url@, form_view(req.form@))),
            Err(e) => auth_request_spec(username@, ticket@, options@, listen_port) == Err::<(Seq<char>, Seq<(Seq<char>, Seq<char>)>), TicketError>(e),
        },
{
    let ghost user_bytes = username@;
    let ghost ticket_bytes = ticket@;
    let user = match utf8_text(username) {
        Some(u) => u,
        None => {
            return Err(TicketError::NotUtf8);
        },
    };
    let password = match utf8_text(ticket) {
        Some(t) => t,
        None => {
            return Err(TicketError::NotUtf8);
        },
    };
    let mut form: Vec<(String, String)> = Vec::new();
    form.push((String::from_str("username"), user));
    form.push((String::from_str("password"), password));
    form.push((String::from_str("path"), options.acl_path.clone()));
    let ghost base = form_view(form@);
    assert(base == seq![("username"@, decode_utf8(user_bytes)), ("password"@, decode_utf8(ticket_bytes)), ("path"@, options.acl_path@)]);
    match &options.acl_permission {
        Some(perm) => {
            form.push((String::from_str("privs"), perm.clone()));
            assert(form_view(form@) == base.push(("privs"@, perm@)));
        },
        None => {},
    }
    let ghost with_perm = form_view(form@);
    if options.listen_port.is_fd() {
        let mut port = String::new();
        push_decimal_text(listen_port as u64, &mut port);
        form.push((String::from_str("port"), port));
        assert(form_view(form@) == with_perm.push(("port"@, ascii_text(decimal(listen_port as nat)))));
    }
    let mut url = String::from_str("http://localhost:");
    push_decimal_text(options.api_daemon_port as u64, &mut url);
    url.append("/api2/json/access/ticket");
    Ok(AuthRequest { url, form })
}

/// Whether the daemon's answer grants access: only status 200 does.
pub fn auth_granted(status: u16) -> (b: bool)
    ensures
        b == (status == HTTP_OK),
{
    status == HTTP_OK
}

} // verus!
