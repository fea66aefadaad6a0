//! The settings of the proxy program and the helpers of its setup: reading
//! the command line, the environment of the terminal command and waiting
//! with a deadline.

use vstd::prelude::*;
use crate::cli::{
    PortOrFd, CliError, CliErrorView, split_command, take_flag_model, required_value,
    optional_value, optional_u16, free_u64, listen_target, wants_help, marked_texts, stand_in,
    opaque_word, byte_strings, read_command_line, remaining_args, arguments_from, flag,
    required, optional, optional_port, free_number, leftover_count, DEFAULT_AUTH_PORT,
};
use crate::seqs::lemma_first_index;
use crate::text::bytes_equal;

verus! {

/// The settings of one run of the proxy program.
#[derive(Debug)]
pub struct ProxyOptions {
    /// The actual command to run proxied in a pseudo terminal, each argument
    /// as the bytes it was given as.
    pub terminal_command: Vec<Vec<u8>>,
    /// The port or FD that the proxy will listen on for an incoming connection.
    pub listen_port: PortOrFd,
    /// The port of the local privileged daemon that authentication is relayed
    /// to. Defaults to `85`.
    pub api_daemon_port: u16,
    /// The ACL object path the `acl_permission` is checked on.
    pub acl_path: String,
    /// The ACL permission that the ticket, read from the stream, is required
    /// to have on `acl_path`.
    pub acl_permission: Option<String>,
}

/// The view of [`ProxyOptions`].
pub struct ProxyOptionsView {
    pub terminal_command: Seq<Seq<u8>>,
    pub listen_port: PortOrFd,
    pub api_daemon_port: u16,
    pub acl_path: Seq<char>,
    pub acl_permission: Option<Seq<char>>,
}

impl View for ProxyOptions {
    type V = ProxyOptionsView;

    open spec fn view(&self) -> ProxyOptionsView {
        ProxyOptionsView {
            terminal_command: byte_strings(self.terminal_command@),
            listen_port: self.listen_port,
            api_daemon_port: self.api_daemon_port,
            acl_path: self.acl_path@,
            acl_permission: match self.acl_permission {
                Some(s) => Some(s@),
                None => None,
            },
        }
    }
}

/// What the proxy's command line asks for.
#[derive(Debug)]
pub enum ProxyInvocation {
    /// Print [`PROXY_HELP`] and stop successfully.
    Help,
    /// Run the proxy with these settings.
    Run(ProxyOptions),
}

/// The view of a [`ProxyInvocation`].
pub enum ProxyInvocationView {
    Help,
    Run(ProxyOptionsView),
}

impl View for ProxyInvocation {
    type V = ProxyInvocationView;

    open spec fn view(&self) -> ProxyInvocationView {
        match self {
            ProxyInvocation::Help => ProxyInvocationView::Help,
            ProxyInvocation::Run(o) => ProxyInvocationView::Run(o@),
        }
    }
}

/// Usage text of the proxy program.
pub const PROXY_HELP: &'static str = "\
Usage: proxmox-termproxy [OPTIONS] --path <path> <listen-port> -- <terminal-cmd>...

Arguments:
  <listen-port>           Port or file descriptor to listen for TCP connections
  <terminal-cmd>...       The command to run connected via a proxied PTY

Options:
      --authport <authport>       Port to relay auth-request, default 85
      --port-as-fd                Use <listen-port> as file descriptor.
      --path <path>               ACL object path to test <perm> on.
      --perm <perm>               Permission to test.
      -h, --help                  Print help
";

/// The outcome of reading the proxy's command line, as views.
pub open spec fn proxy_outcome_view(r: Result<ProxyInvocation, CliError>) -> Result<ProxyInvocationView, CliErrorView> {
    match r {
        Ok(i) => Ok(i@),
        Err(e) => Err(e@),
    }
}

/// What the proxy's command line (without the program name) asks for. The
/// options in front of the first `--` go to the parser, each that is not
/// UTF-8 text as the stand-in word (see [`crate::cli::cli_model`]); see
/// [`proxy_words_model`].
pub open spec fn proxy_args_model(args: Seq<Seq<u8>>) -> Result<ProxyInvocationView, CliErrorView> {
    let (raw, command) = split_command(args);
    proxy_words_model(marked_texts(raw, stand_in(raw)), opaque_word(raw), command)
}

/// What options that are all text ask for, with the terminal command if
/// there was a `--`.
pub open spec fn proxy_text_model(opts: Seq<Seq<char>>, command: Option<Seq<Seq<u8>>>) -> Result<ProxyInvocationView, CliErrorView> {
    proxy_words_model(opts, None, command)
}

/// What the option words ask for, where a value or listen port equal to
/// `opaque` is refused. After the help check and the terminal command,
/// `--port-as-fd`, `--authport`, `--path` and `--perm` are taken; then the
/// listen port is the first argument left, and arguments left over after it
/// are an error.
pub open spec fn proxy_words_model(opts: Seq<Seq<char>>, opaque: Option<Seq<char>>, command: Option<Seq<Seq<u8>>>) -> Result<ProxyInvocationView, CliErrorView> {
    if wants_help(opts) {
        Ok(ProxyInvocationView::Help)
    } else if command is None {
        Err(CliErrorView::MissingTerminalCommand)
    } else {
        let (port_as_fd, a1) = take_flag_model(opts, "--port-as-fd"@);
        match optional_u16(a1, "--authport"@, opaque) {
            Err(e) => Err(e),
            Ok((port, a2)) => match required_value(a2, "--path"@, opaque) {
                Err(e) => Err(e),
                Ok((path, a3)) => match optional_value(a3, "--perm"@, opaque) {
                    Err(e) => Err(e),
                    Ok((perm, a4)) => match free_u64(a4, opaque) {
                        Err(e) => Err(e),
                        Ok((value, a5)) => match listen_target(value as nat, port_as_fd) {
                            Err(e) => Err(e),
                            Ok(target) => if a5.len() > 0 {
                                Err(CliErrorView::ExtraArguments)
                            } else {
                                Ok(ProxyInvocationView::Run(ProxyOptionsView {
                                    terminal_command: command->Some_0,
                                    listen_port: target,
                                    api_daemon_port: match port {
                                        Some(p) => p,
                                        None => DEFAULT_AUTH_PORT,
                                    },
                                    acl_path: path,
                                    acl_permission: perm,
                                }))
                            },
                        },
                    },
                },
            },
        }
    }
}

/// Reads the proxy's command line, without the program name.
pub fn parse_args(args: Vec<Vec<u8>>) -> (r: Result<ProxyInvocation, CliError>)
    ensures
        proxy_outcome_view(r) == proxy_args_model(byte_strings(args@)),
{
    let (opts, opaque, command) = read_command_line(args);
    let mut args = arguments_from(opts);
    proof {
        reveal_strlit("-h");
        reveal_strlit("--help");
        reveal_strlit("--port-as-fd");
        reveal_strlit("--path");
        reveal_strlit("--perm");
        reveal_strlit("--authport");
    }
    let ghost a0 = remaining_args(args);
    let help = flag(&mut args, "-h") || flag(&mut args, "--help");
    proof {
        lemma_first_index(a0, "-h"@);
        lemma_first_index(remaining_args(args), "--help"@);
    }
    if help {
        return Ok(ProxyInvocation::Help);
    }
    let terminal_command = match command {
        Some(c) => c,
        None => {
            return Err(CliError::MissingTerminalCommand);
        },
    };
    let port_as_fd = flag(&mut args, "--port-as-fd");
    let api_daemon_port = match optional_port(&mut args, "--authport", &opaque) {
        Ok(Some(p)) => p,
        Ok(None) => DEFAULT_AUTH_PORT,
        Err(e) => {
            return Err(e);
        },
    };
    let acl_path = match required(&mut args, "--path", &opaque) {
        Ok(v) => v,
        Err(e) => {
            return Err(e);
        },
    };
    let acl_permission = match optional(&mut args, "--perm", &opaque) {
        Ok(v) => v,
        Err(e) => {
            return Err(e);
        },
    };
    // free-form arguments are the next unused argument, so the listen port is
    // read only after all options
    let listen_value = match free_number(&mut args, &opaque) {
        Ok(v) => v,
        Err(e) => {
            return Err(e);
        },
    };
    let listen_port = match PortOrFd::from_cli(listen_value, port_as_fd) {
        Ok(p) => p,
        Err(e) => {
            return Err(e);
        },
    };
    let options = ProxyOptions {
        terminal_command,
        listen_port,
        api_daemon_port,
        acl_path,
        acl_permission,
    };
    if leftover_count(args) != 0 {
        return Err(CliError::ExtraArguments);
    }
    Ok(ProxyInvocation::Run(options))
}

/// How long a wait may still last, in nanoseconds, before the deadline
/// `timeout_ns` after its start has passed; `None` once more than
/// `timeout_ns` has elapsed.
pub fn time_left(timeout_ns: u128, elapsed_ns: u128) -> (r: Option<u128>)
    ensures
        r == if elapsed_ns > timeout_ns {
            None::<u128>
        } else {
            Some((timeout_ns - elapsed_ns) as u128)
        },
{
    if elapsed_ns > timeout_ns {
        None
    } else {
        Some(timeout_ns - elapsed_ns)
    }
}

/// An environment variable: name and value as bytes.
pub type EnvVar = (Vec<u8>, Vec<u8>);

/// The view of environment variables.
pub open spec fn env_view(v: Seq<EnvVar>) -> Seq<(Seq<u8>, Seq<u8>)> {
    v.map_values(|p: EnvVar| (p.0@, p.1@))
}

/// Whether the terminal command gets the variable of this name: `PATH`,
/// `USER`, `HOME`, `LANG`, `LANGUAGE` and every name that starts with `LC_`.
pub open spec fn env_kept(name: Seq<u8>) -> bool {
    ||| name == seq![80u8, 65, 84, 72]
    ||| name == seq![85u8, 83, 69, 82]
    ||| name == seq![72u8, 79, 77, 69]
    ||| name == seq![76u8, 65, 78, 71]
    ||| name == seq![76u8, 65, 78, 71, 85, 65, 71, 69]
    ||| (name.len() >= 3 && name.take(3) == seq![76u8, 67, 95])
}

/// `TERM`.
pub open spec fn term_name() -> Seq<u8> {
    seq![84u8, 69, 82, 77]
}

/// `xterm-256color`.
pub open spec fn term_value() -> Seq<u8> {
    seq![120u8, 116, 101, 114, 109, 45, 50, 53, 54, 99, 111, 108, 111, 114]
}

/// The environment of the terminal command: the kept variables of `vars` in
/// their order, then `TERM=xterm-256color`.
pub open spec fn terminal_environment(vars: Seq<(Seq<u8>, Seq<u8>)>) -> Seq<(Seq<u8>, Seq<u8>)> {
    vars.filter(|p: (Seq<u8>, Seq<u8>)| env_kept(p.0)).push((term_name(), term_value()))
}

/// The bytes of an ASCII name.
pub open spec fn name_bytes(name: Seq<char>) -> Seq<u8> {
    name.map_values(|c: char| c as u8)
}

/// Law of the terminal environment: the terminal command gets exactly the
/// variables `PATH`, `USER`, `HOME`, `LANG`, `LANGUAGE` and those whose name
/// starts with `LC_`, each with its value, and `TERM=xterm-256color`.
pub proof fn lemma_environment_kept(vars: Seq<(Seq<u8>, Seq<u8>)>, name: Seq<u8>, value: Seq<u8>)
    ensures
        env_kept(name) <==> {
            ||| name == name_bytes("PATH"@)
            ||| name == name_bytes("USER"@)
            ||| name == name_bytes("HOME"@)
            ||| name == name_bytes("LANG"@)
            ||| name == name_bytes("LANGUAGE"@)
            ||| (name.len() >= 3 && name.take(3) == name_bytes("LC_"@))
        },
        terminal_environment(vars).contains((name, value)) <==> {
            ||| (vars.contains((name, value)) && env_kept(name))
            ||| (name == name_bytes("TERM"@) && value == name_bytes("xterm-256color"@))
        },
        terminal_environment(vars).last() == (name_bytes("TERM"@), name_bytes("xterm-256color"@)),
{
    reveal_strlit("PATH");
    reveal_strlit("USER");
    reveal_strlit("HOME");
    reveal_strlit("LANG");
    reveal_strlit("LANGUAGE");
    reveal_strlit("LC_");
    reveal_strlit("TERM");
    reveal_strlit("xterm-256color");
    assert(name_bytes("PATH"@) =~= seq![80u8, 65, 84, 72]);
    assert(name_bytes("USER"@) =~= seq![85u8, 83, 69, 82]);
    assert(name_bytes("HOME"@) =~= seq![72u8, 79, 77, 69]);
    assert(name_bytes("LANG"@) =~= seq![76u8, 65, 78, 71]);
    assert(name_bytes("LANGUAGE"@) =~= seq![76u8, 65, 78, 71, 85, 65, 71, 69]);
    assert(name_bytes("LC_"@) =~= seq![76u8, 67, 95]);
    assert(name_bytes("TERM"@) =~= term_name());
    assert(name_bytes("xterm-256color"@) =~= term_value());
    let pred = |p: (Seq<u8>, Seq<u8>)| env_kept(p.0);
    let kept = vars.filter(pred);
    vars.filter_lemma(pred);
    assert(!env_kept(term_name()));
    if terminal_environment(vars).contains((name, value)) {
        let j = choose|j: int| 0 <= j < terminal_environment(vars).len() && terminal_environment(vars)[j] == (name, value);
        if j < kept.len() {
            assert(kept[j] == (name, value));
            assert(kept.contains((name, value)));
            vars.lemma_filter_contains_rev(pred, (name, value));
            assert(pred(kept[j]));
        }
    }
    if vars.contains((name, value)) && env_kept(name) {
        let i = choose|i: int| 0 <= i < vars.len() && vars[i] == (name, value);
        assert(pred(vars[i]));
        assert(kept.contains(vars[i]));
        let j = choose|j: int| 0 <= j < kept.len() && kept[j] == (name, value);
        assert(terminal_environment(vars)[j] == (name, value));
    }
    assert(terminal_environment(vars)[terminal_environment(vars).len() - 1] == (term_name(), term_value()));
}

/// Whether the terminal command gets the variable of this name.
pub fn keeps_env_var(name: &[u8]) -> (r: bool)
    ensures
        r == env_kept(name@),
{
    let path: [u8; 4] = [80, 65, 84, 72];
    let user: [u8; 4] = [85, 83, 69, 82];
    let home: [u8; 4] = [72, 79, 77, 69];
    let lang: [u8; 4] = [76, 65, 78, 71];
    let language: [u8; 8] = [76, 65, 78, 71, 85, 65, 71, 69];
    let lc = name.len() >= 3 && name[0] == 76 && name[1] == 67 && name[2] == 95;
    proof {
        if name@.len() >= 3 {
            assert(lc == (name@.take(3) == seq![76u8, 67, 95])) by {
                if name@.take(3) == seq![76u8, 67, 95] {
                    assert(name@.take(3)[0] == 76u8);
                    assert(name@.take(3)[1] == 67u8);
                    assert(name@.take(3)[2] == 95u8);
                }
                if lc {
                    assert(name@.take(3) =~= seq![76u8, 67, 95]);
                }
            }
        }
        assert(path@ == seq![80u8, 65, 84, 72]);
        assert(user@ == seq![85u8, 83, 69, 82]);
        assert(home@ == seq![72u8, 79, 77, 69]);
        assert(lang@ == seq![76u8, 65, 78, 71]);
        assert(language@ == seq![76u8, 65, 78, 71, 85, 65, 71, 69]);
    }
    bytes_equal(name, path.as_slice()) || bytes_equal(name, user.as_slice()) || bytes_equal(name, home.as_slice())
        || bytes_equal(name, lang.as_slice()) || bytes_equal(name, language.as_slice()) || lc
}

/// The environment for the terminal command, from the proxy's own: the
/// kept variables in their order, then `TERM=xterm-256color`.
pub fn filter_environment(vars: Vec<EnvVar>) -> (r: Vec<EnvVar>)
    ensures
        env_view(r@) == terminal_environment(env_view(vars@)),
{
    let ghost all = env_view(vars@);
    let ghost pred = |p: (Seq<u8>, Seq<u8>)| env_kept(p.0);
    let mut kept: Vec<EnvVar> = Vec::new();
    let mut i: usize = 0;
    while i < vars.len()
        invariant
            i <= vars@.len(),
            all == env_view(vars@),
            pred == (|p: (Seq<u8>, Seq<u8>)| env_kept(p.0)),
            env_view(kept@) == all.take(i as int).filter(pred),
        decreases vars@.len() - i,
    {
        proof {
            reveal(Seq::filter);
            assert(all.take(i + 1).drop_last() == all.take(i as int));
        }
        if keeps_env_var(vars[i].0.as_slice()) {
            let name = vars[i].0.clone();
            let value = vars[i].1.clone();
            proof {
                assert(name@ == vars@[i as int].0@);
                assert(value@ == vars@[i as int].1@);
            }
            kept.push((name, value));
            assert(env_view(kept@) == all.take(i as int).filter(pred).push(all[i as int]));
        }
        i = i + 1;
    }
    let term: Vec<u8> = vec![84, 69, 82, 77];
    let xterm: Vec<u8> = vec![120, 116, 101, 114, 109, 45, 50, 53, 54, 99, 111, 108, 111, 114];
    assert(term@ == term_name());
    assert(xterm@ == term_value());
    let ghost before = env_view(kept@);
    kept.push((term, xterm));
    assert(all.take(i as int) == all);
    assert(env_view(kept@) == before.push((term_name(), term_value())));
    kept
}

} // verus!
