//! The command line: options in front of `--`, the terminal command after it.

use vstd::prelude::*;
use vstd::utf8::encode_utf8;
use crate::seqs::{first_index, lemma_first_index, lemma_first_index_is};
use crate::decimal::{parse_decimal, parse_unsigned};
use vstd::utf8::{valid_utf8, decode_utf8};
use crate::text::{utf8_text, bytes_equal};
use vstd::string::StringExecFns;

verus! {

/// Usage text printed for `-h` or `--help`.
pub const CMD_HELP: &'static str = "\
Usage: proxmox-termproxy [OPTIONS] --path <path> <listen-port> -- <terminal-cmd>...

Arguments:
  <listen-port>           Port or file descriptor to listen for TCP connections
  <terminal-cmd>...       The command to run connected via a proxied pty

Options:
      --auth-port <port>          Port to relay auth-request, default 85
      --auth-socket <socket>      Unix socket to relay auth-request (conflicts with --auth-port)
      --port-as-fd                Use <listen-port> as file descriptor.
      --path <path>               ACL object path to test <perm> on.
      --perm <perm>               Permission to test.
      -h, --help                  Print help
";

/// The daemon port used when neither `--auth-port` nor `--auth-socket` is given.
pub const DEFAULT_AUTH_PORT: u16 = 85;

// ---------------------------------------------------------------------------
// The argument parser of the `pico_args` crate.
// ---------------------------------------------------------------------------

#[verifier::external_type_specification]
#[verifier::external_body]
pub struct ExArguments(pico_args::Arguments);

#[verifier::external_type_specification]
#[verifier::external_body]
pub struct ExArgumentsError(pico_args::Error);

/// The arguments that a `pico_args::Arguments` still holds, in order.
pub uninterp spec fn remaining_args(a: pico_args::Arguments) -> Seq<Seq<char>>;

/// Every argument that a `pico_args::Arguments` holds is UTF-8 text, so that
/// `remaining_args` spells it.
pub uninterp spec fn args_are_text(a: pico_args::Arguments) -> bool;

/// A key that `pico_args` accepts for a flag or an option: `-` and one
/// letter, possibly repeated, or `--` and a name.
pub open spec fn is_option_key(k: Seq<char>) -> bool {
    &&& k.len() >= 2
    &&& k[0] == '-'
    &&& (k[1] == '-' || forall|i: int| 1 <= i < k.len() ==> #[trigger] k[i] == k[1])
}

/// Taking the flag `key`: whether it was there, and the arguments without its
/// first occurrence.
pub open spec fn take_flag_model(args: Seq<Seq<char>>, key: Seq<char>) -> (bool, Seq<Seq<char>>) {
    match first_index(args, key) {
        Some(i) => (true, args.remove(i)),
        None => (false, args),
    }
}

/// Looking up the option `key`, whose value is the argument after it.
pub enum ValueLookup {
    /// The key is not there.
    Missing,
    /// The key is the last argument.
    WithoutValue,
    /// The value, and the arguments without the key and the value.
    Found(Seq<char>, Seq<Seq<char>>),
}

/// Looking up the option `key` at its first occurrence.
pub open spec fn lookup_value(args: Seq<Seq<char>>, key: Seq<char>) -> ValueLookup {
    match first_index(args, key) {
        None => ValueLookup::Missing,
        Some(i) => if i + 1 < args.len() {
            ValueLookup::Found(args[i + 1], args.take(i) + args.skip(i + 2))
        } else {
            ValueLookup::WithoutValue
        },
    }
}

/// `pico_args::Arguments::from_vec`: the parser holds `args` in order.
#[verifier::external_body]
pub(crate) fn arguments_from(args: Vec<String>) -> (a: pico_args::Arguments)
    ensures
        args_are_text(a),
        remaining_args(a) == args@.map_values(|s: String| s@),
{
    pico_args::Arguments::from_vec(args.into_iter().map(|s| s.into()).collect())
}

/// `pico_args::Arguments::contains`: removes the first occurrence of `key`,
/// if any, and says whether there was one.
#[verifier::external_body]
fn take_flag(args: &mut pico_args::Arguments, key: &'static str) -> (found: bool)
    requires
        is_option_key(key@),
    ensures
        args_are_text(*old(args)) ==> {
            &&& args_are_text(*final(args))
            &&& (found, remaining_args(*final(args))) == take_flag_model(remaining_args(*old(args)), key@)
        },
{
    args.contains(key)
}

/// A refusal reported by `pico_args`, variant for variant.
pub enum PicoFailure {
    NonUtf8Argument,
    MissingArgument,
    /// A missing option; the key is the one asked for.
    MissingOption,
    OptionWithoutAValue(&'static str),
    ParsingFailed(String, String),
    BinaryParsingFailed(String),
}

/// `pico_args::Arguments::value_from_str` for a `String`: the argument after
/// the first occurrence of `key`, removing both; when the key is missing or
/// last, an error that says so, removing nothing.
#[verifier::external_body]
fn take_value(args: &mut pico_args::Arguments, key: &'static str) -> (r: Result<String, PicoFailure>)
    requires
        is_option_key(key@),
    ensures
        args_are_text(*old(args)) ==> {
            &&& args_are_text(*final(args))
            &&& match lookup_value(remaining_args(*old(args)), key@) {
                ValueLookup::Found(v, rest) => r matches Ok(s) && s@ == v && remaining_args(*final(args)) == rest,
                ValueLookup::Missing => r matches Err(PicoFailure::MissingOption)
                    && remaining_args(*final(args)) == remaining_args(*old(args)),
                ValueLookup::WithoutValue => r matches Err(PicoFailure::OptionWithoutAValue(k)) && k@ == key@
                    && remaining_args(*final(args)) == remaining_args(*old(args)),
            }
        },
{
    args.value_from_str(key).map_err(|e| match e {
        pico_args::Error::NonUtf8Argument => PicoFailure::NonUtf8Argument,
        pico_args::Error::MissingArgument => PicoFailure::MissingArgument,
        pico_args::Error::MissingOption(_) => PicoFailure::MissingOption,
        pico_args::Error::OptionWithoutAValue(k) => PicoFailure::OptionWithoutAValue(k),
        pico_args::Error::Utf8ArgumentParsingFailed { value, cause } => PicoFailure::ParsingFailed(value, cause),
        pico_args::Error::ArgumentParsingFailed { cause } => PicoFailure::BinaryParsingFailed(cause),
    })
}

/// `pico_args::Arguments::opt_value_from_str` for a `String`: like
/// `take_value`, but a missing key gives `None`.
#[verifier::external_body]
fn take_opt_value(args: &mut pico_args::Arguments, key: &'static str) -> (r: Result<Option<String>, PicoFailure>)
    requires
        is_option_key(key@),
    ensures
        args_are_text(*old(args)) ==> {
            &&& args_are_text(*final(args))
            &&& match lookup_value(remaining_args(*old(args)), key@) {
                ValueLookup::Found(v, rest) => r matches Ok(Some(s)) && s@ == v && remaining_args(*final(args)) == rest,
                ValueLookup::Missing => r matches Ok(None) && remaining_args(*final(args)) == remaining_args(*old(args)),
                ValueLookup::WithoutValue => r matches Err(PicoFailure::OptionWithoutAValue(k)) && k@ == key@
                    && remaining_args(*final(args)) == remaining_args(*old(args)),
            }
        },
{
    args.opt_value_from_str(key).map_err(|e| match e {
        pico_args::Error::NonUtf8Argument => PicoFailure::NonUtf8Argument,
        pico_args::Error::MissingArgument => PicoFailure::MissingArgument,
        pico_args::Error::MissingOption(_) => PicoFailure::MissingOption,
        pico_args::Error::OptionWithoutAValue(k) => PicoFailure::OptionWithoutAValue(k),
        pico_args::Error::Utf8ArgumentParsingFailed { value, cause } => PicoFailure::ParsingFailed(value, cause),
        pico_args::Error::ArgumentParsingFailed { cause } => PicoFailure::BinaryParsingFailed(cause),
    })
}

/// `pico_args::Arguments::free_from_str` for a `String`: removes and returns
/// the first argument; the missing-argument error when none is left.
#[verifier::external_body]
fn take_free(args: &mut pico_args::Arguments) -> (r: Result<String, PicoFailure>)
    ensures
        args_are_text(*old(args)) ==> {
            &&& args_are_text(*final(args))
            &&& if remaining_args(*old(args)).len() == 0 {
                r matches Err(PicoFailure::MissingArgument) && remaining_args(*final(args)) == remaining_args(*old(args))
            } else {
                &&& r matches Ok(s) && s@ == remaining_args(*old(args))[0]
                &&& remaining_args(*final(args)) == remaining_args(*old(args)).drop_first()
            }
        },
{
    args.free_from_str().map_err(|e| match e {
        pico_args::Error::NonUtf8Argument => PicoFailure::NonUtf8Argument,
        pico_args::Error::MissingArgument => PicoFailure::MissingArgument,
        pico_args::Error::MissingOption(_) => PicoFailure::MissingOption,
        pico_args::Error::OptionWithoutAValue(k) => PicoFailure::OptionWithoutAValue(k),
        pico_args::Error::Utf8ArgumentParsingFailed { value, cause } => PicoFailure::ParsingFailed(value, cause),
        pico_args::Error::ArgumentParsingFailed { cause } => PicoFailure::BinaryParsingFailed(cause),
    })
}

/// `pico_args::Arguments::finish`: how many arguments were not taken.
#[verifier::external_body]
pub(crate) fn leftover_count(args: pico_args::Arguments) -> (n: usize)
    ensures
        args_are_text(args) ==> n == remaining_args(args).len(),
{
    args.finish().len()
}

// ---------------------------------------------------------------------------
// Options.
// ---------------------------------------------------------------------------

/// Where the proxy waits for its client: a TCP port, or an already open
/// listening socket.
#[derive(PartialEq, Eq, Debug, Clone, Copy)]
pub enum PortOrFd {
    Port(u16),
    Fd(i32),
}

/// The local daemon that authentication is relayed to.
#[derive(PartialEq, Eq, Debug)]
pub enum DaemonAddress {
    Port(u16),
    UnixSocket(String),
}

/// The view of a [`DaemonAddress`].
pub enum DaemonAddressView {
    Port(u16),
    UnixSocket(Seq<char>),
}

impl View for DaemonAddress {
    type V = DaemonAddressView;

    open spec fn view(&self) -> DaemonAddressView {
        match self {
            DaemonAddress::Port(p) => DaemonAddressView::Port(*p),
            DaemonAddress::UnixSocket(s) => DaemonAddressView::UnixSocket(s@),
        }
    }
}

/// The settings of one proxy run.
#[derive(Debug)]
pub struct Options {
    /// The actual command to run proxied in a pseudo terminal, each argument
    /// as the bytes it was given as.
    pub terminal_command: Vec<Vec<u8>>,
    /// The port or FD that termproxy will listen on for an incoming connection.
    pub listen_port: PortOrFd,
    /// The port (or unix socket path) of the local privileged daemon that
    /// authentication is relayed to. Defaults to port `85`.
    pub api_daemon_address: DaemonAddress,
    /// The ACL object path the `acl_permission` is checked on.
    pub acl_path: String,
    /// The ACL permission that the ticket, read from the stream, is required
    /// to have on `acl_path`.
    pub acl_permission: Option<String>,
    /// Use the new-style `vncticket` auth endpoint.
    pub vncticket_endpoint: bool,
}

/// The view of [`Options`].
pub struct OptionsView {
    pub terminal_command: Seq<Seq<u8>>,
    pub listen_port: PortOrFd,
    pub api_daemon_address: DaemonAddressView,
    pub acl_path: Seq<char>,
    pub acl_permission: Option<Seq<char>>,
    pub vncticket_endpoint: bool,
}

impl View for Options {
    type V = OptionsView;

    open spec fn view(&self) -> OptionsView {
        OptionsView {
            terminal_command: byte_strings(self.terminal_command@),
            listen_port: self.listen_port,
            api_daemon_address: self.api_daemon_address@,
            acl_path: self.acl_path@,
            acl_permission: match self.acl_permission {
                Some(s) => Some(s@),
                None => None,
            },
            vncticket_endpoint: self.vncticket_endpoint,
        }
    }
}

/// What the command line asks for.
#[derive(Debug)]
pub enum Invocation {
    /// Print [`CMD_HELP`] and stop successfully.
    Help,
    /// Run the proxy with these options.
    Run(Options),
}

/// The view of an [`Invocation`].
pub enum InvocationView {
    Help,
    Run(OptionsView),
}

impl View for Invocation {
    type V = InvocationView;

    open spec fn view(&self) -> InvocationView {
        match self {
            Invocation::Help => InvocationView::Help,
            Invocation::Run(o) => InvocationView::Run(o@),
        }
    }
}

/// How the argument parser refused a command line.
#[derive(Debug)]
pub enum ArgsError {
    /// An argument that is not UTF-8 text where a value or the listen port
    /// was to be read.
    NonUtf8Argument,
    /// No argument left for the listen port.
    MissingArgument,
    /// A required option that is not given.
    MissingOption(&'static str),
    /// An option that is the last argument, with no value after it.
    OptionWithoutAValue(&'static str),
}

/// The view of an [`ArgsError`].
pub enum ArgsErrorView {
    NonUtf8Argument,
    MissingArgument,
    MissingOption(Seq<char>),
    OptionWithoutAValue(Seq<char>),
}

impl View for ArgsError {
    type V = ArgsErrorView;

    open spec fn view(&self) -> ArgsErrorView {
        match self {
            ArgsError::NonUtf8Argument => ArgsErrorView::NonUtf8Argument,
            ArgsError::MissingArgument => ArgsErrorView::MissingArgument,
            ArgsError::MissingOption(k) => ArgsErrorView::MissingOption(k@),
            ArgsError::OptionWithoutAValue(k) => ArgsErrorView::OptionWithoutAValue(k@),
        }
    }
}

/// Why a command line was refused.
#[derive(Debug)]
pub enum CliError {
    /// The argument parser refused: a missing option, an option without a
    /// value, a missing listen port, an argument that is not text.
    Arguments(ArgsError),
    /// No `--` and terminal command.
    MissingTerminalCommand,
    /// A port or descriptor value that is not a number of the expected range.
    InvalidNumber(String),
    /// Both `--auth-port` (or `--authport`) and `--auth-socket` were given.
    ConflictingAuthOptions,
    /// A listen descriptor above the largest file descriptor.
    FdTooBig,
    /// A listen port above 65535.
    InvalidPort,
    /// Arguments that no option took.
    ExtraArguments,
}

/// The kind of a [`CliError`].
#[derive(PartialEq, Eq, Debug, Clone, Copy)]
pub enum CliFailure {
    Arguments,
    MissingTerminalCommand,
    InvalidNumber,
    ConflictingAuthOptions,
    FdTooBig,
    InvalidPort,
    ExtraArguments,
}

impl CliError {
    /// The kind of the error.
    pub open spec fn failure(&self) -> CliFailure {
        match self {
            CliError::Arguments(_) => CliFailure::Arguments,
            CliError::MissingTerminalCommand => CliFailure::MissingTerminalCommand,
            CliError::InvalidNumber(_) => CliFailure::InvalidNumber,
            CliError::ConflictingAuthOptions => CliFailure::ConflictingAuthOptions,
            CliError::FdTooBig => CliFailure::FdTooBig,
            CliError::InvalidPort => CliFailure::InvalidPort,
            CliError::ExtraArguments => CliFailure::ExtraArguments,
        }
    }

    /// The kind of the error.
    pub fn kind(&self) -> (k: CliFailure)
        ensures
            k == self.failure(),
    {
        match self {
            CliError::Arguments(_) => CliFailure::Arguments,
            CliError::MissingTerminalCommand => CliFailure::MissingTerminalCommand,
            CliError::InvalidNumber(_) => CliFailure::InvalidNumber,
            CliError::ConflictingAuthOptions => CliFailure::ConflictingAuthOptions,
            CliError::FdTooBig => CliFailure::FdTooBig,
            CliError::InvalidPort => CliFailure::InvalidPort,
            CliError::ExtraArguments => CliFailure::ExtraArguments,
        }
    }
}

/// The view of a [`CliError`]: its kind, with how the parser refused and the
/// text of a value that is not a number.
pub enum CliErrorView {
    Arguments(ArgsErrorView),
    MissingTerminalCommand,
    InvalidNumber(Seq<char>),
    ConflictingAuthOptions,
    FdTooBig,
    InvalidPort,
    ExtraArguments,
}

impl View for CliError {
    type V = CliErrorView;

    open spec fn view(&self) -> CliErrorView {
        match self {
            CliError::Arguments(e) => CliErrorView::Arguments(e@),
            CliError::MissingTerminalCommand => CliErrorView::MissingTerminalCommand,
            CliError::InvalidNumber(v) => CliErrorView::InvalidNumber(v@),
            CliError::ConflictingAuthOptions => CliErrorView::ConflictingAuthOptions,
            CliError::FdTooBig => CliErrorView::FdTooBig,
            CliError::InvalidPort => CliErrorView::InvalidPort,
            CliError::ExtraArguments => CliErrorView::ExtraArguments,
        }
    }
}

/// The outcome of reading a command line, as views.
pub open spec fn outcome_view(r: Result<Invocation, CliError>) -> Result<InvocationView, CliErrorView> {
    match r {
        Ok(i) => Ok(i@),
        Err(e) => Err(e@),
    }
}

/// The number that a text spells, read as `str::parse` reads an unsigned
/// integer no greater than `max`.
pub open spec fn text_number(v: Seq<char>, max: nat) -> Option<nat> {
    parse_unsigned(encode_utf8(v), max)
}

/// The largest file descriptor value.
pub const RAW_FD_MAX: u64 = 2147483647;

/// The listen target for a number given on the command line.
pub open spec fn listen_target(value: nat, use_as_fd: bool) -> Result<PortOrFd, CliErrorView> {
    if use_as_fd {
        if value > RAW_FD_MAX {
            Err(CliErrorView::FdTooBig)
        } else {
            Ok(PortOrFd::Fd(value as i32))
        }
    } else {
        if value > u16::MAX {
            Err(CliErrorView::InvalidPort)
        } else {
            Ok(PortOrFd::Port(value as u16))
        }
    }
}

impl PortOrFd {
    /// The listen target that `value` names: a file descriptor when
    /// `use_as_fd`, else a port.
    pub fn from_cli(value: u64, use_as_fd: bool) -> (r: Result<PortOrFd, CliError>)
        ensures
            match r {
                Ok(p) => listen_target(value as nat, use_as_fd) == Ok::<PortOrFd, CliErrorView>(p),
                Err(e) => listen_target(value as nat, use_as_fd) == Err::<PortOrFd, CliErrorView>(e@),
            },
    {
        if use_as_fd {
            if value > RAW_FD_MAX {
                return Err(CliError::FdTooBig);
            }
            Ok(PortOrFd::Fd(value as i32))
        } else {
            if value > 65535 {
                return Err(CliError::InvalidPort);
            }
            Ok(PortOrFd::Port(value as u16))
        }
    }

    /// Whether the target is a file descriptor.
    pub fn is_fd(&self) -> (b: bool)
        ensures
            b == (*self is Fd),
    {
        match self {
            PortOrFd::Fd(_) => true,
            _ => false,
        }
    }
}

impl Options {
    /// Whether the listen target is a file descriptor.
    pub fn use_listen_port_as_fd(&self) -> (b: bool)
        ensures
            b == (self.listen_port is Fd),
    {
        self.listen_port.is_fd()
    }
}

/// The texts of a sequence of strings.
pub open spec fn texts(v: Seq<String>) -> Seq<Seq<char>> {
    v.map_values(|s: String| s@)
}

/// The bytes of a sequence of byte strings.
pub open spec fn byte_strings(v: Seq<Vec<u8>>) -> Seq<Seq<u8>> {
    v.map_values(|b: Vec<u8>| b@)
}

/// `--`.
pub open spec fn end_of_options() -> Seq<u8> {
    seq![45u8, 45]
}

/// The arguments in front of the first `--`, and the terminal command after
/// it if there is a `--`.
pub open spec fn split_command(args: Seq<Seq<u8>>) -> (Seq<Seq<u8>>, Option<Seq<Seq<u8>>>) {
    match first_index(args, end_of_options()) {
        Some(i) => (args.take(i), Some(args.skip(i + 1))),
        None => (args, None),
    }
}

/// The error for a value or listen port that is the stand-in for an
/// argument that is not text.
pub open spec fn not_text_error() -> CliErrorView {
    CliErrorView::Arguments(ArgsErrorView::NonUtf8Argument)
}

/// The option `key` with its value, required; a value that is the stand-in
/// `opaque` is refused.
pub open spec fn required_value(args: Seq<Seq<char>>, key: Seq<char>, opaque: Option<Seq<char>>) -> Result<(Seq<char>, Seq<Seq<char>>), CliErrorView> {
    match lookup_value(args, key) {
        ValueLookup::Found(v, rest) => if opaque == Some(v) {
            Err(not_text_error())
        } else {
            Ok((v, rest))
        },
        ValueLookup::Missing => Err(CliErrorView::Arguments(ArgsErrorView::MissingOption(key))),
        ValueLookup::WithoutValue => Err(CliErrorView::Arguments(ArgsErrorView::OptionWithoutAValue(key))),
    }
}

/// The option `key` with its value, if given; a value that is the stand-in
/// `opaque` is refused.
pub open spec fn optional_value(args: Seq<Seq<char>>, key: Seq<char>, opaque: Option<Seq<char>>) -> Result<(Option<Seq<char>>, Seq<Seq<char>>), CliErrorView> {
    match lookup_value(args, key) {
        ValueLookup::Found(v, rest) => if opaque == Some(v) {
            Err(not_text_error())
        } else {
            Ok((Some(v), rest))
        },
        ValueLookup::Missing => Ok((None, args)),
        ValueLookup::WithoutValue => Err(CliErrorView::Arguments(ArgsErrorView::OptionWithoutAValue(key))),
    }
}

/// The option `key` with a 16-bit number as its value, if given.
pub open spec fn optional_u16(args: Seq<Seq<char>>, key: Seq<char>, opaque: Option<Seq<char>>) -> Result<(Option<u16>, Seq<Seq<char>>), CliErrorView> {
    match optional_value(args, key, opaque) {
        Err(e) => Err(e),
        Ok((None, rest)) => Ok((None, rest)),
        Ok((Some(v), rest)) => match text_number(v, u16::MAX as nat) {
            Some(n) => Ok((Some(n as u16), rest)),
            None => Err(CliErrorView::InvalidNumber(v)),
        },
    }
}

/// The first remaining argument, read as a 64-bit number.
pub open spec fn free_u64(args: Seq<Seq<char>>, opaque: Option<Seq<char>>) -> Result<(u64, Seq<Seq<char>>), CliErrorView> {
    if args.len() == 0 {
        Err(CliErrorView::Arguments(ArgsErrorView::MissingArgument))
    } else if opaque == Some(args[0]) {
        Err(not_text_error())
    } else {
        match text_number(args[0], u64::MAX as nat) {
            Some(n) => Ok((n as u64, args.drop_first())),
            None => Err(CliErrorView::InvalidNumber(args[0])),
        }
    }
}

/// The daemon address from `--auth-port` (or `--authport`) and `--auth-socket`.
pub open spec fn daemon_address(port: Option<u16>, socket: Option<Seq<char>>) -> Result<DaemonAddressView, CliErrorView> {
    match (port, socket) {
        (Some(p), None) => Ok(DaemonAddressView::Port(p)),
        (None, Some(s)) => Ok(DaemonAddressView::UnixSocket(s)),
        (None, None) => Ok(DaemonAddressView::Port(DEFAULT_AUTH_PORT)),
        (Some(_), Some(_)) => Err(CliErrorView::ConflictingAuthOptions),
    }
}

/// Whether the options ask for help.
pub open spec fn wants_help(opts: Seq<Seq<char>>) -> bool {
    opts.contains("-h"@) || opts.contains("--help"@)
}

/// Every argument is UTF-8 text.
pub open spec fn all_text(args: Seq<Seq<u8>>) -> bool {
    forall|i: int| 0 <= i < args.len() ==> valid_utf8(#[trigger] args[i])
}

/// The word that stands for the arguments that are not UTF-8 text: `x`
/// followed by the texts of all arguments that are. It is longer than any
/// of those texts and starts with no `-`, so it is no option key and no
/// text argument (see `lemma_stand_in_fresh`).
pub open spec fn stand_in(args: Seq<Seq<u8>>) -> Seq<char>
    decreases args.len(),
{
    if args.len() == 0 {
        seq!['x']
    } else {
        stand_in(args.drop_last()) + if valid_utf8(args.last()) {
            decode_utf8(args.last())
        } else {
            Seq::empty()
        }
    }
}

/// The texts of the arguments, with `opaque` for each that is not UTF-8.
pub open spec fn marked_texts(args: Seq<Seq<u8>>, opaque: Seq<char>) -> Seq<Seq<char>> {
    args.map_values(|b: Seq<u8>| if valid_utf8(b) { decode_utf8(b) } else { opaque })
}

/// The stand-in to refuse, when some argument is not text.
pub open spec fn opaque_word(args: Seq<Seq<u8>>) -> Option<Seq<char>> {
    if all_text(args) {
        None
    } else {
        Some(stand_in(args))
    }
}

/// The stand-in is no text argument and no option key: each text argument is
/// shorter, and it starts with `x`.
pub proof fn lemma_stand_in_fresh(args: Seq<Seq<u8>>)
    ensures
        stand_in(args).len() > 0,
        stand_in(args)[0] == 'x',
        forall|i: int| 0 <= i < args.len() && valid_utf8(#[trigger] args[i]) ==> decode_utf8(args[i]).len() < stand_in(args).len(),
    decreases args.len(),
{
    if args.len() > 0 {
        let front = args.drop_last();
        lemma_stand_in_fresh(front);
        assert forall|i: int| 0 <= i < args.len() && valid_utf8(#[trigger] args[i]) implies decode_utf8(args[i]).len() < stand_in(args).len() by {
            if i < args.len() - 1 {
                assert(args[i] == front[i]);
            }
        }
    }
}

/// What a command line (without the program name) asks for. The options in
/// front of the first `--` go to the parser, each argument that is not
/// UTF-8 text as the stand-in word, which is never an option key and is
/// refused where a value or the listen port is read, as the parser refuses
/// an argument that is not text; see [`cli_words_model`].
pub open spec fn cli_model(args: Seq<Seq<u8>>) -> Result<InvocationView, CliErrorView> {
    let (raw, command) = split_command(args);
    cli_words_model(marked_texts(raw, stand_in(raw)), opaque_word(raw), command)
}

/// What options that are all text ask for, with the terminal command if
/// there was a `--`.
pub open spec fn cli_text_model(opts: Seq<Seq<char>>, command: Option<Seq<Seq<u8>>>) -> Result<InvocationView, CliErrorView> {
    cli_words_model(opts, None, command)
}

/// What the option words ask for, where a value or listen port equal to
/// `opaque` is refused. After the help check and the terminal command, the
/// options are taken in this order: `--port-as-fd`, `--path`, `--perm`,
/// `--authport`, `--auth-port`, `--auth-socket`, `--vncticket-endpoint`, then
/// the listen port; arguments left over are an error.
pub open spec fn cli_words_model(opts: Seq<Seq<char>>, opaque: Option<Seq<char>>, command: Option<Seq<Seq<u8>>>) -> Result<InvocationView, CliErrorView> {
    if wants_help(opts) {
        Ok(InvocationView::Help)
    } else if command is None {
        Err(CliErrorView::MissingTerminalCommand)
    } else {
        let (port_as_fd, a1) = take_flag_model(opts, "--port-as-fd"@);
        match required_value(a1, "--path"@, opaque) {
            Err(e) => Err(e),
            Ok((path, a2)) => match optional_value(a2, "--perm"@, opaque) {
                Err(e) => Err(e),
                Ok((perm, a3)) => match optional_u16(a3, "--authport"@, opaque) {
                    Err(e) => Err(e),
                    Ok((legacy, a4)) => match optional_u16(a4, "--auth-port"@, opaque) {
                        Err(e) => Err(e),
                        Ok((port, a5)) => match optional_value(a5, "--auth-socket"@, opaque) {
                            Err(e) => Err(e),
                            Ok((socket, a6)) => {
                                let auth_port = if port is Some { port } else { legacy };
                                match daemon_address(auth_port, socket) {
                                    Err(e) => Err(e),
                                    Ok(address) => {
                                        let (vnc, a7) = take_flag_model(a6, "--vncticket-endpoint"@);
                                        match free_u64(a7, opaque) {
                                            Err(e) => Err(e),
                                            Ok((value, a8)) => match listen_target(value as nat, port_as_fd) {
                                                Err(e) => Err(e),
                                                Ok(target) => if a8.len() > 0 {
                                                    Err(CliErrorView::ExtraArguments)
                                                } else {
                                                    Ok(InvocationView::Run(OptionsView {
                                                        terminal_command: command->Some_0,
                                                        listen_port: target,
                                                        api_daemon_address: address,
                                                        acl_path: path,
                                                        acl_permission: perm,
                                                        vncticket_endpoint: vnc,
                                                    }))
                                                },
                                            },
                                        }
                                    },
                                }
                            },
                        },
                    },
                },
            },
        }
    }
}

/// The number that the text `s` spells, if it is no greater than `max`.
pub fn text_to_number(s: &String, max: u64) -> (r: Option<u64>)
    ensures
        match r {
            Some(n) => text_number(s@, max as nat) == Some(n as nat),
            None => text_number(s@, max as nat) is None,
        },
{
    let t = s.as_str();
    parse_decimal(t.as_bytes(), max)
}

/// The text of an optional string.
pub open spec fn opt_text(o: Option<String>) -> Option<Seq<char>> {
    match o {
        Some(s) => Some(s@),
        None => None,
    }
}

/// Whether `v` is the stand-in `opaque`.
fn is_opaque(v: &String, opaque: &Option<String>) -> (b: bool)
    ensures
        b == (opt_text(*opaque) == Some(v@)),
{
    match opaque {
        Some(m) => *m == *v,
        None => false,
    }
}

/// Takes the option `key` with its value.
pub(crate) fn required(args: &mut pico_args::Arguments, key: &'static str, opaque: &Option<String>) -> (r: Result<String, CliError>)
    requires
        is_option_key(key@),
        args_are_text(*old(args)),
    ensures
        args_are_text(*final(args)),
        match required_value(remaining_args(*old(args)), key@, opt_text(*opaque)) {
            Ok((v, rest)) => r matches Ok(s) && s@ == v && remaining_args(*final(args)) == rest,
            Err(e) => r matches Err(x) && x@ == e,
        },
{
    match take_value(args, key) {
        Ok(v) => if is_opaque(&v, opaque) {
            Err(CliError::Arguments(ArgsError::NonUtf8Argument))
        } else {
            Ok(v)
        },
        Err(PicoFailure::OptionWithoutAValue(k)) => Err(CliError::Arguments(ArgsError::OptionWithoutAValue(k))),
        Err(_) => Err(CliError::Arguments(ArgsError::MissingOption(key))),
    }
}

/// Takes the option `key` with its value, if given.
pub(crate) fn optional(args: &mut pico_args::Arguments, key: &'static str, opaque: &Option<String>) -> (r: Result<Option<String>, CliError>)
    requires
        is_option_key(key@),
        args_are_text(*old(args)),
    ensures
        args_are_text(*final(args)),
        match optional_value(remaining_args(*old(args)), key@, opt_text(*opaque)) {
            Ok((v, rest)) => r matches Ok(o) && remaining_args(*final(args)) == rest && match o {
                Some(s) => v == Some(s@),
                None => v is None,
            },
            Err(e) => r matches Err(x) && x@ == e,
        },
{
    match take_opt_value(args, key) {
        Ok(Some(v)) => if is_opaque(&v, opaque) {
            Err(CliError::Arguments(ArgsError::NonUtf8Argument))
        } else {
            Ok(Some(v))
        },
        Ok(None) => Ok(None),
        Err(PicoFailure::OptionWithoutAValue(k)) => Err(CliError::Arguments(ArgsError::OptionWithoutAValue(k))),
        Err(_) => {
            assert(false);
            Err(CliError::Arguments(ArgsError::OptionWithoutAValue(key)))
        },
    }
}

/// Takes the option `key` with a 16-bit number as its value, if given.
pub(crate) fn optional_port(args: &mut pico_args::Arguments, key: &'static str, opaque: &Option<String>) -> (r: Result<Option<u16>, CliError>)
    requires
        is_option_key(key@),
        args_are_text(*old(args)),
    ensures
        args_are_text(*final(args)),
        match optional_u16(remaining_args(*old(args)), key@, opt_text(*opaque)) {
            Ok((v, rest)) => r == Ok::<Option<u16>, CliError>(v) && remaining_args(*final(args)) == rest,
            Err(e) => r matches Err(x) && x@ == e,
        },
{
    match optional(args, key, opaque) {
        Err(e) => Err(e),
        Ok(None) => Ok(None),
        Ok(Some(v)) => match text_to_number(&v, 65535) {
            Some(n) => Ok(Some(n as u16)),
            None => Err(CliError::InvalidNumber(v)),
        },
    }
}

/// Takes the first remaining argument as a 64-bit number.
pub(crate) fn free_number(args: &mut pico_args::Arguments, opaque: &Option<String>) -> (r: Result<u64, CliError>)
    requires
        args_are_text(*old(args)),
    ensures
        args_are_text(*final(args)),
        match free_u64(remaining_args(*old(args)), opt_text(*opaque)) {
            Ok((v, rest)) => r == Ok::<u64, CliError>(v) && remaining_args(*final(args)) == rest,
            Err(e) => r matches Err(x) && x@ == e,
        },
{
    match take_free(args) {
        Err(_) => Err(CliError::Arguments(ArgsError::MissingArgument)),
        Ok(v) => if is_opaque(&v, opaque) {
            Err(CliError::Arguments(ArgsError::NonUtf8Argument))
        } else {
            match text_to_number(&v, 0xffff_ffff_ffff_ffff) {
                Some(n) => Ok(n),
                None => Err(CliError::InvalidNumber(v)),
            }
        },
    }
}

/// Takes the flag `key`.
pub(crate) fn flag(args: &mut pico_args::Arguments, key: &'static str) -> (found: bool)
    requires
        is_option_key(key@),
        args_are_text(*old(args)),
    ensures
        args_are_text(*final(args)),
        (found, remaining_args(*final(args))) == take_flag_model(remaining_args(*old(args)), key@),
{
    take_flag(args, key)
}

/// Splits the arguments at the first `--` into the options and the terminal
/// command; without `--`, all arguments are options.
pub fn split_terminal_command(args: Vec<Vec<u8>>) -> (r: (Vec<Vec<u8>>, Option<Vec<Vec<u8>>>))
    ensures
        split_command(byte_strings(args@)) == (byte_strings(r.0@), match r.1 {
            Some(c) => Some(byte_strings(c@)),
            None => None,
        }),
{
    let ghost v = byte_strings(args@);
    let dash_dash: [u8; 2] = [45, 45];
    assert(dash_dash@ == end_of_options());
    let mut i: usize = 0;
    while i < args.len()
        invariant
            i <= args@.len(),
            v == byte_strings(args@),
            dash_dash@ == end_of_options(),
            forall|j: int| 0 <= j < i ==> v[j] != end_of_options(),
        decreases args@.len() - i,
    {
        if bytes_equal(args[i].as_slice(), dash_dash.as_slice()) {
            proof {
                lemma_first_index_is(v, end_of_options(), i as int);
            }
            let mut opts = args;
            let later = opts.split_off(i + 1);
            opts.pop();
            assert(byte_strings(opts@) == v.take(i as int));
            assert(byte_strings(later@) == v.skip(i + 1));
            return (opts, Some(later));
        }
        i = i + 1;
    }
    proof {
        lemma_first_index(v, end_of_options());
        if v.contains(end_of_options()) {
            let k = choose|k: int| 0 <= k < v.len() && v[k] == end_of_options();
            assert(v[k] != end_of_options());
        }
    }
    (args, None)
}

/// Splits the command line at the first `--` and gives the texts of the
/// options, with the stand-in for each that is not UTF-8 text, the stand-in
/// to refuse when there is such an option, and the terminal command.
pub(crate) fn read_command_line(args: Vec<Vec<u8>>) -> (r: (Vec<String>, Option<String>, Option<Vec<Vec<u8>>>))
    ensures
        ({
            let (raw, command) = split_command(byte_strings(args@));
            &&& texts(r.0@) == marked_texts(raw, stand_in(raw))
            &&& opt_text(r.1) == opaque_word(raw)
            &&& match r.2 {
                Some(c) => command == Some(byte_strings(c@)),
                None => command is None,
            }
        }),
{
    let (opts, command) = split_terminal_command(args);
    let ghost v = byte_strings(opts@);
    let mut words: Vec<String> = Vec::new();
    let mut is_text: Vec<bool> = Vec::new();
    let mut opaque = String::new();
    opaque.append("x");
    proof {
        reveal_strlit("x");
        assert(v.take(0) == Seq::<Seq<u8>>::empty());
    }
    let mut all: bool = true;
    let mut i: usize = 0;
    while i < opts.len()
        invariant
            i <= opts@.len(),
            v == byte_strings(opts@),
            words@.len() == i,
            is_text@.len() == i,
            forall|j: int| 0 <= j < i ==> #[trigger] is_text@[j] == valid_utf8(v[j]),
            forall|j: int| 0 <= j < i && is_text@[j] ==> #[trigger] words@[j]@ == decode_utf8(v[j]),
            opaque@ == stand_in(v.take(i as int)),
            all == all_text(v.take(i as int)),
        decreases opts@.len() - i,
    {
        let b = opts[i].clone();
        assert(b@ =~= v[i as int]);
        assert(v.take(i + 1).drop_last() == v.take(i as int));
        assert(v.take(i + 1).last() == v[i as int]);
        match utf8_text(b) {
            Some(t) => {
                opaque.append(t.as_str());
                words.push(t);
                is_text.push(true);
            },
            None => {
                words.push(String::new());
                is_text.push(false);
                all = false;
            },
        }
        assert(all == all_text(v.take(i + 1))) by {
            if all_text(v.take(i + 1)) {
                assert(valid_utf8(v.take(i + 1)[i as int]));
                assert forall|j: int| 0 <= j < i implies valid_utf8(#[trigger] v.take(i as int)[j]) by {
                    assert(v.take(i + 1)[j] == v.take(i as int)[j]);
                }
            } else if all {
                assert forall|j: int| 0 <= j < i + 1 implies valid_utf8(#[trigger] v.take(i + 1)[j]) by {
                    if j < i {
                        assert(v.take(i + 1)[j] == v.take(i as int)[j]);
                    }
                }
            }
        }
        i = i + 1;
    }
    assert(v.take(i as int) == v);
    let mut out: Vec<String> = Vec::new();
    let mut k: usize = 0;
    while k < words.len()
        invariant
            i == opts@.len(),
            words@.len() == i,
            is_text@.len() == i,
            v.len() == i,
            k <= i,
            forall|j: int| 0 <= j < i ==> #[trigger] is_text@[j] == valid_utf8(v[j]),
            forall|j: int| 0 <= j < i && is_text@[j] ==> #[trigger] words@[j]@ == decode_utf8(v[j]),
            texts(out@) == marked_texts(v.take(k as int), stand_in(v)),
            opaque@ == stand_in(v),
        decreases i - k,
    {
        let ghost before = out@;
        if is_text[k] {
            out.push(words[k].clone());
        } else {
            out.push(opaque.clone());
        }
        assert(texts(out@) == texts(before).push(out@[k as int]@));
        assert(marked_texts(v.take(k + 1), stand_in(v)) =~= marked_texts(v.take(k as int), stand_in(v)).push(
            if valid_utf8(v[k as int]) { decode_utf8(v[k as int]) } else { stand_in(v) },
        ));
        k = k + 1;
    }
    assert(v.take(k as int) == v);
    let o = if all { None } else { Some(opaque) };
    (out, o, command)
}

impl Options {
    /// Reads a command line, without the program name: the options in front
    /// of the first `--` and the terminal command after it. Asks for help
    /// when `-h` or `--help` is among the options.
    pub fn from_args(args: Vec<Vec<u8>>) -> (r: Result<Invocation, CliError>)
        ensures
            outcome_view(r) == cli_model(byte_strings(args@)),
    {
        let (opts, opaque, command) = read_command_line(args);
        let mut args = arguments_from(opts);
        proof {
            reveal_strlit("-h");
            reveal_strlit("--help");
            reveal_strlit("--port-as-fd");
            reveal_strlit("--path");
            reveal_strlit("--perm");
            reveal_strlit("--authport");
            reveal_strlit("--auth-port");
            reveal_strlit("--auth-socket");
            reveal_strlit("--vncticket-endpoint");
        }
        let ghost a0 = remaining_args(args);
        let help = flag(&mut args, "-h") || flag(&mut args, "--help");
        proof {
            lemma_first_index(a0, "-h"@);
            lemma_first_index(remaining_args(args), "--help"@);
        }
        if help {
            return Ok(Invocation::Help);
        }
        let terminal_command = match command {
            Some(c) => c,
            None => {
                return Err(CliError::MissingTerminalCommand);
            },
        };
        let port_as_fd = flag(&mut args, "--port-as-fd");
        let acl_path = match required(&mut args, "--path", &opaque) {
            Ok(v) => v,
            Err(e) => {
                return Err(e);
            },
        };
        let acl_permission = match optional(&mut args, "--perm", &opaque) {
            Ok(v) => v,
            Err(e) => {
                return Err(e);
            },
        };
        let legacy_authport = match optional_port(&mut args, "--authport", &opaque) {
            Ok(v) => v,
            Err(e) => {
                return Err(e);
            },
        };
        let auth_port = match optional_port(&mut args, "--auth-port", &opaque) {
            Ok(Some(p)) => Some(p),
            Ok(None) => legacy_authport,
            Err(e) => {
                return Err(e);
            },
        };
        let auth_socket = match optional(&mut args, "--auth-socket", &opaque) {
            Ok(v) => v,
            Err(e) => {
                return Err(e);
            },
        };
        let api_daemon_address = match (auth_port, auth_socket) {
            (Some(p), None) => DaemonAddress::Port(p),
            (None, Some(s)) => DaemonAddress::UnixSocket(s),
            (None, None) => DaemonAddress::Port(DEFAULT_AUTH_PORT),
            (Some(_), Some(_)) => {
                return Err(CliError::ConflictingAuthOptions);
            },
        };
        let vncticket_endpoint = flag(&mut args, "--vncticket-endpoint");
        let listen_value = match free_number(&mut args, &opaque) {
            Ok(v) => v,
            Err(e) => {
                return Err(e);
            },
        };
        let listen_port = match PortOrFd::from_cli(listen_value, port_as_fd) {
            Ok(p) => p,
            Err(e) => {
                return Err(e);
            },
        };
        let options = Options {
            terminal_command,
            listen_port,
            api_daemon_address,
            acl_path,
            acl_permission,
            vncticket_endpoint,
        };
        if leftover_count(args) != 0 {
            return Err(CliError::ExtraArguments);
        }
        Ok(Invocation::Run(options))
    }
}

} // verus!
