//! Verified core of a terminal proxy: a bounded byte queue, the framing of the
//! client stream, the authentication line, command-line handling and the
//! decisions of the relay loop between a TCP client and a pseudo terminal.

pub mod buffer;
pub mod cli;
pub mod decimal;
pub mod option_laws;
pub mod protocol;
pub mod proxy;
pub mod relay;
pub mod seqs;
pub mod text;
pub mod ticket;
