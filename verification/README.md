# termproxy

A terminal proxy: it waits for one TCP client, reads an authentication line
(`user:ticket\n`), has the local API daemon check the ticket, starts a command
in a pseudo terminal and relays between the two ends. The client speaks a small
framed protocol: `0:LEN:` followed by `LEN` bytes of terminal input, and
`1:COLS:ROWS:` to resize the terminal.

## Layout

- `src/` — the verified library (Verus):
  - `buffer.rs` — a bounded FIFO byte queue;
  - `decimal.rs` — unsigned decimal numbers in ASCII;
  - `protocol.rs` — reading messages from the client queue, with the laws
    that a data or resize message is read back exactly, that a run of resize
    messages read call after call gives one resize per message, and that a
    read which finds no message leaves fewer than two bytes; a number field
    that gives no number says why;
  - `ticket.rs` — the authentication line and the request to the daemon;
  - `cli.rs`, `proxy.rs` — the command line (through `pico_args`), the
    environment of the terminal command, deadlines; arguments are taken as
    bytes, and the terminal command keeps them as they are; an option word
    that is not UTF-8 reaches the parser as a stand-in word that is no key,
    and is refused where a value or the listen port is read; a refusal of
    the parser says which option or argument it concerns;
  - `option_laws.rs` — the laws that both command-line readers give the same
    result for every order of their options, with the choice of the daemon
    address and the path, permission and ticket-endpoint fields;
  - `text.rs` — UTF-8 text and decimal text;
  - `relay.rs` — the relay loop as a state machine: the caller performs the
    I/O it asks for and hands back the outcome; the laws state that the client
    receives exactly what the terminal produced, in order, that the queue
    towards the terminal is always the unhandled tail of what the client sent,
    and that terminal input is taken from the front of that queue, never
    beyond what the current data message has left, for one step and over a
    whole session;
  - `seqs.rs` — first positions in sequences.
- `app/` — the program: sockets, polling, the pseudo terminal, HTTP.
- `tests/` — tests of the library.
