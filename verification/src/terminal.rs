//! The terminal: what its client sends and is sent.

use vstd::prelude::*;
use vstd::utf8::{decode_utf8, encode_utf8, encode_utf8_decode_utf8};

use crate::json::{
    json_literal, json_number, json_string, json_text, number_field, plain, quoted, string_literal,
    text_field,
};
use crate::text::{
    cat, cat3, decimal, digits, from_lossy, law_digits_write_their_number, number, opt_text, readable,
    same,
};

verus! {

// ---------------------------------------------------------------------------
// What the client sends
// ---------------------------------------------------------------------------

/// The fields of a message from the client: its type and data, if they are texts, and its rows and
/// columns, if they are numbers.
pub struct ClientMessage {
    pub kind: Option<String>,
    pub data: Option<String>,
    pub rows: Option<u64>,
    pub cols: Option<u64>,
}

/// The fields of a message: the texts under `type` and `data`, and the numbers under `rows` and
/// `cols`. A text that is not JSON has none.
pub open spec fn message_fields(text: Seq<char>) -> (
    Option<Seq<char>>,
    Option<Seq<char>>,
    Option<u64>,
    Option<u64>,
) {
    (
        json_text(text, "type"@),
        json_text(text, "data"@),
        json_number(text, "rows"@),
        json_number(text, "cols"@),
    )
}

/// The fields of a message, in terms of texts.
pub open spec fn message_view(m: ClientMessage) -> (
    Option<Seq<char>>,
    Option<Seq<char>>,
    Option<u64>,
    Option<u64>,
) {
    (opt_text(m.kind), opt_text(m.data), m.rows, m.cols)
}

/// The fields of a message.
fn parse_message(text: &str) -> (r: ClientMessage)
    ensures
        message_view(r) == message_fields(text@),
{
    ClientMessage {
        kind: text_field(text, "type"),
        data: text_field(text, "data"),
        rows: number_field(text, "rows"),
        cols: number_field(text, "cols"),
    }
}

/// What is to be done for a message.
pub enum TerminalAction {
    /// Nothing.
    Ignore,
    /// Write bytes to the terminal.
    Input(Vec<u8>),
    /// Give the terminal another size.
    Resize { rows: u16, cols: u16 },
}

/// A number of rows or columns, cut to 16 bits; the usual one where it is missing or zero.
pub open spec fn extent(n: Option<u64>, usual: u16) -> u16 {
    match n {
        Some(n) => if n % 65536 == 0 {
            usual
        } else {
            (n % 65536) as u16
        },
        None => usual,
    }
}

/// What is to be done for the fields of a message.
pub open spec fn action_for(
    a: TerminalAction,
    m: (Option<Seq<char>>, Option<Seq<char>>, Option<u64>, Option<u64>),
) -> bool {
    if m.0 == Some("input"@) {
        a matches TerminalAction::Input(b) && b@ == encode_utf8(
            match m.1 {
                Some(d) => d,
                None => Seq::<char>::empty(),
            },
        )
    } else if m.0 == Some("resize"@) {
        a matches TerminalAction::Resize { rows, cols } && rows == extent(m.2, 24) && cols == extent(
            m.3,
            80,
        )
    } else {
        a is Ignore
    }
}

/// A number of rows or columns.
fn extent_of(n: Option<u64>, usual: u16) -> (r: u16)
    ensures
        r == extent(n, usual),
{
    match n {
        Some(n) => {
            let k: u64 = n % 65536;
            if k == 0 {
                usual
            } else {
                k as u16
            }
        },
        None => usual,
    }
}

/// The bytes of a text.
fn bytes_of(s: &str) -> (r: Vec<u8>)
    ensures
        r@ == encode_utf8(s@),
{
    let b = s.as_bytes();
    let mut out: Vec<u8> = Vec::new();
    let mut i: usize = 0;
    while i < b.len()
        invariant
            i <= b@.len(),
            out@ == b@.take(i as int),
        decreases b.len() - i,
    {
        out.push(b[i]);
        i = i + 1;
        assert(out@ =~= b@.take(i as int));
    }
    assert(b@.take(b@.len() as int) =~= b@);
    out
}

/// What is to be done for the fields of a message.
pub fn terminal_action(m: &ClientMessage) -> (r: TerminalAction)
    ensures
        action_for(r, message_view(*m)),
{
    match &m.kind {
        Some(k) => {
            if same(k.as_str(), "input") {
                match &m.data {
                    Some(d) => TerminalAction::Input(bytes_of(d.as_str())),
                    None => {
                        let e = String::new();
                        assert(e@ =~= Seq::<char>::empty());
                        TerminalAction::Input(bytes_of(e.as_str()))
                    },
                }
            } else if same(k.as_str(), "resize") {
                TerminalAction::Resize { rows: extent_of(m.rows, 24), cols: extent_of(m.cols, 80) }
            } else {
                TerminalAction::Ignore
            }
        },
        None => TerminalAction::Ignore,
    }
}

/// What is to be done for a message; one that is not JSON has no fields and is ignored.
pub fn handle_message(text: &str) -> (r: TerminalAction)
    ensures
        action_for(r, message_fields(text@)),
{
    terminal_action(&parse_message(text))
}

/// What comes from the client.
pub enum Frame {
    /// A text message.
    Text(String),
    /// A binary message.
    Binary,
    /// A ping or a pong.
    Ping,
    /// The client closes the connection.
    Close,
    /// The connection failed.
    Failed,
    /// There is nothing more.
    End,
}

/// What comes from the client goes on: it is a text message.
pub open spec fn goes_on(frame: Frame) -> bool {
    frame is Text
}

/// What is to be done for what comes from the client; nothing is left to be done, and the shell is
/// to end, at the first that is no text message.
pub fn receive(frame: Frame) -> (r: Option<TerminalAction>)
    ensures
        r is Some <==> goes_on(frame),
        match frame {
            Frame::Text(t) => r matches Some(a) && action_for(a, message_fields(t@)),
            _ => r is None,
        },
{
    match frame {
        Frame::Text(t) => Some(handle_message(t.as_str())),
        _ => None,
    }
}

/// A terminal never gets an empty size.
pub proof fn law_size_is_never_zero(n: Option<u64>, usual: u16)
    requires
        usual > 0,
    ensures
        extent(n, usual) > 0,
        n matches Some(k) ==> (0 < k < 65536 ==> extent(n, usual) == k),
{
}

// ---------------------------------------------------------------------------
// What the client is sent
// ---------------------------------------------------------------------------

/// The JSON text of a message with a type and perhaps data.
pub open spec fn message_text(kind: Seq<char>, data: Option<Seq<char>>) -> Seq<char> {
    match data {
        Some(d) => "{\"data\":"@ + json_literal(d) + ",\"type\":"@ + quoted(kind) + "}"@,
        None => "{\"type\":"@ + quoted(kind) + "}"@,
    }
}

/// The JSON text of a message.
fn write_message(kind: &str, data: Option<String>) -> (r: String)
    requires
        plain(kind@),
    ensures
        r@ == message_text(kind@, opt_text(data)),
        data matches Some(d) ==> json_string(json_literal(d@)) == Some(d@) && (plain(d@) ==> json_literal(
            d@,
        ) == quoted(d@)),
{
    match data {
        Some(d) => {
            let mut r: String = "{\"data\":".to_owned();
            r.append(string_literal(d.as_str()).as_str());
            r.append(",\"type\":");
            r.append(string_literal(kind).as_str());
            r.append("}");
            r
        },
        None => cat3("{\"type\":", string_literal(kind).as_str(), "}"),
    }
}

/// The message that the terminal is there.
pub fn connected() -> (r: String)
    ensures
        r@ == message_text("connected"@, None),
        r@ == "{\"type\":\"connected\"}"@,
{
    proof {
        reveal_strlit("connected");
        reveal_strlit("{\"type\":");
        reveal_strlit("}");
        reveal_strlit("{\"type\":\"connected\"}");
        assert(message_text("connected"@, None) =~= "{\"type\":\"connected\"}"@);
    }
    write_message("connected", None)
}

/// The message with output of the terminal.
pub fn output(bytes: &Vec<u8>) -> (r: String)
    ensures
        r@ == message_text("output"@, Some(readable(bytes@))),
        json_string(json_literal(readable(bytes@))) == Some(readable(bytes@)),
        plain(readable(bytes@)) ==> json_literal(readable(bytes@)) == quoted(readable(bytes@)),
{
    proof {
        reveal_strlit("output");
    }
    write_message("output", Some(from_lossy(bytes.as_slice())))
}

/// Why a terminal could not be opened.
pub enum TerminalFailure {
    /// There is no terminal to be had.
    Open,
    /// Its other end has no name.
    Name(String),
    /// Its other end could not be opened.
    OpenOther,
    /// The shell did not start.
    Start(String),
}

/// What the client is told of a failure.
pub open spec fn failure_text(f: TerminalFailure) -> Seq<char> {
    match f {
        TerminalFailure::Open => "Failed to open PTY"@,
        TerminalFailure::Name(e) => "PTY slave error: "@ + e@,
        TerminalFailure::OpenOther => "Failed to open PTY slave"@,
        TerminalFailure::Start(e) => "Failed to start shell: "@ + e@,
    }
}

/// The message that a terminal could not be opened.
pub fn failure(f: TerminalFailure) -> (r: String)
    ensures
        r@ == message_text("error"@, Some(failure_text(f))),
        json_string(json_literal(failure_text(f))) == Some(failure_text(f)),
        plain(failure_text(f)) ==> json_literal(failure_text(f)) == quoted(failure_text(f)),
{
    proof {
        reveal_strlit("error");
    }
    let text = match f {
        TerminalFailure::Open => "Failed to open PTY".to_owned(),
        TerminalFailure::Name(e) => cat("PTY slave error: ", e.as_str()),
        TerminalFailure::OpenOther => "Failed to open PTY slave".to_owned(),
        TerminalFailure::Start(e) => cat("Failed to start shell: ", e.as_str()),
    };
    write_message("error", Some(text))
}

/// The shell to run: `bash` where it is installed.
pub fn shell(has_bash: bool) -> (r: &'static str)
    ensures
        r@ == if has_bash {
            "/bin/bash"@
        } else {
            "/bin/sh"@
        },
{
    if has_bash {
        "/bin/bash"
    } else {
        "/bin/sh"
    }
}

/// The name of the other end of a terminal.
pub open spec fn other_end(number: u32) -> Seq<char> {
    "/dev/pts/"@ + digits(number as nat)
}

/// The name of the other end of a terminal.
pub fn get_slave_name(number: u32) -> (r: String)
    ensures
        r@ == other_end(number),
        r@ == "/dev/pts/"@ + digits(number as nat),
{
    cat("/dev/pts/", decimal(number as u64).as_str())
}

// ---------------------------------------------------------------------------
// Laws
// ---------------------------------------------------------------------------

/// What the client types goes to the terminal as it is; nothing of a message without data.
pub proof fn law_input_goes_to_the_terminal(text: Seq<char>, a: TerminalAction)
    requires
        action_for(a, message_fields(text)),
        json_text(text, "type"@) == Some("input"@),
    ensures
        a is Input,
        json_text(text, "data"@) matches Some(d) ==> a->Input_0@ == encode_utf8(d) && decode_utf8(
            a->Input_0@,
        ) == d,
        json_text(text, "data"@) is None ==> a->Input_0@.len() == 0,
{
    if let Some(d) = json_text(text, "data"@) {
        encode_utf8_decode_utf8(d);
    }
    reveal_with_fuel(encode_utf8, 1);
}

/// A terminal gets the rows and the columns that the client asks for, as far as they fit; where one is
/// missing or zero, 24 rows and 80 columns.
pub proof fn law_size_is_the_one_asked_for(text: Seq<char>, a: TerminalAction)
    requires
        action_for(a, message_fields(text)),
        json_text(text, "type"@) == Some("resize"@),
    ensures
        a is Resize,
        json_number(text, "rows"@) matches Some(n) ==> (0 < n <= 0xffff ==> a->rows == n),
        json_number(text, "rows"@) matches Some(n) ==> (n == 0 ==> a->rows == 24),
        json_number(text, "rows"@) is None ==> a->rows == 24,
        json_number(text, "cols"@) matches Some(n) ==> (0 < n <= 0xffff ==> a->cols == n),
        json_number(text, "cols"@) matches Some(n) ==> (n == 0 ==> a->cols == 80),
        json_number(text, "cols"@) is None ==> a->cols == 80,
{
    reveal_strlit("input");
    reveal_strlit("resize");
    assert("input"@.len() != "resize"@.len());
}

/// A number of rows or columns goes round after 16 bits.
pub proof fn law_sizes_go_round(n: u64, usual: u16)
    requires
        n <= u64::MAX - 65536,
    ensures
        extent(Some((n + 65536) as u64), usual) == extent(Some(n), usual),
{
    assert((n + 65536) % 65536 == n % 65536);
}

/// A message that neither types nor resizes is ignored.
pub proof fn law_other_messages_are_ignored(text: Seq<char>, a: TerminalAction)
    requires
        action_for(a, message_fields(text)),
        json_text(text, "type"@) != Some("input"@),
        json_text(text, "type"@) != Some("resize"@),
    ensures
        a is Ignore,
{
}

/// A message says its type, and its data before that if it has some.
pub proof fn law_messages_say_their_type(kind: Seq<char>, data: Seq<char>)
    ensures
        message_text(kind, None) == "{\"type\":\""@ + kind + "\"}"@,
        message_text(kind, Some(data)) == "{\"data\":"@ + json_literal(data) + ",\"type\":\""@ + kind
            + "\"}"@,
{
    reveal_strlit("{\"type\":\"");
    reveal_strlit("{\"type\":");
    reveal_strlit(",\"type\":\"");
    reveal_strlit(",\"type\":");
    reveal_strlit("\"}");
    reveal_strlit("}");
    assert(message_text(kind, None) =~= "{\"type\":\""@ + kind + "\"}"@);
    assert(message_text(kind, Some(data)) =~= "{\"data\":"@ + json_literal(data) + ",\"type\":\""@ + kind
        + "\"}"@);
}

/// What is known of a failure stands at the end of what the client is told, and different failures are told
/// differently.
pub proof fn law_failures_are_told(reason: String)
    ensures
        reason@.is_suffix_of(failure_text(TerminalFailure::Name(reason))),
        reason@.is_suffix_of(failure_text(TerminalFailure::Start(reason))),
        failure_text(TerminalFailure::Name(reason)) != failure_text(TerminalFailure::Start(reason)),
        failure_text(TerminalFailure::Open) != failure_text(TerminalFailure::OpenOther),
{
    reveal_strlit("PTY slave error: ");
    reveal_strlit("Failed to start shell: ");
    reveal_strlit("Failed to open PTY");
    reveal_strlit("Failed to open PTY slave");
    let a = failure_text(TerminalFailure::Name(reason));
    let b = failure_text(TerminalFailure::Start(reason));
    assert(a.subrange(a.len() - reason@.len(), a.len() as int) =~= reason@);
    assert(b.subrange(b.len() - reason@.len(), b.len() as int) =~= reason@);
    assert(a[0] == 'P' && b[0] == 'F');
    assert("Failed to open PTY"@.len() == 18 && "Failed to open PTY slave"@.len() == 24);
}

/// A terminal ends at whatever is no text message.
pub proof fn law_terminal_ends(text: String)
    ensures
        goes_on(Frame::Text(text)),
        !goes_on(Frame::Binary),
        !goes_on(Frame::Ping),
        !goes_on(Frame::Close),
        !goes_on(Frame::Failed),
        !goes_on(Frame::End),
{
}

/// The other end of a terminal is named by its number.
pub proof fn law_other_end_is_numbered(n: u32)
    ensures
        "/dev/pts/"@.is_prefix_of(other_end(n)),
        number(other_end(n).skip(9)) == n,
{
    reveal_strlit("/dev/pts/");
    let p = "/dev/pts/"@;
    let s = other_end(n);
    assert(p.len() == 9);
    assert(s.subrange(0, 9) =~= p);
    assert(s.skip(9) =~= digits(n as nat));
    law_digits_write_their_number(n as nat);
}

/// A message is seen with all that it holds.
pub proof fn law_messages_are_seen(m: ClientMessage)
    ensures
        message_view(m).0 == opt_text(m.kind),
        message_view(m).1 == opt_text(m.data),
        message_view(m).2 == m.rows,
        message_view(m).3 == m.cols,
{
}

} // verus!
