//! `herdr control`: a control stream on stdio.
//!
//! Opens one control stream on the socket API and copies newline-delimited
//! JSON between it and stdio, so a remote client can drive Herdr over an
//! SSH exec channel without a PTY.

use vstd::prelude::*;
use vstd::string::*;

use crate::outside::trim_text;
use crate::schema::ControlClientInfo;
use crate::stream::request::open_failed;
use crate::text::same_text;

verus! {

/// How long, in nanoseconds, a server may take to come up.
pub const SERVER_START_TIMEOUT: u64 = 5_000_000_000;

/// How long, in nanoseconds, to wait between looks for the server's socket.
pub const SERVER_POLL_INTERVAL: u64 = 50_000_000;

/// What the command does.
#[derive(Debug)]
pub enum ControlCommand {
    /// Bridge a control stream to stdio.
    Bridge,
    /// Print the help.
    Help,
    /// Complain about an option.
    Unknown { option: String },
}

/// Whether an argument asks for help.
pub open spec fn asks_for_help(argument: Seq<char>) -> bool {
    argument == "help"@ || argument == "--help"@ || argument == "-h"@
}

/// Decides what the command does, by its first argument.
pub fn control_command(args: &Vec<String>) -> (command: ControlCommand)
    ensures
        if args@.len() == 0 {
            command is Bridge
        } else if asks_for_help(args@[0]@) {
            command is Help
        } else {
            command matches ControlCommand::Unknown { option } && option@ == args@[0]@
        },
{
    if args.len() == 0 {
        return ControlCommand::Bridge;
    }
    let first = args[0].as_str();
    if same_text(first, "help") || same_text(first, "--help") || same_text(first, "-h") {
        return ControlCommand::Help;
    }
    ControlCommand::Unknown { option: args[0].clone() }
}

/// The exit status of a command that bridges nothing.
pub fn exit_status(command: &ControlCommand) -> (status: Option<i32>)
    ensures
        status == (match command {
            ControlCommand::Bridge => None::<i32>,
            ControlCommand::Help => Some(0i32),
            ControlCommand::Unknown { option } => Some(2i32),
        }),
{
    match command {
        ControlCommand::Bridge => None,
        ControlCommand::Help => Some(0),
        ControlCommand::Unknown { .. } => Some(2),
    }
}

/// The exit status after the server answered `control.open`, if the bridge
/// ends there.
pub fn opened_status(opened: &str) -> (status: Option<i32>)
    ensures
        status == (if crate::stream::request::failed_by_member(
            crate::outside::json_member(crate::outside::trimmed(opened@), "error"@),
        ) {
            Some(1i32)
        } else {
            None::<i32>
        }),
{
    if open_failed(trim_text(opened)) {
        Some(1)
    } else {
        None
    }
}

/// The number that decimal digits stand for.
pub open spec fn digits_value(digits: Seq<char>) -> nat
    decreases digits.len(),
{
    if digits.len() == 0 {
        0
    } else {
        digits_value(digits.drop_last()) * 10 + (digits.last() as int - '0' as int) as nat
    }
}

/// Whether a character is a decimal digit.
pub open spec fn is_digit(c: char) -> bool {
    '0' <= c <= '9'
}

/// Digits behind an optional plus sign.
pub open spec fn unsigned_digits(text: Seq<char>) -> Seq<char> {
    if text.len() > 0 && text[0] == '+' {
        text.skip(1)
    } else {
        text
    }
}

/// The number that a text stands for: digits, at least one, behind an optional
/// plus sign, as far as the number fits.
pub open spec fn parsed_u32(text: Seq<char>) -> Option<u32> {
    let digits = unsigned_digits(text);
    if digits.len() > 0 && (forall|i: int| 0 <= i < digits.len() ==> is_digit(#[trigger] digits[i]))
        && digits_value(digits) <= u32::MAX {
        Some(digits_value(digits) as u32)
    } else {
        None
    }
}

proof fn lemma_digits_value_grows(digits: Seq<char>, n: int)
    requires
        0 <= n <= digits.len(),
    ensures
        digits_value(digits.take(n)) <= digits_value(digits),
    decreases digits.len() - n,
{
    if n < digits.len() {
        assert(digits.take(n + 1).drop_last() =~= digits.take(n));
        lemma_digits_value_grows(digits, n + 1);
    } else {
        assert(digits.take(n) =~= digits);
    }
}

/// Reads a number.
fn parse_u32(text: &str) -> (number: Option<u32>)
    ensures
        number == parsed_u32(text@),
{
    let len: usize = text.unicode_len();
    let start: usize = if len > 0 && text.get_char(0) == '+' {
        1
    } else {
        0
    };
    let ghost digits = unsigned_digits(text@);
    if start >= len {
        return None;
    }
    let mut value: u64 = 0;
    let mut i: usize = start;
    assert(digits.take(0) =~= Seq::empty());
    while i < len
        invariant
            len == text@.len(),
            start <= i <= len,
            start <= 1,
            digits == unsigned_digits(text@),
            digits.len() == len - start,
            forall|k: int| 0 <= k < digits.len() ==> #[trigger] digits[k] == text@[k + start],
            forall|k: int| 0 <= k < i - start ==> is_digit(#[trigger] digits[k]),
            value == digits_value(digits.take(i - start)),
            value <= u32::MAX,
        decreases len - i,
    {
        let c: char = text.get_char(i);
        let ghost n = i - start;
        assert(digits[n] == c);
        let digit: u64 = match c {
            '0' => 0,
            '1' => 1,
            '2' => 2,
            '3' => 3,
            '4' => 4,
            '5' => 5,
            '6' => 6,
            '7' => 7,
            '8' => 8,
            '9' => 9,
            _ => {
                assert(!is_digit(digits[n]));
                return None;
            },
        };
        value = value * 10 + digit;
        proof {
            assert(digits.take(n + 1).drop_last() =~= digits.take(n));
            assert(digits.take(n + 1).last() == c);
            lemma_digits_value_grows(digits, n + 1);
        }
        if value > u32::MAX as u64 {
            return None;
        }
        i += 1;
    }
    assert(digits.take(digits.len() as int) =~= digits);
    Some(value as u32)
}

/// The part of a label in front of its first slash.
pub open spec fn label_name(label: Seq<char>) -> Seq<char> {
    match crate::find::first_index(label, |c: char| c == '/') {
        Some(i) => label.take(i),
        None => label,
    }
}

/// The part of a label behind its first slash.
pub open spec fn label_version(label: Seq<char>) -> Seq<char> {
    match crate::find::first_index(label, |c: char| c == '/') {
        Some(i) => label.skip(i + 1),
        None => Seq::empty(),
    }
}

/// Takes a label apart at its first slash.
fn split_label(label: &str) -> (parts: (String, String))
    ensures
        parts.0@ == label_name(label@),
        parts.1@ == label_version(label@),
{
    let ghost slash = |c: char| c == '/';
    let len: usize = label.unicode_len();
    let mut i: usize = 0;
    while i < len
        invariant
            len == label@.len(),
            0 <= i <= len,
            slash == (|c: char| c == '/'),
            forall|k: int| 0 <= k < i ==> !slash(#[trigger] label@[k]),
        decreases len - i,
    {
        if label.get_char(i) == '/' {
            proof {
                crate::find::lemma_first_index(label@, slash);
                assert(slash(label@[i as int]));
            }
            let name = label.substring_char(0, i).to_owned();
            let version = label.substring_char(i + 1, len).to_owned();
            proof {
                assert(name@ =~= label@.take(i as int));
                assert(version@ =~= label@.skip(i + 1));
            }
            return (name, version);
        }
        i += 1;
    }
    proof {
        crate::find::lemma_first_index(label@, slash);
    }
    (label.to_owned(), String::new())
}

/// The label that an environment gives: one that is not blank, without the
/// whitespace around it.
pub open spec fn given_label(label: Option<Seq<char>>) -> Option<Seq<char>> {
    match label {
        Some(label) => if crate::outside::trimmed(label).len() > 0 {
            Some(crate::outside::trimmed(label))
        } else {
            None
        },
        None => None,
    }
}

/// The protocol that an environment gives: a number, whitespace around it
/// aside.
pub open spec fn given_protocol(protocol: Option<Seq<char>>) -> Option<u32> {
    match protocol {
        Some(text) => parsed_u32(crate::outside::trimmed(text)),
        None => None,
    }
}

/// The identity that an environment gives a client: none when it names neither
/// label nor protocol, so a client that predates both keeps the protocol 1
/// contract.
pub open spec fn given_client(
    protocol: Option<Seq<char>>,
    label: Option<Seq<char>>,
    build_version: Seq<char>,
) -> Option<crate::schema::ClientModel> {
    if given_protocol(protocol) is None && given_label(label) is None {
        None
    } else {
        Some(
            crate::schema::ClientModel {
                name: match given_label(label) {
                    Some(label) => label_name(label),
                    None => "herdr-control"@,
                },
                version: match given_label(label) {
                    Some(label) => label_version(label),
                    None => build_version,
                },
                protocol: match given_protocol(protocol) {
                    Some(protocol) => protocol,
                    None => 1,
                },
            },
        )
    }
}

/// Identity from the environment, so a remote client can name itself
/// without flags an older `herdr control` would reject. `protocol` and
/// `label` are what `HERDR_CONTROL_PROTOCOL` and `HERDR_CONTROL_CLIENT` hold.
pub fn client_info_from_env(
    protocol: Option<String>,
    label: Option<String>,
    build_version: String,
) -> (client: Option<ControlClientInfo>)
    ensures
        crate::schema::client_view(client) == given_client(
            crate::text::optional_text(protocol),
            crate::text::optional_text(label),
            build_version@,
        ),
{
    let protocol: Option<u32> = match protocol {
        Some(text) => parse_u32(trim_text(text.as_str())),
        None => None,
    };
    let label: Option<(String, String)> = match label {
        Some(label) => {
            let given = trim_text(label.as_str());
            if given.unicode_len() > 0 {
                Some(split_label(given))
            } else {
                None
            }
        },
        None => None,
    };
    if protocol.is_none() && label.is_none() {
        return None;
    }
    let (name, version): (String, String) = match label {
        Some(parts) => parts,
        None => ("herdr-control".to_owned(), build_version),
    };
    Some(
        ControlClientInfo {
            name,
            version,
            protocol: match protocol {
                Some(protocol) => protocol,
                None => 1,
            },
        },
    )
}

/// How a read ended.
#[derive(Debug, Clone, Copy, PartialEq, Eq, Structural)]
pub enum ReadEvent {
    /// Nothing more will come.
    End,
    Data,
    Interrupted,
    /// The other end closed the connection.
    Disconnected,
    Failed,
}

/// What a copying direction does after a read.
#[derive(Debug, Clone, Copy, PartialEq, Eq, Structural)]
pub enum CopyStep {
    /// Hand the data on.
    Forward,
    /// Read again.
    Again,
    /// Stop: the direction is done.
    Finish,
    /// Stop with the error.
    Fail,
}

/// What the direction from stdin to the stream does after a read.
pub fn upload_step(event: ReadEvent) -> (step: CopyStep)
    ensures
        step == (match event {
            ReadEvent::End => CopyStep::Finish,
            ReadEvent::Data => CopyStep::Forward,
            ReadEvent::Interrupted => CopyStep::Again,
            ReadEvent::Disconnected | ReadEvent::Failed => CopyStep::Fail,
        }),
{
    match event {
        ReadEvent::End => CopyStep::Finish,
        ReadEvent::Data => CopyStep::Forward,
        ReadEvent::Interrupted => CopyStep::Again,
        ReadEvent::Disconnected | ReadEvent::Failed => CopyStep::Fail,
    }
}

/// What the direction from the stream to stdout does after a read: a server
/// that closed the stream is no error.
pub fn download_step(event: ReadEvent) -> (step: CopyStep)
    ensures
        step == (match event {
            ReadEvent::End | ReadEvent::Disconnected => CopyStep::Finish,
            ReadEvent::Data => CopyStep::Forward,
            ReadEvent::Interrupted => CopyStep::Again,
            ReadEvent::Failed => CopyStep::Fail,
        }),
{
    match event {
        ReadEvent::End | ReadEvent::Disconnected => CopyStep::Finish,
        ReadEvent::Data => CopyStep::Forward,
        ReadEvent::Interrupted => CopyStep::Again,
        ReadEvent::Failed => CopyStep::Fail,
    }
}

/// The line that asks the server to close the stream once stdin ended, so the
/// other direction sees the end promptly.
pub open spec fn close_request() -> Seq<char> {
    "{\"id\":\"control:close\",\"method\":\"control.close\",\"params\":{}}\n"@
}

/// The line that asks the server to close the stream.
pub fn close_request_line() -> (line: &'static str)
    ensures
        line@ == close_request(),
{
    "{\"id\":\"control:close\",\"method\":\"control.close\",\"params\":{}}\n"
}

/// What waiting for a started server's socket comes to.
#[derive(Debug, Clone, Copy, PartialEq, Eq, Structural)]
pub enum AwaitStep {
    Ready,
    /// Look again after that many nanoseconds.
    Sleep { nanoseconds: u64 },
    /// The server started but its socket did not appear.
    TimedOut,
}

/// Decides what waiting for a started server's socket comes to.
pub fn await_socket(now: u64, deadline: u64, present: bool) -> (step: AwaitStep)
    ensures
        step == (if now >= deadline {
            AwaitStep::TimedOut
        } else if present {
            AwaitStep::Ready
        } else {
            AwaitStep::Sleep { nanoseconds: SERVER_POLL_INTERVAL }
        }),
{
    if now >= deadline {
        AwaitStep::TimedOut
    } else if present {
        AwaitStep::Ready
    } else {
        AwaitStep::Sleep { nanoseconds: SERVER_POLL_INTERVAL }
    }
}

/// A client whose environment names neither label nor protocol declares no
/// identity, and so speaks protocol 1.
pub proof fn unnamed_clients_keep_protocol_1(build_version: Seq<char>)
    ensures
        given_client(None, None, build_version) is None,
        crate::headless::requests::negotiated(given_client(None, None, build_version)) == 1,
{
}

} // verus!
