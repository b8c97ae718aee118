//! What holds of the command that bridges a control stream to stdio.

use vstd::prelude::*;

use crate::cli::{
    await_socket, control_command, download_step, exit_status, upload_step, AwaitStep,
    ControlCommand, CopyStep, ReadEvent,
};

verus! {

/// The number that some decimal digits stand for is written with them.
proof fn lemma_decimal_value(n: nat)
    ensures
        crate::cli::digits_value(crate::text::decimal(n)) == n,
        crate::text::decimal(n).len() > 0,
        forall|i: int|
            0 <= i < crate::text::decimal(n).len() ==> crate::cli::is_digit(
                #[trigger] crate::text::decimal(n)[i],
            ),
    decreases n,
{
    let digits = crate::text::decimal(n);
    reveal_with_fuel(crate::cli::digits_value, 2);
    if n >= 10 {
        lemma_decimal_value(n / 10);
        assert(digits.drop_last() =~= crate::text::decimal(n / 10));
        assert(n == (n / 10) * 10 + n % 10);
    } else {
        assert(digits.drop_last() =~= Seq::<char>::empty());
    }
}

/// A number written in decimal is read as that number, with or without a plus
/// sign, as long as it fits.
pub proof fn numbers_are_read_as_written(n: u32, text: Seq<char>)
    requires
        text == crate::text::decimal(n as nat) || text == seq!['+'] + crate::text::decimal(
            n as nat,
        ),
    ensures
        crate::cli::parsed_u32(text) == Some(n),
{
    let digits = crate::text::decimal(n as nat);
    lemma_decimal_value(n as nat);
    assert(crate::cli::is_digit(digits[0]));
    assert(crate::cli::unsigned_digits(text) =~= digits);
}

/// A text without a digit, or with anything but digits behind its plus sign, is
/// no number, and neither is one that does not fit.
pub proof fn other_texts_are_no_numbers(text: Seq<char>, i: int, n: nat)
    requires
        text.len() == 0 || text == seq!['+'] || (0 <= i < text.len() && !('0' <= text[i] <= '9')
            && !(i == 0 && text[i] == '+')) || (n > u32::MAX && text == crate::text::decimal(n)),
    ensures
        crate::cli::parsed_u32(text) is None,
{
    let digits = crate::cli::unsigned_digits(text);
    if text == seq!['+'] {
        assert(digits =~= Seq::<char>::empty());
    } else if text.len() > 0 && 0 <= i < text.len() && !('0' <= text[i] <= '9') && !(i == 0
        && text[i] == '+') {
        if text[0] == '+' {
            assert(digits[i - 1] == text[i]);
            assert(!crate::cli::is_digit(digits[i - 1]));
        } else {
            assert(digits[i] == text[i]);
            assert(!crate::cli::is_digit(digits[i]));
        }
    } else if text.len() > 0 {
        lemma_decimal_value(n);
        assert(crate::cli::is_digit(text[0]));
        assert(digits == text);
    }
}

/// A label is its name, and behind the first slash its version.
pub proof fn labels_are_a_name_and_a_version(name: Seq<char>, version: Seq<char>)
    requires
        forall|i: int| 0 <= i < name.len() ==> #[trigger] name[i] != '/',
    ensures
        crate::cli::label_name(name + seq!['/'] + version) == name,
        crate::cli::label_version(name + seq!['/'] + version) == version,
        crate::cli::label_name(name) == name,
        crate::cli::label_version(name).len() == 0,
{
    let label = name + seq!['/'] + version;
    let slash = |c: char| c == '/';
    crate::find::lemma_first_index(label, slash);
    crate::find::lemma_first_index(name, slash);
    assert(slash(label[name.len() as int]));
    let at = crate::find::first_index(label, slash)->Some_0;
    if at < name.len() {
        assert(label[at] == name[at]);
    }
    assert(at == name.len()) by {
        if at > name.len() {
            assert(!slash(label[name.len() as int]));
        }
    }
    assert(label.take(at) =~= name);
    assert(label.skip(at + 1) =~= version);
}

/// A client that the environment gives a label is called by it. One that it gives
/// only a protocol is this program, as built. One that it gives only a label
/// speaks protocol 1.
pub proof fn clients_are_who_the_environment_says(
    protocol: Option<Seq<char>>,
    label: Option<Seq<char>>,
    build_version: Seq<char>,
)
    ensures
        ({
            let client = crate::cli::given_client(protocol, label, build_version);
            let labelled = label is Some && crate::outside::trimmed(label->Some_0).len() > 0;
            let number = crate::cli::parsed_u32(crate::outside::trimmed(protocol->Some_0));
            let numbered = protocol is Some && number is Some;
            &&& client is Some <==> labelled || numbered
            &&& labelled ==> {
                let text = crate::outside::trimmed(label->Some_0);
                &&& client->Some_0.name == crate::cli::label_name(text)
                &&& client->Some_0.version == crate::cli::label_version(text)
            }
            &&& numbered && !labelled ==> client->Some_0.name == "herdr-control"@
                && client->Some_0.version == build_version
            &&& numbered ==> client->Some_0.protocol == number->Some_0
            &&& labelled && !numbered ==> client->Some_0.protocol == 1
        }),
{
}

/// Without arguments the command bridges. It knows no option but those that ask
/// for help, and exits with 0 for them and with 2 for any other.
pub proof fn the_command_takes_no_options(
    args: Vec<String>,
    command: ControlCommand,
    status: Option<i32>,
)
    requires
        call_ensures(control_command, (&args,), command),
        call_ensures(exit_status, (&command,), status),
    ensures
        args@.len() == 0 ==> command is Bridge && status is None,
        args@.len() > 0 && (args@[0]@ == "help"@ || args@[0]@ == "--help"@ || args@[0]@ == "-h"@)
            ==> command is Help && status == Some(0i32),
        args@.len() > 0 && !(args@[0]@ == "help"@ || args@[0]@ == "--help"@ || args@[0]@
            == "-h"@) ==> command is Unknown && command->option@ == args@[0]@ && status == Some(
            2i32,
        ),
{
}

/// Each direction forwards what it reads, goes on after an interruption, is done
/// at the end and fails with a failure. A stream that the server closed is the
/// end of what comes from it, and a failure of what goes to it.
pub proof fn both_directions_copy_to_the_end(event: ReadEvent, up: CopyStep, down: CopyStep)
    requires
        call_ensures(upload_step, (event,), up),
        call_ensures(download_step, (event,), down),
    ensures
        event == ReadEvent::Data ==> up == CopyStep::Forward && down == CopyStep::Forward,
        event == ReadEvent::Interrupted ==> up == CopyStep::Again && down == CopyStep::Again,
        event == ReadEvent::End ==> up == CopyStep::Finish && down == CopyStep::Finish,
        event == ReadEvent::Failed ==> up == CopyStep::Fail && down == CopyStep::Fail,
        event == ReadEvent::Disconnected ==> up == CopyStep::Fail && down == CopyStep::Finish,
{
}

/// Waiting for a socket ends at the deadline, or before it when the socket is
/// there; until then it is looked for every twentieth of a second.
pub proof fn waiting_ends_at_the_deadline(
    now: u64,
    deadline: u64,
    present: bool,
    step: AwaitStep,
)
    requires
        call_ensures(await_socket, (now, deadline, present), step),
    ensures
        step == AwaitStep::TimedOut <==> now >= deadline,
        step == AwaitStep::Ready <==> now < deadline && present,
        now < deadline && !present ==> step == (AwaitStep::Sleep { nanoseconds: 50_000_000 }),
{
}

} // verus!
