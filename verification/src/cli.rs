//! The command line: which command the arguments stand for, and what a response prints.

use bytes::Bytes;
use vstd::prelude::*;
use vstd::utf8::{decode_utf8, encode_utf8, valid_utf8};

use crate::buffer::{as_slice, contents, from_slice};
use crate::command::parser::{Command, CommandView};
use crate::protocol::response::{info_view, stats_view, Response, ResponseView};
use crate::text::{
    chars_of, decimal, decimal_string, lowercase, lowered, parse_unsigned, push_decimal, same_text,
    unsigned_number,
};
use crate::time::Duration;

verus! {

/// The commands and their arguments.
pub const USAGE: &'static str = "usage: forgekv-cli <ping|set KEY VALUE|get KEY|del KEY|exists KEY|setex KEY TTL_SECONDS VALUE|ttl KEY|persist KEY|info|stats>";

/// The text of a refusal.
pub open spec fn usage_text(reason: Seq<char>) -> Seq<char> {
    reason + "\n"@ + USAGE@
}

/// The text of a refusal: the reason, and the usage below it.
pub fn usage(reason: &str) -> (text: String)
    ensures
        text@ == usage_text(reason@),
{
    let mut text: String = reason.to_owned();
    text.push_str("\n");
    text.push_str(USAGE);
    text
}

/// Arguments as texts.
pub open spec fn argument_texts(arguments: Seq<String>) -> Seq<Seq<char>> {
    arguments.map_values(|argument: String| argument@)
}

/// The command where there are as many arguments as it takes, its name included.
pub open spec fn with_count(
    arguments: Seq<Seq<char>>,
    expected: nat,
    command: CommandView,
) -> Result<CommandView, Seq<char>> {
    if arguments.len() == expected {
        Ok(command)
    } else {
        Err(usage_text("invalid number of arguments"@))
    }
}

/// The command of `setex`, which takes a key, a number of seconds and a value.
pub open spec fn setex_of(arguments: Seq<Seq<char>>) -> Result<CommandView, Seq<char>> {
    if arguments.len() != 4 {
        Err(usage_text("invalid number of arguments"@))
    } else {
        match unsigned_number(arguments[2]) {
            Some(seconds) if seconds <= u64::MAX => if seconds == 0 {
                Err(usage_text("SETEX ttl must be greater than zero"@))
            } else {
                Ok(
                    CommandView::SetEx {
                        key: encode_utf8(arguments[1]),
                        ttl: Duration { nanos: (seconds * 1_000_000_000) as u128 },
                        value: encode_utf8(arguments[3]),
                    },
                )
            },
            _ => Err(usage_text("SETEX ttl must be a positive integer in seconds"@)),
        }
    }
}

/// The command that arguments stand for, or the text of the refusal. The name of a command may be
/// written in any case.
pub open spec fn arguments_command(arguments: Seq<Seq<char>>) -> Result<CommandView, Seq<char>> {
    if arguments.len() == 0 {
        Err(usage_text("a command is required"@))
    } else {
        let name = lowered(arguments[0]);
        let key = encode_utf8(arguments[1]);
        if name == "ping"@ {
            with_count(arguments, 1, CommandView::Ping)
        } else if name == "set"@ {
            with_count(arguments, 3, CommandView::Put { key, value: encode_utf8(arguments[2]) })
        } else if name == "get"@ {
            with_count(arguments, 2, CommandView::Get { key })
        } else if name == "del"@ {
            with_count(arguments, 2, CommandView::Del { key })
        } else if name == "exists"@ {
            with_count(arguments, 2, CommandView::Exists { key })
        } else if name == "setex"@ {
            setex_of(arguments)
        } else if name == "ttl"@ {
            with_count(arguments, 2, CommandView::Ttl { key })
        } else if name == "persist"@ {
            with_count(arguments, 2, CommandView::Persist { key })
        } else if name == "info"@ {
            with_count(arguments, 1, CommandView::Info)
        } else if name == "stats"@ {
            with_count(arguments, 1, CommandView::Stats)
        } else {
            Err(usage_text("unknown command"@))
        }
    }
}

/// Whether a result is the command, or the text of the refusal, that is expected.
pub open spec fn parsed_as(
    parsed: Result<Command, String>,
    expected: Result<CommandView, Seq<char>>,
) -> bool {
    match (parsed, expected) {
        (Ok(command), Ok(view)) => command@ == view,
        (Err(text), Err(message)) => text@ == message,
        _ => false,
    }
}

fn text_bytes(text: &String) -> (buffer: Bytes)
    ensures
        contents(buffer) == encode_utf8(text@),
{
    from_slice(text.as_str().as_bytes())
}

fn exact(arguments: &[String], expected: usize) -> (checked: Result<(), String>)
    ensures
        match checked {
            Ok(_) => arguments@.len() == expected,
            Err(text) => arguments@.len() != expected && text@ == usage_text(
                "invalid number of arguments"@,
            ),
        },
{
    if arguments.len() == expected {
        Ok(())
    } else {
        Err(usage("invalid number of arguments"))
    }
}

fn parse_setex(arguments: &[String]) -> (command: Result<Command, String>)
    ensures
        parsed_as(command, setex_of(argument_texts(arguments@))),
{
    match exact(arguments, 4) {
        Ok(_) => {},
        Err(text) => return Err(text),
    }
    let ghost texts = argument_texts(arguments@);
    assert(texts[1] == arguments@[1]@ && texts[2] == arguments@[2]@ && texts[3]
        == arguments@[3]@);
    let digits: Vec<char> = chars_of(arguments[2].as_str());
    match parse_unsigned(digits.as_slice(), u64::MAX) {
        Some(seconds) => {
            if seconds == 0 {
                return Err(usage("SETEX ttl must be greater than zero"));
            }
            Ok(
                Command::SetEx {
                    key: text_bytes(&arguments[1]),
                    ttl: Duration::from_secs(seconds),
                    value: text_bytes(&arguments[3]),
                },
            )
        },
        None => Err(usage("SETEX ttl must be a positive integer in seconds")),
    }
}

fn key_argument(arguments: &[String]) -> (key: Result<Bytes, String>)
    ensures
        match key {
            Ok(key) => arguments@.len() == 2 && contents(key) == encode_utf8(
                argument_texts(arguments@)[1],
            ),
            Err(text) => arguments@.len() != 2 && text@ == usage_text(
                "invalid number of arguments"@,
            ),
        },
{
    match exact(arguments, 2) {
        Ok(_) => Ok(text_bytes(&arguments[1])),
        Err(text) => Err(text),
    }
}

/// Reads the command that arguments stand for.
pub fn parse_arguments(arguments: &[String]) -> (command: Result<Command, String>)
    ensures
        parsed_as(command, arguments_command(argument_texts(arguments@))),
{
    if arguments.len() == 0 {
        return Err(usage("a command is required"));
    }
    let name: String = lowercase(arguments[0].as_str());
    let name: &str = name.as_str();
    if same_text(name, "ping") {
        match exact(arguments, 1) {
            Ok(_) => Ok(Command::Ping),
            Err(text) => Err(text),
        }
    } else if same_text(name, "set") {
        match exact(arguments, 3) {
            Ok(_) => Ok(
                Command::Put { key: text_bytes(&arguments[1]), value: text_bytes(&arguments[2]) },
            ),
            Err(text) => Err(text),
        }
    } else if same_text(name, "get") {
        match key_argument(arguments) {
            Ok(key) => Ok(Command::Get { key }),
            Err(text) => Err(text),
        }
    } else if same_text(name, "del") {
        match key_argument(arguments) {
            Ok(key) => Ok(Command::Del { key }),
            Err(text) => Err(text),
        }
    } else if same_text(name, "exists") {
        match key_argument(arguments) {
            Ok(key) => Ok(Command::Exists { key }),
            Err(text) => Err(text),
        }
    } else if same_text(name, "setex") {
        parse_setex(arguments)
    } else if same_text(name, "ttl") {
        match key_argument(arguments) {
            Ok(key) => Ok(Command::Ttl { key }),
            Err(text) => Err(text),
        }
    } else if same_text(name, "persist") {
        match key_argument(arguments) {
            Ok(key) => Ok(Command::Persist { key }),
            Err(text) => Err(text),
        }
    } else if same_text(name, "info") {
        match exact(arguments, 1) {
            Ok(_) => Ok(Command::Info),
            Err(text) => Err(text),
        }
    } else if same_text(name, "stats") {
        match exact(arguments, 1) {
            Ok(_) => Ok(Command::Stats),
            Err(text) => Err(text),
        }
    } else {
        Err(usage("unknown command"))
    }
}

/// What `String::from_utf8_lossy` makes of bytes.
pub uninterp spec fn lossy(bytes: Seq<u8>) -> Seq<char>;

/// Calls `String::from_utf8_lossy`: bytes that are valid UTF-8 come back as the characters that
/// they encode. Of other bytes the result is only named.
#[verifier::external_body]
fn from_utf8_lossy(bytes: &[u8]) -> (text: String)
    ensures
        text@ == lossy(bytes@),
        valid_utf8(bytes@) ==> text@ == decode_utf8(bytes@),
{
    String::from_utf8_lossy(bytes).into_owned()
}

/// What a response prints.
#[derive(Debug)]
pub struct Printout {
    pub lines: Vec<String>,
    /// Whether the lines go to the error stream.
    pub error: bool,
}

/// A field as it is printed.
pub open spec fn field_line(name: Seq<char>, value: Seq<char>) -> Seq<char> {
    name + ": "@ + value
}

/// A signed number in decimal.
pub open spec fn signed_decimal(value: int) -> Seq<char> {
    if value < 0 {
        seq!['-'] + decimal((-value) as nat)
    } else {
        decimal(value as nat)
    }
}

/// The lines that a response prints, where `value` is the text of the value that it carries.
pub open spec fn printed_lines(response: ResponseView, value: Seq<char>) -> Seq<Seq<char>> {
    match response {
        ResponseView::Success => seq!["OK"@],
        ResponseView::NotFound => seq!["NOT_FOUND"@],
        ResponseView::InvalidRequest(message) => seq![field_line("INVALID_REQUEST"@, message)],
        ResponseView::ServerError(message) => seq![field_line("SERVER_ERROR"@, message)],
        ResponseView::Pong => seq!["PONG"@],
        ResponseView::Value(_) => seq![value],
        ResponseView::Integer(number) => seq![signed_decimal(number as int)],
        ResponseView::Info(fields) => fields.map_values(
            |field: (Seq<char>, Seq<char>)| field_line(field.0, field.1),
        ),
        ResponseView::Stats(fields) => fields.map_values(
            |field: (Seq<char>, u64)| field_line(field.0, decimal(field.1 as nat)),
        ),
        ResponseView::Redirect(address) => seq![field_line("REDIRECT"@, address)],
    }
}

/// Whether a response is printed to the error stream.
pub open spec fn printed_as_error(response: ResponseView) -> bool {
    response is InvalidRequest || response is ServerError || response is Redirect
}

/// The bytes of the value that a response carries. None where it carries none.
pub open spec fn carried_value(response: ResponseView) -> Seq<u8> {
    match response {
        ResponseView::Value(value) => value,
        _ => seq![],
    }
}

fn make_line(name: &str, value: &str) -> (line: String)
    ensures
        line@ == field_line(name@, value@),
{
    let mut line: String = name.to_owned();
    line.push_str(": ");
    line.push_str(value);
    line
}

fn signed_string(value: i64) -> (text: String)
    ensures
        text@ == signed_decimal(value as int),
{
    let mut text = String::new();
    if value < 0 {
        text.push('-');
        push_decimal(&mut text, (-(value as i128)) as u64);
        assert(text@ =~= signed_decimal(value as int));
    } else {
        push_decimal(&mut text, value as u64);
        assert(text@ =~= signed_decimal(value as int));
    }
    text
}

fn one_line(line: String) -> (lines: Vec<String>)
    ensures
        argument_texts(lines@) == seq![line@],
{
    let mut lines: Vec<String> = Vec::new();
    lines.push(line);
    assert(argument_texts(lines@) =~= seq![line@]);
    lines
}

fn info_lines(fields: &Vec<(String, String)>) -> (lines: Vec<String>)
    ensures
        argument_texts(lines@) == printed_lines(ResponseView::Info(info_view(fields@)), seq![]),
{
    let mut lines: Vec<String> = Vec::new();
    let mut index: usize = 0;
    while index < fields.len()
        invariant
            index == lines@.len() <= fields@.len(),
            forall|i: int|
                0 <= i < index ==> #[trigger] lines@[i]@ == field_line(
                    fields@[i].0@,
                    fields@[i].1@,
                ),
        decreases fields@.len() - index,
    {
        lines.push(make_line(fields[index].0.as_str(), fields[index].1.as_str()));
        index += 1;
    }
    assert(argument_texts(lines@) =~= printed_lines(
        ResponseView::Info(info_view(fields@)),
        seq![],
    ));
    lines
}

fn stats_lines(fields: &Vec<(String, u64)>) -> (lines: Vec<String>)
    ensures
        argument_texts(lines@) == printed_lines(ResponseView::Stats(stats_view(fields@)), seq![]),
{
    let mut lines: Vec<String> = Vec::new();
    let mut index: usize = 0;
    while index < fields.len()
        invariant
            index == lines@.len() <= fields@.len(),
            forall|i: int|
                0 <= i < index ==> #[trigger] lines@[i]@ == field_line(
                    fields@[i].0@,
                    decimal(fields@[i].1 as nat),
                ),
        decreases fields@.len() - index,
    {
        let number: String = decimal_string(fields[index].1);
        lines.push(make_line(fields[index].0.as_str(), number.as_str()));
        index += 1;
    }
    assert(argument_texts(lines@) =~= printed_lines(
        ResponseView::Stats(stats_view(fields@)),
        seq![],
    ));
    lines
}

/// Lays out what a response prints, where `value` is the text of the value that it carries.
pub fn lay_out(response: &Response, value: String) -> (printout: Printout)
    ensures
        argument_texts(printout.lines@) == printed_lines(response@, value@),
        printout.error == printed_as_error(response@),
{
    match response {
        Response::Success => Printout { lines: one_line("OK".to_owned()), error: false },
        Response::NotFound => Printout { lines: one_line("NOT_FOUND".to_owned()), error: false },
        Response::Pong => Printout { lines: one_line("PONG".to_owned()), error: false },
        Response::InvalidRequest(message) => Printout {
            lines: one_line(make_line("INVALID_REQUEST", message.as_str())),
            error: true,
        },
        Response::ServerError(message) => Printout {
            lines: one_line(make_line("SERVER_ERROR", message.as_str())),
            error: true,
        },
        Response::Redirect(address) => Printout {
            lines: one_line(make_line("REDIRECT", address.as_str())),
            error: true,
        },
        Response::Value(_) => Printout { lines: one_line(value), error: false },
        Response::Integer(number) => Printout {
            lines: one_line(signed_string(*number)),
            error: false,
        },
        Response::Info(fields) => Printout { lines: info_lines(fields), error: false },
        Response::Stats(fields) => Printout { lines: stats_lines(fields), error: false },
    }
}

/// Lays out what a response prints. A value that is not UTF-8 is printed with replacement
/// characters.
pub fn print_response(response: &Response) -> (printout: Printout)
    ensures
        argument_texts(printout.lines@) == printed_lines(
            response@,
            lossy(carried_value(response@)),
        ),
        valid_utf8(carried_value(response@)) ==> argument_texts(printout.lines@) == printed_lines(
            response@,
            decode_utf8(carried_value(response@)),
        ),
        printout.error == printed_as_error(response@),
{
    let empty: Vec<u8> = Vec::new();
    let carried: &[u8] = match response {
        Response::Value(value) => as_slice(value),
        _ => empty.as_slice(),
    };
    assert(carried@ =~= carried_value(response@));
    lay_out(response, from_utf8_lossy(carried))
}

/// The name of a command is taken in any case, and a command with as many arguments as it takes is
/// the command of that name, about the key and the value that follow. With more or fewer it is
/// refused.
pub proof fn law_arguments_name_their_command(arguments: Seq<Seq<char>>, name: Seq<char>)
    requires
        arguments.len() > 0,
        name == lowered(arguments[0]),
    ensures
        ({
            let parsed = arguments_command(arguments);
            let (key, second) = (encode_utf8(arguments[1]), encode_utf8(arguments[2]));
            let refused = Err::<CommandView, Seq<char>>(
                "invalid number of arguments"@ + "\n"@ + USAGE@,
            );
            let taken = |count: nat, command: CommandView|
                parsed == (if arguments.len() == count {
                    Ok::<CommandView, Seq<char>>(command)
                } else {
                    refused
                });
            &&& name == "ping"@ ==> taken(1, CommandView::Ping)
            &&& name == "info"@ ==> taken(1, CommandView::Info)
            &&& name == "stats"@ ==> taken(1, CommandView::Stats)
            &&& name == "get"@ ==> taken(2, CommandView::Get { key })
            &&& name == "del"@ ==> taken(2, CommandView::Del { key })
            &&& name == "exists"@ ==> taken(2, CommandView::Exists { key })
            &&& name == "ttl"@ ==> taken(2, CommandView::Ttl { key })
            &&& name == "persist"@ ==> taken(2, CommandView::Persist { key })
            &&& name == "set"@ ==> taken(3, CommandView::Put { key, value: second })
            &&& name == "setex"@ && arguments.len() != 4 ==> parsed == refused
        }),
{
    lemma_names_differ();
}

/// `setex` takes a number of seconds from one on, and a key and a value around it.
pub proof fn law_setex_takes_seconds(arguments: Seq<Seq<char>>, seconds: nat)
    requires
        arguments.len() == 4,
        lowered(arguments[0]) == "setex"@,
    ensures
        unsigned_number(arguments[2]) == Some(seconds) && 1 <= seconds <= u64::MAX
            ==> arguments_command(arguments) == Ok::<CommandView, Seq<char>>(
            (CommandView::SetEx {
                key: encode_utf8(arguments[1]),
                ttl: (Duration { nanos: (seconds * 1_000_000_000) as u128 }),
                value: encode_utf8(arguments[3]),
            }),
        ),
        unsigned_number(arguments[2]) == Some(0nat) ==> arguments_command(arguments) == Err::<
            CommandView,
            Seq<char>,
        >("SETEX ttl must be greater than zero"@ + "\n"@ + USAGE@),
        unsigned_number(arguments[2]) is None ==> arguments_command(arguments) == Err::<
            CommandView,
            Seq<char>,
        >("SETEX ttl must be a positive integer in seconds"@ + "\n"@ + USAGE@),
{
    lemma_names_differ();
}

/// Without a command, and for one that is not known, the usage is printed.
pub proof fn law_other_arguments_are_refused(arguments: Seq<Seq<char>>)
    ensures
        arguments.len() == 0 ==> arguments_command(arguments) == Err::<CommandView, Seq<char>>(
            "a command is required"@ + "\n"@ + USAGE@,
        ),
        arguments_command(arguments) is Ok ==> arguments.len() > 0 && {
            let name = lowered(arguments[0]);
            let command = arguments_command(arguments)->Ok_0;
            ||| name == "ping"@ && command is Ping
            ||| name == "set"@ && command is Put
            ||| name == "get"@ && command is Get
            ||| name == "del"@ && command is Del
            ||| name == "exists"@ && command is Exists
            ||| name == "setex"@ && command is SetEx
            ||| name == "ttl"@ && command is Ttl
            ||| name == "persist"@ && command is Persist
            ||| name == "info"@ && command is Info
            ||| name == "stats"@ && command is Stats
        },
{
}

proof fn lemma_names_differ()
    ensures
        "ping"@ != "set"@,
        "ping"@ != "get"@,
        "ping"@ != "del"@,
        "ping"@ != "exists"@,
        "ping"@ != "setex"@,
        "ping"@ != "ttl"@,
        "ping"@ != "persist"@,
        "ping"@ != "info"@,
        "ping"@ != "stats"@,
        "set"@ != "get"@,
        "set"@ != "del"@,
        "set"@ != "exists"@,
        "set"@ != "setex"@,
        "set"@ != "ttl"@,
        "set"@ != "persist"@,
        "set"@ != "info"@,
        "set"@ != "stats"@,
        "get"@ != "del"@,
        "get"@ != "exists"@,
        "get"@ != "setex"@,
        "get"@ != "ttl"@,
        "get"@ != "persist"@,
        "get"@ != "info"@,
        "get"@ != "stats"@,
        "del"@ != "exists"@,
        "del"@ != "setex"@,
        "del"@ != "ttl"@,
        "del"@ != "persist"@,
        "del"@ != "info"@,
        "del"@ != "stats"@,
        "exists"@ != "setex"@,
        "exists"@ != "ttl"@,
        "exists"@ != "persist"@,
        "exists"@ != "info"@,
        "exists"@ != "stats"@,
        "setex"@ != "ttl"@,
        "setex"@ != "persist"@,
        "setex"@ != "info"@,
        "setex"@ != "stats"@,
        "ttl"@ != "persist"@,
        "ttl"@ != "info"@,
        "ttl"@ != "stats"@,
        "persist"@ != "info"@,
        "persist"@ != "stats"@,
        "info"@ != "stats"@,
{
    reveal_strlit("ping");
    reveal_strlit("set");
    reveal_strlit("get");
    reveal_strlit("del");
    reveal_strlit("exists");
    reveal_strlit("setex");
    reveal_strlit("ttl");
    reveal_strlit("persist");
    reveal_strlit("info");
    reveal_strlit("stats");
    assert("ping"@.len() != "set"@.len());
    assert("ping"@.len() != "get"@.len());
    assert("ping"@.len() != "del"@.len());
    assert("ping"@.len() != "exists"@.len());
    assert("ping"@.len() != "setex"@.len());
    assert("ping"@.len() != "ttl"@.len());
    assert("ping"@.len() != "persist"@.len());
    assert("ping"@[0] != "info"@[0]);
    assert("ping"@.len() != "stats"@.len());
    assert("set"@[0] != "get"@[0]);
    assert("set"@[0] != "del"@[0]);
    assert("set"@.len() != "exists"@.len());
    assert("set"@.len() != "setex"@.len());
    assert("set"@[0] != "ttl"@[0]);
    assert("set"@.len() != "persist"@.len());
    assert("set"@.len() != "info"@.len());
    assert("set"@.len() != "stats"@.len());
    assert("get"@[0] != "del"@[0]);
    assert("get"@.len() != "exists"@.len());
    assert("get"@.len() != "setex"@.len());
    assert("get"@[0] != "ttl"@[0]);
    assert("get"@.len() != "persist"@.len());
    assert("get"@.len() != "info"@.len());
    assert("get"@.len() != "stats"@.len());
    assert("del"@.len() != "exists"@.len());
    assert("del"@.len() != "setex"@.len());
    assert("del"@[0] != "ttl"@[0]);
    assert("del"@.len() != "persist"@.len());
    assert("del"@.len() != "info"@.len());
    assert("del"@.len() != "stats"@.len());
    assert("exists"@.len() != "setex"@.len());
    assert("exists"@.len() != "ttl"@.len());
    assert("exists"@.len() != "persist"@.len());
    assert("exists"@.len() != "info"@.len());
    assert("exists"@.len() != "stats"@.len());
    assert("setex"@.len() != "ttl"@.len());
    assert("setex"@.len() != "persist"@.len());
    assert("setex"@.len() != "info"@.len());
    assert("setex"@[1] != "stats"@[1]);
    assert("ttl"@.len() != "persist"@.len());
    assert("ttl"@.len() != "info"@.len());
    assert("ttl"@.len() != "stats"@.len());
    assert("persist"@.len() != "info"@.len());
    assert("persist"@.len() != "stats"@.len());
    assert("info"@.len() != "stats"@.len());
}

/// What each response prints, and where: refusals, errors and redirects go to the error stream,
/// everything else to the output. Fields are printed one to a line, numbers in base ten.
pub proof fn law_responses_are_printed(
    text: Seq<char>,
    value: Seq<u8>,
    number: i64,
    fields: Seq<(Seq<char>, Seq<char>)>,
    counters: Seq<(Seq<char>, u64)>,
    i: int,
)
    ensures
        printed_lines(ResponseView::Success, text) == seq!["OK"@],
        printed_lines(ResponseView::NotFound, text) == seq!["NOT_FOUND"@],
        printed_lines(ResponseView::Pong, text) == seq!["PONG"@],
        printed_lines(ResponseView::Value(value), text) == seq![text],
        carried_value(ResponseView::Value(value)) == value,
        number >= 0 ==> printed_lines(ResponseView::Integer(number), text) == seq![
            decimal(number as nat),
        ],
        number < 0 ==> printed_lines(ResponseView::Integer(number), text) == seq![
            seq!['-'] + decimal((-number) as nat),
        ],
        printed_lines(ResponseView::InvalidRequest(text), text) == seq![
            "INVALID_REQUEST"@ + ": "@ + text,
        ],
        printed_lines(ResponseView::ServerError(text), text) == seq![
            "SERVER_ERROR"@ + ": "@ + text,
        ],
        printed_lines(ResponseView::Redirect(text), text) == seq!["REDIRECT"@ + ": "@ + text],
        printed_lines(ResponseView::Info(fields), text).len() == fields.len(),
        0 <= i < fields.len() ==> printed_lines(ResponseView::Info(fields), text)[i] == fields[i].0
            + ": "@ + fields[i].1,
        printed_lines(ResponseView::Stats(counters), text).len() == counters.len(),
        0 <= i < counters.len() ==> printed_lines(ResponseView::Stats(counters), text)[i]
            == counters[i].0 + ": "@ + decimal(counters[i].1 as nat),
        printed_as_error(ResponseView::InvalidRequest(text)),
        printed_as_error(ResponseView::ServerError(text)),
        printed_as_error(ResponseView::Redirect(text)),
        !printed_as_error(ResponseView::Success) && !printed_as_error(ResponseView::NotFound)
            && !printed_as_error(ResponseView::Pong) && !printed_as_error(
            ResponseView::Value(value),
        ) && !printed_as_error(ResponseView::Integer(number)) && !printed_as_error(
            ResponseView::Info(fields),
        ) && !printed_as_error(ResponseView::Stats(counters)),
{
}

} // verus!
