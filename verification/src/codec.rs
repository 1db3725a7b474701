//! The command codec: one line of text in, one typed command out.
//!
//! The grammar has three forms, told apart by a case-sensitive keyword:
//!
//! ```text
//! SUBSCRIBE <channel>
//! UNSUBSCRIBE <channel>
//! PUBLISH <channel> <message...>
//! ```
//!
//! A channel is a non-empty run of characters without a space. The message of
//! a `PUBLISH` is everything after the space that ends the channel, spaces
//! included. Any other line is rejected. The codec holds no state.

use crate::error::PubSubError;
use vstd::prelude::*;

verus! {

/// A decoded command, owning its strings.
#[allow(non_camel_case_types)]
#[derive(Debug, PartialEq, Eq)]
pub enum PubSubMessage {
    SUBSCRIBE { channel: String },
    UNSUBSCRIBE { channel: String },
    PUBLISH { channel: String, msg: String },
}

/// What a command says, as mathematical text.
pub enum Command {
    Subscribe { channel: Seq<char> },
    Unsubscribe { channel: Seq<char> },
    Publish { channel: Seq<char>, msg: Seq<char> },
}

impl View for PubSubMessage {
    type V = Command;

    open spec fn view(&self) -> Command {
        match self {
            PubSubMessage::SUBSCRIBE { channel } => Command::Subscribe { channel: channel@ },
            PubSubMessage::UNSUBSCRIBE { channel } => Command::Unsubscribe { channel: channel@ },
            PubSubMessage::PUBLISH { channel, msg } => Command::Publish {
                channel: channel@,
                msg: msg@,
            },
        }
    }
}

impl Command {
    /// The channel that the command names.
    pub open spec fn channel(self) -> Seq<char> {
        match self {
            Command::Subscribe { channel } => channel,
            Command::Unsubscribe { channel } => channel,
            Command::Publish { channel, .. } => channel,
        }
    }
}

/// No character of `text` is a space.
pub open spec fn spaceless(text: Seq<char>) -> bool {
    forall|i: int| 0 <= i < text.len() ==> text[i] != ' '
}

/// A channel name as it can appear on the wire: not empty, and no space in it.
pub open spec fn is_channel_name(text: Seq<char>) -> bool {
    text.len() > 0 && spaceless(text)
}

/// `at` is the position of the first space in `text`.
pub open spec fn is_first_space(text: Seq<char>, at: int) -> bool {
    &&& 0 <= at < text.len()
    &&& text[at] == ' '
    &&& spaceless(text.take(at))
}

/// The position of the first space in `text`, where it has one.
pub open spec fn first_space(text: Seq<char>) -> int {
    choose|at: int| is_first_space(text, at)
}

/// The command that `line` encodes, or `None` where it encodes none.
pub open spec fn command_of(line: Seq<char>) -> Option<Command> {
    if "SUBSCRIBE "@.is_prefix_of(line) {
        let channel = line.skip("SUBSCRIBE "@.len() as int);
        if is_channel_name(channel) {
            Some(Command::Subscribe { channel })
        } else {
            None
        }
    } else if "UNSUBSCRIBE "@.is_prefix_of(line) {
        let channel = line.skip("UNSUBSCRIBE "@.len() as int);
        if is_channel_name(channel) {
            Some(Command::Unsubscribe { channel })
        } else {
            None
        }
    } else if "PUBLISH "@.is_prefix_of(line) {
        let rest = line.skip("PUBLISH "@.len() as int);
        let at = first_space(rest);
        if is_first_space(rest, at) && at > 0 {
            Some(Command::Publish { channel: rest.take(at), msg: rest.skip(at + 1) })
        } else {
            None
        }
    } else {
        None
    }
}

/// The line that encodes `command`.
pub open spec fn wire_form(command: Command) -> Seq<char> {
    match command {
        Command::Subscribe { channel } => "SUBSCRIBE "@ + channel,
        Command::Unsubscribe { channel } => "UNSUBSCRIBE "@ + channel,
        Command::Publish { channel, msg } => "PUBLISH "@ + channel + " "@ + msg,
    }
}

/// A text has at most one first space.
pub proof fn lemma_first_space_unique(text: Seq<char>, a: int, b: int)
    requires
        is_first_space(text, a),
        is_first_space(text, b),
    ensures
        a == b,
{
    if a < b {
        assert(text.take(b)[a] == text[a]);
    } else if b < a {
        assert(text.take(a)[b] == text[b]);
    }
}

/// Decoding undoes encoding: every command whose channel is a channel name
/// is read back from its wire form, whatever its message holds.
pub proof fn lemma_decode_wire_form(command: Command)
    requires
        is_channel_name(command.channel()),
    ensures
        command_of(wire_form(command)) == Some(command),
{
    reveal_strlit("SUBSCRIBE ");
    reveal_strlit("UNSUBSCRIBE ");
    reveal_strlit("PUBLISH ");
    reveal_strlit(" ");
    let line = wire_form(command);
    match command {
        Command::Subscribe { channel } => {
            assert("SUBSCRIBE "@.is_prefix_of(line));
            assert(line.skip(10) =~= channel);
        },
        Command::Unsubscribe { channel } => {
            assert(line[0] == 'U');
            assert(!"SUBSCRIBE "@.is_prefix_of(line)) by {
                if "SUBSCRIBE "@.is_prefix_of(line) {
                    assert(line.subrange(0, 10)[0] == 'S');
                }
            }
            assert("UNSUBSCRIBE "@.is_prefix_of(line));
            assert(line.skip(12) =~= channel);
        },
        Command::Publish { channel, msg } => {
            assert(line[0] == 'P');
            assert(!"SUBSCRIBE "@.is_prefix_of(line)) by {
                if "SUBSCRIBE "@.is_prefix_of(line) {
                    assert(line.subrange(0, 10)[0] == 'S');
                }
            }
            assert(!"UNSUBSCRIBE "@.is_prefix_of(line)) by {
                if "UNSUBSCRIBE "@.is_prefix_of(line) {
                    assert(line.subrange(0, 12)[0] == 'U');
                }
            }
            assert("PUBLISH "@.is_prefix_of(line));
            let rest = line.skip(8);
            let at: int = channel.len() as int;
            assert(rest =~= channel + " "@ + msg);
            assert(rest.take(at) =~= channel);
            assert(rest.skip(at + 1) =~= msg);
            assert(is_first_space(rest, at));
            lemma_first_space_unique(rest, at, first_space(rest));
        },
    }
}

/// Encoding undoes decoding: a line that encodes a command is the wire form
/// of that command, and the command's channel is a channel name. Together
/// with `lemma_decode_wire_form` this says that the accepted lines are
/// exactly the wire forms of the commands with a channel name.
pub proof fn lemma_wire_form_of_decoded(line: Seq<char>)
    requires
        command_of(line) is Some,
    ensures
        wire_form(command_of(line)->0) == line,
        is_channel_name(command_of(line)->0.channel()),
{
    reveal_strlit("SUBSCRIBE ");
    reveal_strlit("UNSUBSCRIBE ");
    reveal_strlit("PUBLISH ");
    reveal_strlit(" ");
    if "SUBSCRIBE "@.is_prefix_of(line) {
        assert("SUBSCRIBE "@ + line.skip(10) =~= line);
    } else if "UNSUBSCRIBE "@.is_prefix_of(line) {
        assert("UNSUBSCRIBE "@ + line.skip(12) =~= line);
    } else {
        let rest = line.skip(8);
        let at: int = first_space(rest);
        assert("PUBLISH "@ + rest =~= line);
        assert(rest.take(at) + " "@ + rest.skip(at + 1) =~= rest);
        assert("PUBLISH "@ + rest.take(at) + " "@ + rest.skip(at + 1) =~= line);
    }
}

/// The position of the first space in `text`, if it has one.
fn find_space(text: &str) -> (found: Option<usize>)
    ensures
        match found {
            Some(at) => is_first_space(text@, at as int),
            None => spaceless(text@),
        },
{
    let length: usize = text.unicode_len();
    let mut position: usize = 0;
    let mut found: Option<usize> = None;
    for c in chars: text.chars()
        invariant
            position == chars.index(),
            chars.seq() == text@,
            length == text@.len(),
            match found {
                Some(at) => is_first_space(text@, at as int),
                None => spaceless(text@.take(position as int)),
            },
    {
        if found.is_none() && c == ' ' {
            found = Some(position);
        }
        position = position + 1;
    }
    proof {
        assert(text@.take(position as int) =~= text@);
    }
    found
}

/// What follows `prefix` in `line`, if `line` starts with it.
fn strip_prefix<'a>(line: &'a str, prefix: &str) -> (rest: Option<&'a str>)
    ensures
        match rest {
            Some(rest) => prefix@.is_prefix_of(line@) && rest@ == line@.skip(prefix@.len() as int),
            None => !prefix@.is_prefix_of(line@),
        },
{
    let length: usize = line.unicode_len();
    let prefix_length: usize = prefix.unicode_len();
    if prefix_length > length {
        return None;
    }
    let mut position: usize = 0;
    while position < prefix_length
        invariant
            position <= prefix_length <= length,
            length == line@.len(),
            prefix_length == prefix@.len(),
            forall|i: int| 0 <= i < position ==> line@[i] == prefix@[i],
        decreases prefix_length - position,
    {
        if line.get_char(position) != prefix.get_char(position) {
            proof {
                let start = line@.subrange(0, prefix@.len() as int);
                assert(start[position as int] == line@[position as int]);
            }
            return None;
        }
        position = position + 1;
    }
    proof {
        assert(prefix@ =~= line@.subrange(0, prefix@.len() as int));
    }
    Some(line.substring_char(prefix_length, length))
}

/// Whether `text` can name a channel on the wire.
fn names_channel(text: &str) -> (valid: bool)
    ensures
        valid == is_channel_name(text@),
{
    match find_space(text) {
        Some(_) => false,
        None => text.unicode_len() > 0,
    }
}

/// The error for a line that encodes no command.
fn rejected(line: &str) -> (error: PubSubError)
    ensures
        error matches PubSubError::ParseError { line: kept } && kept@ == line@,
{
    PubSubError::ParseError { line: line.to_owned() }
}

/// `result` is what decoding `line` gives: the command that the line
/// encodes, or a `ParseError` that carries the line when it encodes none.
pub open spec fn decodes(line: Seq<char>, result: Result<PubSubMessage, PubSubError>) -> bool {
    match result {
        Ok(message) => command_of(line) == Some(message@),
        Err(error) => {
            &&& command_of(line) is None
            &&& error matches PubSubError::ParseError { line: kept }
            &&& kept@ == line
        },
    }
}

/// Decodes one line. The line is taken as it came, with no terminator to
/// strip.
pub fn parse(line: &str) -> (result: Result<PubSubMessage, PubSubError>)
    ensures
        decodes(line@, result),
{
    if let Some(channel) = strip_prefix(line, "SUBSCRIBE ") {
        if names_channel(channel) {
            Ok(PubSubMessage::SUBSCRIBE { channel: channel.to_owned() })
        } else {
            Err(rejected(line))
        }
    } else if let Some(channel) = strip_prefix(line, "UNSUBSCRIBE ") {
        if names_channel(channel) {
            Ok(PubSubMessage::UNSUBSCRIBE { channel: channel.to_owned() })
        } else {
            Err(rejected(line))
        }
    } else if let Some(rest) = strip_prefix(line, "PUBLISH ") {
        match find_space(rest) {
            Some(at) => {
                proof {
                    lemma_first_space_unique(rest@, at as int, first_space(rest@));
                }
                if at > 0 {
                    let length: usize = rest.unicode_len();
                    Ok(
                        PubSubMessage::PUBLISH {
                            channel: rest.substring_char(0, at).to_owned(),
                            msg: rest.substring_char(at + 1, length).to_owned(),
                        },
                    )
                } else {
                    Err(rejected(line))
                }
            },
            None => {
                assert(!is_first_space(rest@, first_space(rest@)));
                Err(rejected(line))
            },
        }
    } else {
        Err(rejected(line))
    }
}

} // verus!
