//! The text protocol: what an inbound line asks for, and the lines that
//! the server puts into recipients' queues in answer.

use crate::text::{
    after_space, before_space, has_space, lemma_first_space, lemma_first_space_bounds,
    split_at_space, str_eq,
};
use vstd::prelude::*;
use vstd::string::StringExecFns;

verus! {

/// What one inbound line asks the server to do.
#[derive(Clone, Copy, Debug, PartialEq, Eq)]
pub enum Command<'a> {
    /// `/msg <target> <body>`: deliver `body` to `target` alone.
    DirectMessage { target: &'a str, body: &'a str },
    /// `/channel <name>`: tell everybody else that the sender joined `name`.
    ChannelJoin { channel: &'a str },
    /// Any other line: relay it to everybody else.
    Broadcast { text: &'a str },
    /// `/msg` or `/channel` without the arguments it needs: nothing is sent.
    Malformed,
}

/// A command over mathematical text.
pub enum CommandView {
    DirectMessage { target: Seq<char>, body: Seq<char> },
    ChannelJoin { channel: Seq<char> },
    Broadcast { text: Seq<char> },
    Malformed,
}

impl<'a> View for Command<'a> {
    type V = CommandView;

    open spec fn view(&self) -> CommandView {
        match *self {
            Command::DirectMessage { target, body } => CommandView::DirectMessage {
                target: target@,
                body: body@,
            },
            Command::ChannelJoin { channel } => CommandView::ChannelJoin { channel: channel@ },
            Command::Broadcast { text } => CommandView::Broadcast { text: text@ },
            Command::Malformed => CommandView::Malformed,
        }
    }
}

/// The word that opens a direct message.
pub open spec fn msg_word() -> Seq<char> {
    "/msg"@
}

/// The word that opens a channel join.
pub open spec fn channel_word() -> Seq<char> {
    "/channel"@
}

/// The command that `line` stands for.
///
/// The word before the first space decides. After `/msg`, the rest must
/// hold a space again: the target stands before it (and may be empty), the
/// body behind it. After `/channel`, all of the rest is the channel's name.
/// Either word without what it needs is malformed. Every other line is a
/// broadcast of the whole line, spaces and all.
pub open spec fn parsed(line: Seq<char>) -> CommandView {
    if before_space(line) == msg_word() {
        if has_space(line) && has_space(after_space(line)) {
            CommandView::DirectMessage {
                target: before_space(after_space(line)),
                body: after_space(after_space(line)),
            }
        } else {
            CommandView::Malformed
        }
    } else if before_space(line) == channel_word() {
        if has_space(line) {
            CommandView::ChannelJoin { channel: after_space(line) }
        } else {
            CommandView::Malformed
        }
    } else {
        CommandView::Broadcast { text: line }
    }
}

/// `/msg` without a target and a body is malformed: the bare word, and the
/// word followed by a space and one more word or nothing.
pub proof fn lemma_msg_needs_target_and_body(rest: Seq<char>)
    requires
        !has_space(rest),
    ensures
        parsed(msg_word()) is Malformed,
        parsed(msg_word() + seq![' '] + rest) is Malformed,
{
    reveal_strlit("/msg");
    reveal_strlit("/channel");
    let word = msg_word();
    lemma_first_space(word, 4);
    assert(before_space(word) =~= word);
    let line = word + seq![' '] + rest;
    lemma_first_space(line, 4);
    assert(before_space(line) =~= word);
    assert(after_space(line) =~= rest);
}

/// `/channel` without a name is malformed.
pub proof fn lemma_channel_needs_name()
    ensures
        parsed(channel_word()) is Malformed,
{
    reveal_strlit("/msg");
    reveal_strlit("/channel");
    let word = channel_word();
    lemma_first_space(word, 8);
    assert(before_space(word) =~= word);
}

/// A line whose first word is neither `/msg` nor `/channel` is a broadcast
/// of the whole line.
pub proof fn lemma_other_lines_are_broadcast(line: Seq<char>)
    requires
        before_space(line) != msg_word(),
        before_space(line) != channel_word(),
    ensures
        parsed(line) == (CommandView::Broadcast { text: line }),
{
}

/// `/msg target body` is a direct message of `body` to `target`, for every
/// target without a space in it; the body may hold spaces.
pub proof fn lemma_msg_with_target_and_body(target: Seq<char>, body: Seq<char>)
    requires
        !has_space(target),
    ensures
        parsed(msg_word() + seq![' '] + target + seq![' '] + body) == (CommandView::DirectMessage {
            target,
            body,
        }),
{
    reveal_strlit("/msg");
    reveal_strlit("/channel");
    let word = msg_word();
    let line = word + seq![' '] + target + seq![' '] + body;
    lemma_first_space(line, 4);
    assert(before_space(line) =~= word);
    let rest = after_space(line);
    assert(rest =~= target + seq![' '] + body);
    lemma_first_space_bounds(target);
    lemma_first_space(rest, target.len() as int);
    assert(before_space(rest) =~= target);
    assert(after_space(rest) =~= body);
}

/// `/channel name` is a join of the channel `name`, spaces included.
pub proof fn lemma_channel_with_name(channel: Seq<char>)
    ensures
        parsed(channel_word() + seq![' '] + channel) == (CommandView::ChannelJoin { channel }),
{
    reveal_strlit("/msg");
    reveal_strlit("/channel");
    let word = channel_word();
    let line = word + seq![' '] + channel;
    lemma_first_space(line, 8);
    assert(before_space(line) =~= word);
    assert(after_space(line) =~= channel);
}

/// The line that a direct message puts into its target's queue.
pub open spec fn private_text(sender: Seq<char>, body: Seq<char>) -> Seq<char> {
    "[Private from "@ + sender + "]: "@ + body
}

/// The line that a channel join puts into every other client's queue.
pub open spec fn join_text(sender: Seq<char>, channel: Seq<char>) -> Seq<char> {
    "["@ + sender + " joined channel "@ + channel + "]"@
}

/// The line that a broadcast puts into every other client's queue.
pub open spec fn broadcast_text(sender: Seq<char>, text: Seq<char>) -> Seq<char> {
    "["@ + sender + "]: "@ + text
}

/// Reads one inbound line.
pub fn parse_command<'a>(line: &'a str) -> (command: Command<'a>)
    ensures
        command@ == parsed(line@),
{
    let (word, rest) = split_at_space(line);
    if str_eq(word, "/msg") {
        match rest {
            Some(arguments) => {
                let (target, body) = split_at_space(arguments);
                match body {
                    Some(body) => Command::DirectMessage { target, body },
                    None => Command::Malformed,
                }
            },
            None => Command::Malformed,
        }
    } else if str_eq(word, "/channel") {
        match rest {
            Some(channel) => Command::ChannelJoin { channel },
            None => Command::Malformed,
        }
    } else {
        Command::Broadcast { text: line }
    }
}

/// Builds the line that a direct message from `sender` delivers.
pub fn format_private(sender: &str, body: &str) -> (out: String)
    ensures
        out@ == private_text(sender@, body@),
{
    let mut out = String::from_str("[Private from ");
    out.append(sender);
    out.append("]: ");
    out.append(body);
    out
}

/// Builds the line that announces that `sender` joined `channel`.
pub fn format_join(sender: &str, channel: &str) -> (out: String)
    ensures
        out@ == join_text(sender@, channel@),
{
    let mut out = String::from_str("[");
    out.append(sender);
    out.append(" joined channel ");
    out.append(channel);
    out.append("]");
    out
}

/// Builds the line that relays `text` from `sender` to everybody else.
pub fn format_broadcast(sender: &str, text: &str) -> (out: String)
    ensures
        out@ == broadcast_text(sender@, text@),
{
    let mut out = String::from_str("[");
    out.append(sender);
    out.append("]: ");
    out.append(text);
    out
}

} // verus!
