use aura_chat::command::{
    format_broadcast, format_join, format_private, parse_command, Command,
};
use aura_chat::text::{find_space, split_at_space};

#[test]
fn find_space_counts_characters() {
    assert_eq!(find_space("/msg bob hi"), 4);
    assert_eq!(find_space(" lead"), 0);
    assert_eq!(find_space("nospace"), 7);
    assert_eq!(find_space(""), 0);
    // two characters of several bytes each stand before the space
    assert_eq!(find_space("\u{e9}\u{4e16} x"), 2);
}

#[test]
fn split_at_space_cuts_once() {
    assert_eq!(split_at_space("a b c"), ("a", Some("b c")));
    assert_eq!(split_at_space("abc"), ("abc", None));
    assert_eq!(split_at_space(""), ("", None));
    assert_eq!(split_at_space("abc "), ("abc", Some("")));
    assert_eq!(split_at_space(" abc"), ("", Some("abc")));
    assert_eq!(split_at_space("\u{e9}t\u{e9} chaud"), ("\u{e9}t\u{e9}", Some("chaud")));
}

#[test]
fn msg_with_target_and_body_is_direct_message() {
    assert_eq!(
        parse_command("/msg B hello"),
        Command::DirectMessage { target: "B", body: "hello" }
    );
    assert_eq!(
        parse_command("/msg Guest42 hello there, friend"),
        Command::DirectMessage { target: "Guest42", body: "hello there, friend" }
    );
}

#[test]
fn msg_body_keeps_its_spaces() {
    assert_eq!(
        parse_command("/msg B  two  spaces "),
        Command::DirectMessage { target: "B", body: " two  spaces " }
    );
}

#[test]
fn msg_with_empty_target_or_empty_body_is_still_a_direct_message() {
    assert_eq!(parse_command("/msg  hi"), Command::DirectMessage { target: "", body: "hi" });
    assert_eq!(parse_command("/msg B "), Command::DirectMessage { target: "B", body: "" });
}

#[test]
fn msg_without_target_or_body_is_malformed() {
    assert_eq!(parse_command("/msg"), Command::Malformed);
    assert_eq!(parse_command("/msg "), Command::Malformed);
    assert_eq!(parse_command("/msg B"), Command::Malformed);
}

#[test]
fn channel_with_name_is_join() {
    assert_eq!(parse_command("/channel lobby"), Command::ChannelJoin { channel: "lobby" });
    assert_eq!(parse_command("/channel a b"), Command::ChannelJoin { channel: "a b" });
    assert_eq!(parse_command("/channel "), Command::ChannelJoin { channel: "" });
}

#[test]
fn channel_without_name_is_malformed() {
    assert_eq!(parse_command("/channel"), Command::Malformed);
}

#[test]
fn other_lines_are_broadcast_whole() {
    assert_eq!(parse_command("hello world"), Command::Broadcast { text: "hello world" });
    assert_eq!(parse_command(""), Command::Broadcast { text: "" });
    assert_eq!(parse_command("/quit"), Command::Broadcast { text: "/quit" });
    assert_eq!(parse_command("/msgB hi"), Command::Broadcast { text: "/msgB hi" });
    assert_eq!(parse_command("/channels x"), Command::Broadcast { text: "/channels x" });
    assert_eq!(parse_command(" /msg B hi"), Command::Broadcast { text: " /msg B hi" });
}

#[test]
fn commands_are_case_sensitive() {
    assert_eq!(parse_command("/MSG B hi"), Command::Broadcast { text: "/MSG B hi" });
    assert_eq!(parse_command("/Channel lobby"), Command::Broadcast { text: "/Channel lobby" });
}

#[test]
fn only_a_space_separates() {
    assert_eq!(parse_command("/msg\tB hi"), Command::Broadcast { text: "/msg\tB hi" });
}

#[test]
fn private_line_has_its_exact_form() {
    assert_eq!(format_private("A", "hello"), "[Private from A]: hello");
    assert_eq!(format_private("Guest7", ""), "[Private from Guest7]: ");
}

#[test]
fn join_line_has_its_exact_form() {
    assert_eq!(format_join("A", "lobby"), "[A joined channel lobby]");
}

#[test]
fn broadcast_line_has_its_exact_form() {
    assert_eq!(format_broadcast("A", "hi all"), "[A]: hi all");
    assert_eq!(format_broadcast("Guest65535", ""), "[Guest65535]: ");
}
