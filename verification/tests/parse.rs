use algorep::message::{ClientCommand, ReplAction, Speed};
use algorep::parse::{action_of_lowercase, command_of_parts};

fn s(x: &str) -> String {
    x.to_string()
}

#[test]
fn parses_load_with_word_filename() {
    assert_eq!(
        ClientCommand::parse_command("load my_file\n"),
        Some(ClientCommand::Load { filename: s("my_file") })
    );
    // the file name stops at the first non-word character
    assert_eq!(
        ClientCommand::parse_command("load my-file\n"),
        Some(ClientCommand::Load { filename: s("my") })
    );
    assert_eq!(ClientCommand::parse_command("load -x\n"), None);
}

#[test]
fn command_word_is_case_insensitive() {
    assert_eq!(
        ClientCommand::parse_command("LOAD f\n"),
        Some(ClientCommand::Load { filename: s("f") })
    );
    assert_eq!(ClientCommand::parse_command("LiSt\n"), Some(ClientCommand::List));
}

#[test]
fn parses_append_uid_and_text() {
    assert_eq!(
        ClientCommand::parse_command("append 1-1 hello world\n"),
        Some(ClientCommand::Append { uid: s("1-1"), text: s("hello world") })
    );
    assert_eq!(
        ClientCommand::parse_command("append 1-1\n"),
        Some(ClientCommand::Append { uid: s("1-1"), text: s("") })
    );
    assert_eq!(ClientCommand::parse_command("append\n"), None);
}

#[test]
fn parses_delete_and_get() {
    assert_eq!(
        ClientCommand::parse_command("delete abc\n"),
        Some(ClientCommand::Delete { uid: s("abc") })
    );
    // uids as LOAD makes them can be deleted; trailing blanks are kept in the arguments
    assert_eq!(
        ClientCommand::parse_command("DELETE 1-1\n"),
        Some(ClientCommand::Delete { uid: s("1-1") })
    );
    assert_eq!(ClientCommand::parse_command("delete abc \n"), None);
    assert_eq!(ClientCommand::parse_command("delete 1 2\n"), None);
    assert_eq!(
        ClientCommand::parse_command("get 1-1\n"),
        Some(ClientCommand::Get { uid: s("1-1") })
    );
    assert_eq!(ClientCommand::parse_command("get 1-1 2\n"), None);
}

#[test]
fn rejects_unknown_or_malformed_commands() {
    assert_eq!(ClientCommand::parse_command("jump 3\n"), None);
    assert_eq!(ClientCommand::parse_command(" list\n"), None);
    assert_eq!(ClientCommand::parse_command(""), None);
    // something after the first line that is not blank
    assert_eq!(ClientCommand::parse_command("list a\nb"), None);
    // blanks after the command word may span lines before the arguments
    assert_eq!(
        ClientCommand::parse_command("get\n 1-1"),
        Some(ClientCommand::Get { uid: s("1-1") })
    );
    assert_eq!(ClientCommand::parse_command("list ignored words\n"), Some(ClientCommand::List));
}

#[test]
fn parses_repl_actions() {
    assert_eq!(ReplAction::parse_action("REPL 2 crash\n"), Some((2, ReplAction::Crash)));
    assert_eq!(ReplAction::parse_action("repl 0 start"), Some((0, ReplAction::Start)));
    assert_eq!(ReplAction::parse_action("repl 1 shutdown"), Some((1, ReplAction::Shutdown)));
    assert_eq!(ReplAction::parse_action("repl 1 recovery"), Some((1, ReplAction::Recovery)));
    assert_eq!(ReplAction::parse_action("repl 12 timeout"), Some((12, ReplAction::Timeout)));
    assert_eq!(ReplAction::parse_action("repl 3 display"), Some((3, ReplAction::Display)));
}

#[test]
fn parses_speeds() {
    assert_eq!(
        ReplAction::parse_action("repl 0 speed fast\n"),
        Some((0, ReplAction::Speed(Speed::Fast)))
    );
    assert_eq!(
        ReplAction::parse_action("repl 0 SPEED Medium"),
        Some((0, ReplAction::Speed(Speed::Medium)))
    );
    assert_eq!(
        ReplAction::parse_action("repl 0 speedy speed slow"),
        Some((0, ReplAction::Speed(Speed::Slow)))
    );
    // a speed word that is not known is refused, even if another action follows
    assert_eq!(ReplAction::parse_action("repl 0 speed warp crash"), None);
}

#[test]
fn rejects_malformed_repl_lines() {
    assert_eq!(ReplAction::parse_action("repl x crash"), None);
    assert_eq!(ReplAction::parse_action("replay 1 crash"), None);
    assert_eq!(ReplAction::parse_action("repl 1 dance"), None);
    assert_eq!(ReplAction::parse_action("repl 99999999999999999999999 crash"), None);
    assert_eq!(ReplAction::parse_action("load file"), None);
}

#[test]
fn speed_delays_and_names() {
    assert_eq!(Speed::Fast.to_duration(), 0);
    assert_eq!(Speed::Medium.to_duration(), 100_000_000);
    assert_eq!(Speed::Slow.to_duration(), 1_000_000_000);
    assert_eq!(Speed::Medium.to_string(), "Medium");
}

#[test]
fn dispatches_lowercased_words_and_lines() {
    let chars = |x: &str| x.chars().collect::<Vec<char>>();
    assert_eq!(
        command_of_parts(&chars("append"), &chars("u1   some text ")),
        Some(ClientCommand::Append { uid: s("u1"), text: s("some text ") })
    );
    assert_eq!(command_of_parts(&chars("LOAD"), &chars("f")), None);
    assert_eq!(command_of_parts(&chars("get"), &chars("")), None);
    assert_eq!(action_of_lowercase(&chars("repl 4 display")), Some((4, ReplAction::Display)));
    assert_eq!(action_of_lowercase(&chars("REPL 4 display")), None);
    assert_eq!(action_of_lowercase(&chars("repl 007 crash")), Some((7, ReplAction::Crash)));
}
