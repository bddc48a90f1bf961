use rustesge::actions::Action;
use rustesge::genesis::{gen_exit_cmd, gen_rename_room_cmd, initial_genesis};
use rustesge::ingame::Ingame;
use rustesge::strutil::{deserialize_vec, serialize_vec, str_eq, trim};
use rustesge::terminal::{Command, CommandKind, Terminal};
use rustesge::terminal_genesis::{is_valid_word, TerminalGenesis};

fn quit_command() -> Command {
    Command {
        keyword: "quit".to_string(),
        kind: CommandKind::Fixed(Action::Append {
            channel: "done".to_string(),
            text: "true".to_string(),
        }),
    }
}

#[test]
fn terminal_runs_a_fixed_command() {
    let ingame = Ingame::new("storage");
    let mut terminal = Terminal::new(ingame);
    terminal.add_command(quit_command());
    let out = terminal.step("quit").expect("the command exists");
    assert_eq!(out, "\n");
    assert_eq!(terminal.ingame.get_response("done"), "true");
}

#[test]
fn terminal_reports_unknown_commands() {
    let ingame = Ingame::new("storage");
    let mut terminal = Terminal::new(ingame);
    let err = terminal.step("fly high").expect_err("nothing is registered");
    assert_eq!(err.message(), "Could not find command 'fly'\n");
}

#[test]
fn terminal_commands_check_their_arguments() {
    let ingame = Ingame::with_storage(initial_genesis("God"));
    let mut terminal = Terminal::new(ingame);
    terminal.add_command(gen_exit_cmd("add_exit"));
    terminal.add_command(gen_rename_room_cmd("rename_room"));
    let err = terminal.step("add_exit onlyone").expect_err("two arguments are needed");
    assert_eq!(err.message(), "Expected two arguments");
    let err = terminal.step("rename_room").expect_err("one argument is needed");
    assert_eq!(err.message(), "Expected one argument");
    terminal.step("rename_room Eden").expect("renaming succeeds");
    let room = terminal.ingame.room_of_player().expect("player has a room");
    assert_eq!(room.name, "Eden");
    terminal.step("add_exit down cave").expect("the exit is added");
    let room = terminal.ingame.room_of_player().expect("player has a room");
    assert_eq!(room.exit_target("down"), Some(&"cave".to_string()));
}

#[test]
fn terminal_surfaces_tick_errors() {
    let ingame = Ingame::new("storage");
    let mut terminal = Terminal::new(ingame);
    terminal.add_command(Command {
        keyword: "boom".to_string(),
        kind: CommandKind::Fixed(Action::Fail { msg: "went wrong".to_string() }),
    });
    let err = terminal.step("boom").expect_err("the action fails");
    assert_eq!(err.message(), "Error: went wrong\n");
}

#[test]
fn later_commands_replace_earlier_ones_with_the_same_keyword() {
    let ingame = Ingame::new("storage");
    let mut terminal = Terminal::new(ingame);
    terminal.add_command(Command {
        keyword: "say".to_string(),
        kind: CommandKind::Fixed(Action::Append { channel: "out".to_string(), text: "old".to_string() }),
    });
    terminal.add_command(Command {
        keyword: "say".to_string(),
        kind: CommandKind::Fixed(Action::Append { channel: "out".to_string(), text: "new".to_string() }),
    });
    let out = terminal.step("say").expect("the command exists");
    assert_eq!(out, "new\n");
}

#[test]
fn word_characters_are_recognised() {
    assert!(is_valid_word('a'));
    assert!(is_valid_word('Z'));
    assert!(is_valid_word('0'));
    assert!(is_valid_word('-'));
    assert!(is_valid_word('_'));
    assert!(!is_valid_word(' '));
    assert!(!is_valid_word('!'));
}

#[test]
fn terminal_genesis_keeps_its_parts() {
    let ingame = Ingame::new("storage");
    let terminal = Terminal::new(ingame);
    let tg = TerminalGenesis::new(terminal, "/tmp/worlds".to_string());
    assert_eq!(tg.base_path, "/tmp/worlds");
}

#[test]
fn string_lists_join_and_split_on_semicolons() {
    let v = vec!["a".to_string(), "b".to_string(), "c d".to_string()];
    let joined = serialize_vec(&v);
    assert_eq!(joined, "a;b;c d");
    let back = deserialize_vec(joined.as_str());
    assert_eq!(back, v);
    let spaced = deserialize_vec(" x ; y ");
    assert_eq!(spaced, vec!["x".to_string(), "y".to_string()]);
}

#[test]
fn trimming_and_comparison_behave() {
    assert_eq!(trim("  hello \t\n"), "hello");
    assert_eq!(trim(""), "");
    assert!(str_eq("same", "same"));
    assert!(!str_eq("same", "other"));
}
