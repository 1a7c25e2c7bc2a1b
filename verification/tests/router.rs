use rcmd::entry::Entry;
use rcmd::error::HistoryError;
use rcmd::router::{
    exec_command, exit_status, grep_commands, list_commands, print_command, remove_command, route,
    save_command, Action, Outcome, LABEL_WIDTH,
};
use rcmd::store::HistoryLog;

const STORE: &str = "ls -la\ngit status || work\n";

type Parts = (Vec<String>, Option<String>, Option<String>);

fn entry(command: &str, tag: &str) -> Entry {
    Entry { command: command.to_string(), tag: tag.to_string() }
}

fn history_of(commands: &[&str]) -> String {
    let mut out = String::new();
    for (i, c) in commands.iter().enumerate() {
        out.push_str(&format!(": {}:0;{}\n", 1700000000 + i, c));
    }
    out
}

fn parts(r: Result<Outcome, HistoryError>) -> Result<Parts, HistoryError> {
    r.map(|o| (o.output, o.store, o.run))
}

fn printed(lines: &[&str]) -> Result<Parts, HistoryError> {
    Ok((lines.iter().map(|l| l.to_string()).collect(), None, None))
}

fn written(text: &str) -> Result<Parts, HistoryError> {
    Ok((Vec::new(), Some(text.to_string()), None))
}

fn quiet() -> Result<Parts, HistoryError> {
    Ok((Vec::new(), None, None))
}

#[test]
fn grep_prints_matching_line_with_its_position() {
    let r = route(Some(Action::Grep { text: "work".to_string() }), STORE, "");
    assert_eq!(parts(r), printed(&[" 2: git status || work"]));
    assert_eq!(grep_commands(&HistoryLog::load(STORE), "work"), vec![" 2: git status || work"]);
}

#[test]
fn grep_is_case_sensitive_and_reads_the_whole_line() {
    let log = HistoryLog::load(STORE);
    assert_eq!(grep_commands(&log, "Work"), Vec::<String>::new());
    assert_eq!(grep_commands(&log, "s || w"), vec![" 2: git status || work"]);
    assert_eq!(grep_commands(&log, "||"), vec![" 2: git status || work"]);
    assert_eq!(grep_commands(&log, "s"), vec![" 1: ls -la", " 2: git status || work"]);
    assert_eq!(grep_commands(&log, ""), vec![" 1: ls -la", " 2: git status || work"]);
    assert_eq!(grep_commands(&log, "1:"), Vec::<String>::new());
    assert_eq!(grep_commands(&HistoryLog::new(), ""), Vec::<String>::new());
}

#[test]
fn list_of_empty_store_prints_nothing() {
    assert_eq!(parts(route(Some(Action::List), "", "")), quiet());
    assert_eq!(list_commands(&HistoryLog::new()), Vec::<String>::new());
}

#[test]
fn list_prints_position_command_and_tag() {
    let r = route(Some(Action::List), STORE, "");
    assert_eq!(parts(r), printed(&[" 1: ls -la", " 2: git status [tag: work]"]));
}

#[test]
fn list_labels_are_two_wide() {
    assert_eq!(LABEL_WIDTH, 2);
    let mut text = String::new();
    for i in 0..100 {
        text.push_str(&format!("c{}\n", i));
    }
    let lines = list_commands(&HistoryLog::load(&text));
    assert_eq!(lines.len(), 100);
    assert_eq!(lines[0], " 1: c0");
    assert_eq!(lines[8], " 9: c8");
    assert_eq!(lines[9], "10: c9");
    assert_eq!(lines[98], "99: c98");
    assert_eq!(lines[99], "100: c99");
    for (i, line) in lines.iter().enumerate() {
        assert_eq!(*line, format!("{:2}: c{}", i + 1, i));
    }
}

#[test]
fn save_appends_the_command_before_the_invocation() {
    let history = history_of(&["ls -la", "git status", "rcmd save", "r echo hi"]);
    let r = route(Some(Action::Save { tag: None }), "", &history);
    assert_eq!(parts(r), written("ls -la\n"));
}

#[test]
fn save_with_tag_rewrites_the_whole_store() {
    let history = history_of(&["cargo build", "vim", "rcmd save --tag rust"]);
    let r = route(Some(Action::Save { tag: Some(" rust ".to_string()) }), STORE, &history);
    assert_eq!(parts(r), written("ls -la\ngit status || work\ncargo build || rust\n"));
}

#[test]
fn save_without_action_is_save_without_tag() {
    let history = history_of(&["cargo build", "rcmd"]);
    assert_eq!(parts(route(None, STORE, &history)), written("ls -la\ngit status || work\ncargo build\n"));
    let same = route(Some(Action::Save { tag: None }), STORE, &history);
    assert_eq!(parts(same), parts(route(None, STORE, &history)));
}

#[test]
fn save_twice_appends_once() {
    let history = history_of(&["cargo build", "rcmd"]);
    let tag = || Some("rust".to_string());
    let first = parts(route(Some(Action::Save { tag: tag() }), STORE, &history)).unwrap();
    let store = first.1.unwrap();
    assert_eq!(store, "ls -la\ngit status || work\ncargo build || rust\n");
    assert_eq!(parts(route(Some(Action::Save { tag: tag() }), &store, &history)), quiet());
    let mut log = HistoryLog::load(STORE);
    assert_eq!(save_command(&mut log, &history, tag()), Ok(true));
    assert_eq!(save_command(&mut log, &history, tag()), Ok(false));
    assert_eq!(log.len(), 3);
    assert_eq!(log.get_at(3), Ok(&entry("cargo build", "rust")));
}

#[test]
fn save_twice_with_separator_in_command_appends_twice() {
    let history = history_of(&["a||b", "rcmd"]);
    let store = parts(route(None, "", &history)).unwrap().1.unwrap();
    assert_eq!(store, "a||b\n");
    assert_eq!(parts(route(None, &store, &history)), written("a || b\na||b\n"));
}

#[test]
fn save_of_what_is_there_writes_nothing() {
    let history = history_of(&["git status", "pwd", "rcmd save --tag work"]);
    let r = route(Some(Action::Save { tag: Some("work".to_string()) }), STORE, &history);
    assert_eq!(parts(r), quiet());
    let other = route(Some(Action::Save { tag: Some("home".to_string()) }), STORE, &history);
    assert_eq!(parts(other), written("ls -la\ngit status || work\ngit status || home\n"));
}

#[test]
fn save_without_previous_command_fails() {
    let history = history_of(&["rcmd save"]);
    assert_eq!(parts(route(None, STORE, &history)), Err(HistoryError::NoPreviousCommand));
    assert_eq!(parts(route(None, STORE, "")), Err(HistoryError::NoPreviousCommand));
    let mut log = HistoryLog::load(STORE);
    assert_eq!(save_command(&mut log, "", None), Err(HistoryError::NoPreviousCommand));
    assert_eq!(log.entries, HistoryLog::load(STORE).entries);
}

#[test]
fn exec_hands_over_the_command_without_its_tag() {
    let r = route(Some(Action::Exec { index: 2 }), STORE, "");
    assert_eq!(parts(r), Ok((Vec::new(), None, Some("git status".to_string()))));
    assert_eq!(exec_command(&HistoryLog::load(STORE), 1), Ok("ls -la".to_string()));
}

#[test]
fn exec_of_exit_three_ends_with_three() {
    let r = route(Some(Action::Exec { index: 1 }), "exit 3\n", "");
    assert_eq!(parts(r), Ok((Vec::new(), None, Some("exit 3".to_string()))));
    assert_eq!(exit_status(false, Some(3)), 3);
}

#[test]
fn exit_status_mirrors_the_command() {
    assert_eq!(exit_status(true, Some(0)), 0);
    assert_eq!(exit_status(true, None), 0);
    assert_eq!(exit_status(false, Some(127)), 127);
    assert_eq!(exit_status(false, Some(-1)), -1);
    assert_eq!(exit_status(false, None), 1);
}

#[test]
fn exec_out_of_range_fails() {
    let log = HistoryLog::load(STORE);
    assert_eq!(exec_command(&log, 0), Err(HistoryError::NotFound { index: 0 }));
    assert_eq!(exec_command(&log, 3), Err(HistoryError::NotFound { index: 3 }));
    let r = route(Some(Action::Exec { index: 3 }), STORE, "");
    assert_eq!(parts(r), Err(HistoryError::NotFound { index: 3 }));
}

#[test]
fn rm_rewrites_the_store_without_the_entry() {
    let r = route(Some(Action::Rm { index: 1 }), STORE, "");
    assert_eq!(parts(r), written("git status || work\n"));
    let last = route(Some(Action::Rm { index: 1 }), "only\n", "");
    assert_eq!(parts(last), written(""));
}

#[test]
fn rm_two_of_five() {
    let mut log = HistoryLog::load("one\ntwo\nthree\nfour\nfive\n");
    assert_eq!(remove_command(&mut log, 2), Ok(()));
    assert_eq!(log.len(), 4);
    assert_eq!(log.get_at(2), Ok(&entry("three", "")));
    let r = route(Some(Action::Rm { index: 2 }), "one\ntwo\nthree\nfour\nfive\n", "");
    assert_eq!(parts(r), written("one\nthree\nfour\nfive\n"));
}

#[test]
fn rm_out_of_range_fails() {
    let mut log = HistoryLog::load(STORE);
    assert_eq!(remove_command(&mut log, 0), Err(HistoryError::InvalidIndex));
    assert_eq!(remove_command(&mut log, 3), Err(HistoryError::InvalidIndex));
    assert_eq!(log.entries, HistoryLog::load(STORE).entries);
    assert_eq!(parts(route(Some(Action::Rm { index: 0 }), STORE, "")), Err(HistoryError::InvalidIndex));
    assert_eq!(parts(route(Some(Action::Rm { index: 1 }), "", "")), Err(HistoryError::InvalidIndex));
}

#[test]
fn print_gives_the_command_without_its_tag() {
    let r = route(Some(Action::Print { index: 2 }), STORE, "");
    assert_eq!(parts(r), printed(&["git status"]));
    assert_eq!(print_command(&HistoryLog::load(STORE), 1), Ok("ls -la".to_string()));
}

#[test]
fn print_out_of_range_fails() {
    let log = HistoryLog::load(STORE);
    assert_eq!(print_command(&log, 0), Err(HistoryError::NotFound { index: 0 }));
    assert_eq!(print_command(&log, 3), Err(HistoryError::NotFound { index: 3 }));
    let r = route(Some(Action::Print { index: 0 }), STORE, "");
    assert_eq!(parts(r), Err(HistoryError::NotFound { index: 0 }));
}

#[test]
fn reading_actions_leave_the_store_alone() {
    for action in [
        Action::List,
        Action::Grep { text: "s".to_string() },
        Action::Exec { index: 1 },
        Action::Print { index: 1 },
    ] {
        let o = route(Some(action), STORE, "").unwrap();
        assert_eq!(o.store, None);
    }
}

#[test]
fn new_outcome_is_quiet() {
    assert_eq!(parts(Ok(Outcome::new())), quiet());
}
