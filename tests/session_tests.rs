use rag_chat::session::{compose_output, parse_command, Action, Command, SessionConfig};

fn question(line: &str) -> Command {
    Command::Question(line.to_string())
}

#[test]
fn commands_are_recognised() {
    assert!(matches!(parse_command("/+history/"), Command::SetHistory(true)));
    assert!(matches!(parse_command("/-history/\n"), Command::SetHistory(false)));
    assert!(matches!(parse_command("/+prompt/"), Command::SetEchoPrompt(true)));
    assert!(matches!(parse_command("/-prompt/"), Command::SetEchoPrompt(false)));
    assert!(matches!(parse_command(" /+time/ "), Command::SetShowTiming(true)));
    assert!(matches!(parse_command("/-time/"), Command::SetShowTiming(false)));
    assert!(matches!(parse_command("/clear/"), Command::ClearHistory));
}

#[test]
fn other_lines_are_questions() {
    match parse_command("/HISTORY/\n") {
        Command::Question(q) => assert_eq!(q, "/HISTORY/\n"),
        _ => panic!("expected a question"),
    }
    assert!(matches!(parse_command("why?"), Command::Question(_)));
    assert!(matches!(parse_command("/+history/ please"), Command::Question(_)));
}

#[test]
fn empty_first_line_quits() {
    let mut config = SessionConfig::new();
    let (cmd, action) = config.handle_line("");
    assert!(matches!(cmd, Command::Quit));
    assert_eq!(action, Action::Quit);
    assert_eq!(action.notice(), Some("Goodbye"));
    let (cmd, _) = config.handle_line("  \n");
    assert!(matches!(cmd, Command::Quit));
    assert_eq!(config, SessionConfig::new());
}

#[test]
fn initial_switches_are_off() {
    let c = SessionConfig::new();
    assert!(!c.keep_history && !c.echo_prompt && !c.show_timing);
}

#[test]
fn kept_history_is_not_reset_between_questions() {
    let mut c = SessionConfig::new();
    assert_eq!(c.apply(&Command::SetHistory(true)), Action::Configured);
    assert_eq!(c.apply(&question("one")), Action::Ask { reset: false });
    assert_eq!(c.apply(&question("two")), Action::Ask { reset: false });
}

#[test]
fn history_off_resets_before_every_question() {
    let mut c = SessionConfig::new();
    assert_eq!(c.apply(&question("one")), Action::Ask { reset: true });
    assert_eq!(c.apply(&Command::SetHistory(true)), Action::Configured);
    assert_eq!(c.apply(&Command::SetHistory(false)), Action::Configured);
    assert_eq!(c.apply(&question("two")), Action::Ask { reset: true });
    assert_eq!(c.apply(&question("three")), Action::Ask { reset: true });
}

#[test]
fn clear_without_history_only_confirms() {
    let mut c = SessionConfig::new();
    let before = c;
    let a = c.apply(&Command::ClearHistory);
    assert_eq!(a, Action::Cleared { reset: false });
    assert_eq!(a.notice(), Some("Cleared History"));
    assert_eq!(c, before);
}

#[test]
fn clear_with_history_resets() {
    let mut c = SessionConfig::new();
    c.apply(&Command::SetHistory(true));
    let a = c.apply(&Command::ClearHistory);
    assert_eq!(a, Action::Cleared { reset: true });
    assert_eq!(a.notice(), Some("Cleared History"));
}

#[test]
fn switches_are_independent() {
    let mut c = SessionConfig::new();
    c.apply(&Command::SetEchoPrompt(true));
    c.apply(&Command::SetShowTiming(true));
    assert!(c.echo_prompt && c.show_timing && !c.keep_history);
    c.apply(&Command::SetEchoPrompt(false));
    assert!(!c.echo_prompt && c.show_timing);
    assert_eq!(c.apply(&Command::Quit), Action::Quit);
    assert_eq!(Action::Configured.notice(), None);
}

#[test]
fn echoed_prompt_comes_first() {
    let out = compose_output("P", true, vec!["a".to_string(), "b".to_string()]);
    assert_eq!(out, vec!["\n# Prompt\n\nP\n".to_string(), "a".to_string(), "b".to_string()]);
    let out = compose_output("P", false, vec!["a".to_string()]);
    assert_eq!(out, vec!["a".to_string()]);
}
