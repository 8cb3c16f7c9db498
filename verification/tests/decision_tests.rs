use holdem_round::decision::{parse_decision, parse_token};
use holdem_round::{Action, Decision};

#[test]
fn tokens_map_to_their_actions() {
    assert_eq!(parse_token("raise"), Some(Action::Raise));
    assert_eq!(parse_token("r"), Some(Action::Raise));
    assert_eq!(parse_token("call"), Some(Action::Call));
    assert_eq!(parse_token("c"), Some(Action::Call));
    assert_eq!(parse_token("quit"), Some(Action::Quit));
    assert_eq!(parse_token("exit"), Some(Action::Quit));
    assert_eq!(parse_token("q"), Some(Action::Quit));
    assert_eq!(parse_token("e"), Some(Action::Quit));
    assert_eq!(parse_token("fold"), None);
    assert_eq!(parse_token(""), None);
}

#[test]
fn raw_input_is_trimmed_and_case_folded() {
    assert_eq!(parse_decision("  RAISE \n"), Some(Action::Raise));
    assert_eq!(parse_decision("Call"), Some(Action::Call));
    assert_eq!(parse_decision("\tC\n"), Some(Action::Call));
    assert_eq!(parse_decision(" Quit "), Some(Action::Quit));
    assert_eq!(parse_decision("banana\n"), None);
    assert_eq!(parse_decision("ra ise"), None);
}

#[test]
fn quit_is_an_event_not_a_table_decision() {
    assert_eq!(Action::Raise.to_decision(), Some(Decision::Raise));
    assert_eq!(Action::Call.to_decision(), Some(Decision::Call));
    assert_eq!(Action::Quit.to_decision(), None);
}
