use blackjack::round::Action;
use blackjack::round::parse_action;

#[test]
fn parses_each_token() {
    assert_eq!(parse_action(&String::from("hit")), Some(Action::Hit));
    assert_eq!(parse_action(&String::from("stand")), Some(Action::Stand));
    assert_eq!(parse_action(&String::from("double-down")), Some(Action::DoubleDown));
    assert_eq!(parse_action(&String::from("split")), Some(Action::SplitCards));
    assert_eq!(parse_action(&String::from("surrender")), Some(Action::Surrender));
}

#[test]
fn trims_surrounding_whitespace() {
    assert_eq!(parse_action(&String::from("  hit  ")), Some(Action::Hit));
    assert_eq!(parse_action(&String::from("\tsurrender\n")), Some(Action::Surrender));
}

#[test]
fn matching_is_case_sensitive() {
    assert_eq!(parse_action(&String::from("Hit")), None);
    assert_eq!(parse_action(&String::from("STAND")), None);
}

#[test]
fn unrecognized_text_is_no_action() {
    assert_eq!(parse_action(&String::from("fold")), None);
    assert_eq!(parse_action(&String::from("")), None);
    assert_eq!(parse_action(&String::from("hit me")), None);
    assert_eq!(parse_action(&String::from("double down")), None);
}
