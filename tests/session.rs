use gs1900::session::{banner_ok, clean_data, Action, Collector, Event};

const PROMPT: &str = "GS1900# ";

#[test]
fn collector_pages_through_two_more_markers() {
    let screens = ["line 1\nline 2\n--More--", "\u{8}\nline 3\n--More--", "\u{8}\nline 4\nGS1900# "];
    let mut c = Collector::new(PROMPT.to_string());
    let mut spaces = 0;
    let mut finished = false;
    for screen in screens {
        assert_eq!(c.step(Event::Data(screen.to_string())), Action::Read);
        match c.step(Event::Timeout) {
            Action::SendSpace => spaces += 1,
            Action::Finish => finished = true,
            other => panic!("unexpected action {:?}", other),
        }
    }
    assert!(finished);
    assert_eq!(spaces, 2);
    assert_eq!(c.data, screens.concat());
    let cleaned = clean_data(&c.data, PROMPT);
    assert_eq!(cleaned, "line 1\nline 2\nline 3\nline 4\n");
}

#[test]
fn collector_rejects_unexpected_last_line() {
    let mut c = Collector::new(PROMPT.to_string());
    assert_eq!(c.step(Event::Data("output\nsomething else".to_string())), Action::Read);
    assert_eq!(c.step(Event::Timeout), Action::Reject);
    assert_eq!(c.step(Event::Failed), Action::Abort);
}

#[test]
fn collector_finishes_on_prompt_with_spaces() {
    let mut c = Collector::new(PROMPT.to_string());
    c.step(Event::Data("x\n  GS1900#  ".to_string()));
    assert_eq!(c.step(Event::Timeout), Action::Finish);
}

#[test]
fn collector_empty_data_is_rejected() {
    let mut c = Collector::new(PROMPT.to_string());
    assert_eq!(c.step(Event::Timeout), Action::Reject);
}

#[test]
fn normalizer_removes_only_artifacts() {
    let raw = "GS1900# show vlan\na\n--More--\n\u{1b}[A\u{1b}[2Kb\n--More--\u{8}\nc GS1900# ";
    assert_eq!(clean_data(raw, PROMPT), "show vlan\na\nb\nc ");
    assert_eq!(clean_data("plain text", ""), "plain text");
    let once = clean_data(raw, PROMPT);
    assert_eq!(clean_data(&once, PROMPT), once);
}

#[test]
fn banner_check() {
    assert!(banner_ok(&[27, 91, 72, 27, 91, 74, 0]));
    assert!(!banner_ok(&[27, 91, 72, 27, 91, 74]));
    assert!(!banner_ok(&[27, 91, 72, 27, 91, 74, 1]));
    assert!(!banner_ok(&[]));
}

#[test]
fn normalizer_repeats_until_nothing_changes() {
    let raw = "--More--\u{1b}[A\u{1b}[2K\n";
    let once = clean_data(raw, "");
    assert_eq!(once, "");
    assert_eq!(clean_data(&once, ""), once);
    let nested = "a GS19GS1900# 00# b";
    assert_eq!(clean_data(nested, PROMPT), "a b");
}
