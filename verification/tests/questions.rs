use election_2024::{asks_for_constituency, extract_constituency_name};

#[test]
fn the_constituency_stands_after_the_question() {
    let question = "UK General Election: Which party will win in Altrincham and Sale West?";
    assert!(asks_for_constituency(question));
    assert_eq!(extract_constituency_name(question), "Altrincham and Sale West");
}

#[test]
fn some_questions_leave_the_in_out() {
    let question = "UK General Election: Which party will win Ynys M\u{f4}n?";
    assert!(asks_for_constituency(question));
    assert_eq!(extract_constituency_name(question), "Ynys M\u{f4}n");
}

#[test]
fn the_name_ends_at_the_first_question_mark() {
    let question = "Which party will win in Bath? Or not? Really?";
    assert_eq!(extract_constituency_name(question), "Bath");
}

#[test]
fn without_a_question_mark_the_name_runs_to_the_end() {
    assert_eq!(extract_constituency_name("Which party will win in Bath"), "Bath");
    assert_eq!(extract_constituency_name("Which party will win in "), "");
}

#[test]
fn the_name_ends_where_the_question_is_asked_again() {
    let question = "Which party will win in Bath Which party will win in Wells?";
    assert_eq!(extract_constituency_name(question), "Bath ");
    let plain = "Which party will win Bath Which party will win Wells?";
    assert_eq!(extract_constituency_name(plain), "Bath ");
}

#[test]
fn the_form_with_in_is_looked_for_first() {
    let question = "Which party will win or lose? Which party will win in Wells?";
    assert_eq!(extract_constituency_name(question), "Wells");
}

#[test]
fn other_text_names_no_constituency() {
    assert!(!asks_for_constituency("Who will be the next Prime Minister?"));
    assert!(!asks_for_constituency(""));
    assert!(!asks_for_constituency("Which party will win"));
    assert!(!asks_for_constituency("which party will win in Bath?"));
}
