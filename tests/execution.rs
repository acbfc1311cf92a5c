use prefix_strip::engine::{classify_reply, classify_trimmed, Action, Engine, Reply, Stage};

#[test]
fn replies_are_read_after_trimming() {
    assert_eq!(classify_reply("y\n"), Reply::Yes);
    assert_eq!(classify_reply("  Y \n"), Reply::Yes);
    assert_eq!(classify_reply("n\n"), Reply::No);
    assert_eq!(classify_reply(" N\n"), Reply::No);
    assert_eq!(classify_reply("\n"), Reply::No);
    assert_eq!(classify_reply(""), Reply::No);
    assert_eq!(classify_reply("yes\n"), Reply::Unrecognized);
    assert_eq!(classify_reply("q"), Reply::Unrecognized);
}

#[test]
fn untrimmed_text_is_not_trimmed_again() {
    assert_eq!(classify_trimmed(" y"), Reply::Unrecognized);
    assert_eq!(classify_trimmed("y"), Reply::Yes);
}

#[test]
fn one_failed_rename_of_three() {
    let mut engine = Engine::new(3, true);
    let results = [true, false, true];
    let mut attempted = Vec::new();
    let mut reports = 0;
    loop {
        match engine.next_action() {
            Action::Rename(i) => {
                attempted.push(i);
                if engine.on_renamed(results[i]) {
                    reports += 1;
                }
            }
            Action::Finish => break,
            Action::Prompt => panic!("confirmation was skipped"),
        }
    }
    assert_eq!(attempted, vec![0, 1, 2]);
    assert_eq!(reports, 1);
}

#[test]
fn declining_renames_nothing() {
    for answer in ["n\n", "N\n", "\n"] {
        let mut engine = Engine::new(2, false);
        assert_eq!(engine.next_action(), Action::Prompt);
        engine.on_reply(classify_reply(answer));
        assert_eq!(engine.stage, Stage::Done);
        assert_eq!(engine.next_action(), Action::Finish);
        engine.on_reply(Reply::Yes);
        assert_eq!(engine.next_action(), Action::Finish);
    }
}

#[test]
fn unrecognized_answer_asks_again() {
    let mut engine = Engine::new(1, false);
    engine.on_reply(Reply::Unrecognized);
    assert_eq!(engine.next_action(), Action::Prompt);
    engine.on_reply(Reply::Yes);
    assert_eq!(engine.next_action(), Action::Rename(0));
    assert!(!engine.on_renamed(true));
    assert_eq!(engine.next_action(), Action::Finish);
}

#[test]
fn read_error_ends_the_run() {
    let mut engine = Engine::new(4, false);
    engine.on_read_error();
    assert_eq!(engine.stage, Stage::Done);
    assert_eq!(engine.next_action(), Action::Finish);
}

#[test]
fn empty_batch_finishes_at_once() {
    let engine = Engine::new(0, true);
    assert_eq!(engine.next_action(), Action::Finish);
}

#[test]
fn unicode_white_space_is_trimmed() {
    assert_eq!(classify_reply("\u{3000}y\t\r\n"), Reply::Yes);
    assert_eq!(classify_reply("\u{a0}N\u{2028}"), Reply::No);
    assert_eq!(classify_reply(" \u{200b}y"), Reply::Unrecognized);
}
