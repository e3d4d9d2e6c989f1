use mini_greeter::prompt::{
    prompt_line, prompt_password, PromptAction, PromptEvent, PromptState,
};

fn read(line: &str) -> Option<String> {
    prompt_line(line.len(), line.to_string())
}

#[test]
fn line_ends_are_taken_off() {
    assert_eq!(read("bob\n"), Some("bob".to_string()));
    assert_eq!(read("bob\r\n"), Some("bob".to_string()));
    assert_eq!(read("bob"), Some("bob".to_string()));
    assert_eq!(read("\n"), Some("".to_string()));
    assert_eq!(read(" bob \n\r\n"), Some(" bob ".to_string()));
    assert_eq!(read("a\nb\n"), Some("a\nb".to_string()));
    assert_eq!(read("pässwörd\n"), Some("pässwörd".to_string()));
}

#[test]
fn no_bytes_mean_the_end_of_input() {
    assert_eq!(prompt_line(0, String::new()), None);
    assert!(prompt_password(0, String::new()).is_none());
}

#[test]
fn a_password_is_the_text_of_its_line() {
    let secret = prompt_password(10, " s3cret \r\n".to_string()).unwrap();
    assert_eq!(secret.as_str(), " s3cret ");
}

#[test]
fn a_password_stays_in_its_buffer() {
    let mut line = String::with_capacity(256);
    line.push_str("hunter2\n");
    let start = line.as_ptr();
    let mut secret = prompt_password(8, line).unwrap();
    assert_eq!(secret.as_str().as_ptr(), start);
    assert_eq!(secret.buffer().as_str(), "hunter2");
    secret.buffer().clear();
    assert_eq!(secret.as_str(), "");
}

#[test]
fn asking_hides_and_restores() {
    let mut state = PromptState::Writing;
    assert!(matches!(state.step(PromptEvent::Written(true)), Some(PromptAction::ReadHidden)));
    assert_eq!(state, PromptState::Reading);
    let event = PromptEvent::LineRead { bytes_read: 3, line: "pw\n".to_string() };
    match state.step(event) {
        Some(PromptAction::RestoreAndFinish(Some(secret))) => assert_eq!(secret.as_str(), "pw"),
        _ => panic!("no password"),
    }
    assert_eq!(state, PromptState::Done);
}

#[test]
fn echo_comes_back_when_reading_fails() {
    let mut state = PromptState::Reading;
    assert!(matches!(state.step(PromptEvent::ReadFailed), Some(PromptAction::RestoreAndGiveUp)));
    assert_eq!(state, PromptState::Done);
    let mut state = PromptState::Reading;
    let end = PromptEvent::LineRead { bytes_read: 0, line: String::new() };
    assert!(matches!(state.step(end), Some(PromptAction::RestoreAndFinish(None))));
}

#[test]
fn echo_is_not_touched_when_the_prompt_fails() {
    let mut state = PromptState::Writing;
    assert!(matches!(state.step(PromptEvent::Written(false)), Some(PromptAction::GiveUp)));
    assert_eq!(state, PromptState::Done);
}

#[test]
fn unexpected_steps_change_nothing() {
    let mut state = PromptState::Writing;
    assert!(state.step(PromptEvent::ReadFailed).is_none());
    assert_eq!(state, PromptState::Writing);
    let mut state = PromptState::Done;
    assert!(state.step(PromptEvent::Written(true)).is_none());
    assert_eq!(state, PromptState::Done);
}
