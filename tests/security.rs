use firmware_setup::key::Key;
use firmware_setup::security::{
    challenge_result, security_next, Challenge, SecurityAction, SecurityEvent, SecurityPhase,
    SecurityState, UefiTimeout, Verdict,
};
use firmware_setup::Status;

fn challenge(bytes: [u8; 4]) -> Challenge {
    match Challenge::new(Ok(bytes)) {
        Ok(c) => c,
        Err(_) => panic!("a challenge"),
    }
}

fn type_code(c: &mut Challenge, code: &str) {
    for ch in code.chars() {
        assert_eq!(c.handle(Key::Character(ch)), Verdict::Pending);
    }
}

#[test]
fn code_is_four_random_bytes_modulo_one_hundred() {
    let c = challenge([12, 34, 56, 78]);
    assert_eq!(c.code().as_slice(), b"12345678");
    let c = challenge([0, 199, 255, 100]);
    assert_eq!(c.code().as_slice(), b"00995500");
}

#[test]
fn no_random_source_no_challenge() {
    assert!(matches!(Challenge::new(Err(Status::NotFound)), Err(Status::NotFound)));
}

#[test]
fn exact_code_confirms() {
    let mut c = challenge([12, 34, 56, 78]);
    type_code(&mut c, "12345678");
    assert_eq!(c.input().as_slice(), b"12345678");
    assert_eq!(c.handle(Key::Enter), Verdict::Confirmed);
}

#[test]
fn wrong_code_clears_input_and_waits() {
    let mut c = challenge([12, 34, 56, 78]);
    type_code(&mut c, "12345679");
    assert_eq!(c.handle(Key::Enter), Verdict::Pending);
    assert!(c.input().is_empty());
    type_code(&mut c, "1234");
    assert_eq!(c.handle(Key::Enter), Verdict::Pending);
    assert!(c.input().is_empty());
    type_code(&mut c, "12345678");
    assert_eq!(c.handle(Key::Enter), Verdict::Confirmed);
}

#[test]
fn input_is_bounded_and_digits_only() {
    let mut c = challenge([12, 34, 56, 78]);
    type_code(&mut c, "12a345678999");
    assert_eq!(c.input().as_slice(), b"12345678");
    c.handle(Key::Backspace);
    assert_eq!(c.input().as_slice(), b"1234567");
    c.handle(Key::Escape);
    assert!(c.input().is_empty());
    c.handle(Key::Backspace);
    assert!(c.input().is_empty());
}

#[test]
fn cancel_is_chosen_with_down() {
    let mut c = challenge([12, 34, 56, 78]);
    assert_eq!(c.button(), 0);
    c.handle(Key::Down);
    c.handle(Key::Down);
    assert_eq!(c.button(), 1);
    type_code(&mut c, "12345678");
    assert_eq!(c.handle(Key::Enter), Verdict::Cancelled);
    c.handle(Key::Up);
    c.handle(Key::Up);
    assert_eq!(c.button(), 0);
}

#[test]
fn verdicts_become_results() {
    assert_eq!(challenge_result(Verdict::Pending), None);
    assert_eq!(challenge_result(Verdict::Confirmed), Some(Ok(())));
    assert_eq!(challenge_result(Verdict::Cancelled), Some(Err(Status::Aborted)));
}

#[test]
fn locked_system_skips_challenge() {
    let (p, a) = security_next(SecurityPhase::Idle, SecurityEvent::State(Ok(SecurityState::Lock)));
    assert_eq!(p, SecurityPhase::Finished);
    assert_eq!(a, SecurityAction::Return(false));
    let (_, a) = security_next(SecurityPhase::Idle, SecurityEvent::State(Err(Status::Failure(1))));
    assert_eq!(a, SecurityAction::Return(false));
}

#[test]
fn cancelled_challenge_fails_safe_once() {
    let events = [
        SecurityEvent::State(Ok(SecurityState::Unlock)),
        SecurityEvent::Prompt(Err(Status::Aborted)),
        SecurityEvent::Prompt(Err(Status::Aborted)),
        SecurityEvent::State(Ok(SecurityState::Unlock)),
    ];
    let mut phase = SecurityPhase::Idle;
    let mut actions = Vec::new();
    for ev in events.iter() {
        let (p, a) = security_next(phase, *ev);
        phase = p;
        actions.push(a);
    }
    assert_eq!(actions[0], SecurityAction::ShowPrompt);
    assert_eq!(actions[1], SecurityAction::LockAndShutdown);
    let fail_safes = actions.iter().filter(|a| **a == SecurityAction::LockAndShutdown).count();
    assert_eq!(fail_safes, 1);
}

#[test]
fn missing_random_source_fails_safe() {
    let (p, _) = security_next(SecurityPhase::Idle, SecurityEvent::State(Ok(SecurityState::PrepareLock)));
    let (_, a) = security_next(p, SecurityEvent::Prompt(Err(Status::NotFound)));
    assert_eq!(a, SecurityAction::LockAndShutdown);
}

#[test]
fn confirmed_challenge_proceeds() {
    let (p, a) = security_next(SecurityPhase::Idle, SecurityEvent::State(Ok(SecurityState::Unlock)));
    assert_eq!(a, SecurityAction::ShowPrompt);
    let (p, a) = security_next(p, SecurityEvent::Prompt(Ok(())));
    assert_eq!(a, SecurityAction::Return(true));
    assert_eq!(p, SecurityPhase::Finished);
}

#[test]
fn timeout_counts_polls() {
    let mut t = UefiTimeout::new(3);
    assert!(t.running());
    assert!(t.running());
    assert!(!t.running());
    t.reset();
    assert!(t.running());
    let mut z = UefiTimeout::new(0);
    assert!(!z.running());
}
