use guessing_game::guess::{read_guess, ParseFailure};
use guessing_game::session::{
    compare, start_session, Secret, Session, SessionState, HIGHEST_SECRET, LOWEST_SECRET,
};
use std::cmp::Ordering;

fn session_with(secret: u32) -> Session {
    Session::new(Secret::new(secret).expect("secret within range"))
}

#[test]
fn start_session_reaches_every_value() {
    let mut seen = [false; 101];
    for _ in 0..20000 {
        let v = start_session().value();
        assert!(v >= LOWEST_SECRET && v <= HIGHEST_SECRET);
        seen[v as usize] = true;
    }
    for v in LOWEST_SECRET..=HIGHEST_SECRET {
        assert!(seen[v as usize], "value {} never drawn", v);
    }
}

#[test]
fn secret_new_keeps_the_range() {
    assert!(Secret::new(0).is_none());
    assert!(Secret::new(101).is_none());
    assert!(Secret::new(u32::MAX).is_none());
    assert_eq!(Secret::new(1).map(|s| s.value()), Some(1));
    assert_eq!(Secret::new(100).map(|s| s.value()), Some(100));
    assert_eq!(Secret::new(37).map(|s| s.value()), Some(37));
}

#[test]
fn read_guess_plain_numbers() {
    assert_eq!(read_guess("42"), Ok(42));
    assert_eq!(read_guess("0"), Ok(0));
    assert_eq!(read_guess("007"), Ok(7));
    assert_eq!(read_guess("+5"), Ok(5));
    assert_eq!(read_guess("4294967295"), Ok(u32::MAX));
}

#[test]
fn read_guess_ignores_surrounding_whitespace() {
    for g in ["0", "1", "42", "100", "4294967295"] {
        let padded = format!("  {}  ", g);
        assert_eq!(read_guess(&padded), read_guess(g));
        let padded = format!("\t{}\r\n", g);
        assert_eq!(read_guess(&padded), read_guess(g));
        let padded = format!("\u{3000}{}\u{a0}", g);
        assert_eq!(read_guess(&padded), read_guess(g));
    }
    assert_eq!(read_guess("  50\n"), Ok(50));
}

#[test]
fn read_guess_rejects_non_numeric() {
    for line in ["abc", "", "12.5", "   ", "\n", "-3", "+", "++1", "1 2", "1+2", "٣", "x7"] {
        assert_eq!(read_guess(line), Err(ParseFailure), "line {:?}", line);
    }
}

#[test]
fn read_guess_rejects_overflow() {
    assert_eq!(read_guess("4294967296"), Err(ParseFailure));
    assert_eq!(read_guess("99999999999999999999999"), Err(ParseFailure));
    assert_eq!(read_guess(" 99999999999999999999999x "), Err(ParseFailure));
}

#[test]
fn compare_orders_like_integers() {
    assert_eq!(compare(5, 10), Ordering::Less);
    assert_eq!(compare(10, 5), Ordering::Greater);
    assert_eq!(compare(7, 7), Ordering::Equal);
    assert_eq!(compare(0, u32::MAX), Ordering::Less);
    assert_eq!(compare(u32::MAX, 0), Ordering::Greater);
}

#[test]
fn unparsable_line_keeps_awaiting() {
    let mut session = session_with(42);
    for line in ["abc", "", "12.5"] {
        assert_eq!(session.submit(line), Err(ParseFailure));
        assert_eq!(session.state(), SessionState::AwaitingInput);
        assert_eq!(session.valid_guesses(), 0);
    }
}

#[test]
fn scenario_secret_fifty() {
    let mut session = session_with(50);
    let mut outcomes = Vec::new();
    for line in ["abc", "10", "50"] {
        assert!(!session.is_terminated());
        outcomes.push(session.submit(line));
    }
    assert_eq!(
        outcomes,
        vec![Err(ParseFailure), Ok(Ordering::Less), Ok(Ordering::Equal)]
    );
    assert!(session.is_terminated());
    assert_eq!(session.state(), SessionState::Terminated);
    assert_eq!(session.valid_guesses(), 2);
}

#[test]
fn scenario_secret_one() {
    let mut session = session_with(1);
    assert_eq!(session.submit("1"), Ok(Ordering::Equal));
    assert!(session.is_terminated());
    assert_eq!(session.valid_guesses(), 1);
}

#[test]
fn greater_guess_keeps_awaiting() {
    let mut session = session_with(30);
    assert_eq!(session.submit(" 99 "), Ok(Ordering::Greater));
    assert_eq!(session.submit("29"), Ok(Ordering::Less));
    assert_eq!(session.state(), SessionState::AwaitingInput);
    assert_eq!(session.valid_guesses(), 2);
    assert_eq!(session.submit("+30\n"), Ok(Ordering::Equal));
    assert_eq!(session.valid_guesses(), 3);
}

#[test]
fn repeated_parse_failures_change_nothing() {
    let mut session = session_with(77);
    assert_eq!(session.submit("10"), Ok(Ordering::Less));
    for _ in 0..1000 {
        assert_eq!(session.submit("not a number"), Err(ParseFailure));
    }
    assert_eq!(session.secret().value(), 77);
    assert_eq!(session.valid_guesses(), 1);
    assert_eq!(session.state(), SessionState::AwaitingInput);
    assert_eq!(session.submit("77"), Ok(Ordering::Equal));
}
