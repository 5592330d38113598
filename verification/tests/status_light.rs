use hypha::blink::{BlinkAction, BlinkCommand, BlinkEvent, Blinker, LedAction};
use hypha::http::{blink_command, content_length, down_services, server_url, QueryError};
use hypha::{ServiceStatuses, UnitActiveState, UnitActiveSubState, UnitLoadState};

fn timed(led: LedAction, ms: u64) -> BlinkAction {
    BlinkAction { led: Some(led), wait_ms: Some(ms) }
}

fn statuses() -> ServiceStatuses {
    let mut s = ServiceStatuses::new();
    s.insert(
        "polkit.service".to_string(),
        (UnitLoadState::Loaded, UnitActiveState::Active, UnitActiveSubState::Running),
    );
    s.insert(
        "audit.service".to_string(),
        (UnitLoadState::Masked, UnitActiveState::Inactive, UnitActiveSubState::Exited),
    );
    s.insert(
        "reload.service".to_string(),
        (UnitLoadState::Loaded, UnitActiveState::Reloading, UnitActiveSubState::Reload),
    );
    s.insert(
        "broken.service".to_string(),
        (UnitLoadState::Loaded, UnitActiveState::Failed, UnitActiveSubState::Failed),
    );
    s.insert(
        "odd.service".to_string(),
        (UnitLoadState::NotFound, UnitActiveState::Active, UnitActiveSubState::Running),
    );
    s
}

#[test]
fn down_services_are_not_loaded_or_not_active() {
    let down: Vec<String> = down_services(&statuses()).into_iter().map(|(n, _)| n).collect();
    assert_eq!(down, vec!["audit.service", "broken.service", "odd.service"]);
}

#[test]
fn blink_codes() {
    let down = down_services(&statuses());
    assert_eq!(blink_command(&Ok(down)), BlinkCommand::SolidThenPulseN(3));
    let mut up = ServiceStatuses::new();
    up.insert(
        "polkit.service".to_string(),
        (UnitLoadState::Loaded, UnitActiveState::Active, UnitActiveSubState::Running),
    );
    assert_eq!(blink_command(&Ok(down_services(&up))), BlinkCommand::Off);
    assert_eq!(blink_command(&Err(QueryError::Parse)), BlinkCommand::Solid);
    assert_eq!(
        blink_command(&Err(QueryError::ClientInit("ESP_FAIL".to_string()))),
        BlinkCommand::Solid
    );
    assert_eq!(
        blink_command(&Err(QueryError::Http("ESP_ERR_HTTP_CONNECT".to_string()))),
        BlinkCommand::AlternateEveryMilli(1000)
    );
}

#[test]
fn content_length_header() {
    assert_eq!(content_length(Some("123")), Ok(123));
    assert_eq!(content_length(Some("0")), Ok(0));
    assert_eq!(content_length(Some("+42")), Ok(42));
    assert_eq!(content_length(Some("007")), Ok(7));
    assert_eq!(content_length(None), Err(QueryError::Parse));
    assert_eq!(content_length(Some("")), Err(QueryError::Parse));
    assert_eq!(content_length(Some("+")), Err(QueryError::Parse));
    assert_eq!(content_length(Some("-1")), Err(QueryError::Parse));
    assert_eq!(content_length(Some("12a")), Err(QueryError::Parse));
    assert_eq!(content_length(Some(" 12")), Err(QueryError::Parse));
    assert_eq!(content_length(Some("99999999999999999999999999")), Err(QueryError::Parse));
    let max = usize::MAX.to_string();
    assert_eq!(content_length(Some(&max)), Ok(usize::MAX));
    for text in ["123", "+9", "", "x", "-0", "18446744073709551616"] {
        assert_eq!(content_length(Some(text)).ok(), text.parse::<usize>().ok());
    }
}

#[test]
fn status_url() {
    assert_eq!(server_url("192.168.1.20"), "http://192.168.1.20:8910/api");
    assert_eq!(server_url(""), "http://:8910/api");
}

#[test]
fn off_switches_the_light_off() {
    let mut blinker = Blinker::new();
    assert_eq!(
        blinker.handle(BlinkEvent::TimerElapsed),
        BlinkAction { led: Some(LedAction::SetLow), wait_ms: None }
    );
    assert_eq!(
        blinker.handle(BlinkEvent::Received(BlinkCommand::Solid)),
        BlinkAction { led: Some(LedAction::SetHigh), wait_ms: None }
    );
    assert_eq!(
        blinker.handle(BlinkEvent::Received(BlinkCommand::Off)),
        BlinkAction { led: Some(LedAction::SetLow), wait_ms: None }
    );
    blinker.handle(BlinkEvent::Received(BlinkCommand::SolidThenPulseN(2)));
    assert_eq!(
        blinker.handle(BlinkEvent::Received(BlinkCommand::Off)),
        BlinkAction { led: Some(LedAction::SetLow), wait_ms: None }
    );
}

#[test]
fn solid_sets_the_light_and_waits_for_a_command() {
    let mut blinker = Blinker::new();
    assert_eq!(
        blinker.handle(BlinkEvent::Received(BlinkCommand::Solid)),
        BlinkAction { led: Some(LedAction::SetHigh), wait_ms: None }
    );
}

#[test]
fn solid_then_two_pulses_repeats() {
    let mut blinker = Blinker::new();
    let mut seen = vec![blinker.handle(BlinkEvent::Received(BlinkCommand::SolidThenPulseN(2)))];
    for _ in 0..7 {
        seen.push(blinker.handle(BlinkEvent::TimerElapsed));
    }
    let period = vec![
        timed(LedAction::SetHigh, 2000),
        timed(LedAction::SetLow, 250),
        timed(LedAction::SetHigh, 250),
        timed(LedAction::SetLow, 250),
        timed(LedAction::SetHigh, 250),
        timed(LedAction::SetLow, 500),
    ];
    assert_eq!(&seen[..6], &period[..]);
    assert_eq!(&seen[6..], &period[..2]);
    let blinks = period.iter().filter(|a| **a == timed(LedAction::SetLow, 250)).count();
    assert_eq!(blinks, 2);
    let total: u64 = period.iter().map(|a| a.wait_ms.unwrap()).sum();
    assert_eq!(total, 2500 + 500 * 2);
}

#[test]
fn zero_pulses_is_solid_then_off() {
    let mut blinker = Blinker::new();
    assert_eq!(
        blinker.handle(BlinkEvent::Received(BlinkCommand::SolidThenPulseN(0))),
        timed(LedAction::SetHigh, 2000)
    );
    assert_eq!(blinker.handle(BlinkEvent::TimerElapsed), timed(LedAction::SetLow, 500));
    assert_eq!(blinker.handle(BlinkEvent::TimerElapsed), timed(LedAction::SetHigh, 2000));
}

#[test]
fn alternating_toggles_every_period() {
    let mut blinker = Blinker::new();
    assert_eq!(
        blinker.handle(BlinkEvent::Received(BlinkCommand::AlternateEveryMilli(1000))),
        timed(LedAction::Toggle, 1000)
    );
    for _ in 0..5 {
        assert_eq!(blinker.handle(BlinkEvent::TimerElapsed), timed(LedAction::Toggle, 1000));
    }
}

#[test]
fn a_new_command_restarts_from_its_first_step() {
    let mut blinker = Blinker::new();
    blinker.handle(BlinkEvent::Received(BlinkCommand::SolidThenPulseN(3)));
    blinker.handle(BlinkEvent::TimerElapsed);
    blinker.handle(BlinkEvent::TimerElapsed);
    assert_eq!(
        blinker.handle(BlinkEvent::Received(BlinkCommand::SolidThenPulseN(1))),
        timed(LedAction::SetHigh, 2000)
    );
    assert_eq!(blinker.handle(BlinkEvent::TimerElapsed), timed(LedAction::SetLow, 250));
    assert_eq!(blinker.handle(BlinkEvent::TimerElapsed), timed(LedAction::SetHigh, 250));
    assert_eq!(blinker.handle(BlinkEvent::TimerElapsed), timed(LedAction::SetLow, 500));
    assert_eq!(blinker.handle(BlinkEvent::TimerElapsed), timed(LedAction::SetHigh, 2000));
}

#[test]
fn query_error_messages() {
    assert_eq!(QueryError::Parse.message(), "Couldn't parse server response");
    assert_eq!(
        QueryError::ClientInit("ESP_ERR_NO_MEM".to_string()).message(),
        "Couldn't create client"
    );
    assert_eq!(
        QueryError::Http("ESP_ERR_HTTP_CONNECT".to_string()).message(),
        "Error while sending http request (ESP_ERR_HTTP_CONNECT)"
    );
    assert_eq!(QueryError::Http(String::new()).message(), "Error while sending http request ()");
}
