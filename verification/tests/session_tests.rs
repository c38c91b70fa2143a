use orbit::session::{CwdMemory, Location, PipState, Session, TickProbe, ALERT_MILLIS};

fn probe(idle: bool, elevated: bool) -> Option<TickProbe> {
    Some(TickProbe { idle, elevated })
}

#[test]
fn a_new_session_is_docked_and_idle() {
    let s = Session::new(3, 7, 1000);
    assert_eq!(s.id(), 3);
    assert_eq!(s.emoji, 7);
    assert_eq!(s.location, Location::Sidebar);
    assert_eq!(s.pip, PipState::Idle);
    assert!(!s.is_busy());
    assert!(!s.has_attention());
    assert_eq!(s.state_since, 1000);
    assert_eq!(s.shell_pid, None);
}

#[test]
fn docked_session_that_finishes_asks_for_attention() {
    let mut s = Session::new(1, 0, 0);
    assert!(s.tick(100, probe(false, false)));
    assert!(s.is_busy());
    assert_eq!(s.pip, PipState::Busy);
    assert_eq!(s.state_since, 100);
    assert!(!s.has_attention());
    assert!(s.tick(200, probe(true, false)));
    assert!(!s.is_busy());
    assert_eq!(s.pip, PipState::Idle);
    assert_eq!(s.state_since, 200);
    assert!(s.has_attention());
}

#[test]
fn arena_session_that_finishes_does_not_ask() {
    let mut s = Session::new(1, 0, 0);
    s.place_in_arena();
    assert!(!s.tick(100, probe(false, true)));
    assert!(s.elevated);
    assert!(!s.tick(200, probe(true, false)));
    assert!(!s.has_attention());
    assert!(!s.elevated);
}

#[test]
fn unchanged_state_keeps_its_clock() {
    let mut s = Session::new(1, 0, 50);
    s.tick(100, probe(true, false));
    assert_eq!(s.state_since, 50);
    s.tick(150, None);
    assert_eq!(s.state_since, 50);
}

#[test]
fn an_alert_holds_the_pip_until_it_expires() {
    let mut s = Session::new(1, 0, 0);
    s.raise_alert(1000);
    assert_eq!(s.pip, PipState::Alert);
    assert_eq!(s.alert_until, Some(1000 + ALERT_MILLIS));
    s.tick(1200, probe(false, false));
    assert_eq!(s.pip, PipState::Alert);
    assert!(s.is_busy());
    s.tick(2500, probe(false, false));
    assert_eq!(s.pip, PipState::Busy);
    assert_eq!(s.alert_until, None);
}

#[test]
fn placing_in_the_arena_acknowledges_attention() {
    let mut s = Session::new(1, 0, 0);
    assert!(s.set_attention(true));
    assert!(!s.set_attention(true));
    s.place_in_arena();
    assert_eq!(s.location, Location::Arena);
    assert!(!s.has_attention());
    s.place_in_sidebar();
    assert_eq!(s.location, Location::Sidebar);
}

#[test]
fn peeking_acknowledges_attention_once() {
    let mut s = Session::new(1, 0, 0);
    s.set_attention(true);
    assert!(s.peek());
    assert!(!s.has_attention());
    assert!(!s.peek());
    s.end_peek();
    assert!(s.peek());
    let mut a = Session::new(2, 0, 0);
    a.place_in_arena();
    assert!(!a.peek());
}

#[test]
fn setters_report_changes() {
    let mut s = Session::new(1, 0, 0);
    assert!(!s.set_pip(PipState::Idle));
    assert!(s.set_pip(PipState::Busy));
    assert!(s.set_elevated(true));
    assert!(!s.set_elevated(true));
    s.set_shell_pid(4321);
    assert_eq!(s.shell_pid, Some(4321));
}

#[test]
fn pip_style_classes() {
    assert_eq!(PipState::Idle.css(), "idle");
    assert_eq!(PipState::Busy.css(), "busy");
    assert_eq!(PipState::Alert.css(), "alert");
}

#[test]
fn caption_shows_state_and_its_age() {
    let mut s = Session::new(1, 0, 1000);
    assert_eq!(s.metrics_caption(16_000), "idle 15s");
    s.tick(2000, probe(false, false));
    assert_eq!(s.metrics_caption(122_000), "busy 2m");
    assert_eq!(s.metrics_caption(1000), "busy 0s");
}

#[test]
fn cwd_polls_report_only_changes() {
    let mut m = CwdMemory::new();
    assert_eq!(m.poll(None), None);
    assert_eq!(m.poll(Some("/home".to_string())), Some("/home".to_string()));
    assert_eq!(m.poll(Some("/home".to_string())), None);
    m.note_reported("/tmp".to_string());
    assert_eq!(m.poll(Some("/tmp".to_string())), None);
    assert_eq!(m.poll(Some("/srv".to_string())), Some("/srv".to_string()));
    assert_eq!(m.last, Some("/srv".to_string()));
}
