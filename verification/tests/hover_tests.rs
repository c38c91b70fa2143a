use orbit::hover::HoverGate;
use orbit::runtime::{command_text, foreground_step, CommandText, ForegroundStep};

#[test]
fn only_the_latest_hover_updates() {
    let mut g = HoverGate::new();
    assert!(g.accepts_events());
    let first = g.enter();
    assert_eq!(first, 1);
    let second = g.enter();
    assert!(!g.still_current(first));
    assert!(g.still_current(second));
    assert_eq!(g.token(), second);
    g.begin_update();
    assert!(!g.accepts_events());
    g.end_update();
    assert!(g.accepts_events());
}

#[test]
fn generations_wrap_around() {
    let mut g = HoverGate::new();
    for _ in 0..3 {
        g.enter();
    }
    assert_eq!(g.token(), 3);
}

#[test]
fn foreground_steps_descend_through_shells() {
    assert!(matches!(foreground_step(5, None), ForegroundStep::Stop));
    assert!(matches!(foreground_step(5, Some("-bash\n")), ForegroundStep::Descend(5)));
    match foreground_step(7, Some("vim\n")) {
        ForegroundStep::ReadCmdline(pid, name) => {
            assert_eq!(pid, 7);
            assert_eq!(name, "vim");
        }
        _ => panic!("expected a command"),
    }
}

#[test]
fn command_text_prefers_the_arguments() {
    assert!(command_text(None, "x".to_string()).is_none());
    match command_text(Some(b"node\0app.js\0"), "MainThread".to_string()) {
        Some(CommandText::Args(v)) => assert_eq!(v, b"node app.js".to_vec()),
        _ => panic!("expected arguments"),
    }
    match command_text(Some(b""), "top".to_string()) {
        Some(CommandText::Name(n)) => assert_eq!(n, "top"),
        _ => panic!("expected the name"),
    }
}
