use orbit::session::{elevated_css_classes, PendingInput};
use orbit::tabs::{
    may_close_current, restored_tree_width, terminal_title, workspace_name, PageClose, WorkspaceTabs,
};
use orbit::workspace::Workspace;

#[test]
fn pages_get_numbered_workspaces() {
    let mut tabs = WorkspaceTabs::new();
    assert_eq!(tabs.open_page(0xa0), 1);
    assert_eq!(tabs.open_page(0xb0), 2);
    assert_eq!(tabs.workspace_of(0xa0), Some(1));
    assert_eq!(tabs.workspace_of(0xb0), Some(2));
    assert_eq!(tabs.workspace_of(0xc0), None);
    assert_eq!(tabs.open_page(0xa0), 3);
    assert_eq!(tabs.workspace_of(0xa0), Some(3));
}

#[test]
fn the_last_page_stays_open() {
    let mut tabs = WorkspaceTabs::new();
    tabs.open_page(1);
    assert_eq!(tabs.close_page(1, 1), PageClose::Refuse);
    assert_eq!(tabs.workspace_of(1), Some(1));
    tabs.open_page(2);
    assert_eq!(tabs.close_page(1, 2), PageClose::Close(Some(1)));
    assert_eq!(tabs.workspace_of(1), None);
    assert_eq!(tabs.workspace_of(2), Some(2));
    assert_eq!(tabs.close_page(9, 2), PageClose::Close(None));
    assert!(!may_close_current(1));
    assert!(may_close_current(2));
    assert!(!may_close_current(0));
}

#[test]
fn workspace_names_are_trimmed() {
    assert_eq!(workspace_name("  Backend \n"), Some("Backend".to_string()));
    assert_eq!(workspace_name("a b"), Some("a b".to_string()));
    assert_eq!(workspace_name("   "), None);
    assert_eq!(workspace_name(""), None);
    assert_eq!(workspace_name("\u{3000}x\u{2003}"), Some("x".to_string()));
}

#[test]
fn terminals_opened_from_the_tree_are_titled_by_directory() {
    assert_eq!(terminal_title(b"/home/user/src"), b"src".to_vec());
    assert_eq!(terminal_title(b"/home/user/"), b"user".to_vec());
    assert_eq!(terminal_title(b"/"), b"/".to_vec());
    assert_eq!(terminal_title(b"/a/.."), b"/".to_vec());
    assert_eq!(terminal_title(b""), b"/".to_vec());
    for p in ["/usr/lib", "/x/./y/", "rel/dir", ".", "..", "/.hidden"] {
        let expected = std::path::Path::new(p)
            .file_name()
            .map(|n| n.to_string_lossy().to_string())
            .unwrap_or_else(|| "/".to_string());
        assert_eq!(String::from_utf8(terminal_title(p.as_bytes())).unwrap(), expected, "{:?}", p);
    }
}

#[test]
fn the_tree_width_comes_back() {
    assert_eq!(restored_tree_width(310), 310);
    assert_eq!(restored_tree_width(0), 240);
    assert_eq!(restored_tree_width(-5), 240);
}

#[test]
fn new_shells_are_titled_by_number() {
    let mut ws = Workspace::empty();
    assert_eq!(ws.new_session_title(), "Shell 1");
    for k in 0..11 {
        ws.spawn_session(false, k, 0);
    }
    assert_eq!(ws.new_session_title(), "Shell 12");
}

#[test]
fn elevated_headers_follow_the_theme() {
    assert_eq!(elevated_css_classes(true), ("elevated-dark", "elevated-light"));
    assert_eq!(elevated_css_classes(false), ("elevated-light", "elevated-dark"));
}

#[test]
fn input_waits_for_the_shell() {
    let mut p = PendingInput::new();
    assert_eq!(p.queue("sudo -i\n".to_string()), None);
    assert_eq!(p.queue("ls\n".to_string()), None);
    assert_eq!(p.shell_started(), Some("ls\n".to_string()));
    assert_eq!(p.shell_started(), None);
    assert_eq!(p.queue("pwd\n".to_string()), Some("pwd\n".to_string()));
}
