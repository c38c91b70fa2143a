use orbit::templates::WorkspaceTemplate;

fn names(t: &WorkspaceTemplate) -> Vec<(String, bool)> {
    t.sessions.iter().map(|s| (s.name.clone(), s.promote)).collect()
}

#[test]
fn four_presets_in_order() {
    let all = WorkspaceTemplate::all();
    let got: Vec<&str> = all.iter().map(|t| t.name).collect();
    assert_eq!(got, vec!["Empty", "Fullstack", "Microservices", "Dev"]);
}

#[test]
fn empty_preset_has_one_promoted_shell() {
    let all = WorkspaceTemplate::all();
    assert_eq!(names(&all[0]), vec![("Shell".to_string(), true)]);
}

#[test]
fn fullstack_preset_promotes_four() {
    let all = WorkspaceTemplate::all();
    assert_eq!(
        names(&all[1]),
        vec![
            ("API".to_string(), true),
            ("UI".to_string(), true),
            ("DB".to_string(), true),
            ("Tests".to_string(), true),
            ("Cloud Logs".to_string(), false),
            ("Git Monitor".to_string(), false),
        ]
    );
}

#[test]
fn microservices_and_dev_presets() {
    let all = WorkspaceTemplate::all();
    assert_eq!(
        names(&all[2]),
        vec![
            ("Gateway".to_string(), true),
            ("Auth".to_string(), true),
            ("Worker".to_string(), true),
            ("Queue".to_string(), false),
            ("Metrics".to_string(), false),
        ]
    );
    assert_eq!(names(&all[3]), vec![("Editor".to_string(), true), ("Build".to_string(), true)]);
}

#[test]
fn presets_are_found_by_their_names() {
    for t in WorkspaceTemplate::all() {
        let found = WorkspaceTemplate::by_name(t.name).expect("preset by its own name");
        assert_eq!(found.name, t.name);
        assert_eq!(names(&found), names(&t));
    }
}

#[test]
fn unknown_or_miscased_names_find_nothing() {
    assert!(WorkspaceTemplate::by_name("Nope").is_none());
    assert!(WorkspaceTemplate::by_name("empty").is_none());
    assert!(WorkspaceTemplate::by_name("").is_none());
    assert!(WorkspaceTemplate::by_name("Dev ").is_none());
}
