use orbit::hover::hover_reaches;
use orbit::launch::{shell_program, start_dir};
use orbit::tabs::{toggle_file_tree, TreeToggle};
use orbit::theme::{scheme_for, theme_choice, ColorScheme, ThemeChoice};

#[test]
fn the_shell_is_the_users_or_bash() {
    assert_eq!(shell_program(Some("/usr/bin/zsh".to_string())), "/usr/bin/zsh");
    assert_eq!(shell_program(None), "/bin/bash");
}

#[test]
fn a_terminal_starts_where_asked_else_at_home() {
    let home = Some("/home/u".to_string());
    assert_eq!(start_dir(Some("/srv".to_string()), home.clone()), Some("/srv".to_string()));
    assert_eq!(start_dir(None, home.clone()), home);
    assert_eq!(start_dir(None, None), None);
}

#[test]
fn a_session_dragged_over_itself_is_ignored() {
    assert!(!hover_reaches(3, 3));
    assert!(hover_reaches(3, 4));
}

#[test]
fn toggling_the_file_tree_keeps_its_width() {
    let hide = toggle_file_tree(true, 310, 0);
    assert_eq!(hide, TreeToggle::Hide { keep_width: 310 });
    assert!(!hide.opens());
    let show = toggle_file_tree(false, 0, 310);
    assert_eq!(show, TreeToggle::Show { width: 310 });
    assert!(show.opens());
    assert_eq!(toggle_file_tree(false, 0, 0), TreeToggle::Show { width: 240 });
}

#[test]
fn theme_buttons_follow_the_scheme() {
    assert_eq!(theme_choice(ColorScheme::Default), ThemeChoice::System);
    assert_eq!(theme_choice(ColorScheme::PreferLight), ThemeChoice::Light);
    assert_eq!(theme_choice(ColorScheme::ForceLight), ThemeChoice::Light);
    assert_eq!(theme_choice(ColorScheme::PreferDark), ThemeChoice::Dark);
    assert_eq!(theme_choice(ColorScheme::ForceDark), ThemeChoice::Dark);
    assert_eq!(scheme_for(ThemeChoice::System), ColorScheme::Default);
    assert_eq!(scheme_for(ThemeChoice::Light), ColorScheme::ForceLight);
    assert_eq!(scheme_for(ThemeChoice::Dark), ColorScheme::ForceDark);
    for c in [ThemeChoice::System, ThemeChoice::Light, ThemeChoice::Dark] {
        assert_eq!(theme_choice(scheme_for(c)), c);
    }
}
