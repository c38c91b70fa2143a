use orbit::session::{Location, TickProbe};
use orbit::workspace::{CloseRequest, FocusRequest, GridHover, Workspace, EMOJI_POOL_LEN};

/// A workspace with `arena` sessions promoted and then `docked` ones in the sidebar; ids
/// are handed out from 1.
fn workspace(arena: u32, docked: u32) -> Workspace {
    let mut ws = Workspace::empty();
    for k in 0..arena {
        ws.spawn_session(true, k as usize, 0);
    }
    for k in 0..docked {
        ws.spawn_session(false, (arena + k) as usize, 0);
    }
    ws
}

fn arena(ws: &Workspace) -> Vec<u32> {
    ws.arena().session_ids()
}

fn dock(ws: &Workspace) -> Vec<u32> {
    ws.sidebar().session_ids()
}

fn location(ws: &Workspace, id: u32) -> Location {
    ws.find(id).expect("session exists").location
}

#[test]
fn spawned_sessions_fill_the_arena_then_the_sidebar() {
    let mut ws = Workspace::empty();
    for k in 0..6 {
        let id = ws.spawn_session(true, k, 0);
        assert_eq!(id, k as u32 + 1);
    }
    assert_eq!(arena(&ws), vec![1, 2, 3, 4]);
    assert_eq!(dock(&ws), vec![5, 6]);
    assert_eq!(location(&ws, 4), Location::Arena);
    assert_eq!(location(&ws, 5), Location::Sidebar);
    assert_eq!(ws.next_session_id(), 7);
    assert_eq!(ws.sessions().len(), 6);
}

#[test]
fn emoji_pool_offers_unused_emojis_first() {
    let mut ws = Workspace::empty();
    let pool = ws.emoji_pool();
    assert_eq!(pool, (0..EMOJI_POOL_LEN).collect::<Vec<usize>>());
    ws.spawn_session(false, 0, 0);
    ws.spawn_session(false, 5, 0);
    let pool = ws.emoji_pool();
    assert_eq!(pool.len(), EMOJI_POOL_LEN - 2);
    assert!(!pool.contains(&0) && !pool.contains(&5));
    let mut full = Workspace::empty();
    for k in 0..EMOJI_POOL_LEN {
        full.spawn_session(false, k, 0);
    }
    assert_eq!(full.emoji_pool(), (0..EMOJI_POOL_LEN).collect::<Vec<usize>>());
}

#[test]
fn promote_into_room_and_into_a_full_arena() {
    let mut ws = workspace(2, 2);
    assert_eq!(ws.promote(3), Some(3));
    assert_eq!(arena(&ws), vec![1, 2, 3]);
    assert_eq!(dock(&ws), vec![4]);
    assert_eq!(ws.last_focused_id(), Some(3));
    assert_eq!(location(&ws, 3), Location::Arena);
    let mut full = workspace(4, 2);
    full.focus_session(3);
    assert_eq!(full.promote(5), Some(5));
    assert_eq!(arena(&full), vec![1, 2, 5, 4]);
    assert_eq!(dock(&full), vec![6, 3]);
    assert_eq!(location(&full, 3), Location::Sidebar);
    let mut unfocused = workspace(4, 1);
    assert_eq!(unfocused.promote(5), Some(5));
    assert_eq!(arena(&unfocused), vec![5, 2, 3, 4]);
    assert_eq!(dock(&unfocused), vec![1]);
}

#[test]
fn promote_at_a_slot_and_unknown_ids() {
    let mut ws = workspace(2, 1);
    assert_eq!(ws.promote_at(3, Some(0)), Some(3));
    assert_eq!(arena(&ws), vec![3, 1, 2]);
    assert_eq!(ws.promote_at(1, Some(2)), Some(1));
    assert_eq!(arena(&ws), vec![3, 1, 2]);
    assert_eq!(ws.promote_at(99, None), None);
}

#[test]
fn demote_returns_the_slot_to_focus() {
    let mut ws = workspace(3, 0);
    assert_eq!(ws.demote(2), Some(0));
    assert_eq!(arena(&ws), vec![1, 3]);
    assert_eq!(dock(&ws), vec![2]);
    assert_eq!(ws.demote(1), Some(0));
    assert_eq!(ws.demote(1), None);
    assert_eq!(ws.focus_arena_slot(0), Some(3));
    assert_eq!(ws.last_focused_id(), Some(3));
    assert_eq!(ws.focus_arena_slot(5), None);
    assert_eq!(ws.last_focused_id(), None);
}

#[test]
fn promoting_a_docked_session_clears_its_attention() {
    let mut ws = workspace(1, 1);
    ws.tick_session(2, 10, Some(TickProbe { idle: false, elevated: false }));
    assert_eq!(ws.tick_session(2, 20, Some(TickProbe { idle: true, elevated: false })), Some(true));
    assert!(ws.find(2).unwrap().has_attention());
    assert_eq!(ws.peek_best(), Some(2));
    ws.promote(2);
    assert!(!ws.find(2).unwrap().has_attention());
    assert_eq!(ws.tick_session(42, 0, None), None);
}

#[test]
fn closing_sessions_moves_the_focus() {
    let mut ws = workspace(3, 1);
    ws.focus_session(2);
    assert_eq!(ws.close_session(2), Some(1));
    assert_eq!(arena(&ws), vec![1, 3]);
    assert!(ws.find(2).is_none());
    assert_eq!(ws.last_focused_id(), Some(1));
    assert_eq!(ws.close_session(1), Some(3));
    assert_eq!(ws.close_session(4), None);
    assert_eq!(dock(&ws), Vec::<u32>::new());
    assert_eq!(ws.close_session(3), None);
    assert_eq!(ws.last_focused_id(), None);
    assert_eq!(ws.close_session(3), None);
}

#[test]
fn close_requests_ask_when_busy() {
    let mut ws = workspace(2, 0);
    ws.tick_session(1, 5, Some(TickProbe { idle: false, elevated: false }));
    assert_eq!(ws.request_close(1), CloseRequest::Confirm);
    assert!(ws.find(1).is_some());
    assert_eq!(ws.request_close(2), CloseRequest::Closed(Some(1)));
    assert_eq!(ws.request_close(2), CloseRequest::Unknown);
}

#[test]
fn focus_cycles_through_the_arena() {
    let mut ws = workspace(3, 1);
    assert_eq!(ws.focus_next(), Some(1));
    assert_eq!(ws.focus_next(), Some(2));
    assert_eq!(ws.focus_next(), Some(3));
    assert_eq!(ws.focus_next(), Some(1));
    assert_eq!(ws.focus_prev(), Some(3));
    assert_eq!(ws.focus_prev(), Some(2));
    assert_eq!(ws.focus_next(), Some(3));
    ws.focus_session(4);
    assert_eq!(ws.focus_prev(), Some(3));
    let mut empty = Workspace::empty();
    assert_eq!(empty.focus_next(), None);
    assert_eq!(empty.focus_prev(), None);
}

#[test]
fn focus_by_index_and_refocus() {
    let mut ws = workspace(2, 1);
    assert_eq!(ws.focus_index(0), None);
    assert_eq!(ws.focus_index(3), None);
    assert_eq!(ws.focus_index(2), Some(2));
    assert_eq!(ws.focused_session().map(|s| s.id), Some(2));
    assert_eq!(ws.refocus(), Some(2));
    ws.close_session(2);
    assert_eq!(ws.refocus(), Some(1));
    let mut none = workspace(0, 1);
    assert_eq!(none.refocus(), None);
}

#[test]
fn demote_focused_sends_the_focused_tile_away() {
    let mut ws = workspace(3, 0);
    assert_eq!(ws.demote_focused(), None);
    ws.focus_session(3);
    assert_eq!(ws.demote_focused(), Some(1));
    assert_eq!(arena(&ws), vec![1, 2]);
    assert_eq!(dock(&ws), vec![3]);
}

#[test]
fn solo_keeps_only_the_focused_session() {
    let mut ws = workspace(3, 2);
    assert_eq!(ws.solo_focused(), None);
    ws.focus_session(2);
    assert_eq!(ws.solo_focused(), Some(2));
    assert_eq!(arena(&ws), vec![2]);
    assert_eq!(dock(&ws), vec![4, 5, 1, 3]);
    ws.focus_session(5);
    assert_eq!(ws.solo_focused(), Some(5));
    assert_eq!(arena(&ws), vec![5]);
    assert_eq!(dock(&ws), vec![4, 1, 3, 2]);
    assert_eq!(location(&ws, 2), Location::Sidebar);
    assert_eq!(location(&ws, 5), Location::Arena);
    assert_eq!(ws.sessions().len(), 5);
}

#[test]
fn drops_between_tiles_and_cards() {
    let mut ws = workspace(2, 2);
    assert_eq!(ws.handle_drop(1, 2), FocusRequest::Keep);
    assert_eq!(arena(&ws), vec![2, 1]);
    assert_eq!(ws.handle_drop(3, 2), FocusRequest::Now(3));
    assert_eq!(arena(&ws), vec![3, 2, 1]);
    assert_eq!(dock(&ws), vec![4]);
    assert_eq!(ws.handle_drop(2, 4), FocusRequest::Later(4));
    assert_eq!(arena(&ws), vec![3, 4, 1]);
    assert_eq!(dock(&ws), vec![2]);
    assert_eq!(ws.handle_drop(1, 1), FocusRequest::Keep);
    assert_eq!(ws.handle_drop(7, 1), FocusRequest::Keep);
    let mut full = workspace(4, 1);
    assert_eq!(full.handle_drop(5, 2), FocusRequest::Later(5));
    assert_eq!(arena(&full), vec![1, 5, 3, 4]);
    assert_eq!(dock(&full), vec![2]);
    let mut cards = workspace(0, 3);
    assert_eq!(cards.handle_drop(3, 1), FocusRequest::Keep);
    assert_eq!(dock(&cards), vec![3, 1, 2]);
}

#[test]
fn drops_on_the_grid_and_the_sidebar() {
    let mut ws = workspace(2, 2);
    assert_eq!(ws.grid_hover(Some(3), true, true, true, false), GridHover::ShowPhantom(0));
    assert_eq!(ws.grid_hover(Some(1), true, true, true, false), GridHover::SourceInArena);
    ws.ensure_phantom_at(0);
    assert_eq!(ws.grid_hover(Some(3), true, true, true, true), GridHover::Unchanged);
    assert_eq!(ws.grid_hover(Some(3), true, false, false, true), GridHover::ShowPhantom(2));
    assert_eq!(ws.grid_hover(None, true, true, true, false), GridHover::ShowPhantom(0));
    assert_eq!(ws.drop_on_grid(3), Some(3));
    assert_eq!(arena(&ws), vec![3, 1, 2]);
    assert!(!ws.arena().has_phantom());
    ws.sidebar_hover_enter(Some(1), Some(0));
    assert!(ws.arena().has_preview_remove());
    assert_eq!(ws.drop_on_sidebar(1), Some(0));
    assert_eq!(arena(&ws), vec![3, 2]);
    assert_eq!(dock(&ws), vec![4, 1]);
    assert!(!ws.arena().has_preview_remove());
    let mut empty = workspace(0, 1);
    assert_eq!(empty.drop_on_empty_state(1), Some(1));
    assert_eq!(arena(&empty), vec![1]);
    let full = workspace(4, 1);
    assert_eq!(full.grid_hover(Some(5), true, true, true, false), GridHover::ArenaFull);
}

#[test]
fn hovering_a_tile_asks_for_a_placeholder() {
    let mut ws = workspace(2, 1);
    assert_eq!(ws.tile_hover_slot(3, 1, true, false, false, false), Some(2));
    ws.ensure_phantom_at(2);
    assert_eq!(ws.tile_hover_slot(3, 1, true, false, false, true), None);
    assert_eq!(ws.tile_hover_slot(3, 1, true, true, true, true), Some(0));
    assert_eq!(ws.tile_hover_slot(1, 2, true, true, true, false), None);
}

#[test]
fn drags_end_without_leftovers() {
    let mut ws = workspace(2, 2);
    ws.drag_started(3);
    assert!(!ws.drag_ended());
    ws.drag_started(1);
    ws.ensure_phantom_at(1);
    ws.clear_all_previews();
    assert!(!ws.arena().has_phantom());
    ws.ensure_phantom_at(1);
    assert!(ws.drag_ended());
    assert!(!ws.arena().has_phantom());
}

#[test]
fn peeking_and_alerts() {
    let mut ws = workspace(1, 2);
    assert_eq!(ws.peek_best(), Some(2));
    assert!(ws.peek(3));
    assert!(!ws.peek(3));
    ws.end_peek(3);
    assert!(!ws.peek(1));
    ws.raise_alert(1, 100);
    assert_eq!(ws.find(1).unwrap().alert_until, Some(1600));
    ws.set_shell_pid(1, 777);
    assert_eq!(ws.find(1).unwrap().shell_pid, Some(777));
    let empty = workspace(1, 0);
    assert_eq!(empty.peek_best(), None);
}

#[test]
fn toggle_split_flips_the_layout() {
    let mut ws = workspace(2, 0);
    assert!(!ws.arena().split_horizontal());
    ws.toggle_split();
    assert!(ws.arena().split_horizontal());
}

#[test]
fn emojis_stay_unique_until_the_pool_runs_out() {
    let mut ws = Workspace::empty();
    for _ in 0..EMOJI_POOL_LEN {
        let pool = ws.emoji_pool();
        assert!(!pool.is_empty());
        let pick = pool[pool.len() / 2];
        ws.spawn_session(false, pick, 0);
    }
    let mut emojis: Vec<usize> = ws.sessions().iter().map(|s| s.emoji).collect();
    emojis.sort();
    emojis.dedup();
    assert_eq!(emojis.len(), EMOJI_POOL_LEN);
}

fn identity(ws: &Workspace) -> Vec<(u32, usize, bool, u64, Option<i32>)> {
    ws.sessions().iter().map(|s| (s.id, s.emoji, s.busy, s.state_since, s.shell_pid)).collect()
}

#[test]
fn moving_sessions_keeps_them_alive() {
    let mut ws = workspace(4, 3);
    ws.set_shell_pid(6, 600);
    ws.tick_session(6, 50, Some(TickProbe { idle: false, elevated: false }));
    let before = identity(&ws);
    ws.focus_session(2);
    ws.promote(6);
    ws.demote(1);
    ws.handle_drop(7, 3);
    ws.handle_drop(4, 5);
    ws.solo_focused();
    ws.drop_on_sidebar(6);
    assert_eq!(identity(&ws), before);
    assert_eq!(ws.sessions().len(), 7);
}

#[test]
fn a_template_opens_with_its_sessions_in_order() {
    let t = orbit::templates::WorkspaceTemplate::by_name("Fullstack").unwrap();
    let ws = Workspace::new(&t, &vec![7, 1_000_003, 42, 0, 99, 12345], 500);
    let ids: Vec<u32> = ws.sessions().iter().map(|s| s.id).collect();
    assert_eq!(ids, vec![1, 2, 3, 4, 5, 6]);
    assert_eq!(arena(&ws), vec![1, 2, 3, 4]);
    assert_eq!(dock(&ws), vec![5, 6]);
    assert_eq!(ws.next_session_id(), 7);
    assert_eq!(ws.last_focused_id(), Some(1));
    assert_eq!(ws.focus_holder(), Some(1));
    let mut emojis: Vec<usize> = ws.sessions().iter().map(|s| s.emoji).collect();
    assert!(emojis.iter().all(|e| *e < EMOJI_POOL_LEN));
    emojis.sort();
    emojis.dedup();
    assert_eq!(emojis.len(), 6);
    assert!(ws.sessions().iter().all(|s| s.state_since == 500));
}

#[test]
fn a_template_without_promoted_sessions_focuses_nothing() {
    let t = orbit::templates::WorkspaceTemplate { name: "Docked", sessions: vec![
        orbit::templates::SessionSpec { name: "a".to_string(), promote: false },
        orbit::templates::SessionSpec { name: "b".to_string(), promote: false },
    ] };
    let ws = Workspace::new(&t, &vec![], 0);
    assert_eq!(dock(&ws), vec![1, 2]);
    assert_eq!(ws.last_focused_id(), None);
    let e: Vec<usize> = ws.sessions().iter().map(|s| s.emoji).collect();
    assert_eq!(e, vec![0, 1]);
}

#[test]
fn directory_reports_follow_the_focus() {
    let mut ws = workspace(2, 0);
    assert!(!ws.routes_cwd_report(1));
    ws.focus_session(2);
    assert!(ws.routes_cwd_report(2));
    assert!(!ws.routes_cwd_report(1));
}

#[test]
fn cd_goes_only_to_an_idle_focused_session() {
    let mut ws = workspace(2, 0);
    assert_eq!(ws.cd_target(), None);
    ws.focus_session(1);
    assert_eq!(ws.cd_target(), Some(1));
    ws.tick_session(1, 10, Some(TickProbe { idle: false, elevated: false }));
    assert_eq!(ws.cd_target(), None);
    ws.focus_session(9);
    assert_eq!(ws.cd_target(), None);
}

#[test]
fn a_card_dropped_next_to_itself_stays() {
    let mut ws = workspace(0, 3);
    ws.drag_started(3);
    ws.sidebar_hover_enter(Some(3), Some(1));
    assert_eq!(ws.drop_on_sidebar(3), None);
    assert_eq!(dock(&ws), vec![1, 2, 3]);
    ws.drag_started(1);
    ws.sidebar_hover_enter(Some(1), Some(2));
    assert_eq!(ws.drop_on_sidebar(1), None);
    assert_eq!(dock(&ws), vec![2, 3, 1]);
}

#[test]
fn the_filter_mode_is_set_through_the_workspace() {
    let mut ws = workspace(0, 1);
    ws.set_filter_mode(orbit::sidebar::FilterMode::Attention);
    assert_eq!(ws.sidebar().filter_mode(), orbit::sidebar::FilterMode::Attention);
}

#[test]
fn closing_twice_is_closing_once() {
    let mut ws = workspace(3, 2);
    ws.focus_session(2);
    assert_eq!(ws.close_session(2), Some(1));
    let (a, d, f, h) = (arena(&ws), dock(&ws), ws.last_focused_id(), ws.focus_holder());
    assert_eq!(ws.close_session(2), None);
    assert_eq!((arena(&ws), dock(&ws), ws.last_focused_id(), ws.focus_holder()), (a, d, f, h));
    assert!(ws.find(2).is_none());
    assert_eq!(ws.close_session(5), None);
    assert_eq!(ws.close_session(5), None);
    assert_eq!(dock(&ws), vec![4]);
}

#[test]
fn focus_next_then_prev_comes_back() {
    let mut ws = workspace(3, 1);
    for start in [1, 2, 3] {
        ws.focus_session(start);
        ws.focus_next();
        assert_eq!(ws.focus_prev(), Some(start));
        assert_eq!(ws.focus_holder(), Some(start));
        ws.focus_prev();
        assert_eq!(ws.focus_next(), Some(start));
        assert_eq!(ws.focus_holder(), Some(start));
    }
}
