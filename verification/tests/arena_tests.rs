use orbit::arena::{Arena, Placement, Tile, MAX_ACTIVE};

fn arena_of(ids: &[u32]) -> Arena {
    let mut a = Arena::new();
    for &id in ids {
        assert_eq!(a.add(id), None);
    }
    a
}

fn p(tile: Tile, col: i32, row: i32, width: i32, height: i32) -> Placement {
    Placement { tile, col, row, width, height }
}

#[test]
fn new_arena_is_empty_and_stacked() {
    let a = Arena::new();
    assert_eq!(a.count(), 0);
    assert!(!a.is_full());
    assert!(!a.split_horizontal());
    assert!(a.session_ids().is_empty());
    assert!(!a.has_phantom());
    assert!(!a.has_preview_remove());
    assert!(!a.has_preview_swap());
}

#[test]
fn full_arena_evicts_the_oldest() {
    let mut a = arena_of(&[1, 2, 3, 4]);
    assert_eq!(MAX_ACTIVE, 4);
    assert!(a.is_full());
    assert_eq!(a.add(5), Some(1));
    assert_eq!(a.session_ids(), vec![2, 3, 4, 5]);
    assert_eq!(a.count(), 4);
}

#[test]
fn remove_and_lookup() {
    let mut a = arena_of(&[7, 8, 9]);
    assert!(a.contains(8));
    assert_eq!(a.position(9), Some(2));
    assert_eq!(a.remove(8), Some(8));
    assert_eq!(a.remove(8), None);
    assert_eq!(a.session_ids(), vec![7, 9]);
    assert_eq!(a.session_by_index(1), Some(9));
    assert_eq!(a.session_by_index(2), None);
    assert_eq!(a.focused(Some(7)), Some(7));
    assert_eq!(a.focused(Some(8)), None);
    assert_eq!(a.focused(None), None);
}

#[test]
fn swaps_exchange_places() {
    let mut a = arena_of(&[1, 2, 3]);
    assert_eq!(a.swap_with_oldest(4), Some(1));
    assert_eq!(a.session_ids(), vec![2, 3, 4]);
    assert_eq!(a.swap_at(3, 9), Some(3));
    assert_eq!(a.session_ids(), vec![2, 9, 4]);
    assert_eq!(a.swap_at(3, 10), None);
    a.swap_sessions(2, 4);
    assert_eq!(a.session_ids(), vec![4, 9, 2]);
    a.swap_sessions(2, 77);
    assert_eq!(a.session_ids(), vec![4, 9, 2]);
    let mut e = Arena::new();
    assert_eq!(e.swap_with_oldest(5), None);
    assert_eq!(e.session_ids(), vec![5]);
}

#[test]
fn insert_is_clamped_to_the_end() {
    let mut a = arena_of(&[1, 2]);
    a.insert_at(1, 5);
    assert_eq!(a.session_ids(), vec![1, 5, 2]);
    a.insert_at(99, 6);
    assert_eq!(a.session_ids(), vec![1, 5, 2, 6]);
}

#[test]
fn phantom_shows_moves_and_hides() {
    let mut a = arena_of(&[1]);
    assert!(!a.move_phantom_to(1));
    assert!(a.show_phantom_at(1));
    assert!(a.has_phantom());
    assert_eq!(a.phantom_slot(), 1);
    assert!(!a.move_phantom_to(1));
    assert!(a.move_phantom_to(0));
    assert!(!a.ensure_phantom_at(0));
    assert!(a.ensure_phantom_at(1));
    assert!(a.hide_phantom());
    assert!(!a.hide_phantom());
    assert_eq!(a.phantom_slot(), 1);
    let mut full = arena_of(&[1, 2, 3, 4]);
    assert!(!full.show_phantom_at(0));
    assert!(!full.ensure_phantom_at(0));
    assert!(!full.has_phantom());
}

#[test]
fn swap_preview_is_undone_or_committed() {
    let mut a = arena_of(&[1, 2, 3]);
    assert!(a.preview_swap(1, 3));
    assert_eq!(a.session_ids(), vec![3, 2, 1]);
    assert!(!a.preview_swap(3, 1));
    assert!(a.preview_swap(1, 2));
    assert_eq!(a.session_ids(), vec![2, 1, 3]);
    assert!(a.undo_preview_swap());
    assert_eq!(a.session_ids(), vec![1, 2, 3]);
    assert!(!a.undo_preview_swap());
    assert!(a.preview_swap(2, 3));
    a.commit_preview_swap();
    assert!(!a.has_preview_swap());
    assert_eq!(a.session_ids(), vec![1, 3, 2]);
    assert!(!a.preview_swap(1, 42));
    assert_eq!(a.session_ids(), vec![1, 3, 2]);
}

#[test]
fn clearing_previews_restores_everything() {
    let mut a = arena_of(&[1, 2, 3]);
    assert!(!a.clear_all_previews());
    a.show_phantom_at(0);
    a.preview_remove(2);
    assert!(!a.preview_remove(2));
    a.preview_swap(1, 3);
    assert!(a.clear_all_previews());
    assert_eq!(a.session_ids(), vec![1, 2, 3]);
    assert!(!a.has_phantom() && !a.has_preview_remove() && !a.has_preview_swap());
    assert!(!a.restore_remove());
}

#[test]
fn drop_slots_for_each_tile_count() {
    let mut a = Arena::new();
    assert_eq!(a.slot_from_coords(true, false, false), 0);
    a.add(1);
    assert_eq!(a.slot_from_coords(true, true, false), 1);
    assert_eq!(a.slot_from_coords(true, true, true), 0);
    assert_eq!(a.slot_from_coords(true, false, false), 1);
    a.toggle_split();
    assert_eq!(a.slot_from_coords(true, true, false), 0);
    assert_eq!(a.slot_from_coords(true, false, true), 1);
    a.add(2);
    assert_eq!(a.slot_from_coords(true, true, false), 0);
    assert_eq!(a.slot_from_coords(true, false, true), 1);
    assert_eq!(a.slot_from_coords(true, false, false), 2);
    a.toggle_split();
    assert_eq!(a.slot_from_coords(true, false, true), 0);
    assert_eq!(a.slot_from_coords(true, true, false), 1);
    assert_eq!(a.slot_from_coords(true, false, false), 2);
    a.add(3);
    assert_eq!(a.slot_from_coords(true, true, true), 0);
    assert_eq!(a.slot_from_coords(true, false, true), 1);
    assert_eq!(a.slot_from_coords(true, true, false), 2);
    assert_eq!(a.slot_from_coords(true, false, false), 3);
    assert_eq!(a.slot_from_coords(false, false, false), 0);
}

#[test]
fn layout_of_each_tile_count() {
    let mut a = Arena::new();
    assert_eq!(a.layout(), vec![p(Tile::Empty, 0, 0, 2, 2)]);
    a.add(1);
    assert_eq!(a.layout(), vec![p(Tile::Session(1), 0, 0, 2, 2)]);
    a.add(2);
    assert_eq!(a.layout(), vec![p(Tile::Session(1), 0, 0, 2, 1), p(Tile::Session(2), 0, 1, 2, 1)]);
    a.toggle_split();
    assert_eq!(a.layout(), vec![p(Tile::Session(1), 0, 0, 1, 2), p(Tile::Session(2), 1, 0, 1, 2)]);
    a.add(3);
    assert_eq!(
        a.layout(),
        vec![
            p(Tile::Session(1), 0, 0, 1, 2),
            p(Tile::Session(2), 1, 0, 1, 1),
            p(Tile::Session(3), 1, 1, 1, 1),
        ]
    );
    a.toggle_split();
    assert_eq!(
        a.layout(),
        vec![
            p(Tile::Session(1), 0, 0, 2, 1),
            p(Tile::Session(2), 0, 1, 1, 1),
            p(Tile::Session(3), 1, 1, 1, 1),
        ]
    );
    a.add(4);
    assert_eq!(
        a.layout(),
        vec![
            p(Tile::Session(1), 0, 0, 1, 1),
            p(Tile::Session(2), 1, 0, 1, 1),
            p(Tile::Session(3), 0, 1, 1, 1),
            p(Tile::Session(4), 1, 1, 1, 1),
        ]
    );
}

#[test]
fn layout_with_previews() {
    let mut a = arena_of(&[1, 2]);
    a.show_phantom_at(1);
    assert_eq!(
        a.layout(),
        vec![
            p(Tile::Session(1), 0, 0, 2, 1),
            p(Tile::Phantom, 0, 1, 1, 1),
            p(Tile::Session(2), 1, 1, 1, 1),
        ]
    );
    a.hide_phantom();
    a.preview_remove(1);
    assert_eq!(a.layout(), vec![p(Tile::Session(2), 0, 0, 2, 2)]);
    a.show_phantom_at(9);
    assert_eq!(a.layout(), vec![p(Tile::Session(2), 0, 0, 2, 1), p(Tile::Phantom, 0, 1, 2, 1)]);
}

#[test]
fn undoing_an_earlier_preview_asks_for_a_rebuild() {
    let mut a = arena_of(&[1, 2, 3]);
    assert!(a.preview_swap(1, 2));
    assert!(a.preview_swap(1, 42));
    assert_eq!(a.session_ids(), vec![1, 2, 3]);
    assert!(!a.has_preview_swap());
    assert!(!a.preview_swap(1, 42));
}
