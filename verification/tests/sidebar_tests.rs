use orbit::sidebar::{count_edge_attention, filter_shows, find_insert_index, EdgeCard, FilterMode, Sidebar};

fn dock(ids: &[u32]) -> Sidebar {
    let mut s = Sidebar::new();
    for &id in ids {
        s.add(id);
    }
    s
}

#[test]
fn cards_are_added_and_removed() {
    let mut s = dock(&[3, 1, 2]);
    assert_eq!(s.session_ids(), vec![3, 1, 2]);
    assert!(s.contains(1));
    assert_eq!(s.position(2), Some(2));
    assert_eq!(s.remove(1), Some(1));
    assert_eq!(s.remove(1), None);
    assert_eq!(s.session_ids(), vec![3, 2]);
    assert_eq!(s.position(1), None);
}

#[test]
fn reorder_before_a_card() {
    let mut s = dock(&[1, 2, 3, 4]);
    s.reorder_before(4, 2);
    assert_eq!(s.session_ids(), vec![1, 4, 2, 3]);
    s.reorder_before(1, 3);
    assert_eq!(s.session_ids(), vec![4, 2, 1, 3]);
    s.reorder_before(4, 99);
    assert_eq!(s.session_ids(), vec![2, 1, 3, 4]);
    s.reorder_before(77, 1);
    assert_eq!(s.session_ids(), vec![2, 1, 3, 4]);
}

#[test]
fn reorder_to_an_index_counted_before_the_move() {
    let mut s = dock(&[1, 2, 3, 4]);
    s.reorder_to_index(1, 3);
    assert_eq!(s.session_ids(), vec![2, 3, 1, 4]);
    s.reorder_to_index(4, 0);
    assert_eq!(s.session_ids(), vec![4, 2, 3, 1]);
    s.reorder_to_index(2, 100);
    assert_eq!(s.session_ids(), vec![4, 3, 1, 2]);
    s.reorder_to_index(3, 1);
    assert_eq!(s.session_ids(), vec![4, 3, 1, 2]);
    s.reorder_to_index(9, 0);
    assert_eq!(s.session_ids(), vec![4, 3, 1, 2]);
}

#[test]
fn placeholder_follows_the_pointer() {
    let mut s = dock(&[1, 2, 3]);
    assert_eq!(s.placeholder_insert_index(), 0);
    s.show_placeholder(Some(0));
    assert_eq!(s.placeholder_insert_index(), 1);
    s.move_placeholder(Some(1));
    assert_eq!(s.placeholder_insert_index(), 2);
    s.move_placeholder(None);
    assert_eq!(s.placeholder_insert_index(), 0);
    s.move_placeholder(Some(7));
    assert_eq!(s.placeholder_insert_index(), 0);
    s.hide_placeholder();
    assert_eq!(s.placeholder_insert_index(), 0);
    s.move_placeholder(Some(1));
    assert_eq!(s.placeholder_insert_index(), 0);
}

#[test]
fn placeholder_next_to_the_dragged_card_is_hidden() {
    let mut s = dock(&[1, 2, 3]);
    s.set_dragging_id(2);
    s.show_placeholder(Some(0));
    assert_eq!(s.placeholder_insert_index(), 0);
    s.move_placeholder(Some(1));
    assert_eq!(s.placeholder_insert_index(), 0);
    s.move_placeholder(Some(2));
    assert_eq!(s.placeholder_insert_index(), 3);
    s.clear_dragging_id();
    s.move_placeholder(Some(0));
    assert_eq!(s.placeholder_insert_index(), 1);
}

#[test]
fn placeholder_keeps_its_neighbours_when_cards_change() {
    let mut s = dock(&[1, 2, 3]);
    s.show_placeholder(Some(1));
    assert_eq!(s.placeholder_insert_index(), 2);
    s.remove(1);
    assert_eq!(s.placeholder_insert_index(), 1);
    s.add(4);
    assert_eq!(s.placeholder_insert_index(), 1);
}

#[test]
fn filter_modes() {
    let mut s = Sidebar::new();
    assert_eq!(s.filter_mode(), FilterMode::All);
    s.set_filter_mode(FilterMode::Busy);
    assert_eq!(s.filter_mode(), FilterMode::Busy);
    assert!(filter_shows(FilterMode::All, false, false));
    assert!(filter_shows(FilterMode::Busy, true, false));
    assert!(!filter_shows(FilterMode::Busy, false, true));
    assert!(filter_shows(FilterMode::Attention, false, true));
    assert!(!filter_shows(FilterMode::Attention, true, false));
}

#[test]
fn insert_index_from_card_midpoints() {
    assert_eq!(find_insert_index(&vec![]), None);
    assert_eq!(find_insert_index(&vec![true, true]), None);
    assert_eq!(find_insert_index(&vec![false, true, true]), Some(0));
    assert_eq!(find_insert_index(&vec![false, false, true]), Some(1));
    assert_eq!(find_insert_index(&vec![false, false, false]), Some(2));
}

fn card(attention: bool, visible: bool, placed: bool, above: bool, below: bool) -> EdgeCard {
    EdgeCard { attention, visible, placed, fully_above: above, fully_below: below }
}

#[test]
fn edge_indicators_count_hidden_attention_cards() {
    let cards = vec![
        card(true, true, true, true, false),
        card(true, true, true, false, true),
        card(true, true, true, false, true),
        card(false, true, true, true, false),
        card(true, false, true, true, false),
        card(true, true, false, false, true),
        card(true, true, true, false, false),
    ];
    assert_eq!(count_edge_attention(&cards), (1, 2));
    assert_eq!(count_edge_attention(&vec![]), (0, 0));
}

#[test]
fn edge_captions_count_attention() {
    assert_eq!(orbit::sidebar::edge_caption(true, 3), "\u{2191} 3 attention");
    assert_eq!(orbit::sidebar::edge_caption(false, 12), "\u{2193} 12 attention");
}

#[test]
fn placeholder_state_is_readable() {
    let mut s = dock(&[1, 2]);
    assert_eq!(s.placeholder(), None);
    s.set_dragging_id(1);
    assert_eq!(s.dragging_id(), Some(1));
    s.show_placeholder(None);
    let p = s.placeholder().expect("placeholder parked");
    assert!(!p.visible);
    assert_eq!(p.gap, None);
    s.move_placeholder(Some(1));
    let p = s.placeholder().expect("placeholder shown");
    assert!(p.visible);
    assert_eq!(p.gap, Some(2));
}

#[test]
fn reorder_before_itself_changes_nothing() {
    let mut s = dock(&[1, 2, 3]);
    s.reorder_before(2, 2);
    assert_eq!(s.session_ids(), vec![1, 2, 3]);
}
