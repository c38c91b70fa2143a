//! The tiling arena: up to four sessions laid out on a 2×2 grid, plus the drag-and-drop
//! previews (a phantom slot, a session hidden to preview a shrink, a previewed swap).
use vstd::prelude::*;
use crate::seqs::{
    contains_id, copy_ids, first_index, is_first_index, lemma_first_index_no_dup, position, remove_id,
    swap_at, swap_ids, swap_positions,
};

verus! {

/// Most sessions the arena holds.
pub const MAX_ACTIVE: usize = 4;

/// The arena's sessions (by id, in display order) and its preview state.
pub struct Arena {
    ids: Vec<u32>,
    split_horizontal: bool,
    phantom_shown: bool,
    phantom_index: usize,
    preview_removed: Option<u32>,
    preview_swapped: Option<(u32, u32)>,
}

/// What an `Arena` holds.
#[verifier::ext_equal]
pub struct ArenaView {
    /// Session ids in display order.
    pub ids: Seq<u32>,
    /// Two tiles sit side by side (else stacked).
    pub split_horizontal: bool,
    /// A drop placeholder is shown.
    pub phantom_shown: bool,
    /// The slot the placeholder takes (kept while it is hidden).
    pub phantom_index: usize,
    /// A session hidden from the layout to preview the arena without it.
    pub preview_removed: Option<u32>,
    /// Two sessions whose places are exchanged as a preview.
    pub preview_swapped: Option<(u32, u32)>,
}

impl View for Arena {
    type V = ArenaView;

    closed spec fn view(&self) -> ArenaView {
        ArenaView {
            ids: self.ids@,
            split_horizontal: self.split_horizontal,
            phantom_shown: self.phantom_shown,
            phantom_index: self.phantom_index,
            preview_removed: self.preview_removed,
            preview_swapped: self.preview_swapped,
        }
    }
}

/// Whether a previewed swap of `p` is the swap of `a` and `b`, in either order.
pub open spec fn same_pair(p: Option<(u32, u32)>, a: u32, b: u32) -> bool {
    match p {
        Some((x, y)) => (x == a && y == b) || (x == b && y == a),
        None => false,
    }
}

/// `s` with a previewed swap undone.
pub open spec fn undo_swap(s: Seq<u32>, p: Option<(u32, u32)>) -> Seq<u32> {
    match p {
        Some((x, y)) => swap_ids(s, x, y),
        None => s,
    }
}

impl Arena {
    /// An empty arena, stacked layout, no previews.
    pub fn new() -> (r: Arena)
        ensures
            r@ == (ArenaView {
                ids: seq![],
                split_horizontal: false,
                phantom_shown: false,
                phantom_index: 0,
                preview_removed: None,
                preview_swapped: None,
            }),
    {
        let r = Arena {
            ids: Vec::new(),
            split_horizontal: false,
            phantom_shown: false,
            phantom_index: 0,
            preview_removed: None,
            preview_swapped: None,
        };
        assert(r@ =~= ArenaView {
            ids: seq![],
            split_horizontal: false,
            phantom_shown: false,
            phantom_index: 0,
            preview_removed: None,
            preview_swapped: None,
        });
        r
    }

    pub fn is_full(&self) -> (r: bool)
        ensures
            r == (self@.ids.len() >= MAX_ACTIVE),
    {
        self.ids.len() >= MAX_ACTIVE
    }

    pub fn count(&self) -> (r: usize)
        ensures
            r == self@.ids.len(),
    {
        self.ids.len()
    }

    pub fn contains(&self, id: u32) -> (r: bool)
        ensures
            r == self@.ids.contains(id),
    {
        contains_id(&self.ids, id)
    }

    /// Display position of `id`.
    pub fn position(&self, id: u32) -> (r: Option<usize>)
        ensures
            match r {
                Some(i) => is_first_index(self@.ids, id, i as int) && first_index(self@.ids, id)
                    == i,
                None => !self@.ids.contains(id) && first_index(self@.ids, id) == -1,
            },
    {
        position(&self.ids, id)
    }

    /// Adds a session at the end. When the arena is full the oldest (first) session is
    /// evicted and returned.
    pub fn add(&mut self, id: u32) -> (evicted: Option<u32>)
        ensures
            old(self)@.ids.len() >= MAX_ACTIVE ==> evicted == Some(old(self)@.ids[0])
                && final(self)@ == (ArenaView {
                ids: old(self)@.ids.drop_first().push(id),
                ..old(self)@
            }),
            old(self)@.ids.len() < MAX_ACTIVE ==> evicted is None && final(self)@ == (ArenaView {
                ids: old(self)@.ids.push(id),
                ..old(self)@
            }),
    {
        let evicted = if self.ids.len() >= MAX_ACTIVE {
            Some(self.ids.remove(0))
        } else {
            None
        };
        self.ids.push(id);
        proof {
            if old(self)@.ids.len() >= MAX_ACTIVE {
                assert(self.ids@ =~= old(self)@.ids.drop_first().push(id));
            }
        }
        evicted
    }

    /// Removes a session; returns it when it was present.
    pub fn remove(&mut self, id: u32) -> (r: Option<u32>)
        ensures
            r == (if old(self)@.ids.contains(id) { Some(id) } else { None }),
            final(self)@ == (ArenaView { ids: remove_id(old(self)@.ids, id), ..old(self)@ }),
    {
        match position(&self.ids, id) {
            Some(pos) => {
                self.ids.remove(pos);
                Some(id)
            },
            None => None,
        }
    }

    /// Puts `incoming` at the end in exchange for the oldest session, which is returned;
    /// an empty arena just takes `incoming`.
    pub fn swap_with_oldest(&mut self, incoming: u32) -> (evicted: Option<u32>)
        ensures
            old(self)@.ids.len() == 0 ==> evicted is None && final(self)@ == (ArenaView {
                ids: seq![incoming],
                ..old(self)@
            }),
            old(self)@.ids.len() > 0 ==> evicted == Some(old(self)@.ids[0]) && final(self)@ == (
            ArenaView { ids: old(self)@.ids.drop_first().push(incoming), ..old(self)@ }),
    {
        if self.ids.len() == 0 {
            self.ids.push(incoming);
            assert(self.ids@ =~= seq![incoming]);
            return None;
        }
        let evicted = self.ids.remove(0);
        self.ids.push(incoming);
        assert(self.ids@ =~= old(self)@.ids.drop_first().push(incoming));
        Some(evicted)
    }

    /// Puts `incoming` in the place of session `target`, which is returned.
    pub fn swap_at(&mut self, target: u32, incoming: u32) -> (evicted: Option<u32>)
        ensures
            old(self)@.ids.contains(target) ==> evicted == Some(target) && final(self)@ == (
            ArenaView {
                ids: old(self)@.ids.update(first_index(old(self)@.ids, target), incoming),
                ..old(self)@
            }),
            !old(self)@.ids.contains(target) ==> evicted is None && final(self)@ == old(self)@,
    {
        match position(&self.ids, target) {
            Some(pos) => {
                self.ids.set(pos, incoming);
                Some(target)
            },
            None => None,
        }
    }

    /// Exchanges the places of two sessions when both are present.
    pub fn swap_sessions(&mut self, id_a: u32, id_b: u32)
        ensures
            final(self)@ == (ArenaView { ids: swap_ids(old(self)@.ids, id_a, id_b), ..old(self)@ }),
    {
        let pa = position(&self.ids, id_a);
        let pb = position(&self.ids, id_b);
        if let (Some(a), Some(b)) = (pa, pb) {
            swap_positions(&mut self.ids, a, b);
        }
    }

    /// Switches between side-by-side and stacked two-tile layouts.
    pub fn toggle_split(&mut self)
        ensures
            final(self)@ == (ArenaView {
                split_horizontal: !old(self)@.split_horizontal,
                ..old(self)@
            }),
    {
        self.split_horizontal = !self.split_horizontal;
    }

    pub fn split_horizontal(&self) -> (r: bool)
        ensures
            r == self@.split_horizontal,
    {
        self.split_horizontal
    }

    /// The session at display position `index`.
    pub fn session_by_index(&self, index: usize) -> (r: Option<u32>)
        ensures
            r == (if index < self@.ids.len() { Some(self@.ids[index as int]) } else { None }),
    {
        if index < self.ids.len() {
            Some(self.ids[index])
        } else {
            None
        }
    }

    /// The focused arena session, given the id that holds focus (if any).
    pub fn focused(&self, focus_holder: Option<u32>) -> (r: Option<u32>)
        ensures
            r == match focus_holder {
                Some(f) => if self@.ids.contains(f) { Some(f) } else { None },
                None => None,
            },
    {
        match focus_holder {
            Some(f) => if self.contains(f) {
                Some(f)
            } else {
                None
            },
            None => None,
        }
    }

    /// The session ids in display order.
    pub fn session_ids(&self) -> (r: Vec<u32>)
        ensures
            r@ == self@.ids,
    {
        copy_ids(&self.ids)
    }

    /// Inserts a session at `index`, clamped to the end.
    pub fn insert_at(&mut self, index: usize, id: u32)
        ensures
            final(self)@ == (ArenaView {
                ids: old(self)@.ids.insert(
                    if index <= old(self)@.ids.len() { index as int } else { old(self)@.ids.len() as int },
                    id,
                ),
                ..old(self)@
            }),
    {
        let clamped = if index <= self.ids.len() { index } else { self.ids.len() };
        self.ids.insert(clamped, id);
    }

    // --- Drop placeholder ("phantom") previewing the layout with one more tile ---

    /// Shows the placeholder at `slot` unless the arena is full; returns whether the layout
    /// must be rebuilt.
    pub fn show_phantom_at(&mut self, slot: usize) -> (rebuild: bool)
        ensures
            old(self)@.ids.len() >= MAX_ACTIVE ==> !rebuild && final(self)@ == old(self)@,
            old(self)@.ids.len() < MAX_ACTIVE ==> rebuild && final(self)@ == (ArenaView {
                phantom_shown: true,
                phantom_index: slot,
                ..old(self)@
            }),
    {
        if self.ids.len() >= MAX_ACTIVE {
            return false;
        }
        self.phantom_shown = true;
        self.phantom_index = slot;
        true
    }

    /// Moves a shown placeholder to `slot`; returns whether the layout must be rebuilt
    /// (not when no placeholder is shown or it is already there).
    pub fn move_phantom_to(&mut self, slot: usize) -> (rebuild: bool)
        ensures
            (!old(self)@.phantom_shown || old(self)@.phantom_index == slot) ==> !rebuild
                && final(self)@ == old(self)@,
            (old(self)@.phantom_shown && old(self)@.phantom_index != slot) ==> rebuild
                && final(self)@ == (ArenaView { phantom_index: slot, ..old(self)@ }),
    {
        if !self.phantom_shown {
            return false;
        }
        if self.phantom_index == slot {
            return false;
        }
        self.phantom_index = slot;
        true
    }

    /// Shows the placeholder at `slot`, or moves it there when already shown; nothing
    /// when the arena is full. Returns whether the layout must be rebuilt.
    pub fn ensure_phantom_at(&mut self, slot: usize) -> (rebuild: bool)
        ensures
            old(self)@.ids.len() >= MAX_ACTIVE ==> !rebuild && final(self)@ == old(self)@,
            old(self)@.ids.len() < MAX_ACTIVE ==> final(self)@ == (ArenaView {
                phantom_shown: true,
                phantom_index: slot,
                ..old(self)@
            }) && rebuild == (!old(self)@.phantom_shown || old(self)@.phantom_index != slot),
    {
        if self.ids.len() >= MAX_ACTIVE {
            return false;
        }
        if self.phantom_shown {
            self.move_phantom_to(slot)
        } else {
            self.show_phantom_at(slot)
        }
    }

    /// Hides the placeholder; returns whether one was shown (the layout must be rebuilt).
    pub fn hide_phantom(&mut self) -> (rebuild: bool)
        ensures
            rebuild == old(self)@.phantom_shown,
            final(self)@ == (ArenaView { phantom_shown: false, ..old(self)@ }),
    {
        let had = self.phantom_shown;
        self.phantom_shown = false;
        had
    }

    /// The slot of the placeholder (the last one used, if it is hidden).
    pub fn phantom_slot(&self) -> (r: usize)
        ensures
            r == self@.phantom_index,
    {
        self.phantom_index
    }

    pub fn has_phantom(&self) -> (r: bool)
        ensures
            r == self@.phantom_shown,
    {
        self.phantom_shown
    }

    // --- Shrink preview (an arena tile dragged towards the sidebar) ---

    /// Hides session `id` from the layout; returns whether the layout must be rebuilt.
    pub fn preview_remove(&mut self, id: u32) -> (rebuild: bool)
        ensures
            rebuild == (old(self)@.preview_removed != Some(id)),
            final(self)@ == (ArenaView { preview_removed: Some(id), ..old(self)@ }),
    {
        if self.preview_removed == Some(id) {
            return false;
        }
        self.preview_removed = Some(id);
        true
    }

    /// Shows again the session hidden by `preview_remove`; returns whether the layout must
    /// be rebuilt.
    pub fn restore_remove(&mut self) -> (rebuild: bool)
        ensures
            rebuild == old(self)@.preview_removed is Some,
            final(self)@ == (ArenaView { preview_removed: None, ..old(self)@ }),
    {
        let had = self.preview_removed.is_some();
        self.preview_removed = None;
        had
    }

    pub fn has_preview_remove(&self) -> (r: bool)
        ensures
            r == self@.preview_removed is Some,
    {
        self.preview_removed.is_some()
    }

    // --- Swap preview (an arena tile dragged over another) ---

    /// Previews exchanging `id_a` and `id_b`: a different earlier preview is undone first;
    /// the new one takes effect when both sessions are present. Returns whether the layout
    /// must be rebuilt: once, whenever an earlier preview was undone or the new one taken.
    pub fn preview_swap(&mut self, id_a: u32, id_b: u32) -> (rebuild: bool)
        ensures
            same_pair(old(self)@.preview_swapped, id_a, id_b) ==> !rebuild && final(self)@
                == old(self)@,
            !same_pair(old(self)@.preview_swapped, id_a, id_b) ==> ({
                let undone = undo_swap(old(self)@.ids, old(self)@.preview_swapped);
                if undone.contains(id_a) && undone.contains(id_b) {
                    rebuild && final(self)@ == (ArenaView {
                        ids: swap_ids(undone, id_a, id_b),
                        preview_swapped: Some((id_a, id_b)),
                        ..old(self)@
                    })
                } else {
                    rebuild == old(self)@.preview_swapped is Some && final(self)@ == (ArenaView {
                        ids: undone,
                        preview_swapped: None,
                        ..old(self)@
                    })
                }
            }),
    {
        if let Some((a, b)) = self.preview_swapped {
            if (a == id_a && b == id_b) || (a == id_b && b == id_a) {
                return false;
            }
        }
        let old_pair = self.preview_swapped;
        self.preview_swapped = None;
        if let Some((old_a, old_b)) = old_pair {
            self.swap_sessions(old_a, old_b);
        }
        let pa = position(&self.ids, id_a);
        let pb = position(&self.ids, id_b);
        if let (Some(a), Some(b)) = (pa, pb) {
            swap_positions(&mut self.ids, a, b);
            self.preview_swapped = Some((id_a, id_b));
            return true;
        }
        old_pair.is_some()
    }

    /// Undoes a previewed swap; returns whether one was active (the layout must be rebuilt).
    pub fn undo_preview_swap(&mut self) -> (rebuild: bool)
        ensures
            rebuild == old(self)@.preview_swapped is Some,
            final(self)@ == (ArenaView {
                ids: undo_swap(old(self)@.ids, old(self)@.preview_swapped),
                preview_swapped: None,
                ..old(self)@
            }),
    {
        let pair = self.preview_swapped;
        self.preview_swapped = None;
        match pair {
            Some((a, b)) => {
                self.swap_sessions(a, b);
                true
            },
            None => false,
        }
    }

    /// Keeps the previewed order as it is and forgets the preview.
    pub fn commit_preview_swap(&mut self)
        ensures
            final(self)@ == (ArenaView { preview_swapped: None, ..old(self)@ }),
    {
        self.preview_swapped = None;
    }

    pub fn has_preview_swap(&self) -> (r: bool)
        ensures
            r == self@.preview_swapped is Some,
    {
        self.preview_swapped.is_some()
    }

    /// Drops every preview: hides the placeholder, shows the hidden session, undoes the
    /// previewed swap. Returns whether any was active (the layout must be rebuilt).
    pub fn clear_all_previews(&mut self) -> (rebuild: bool)
        ensures
            rebuild == (old(self)@.phantom_shown || old(self)@.preview_removed is Some
                || old(self)@.preview_swapped is Some),
            final(self)@ == (ArenaView {
                ids: undo_swap(old(self)@.ids, old(self)@.preview_swapped),
                phantom_shown: false,
                preview_removed: None,
                preview_swapped: None,
                ..old(self)@
            }),
    {
        let had_any = self.phantom_shown || self.preview_removed.is_some()
            || self.preview_swapped.is_some();
        self.phantom_shown = false;
        self.preview_removed = None;
        self.undo_preview_swap();
        had_any
    }

    /// The slot a drop at a point of the grid would take, for a layout with one tile more
    /// than now. `has_area`: the grid has a positive width and height; `left`, `top`: the
    /// point lies in the left, upper half.
    pub fn slot_from_coords(&self, has_area: bool, left: bool, top: bool) -> (r: usize)
        ensures
            r == spec_slot(self@.ids.len() as int, self@.split_horizontal, has_area, left, top),
            r <= self@.ids.len(),
            r < MAX_ACTIVE,
    {
        if !has_area {
            return 0;
        }
        let horiz = self.split_horizontal;
        let count = self.ids.len();
        if count == 0 {
            0
        } else if count == 1 {
            if horiz {
                if left { 0 } else { 1 }
            } else {
                if top { 0 } else { 1 }
            }
        } else if count == 2 {
            if horiz {
                if left { 0 } else if top { 1 } else { 2 }
            } else {
                if top { 0 } else if left { 1 } else { 2 }
            }
        } else {
            let col: usize = if left { 0 } else { 1 };
            let row: usize = if top { 0 } else { 1 };
            row * 2 + col
        }
    }

    /// Where each tile goes on the 2×2 grid for the current sessions and previews.
    pub fn layout(&self) -> (r: Vec<Placement>)
        ensures
            r@ == tile_layout(arena_tiles(self@), self@.split_horizontal),
    {
        let mut vis: Vec<Tile> = Vec::new();
        let mut i: usize = 0;
        while i < self.ids.len()
            invariant
                i <= self.ids@.len(),
                vis@ == visible_ids(self.ids@.take(i as int), self.preview_removed).map_values(
                    |id: u32| Tile::Session(id),
                ),
            decreases self.ids.len() - i,
        {
            let id = self.ids[i];
            let ghost pre = self.ids@.take(i as int);
            let ghost post = self.ids@.take(i as int + 1);
            assert(post.drop_last() =~= pre);
            assert(post.last() == id);
            if self.preview_removed != Some(id) {
                vis.push(Tile::Session(id));
            }
            i = i + 1;
            assert(vis@ =~= visible_ids(post, self.preview_removed).map_values(
                |id: u32| Tile::Session(id),
            ));
        }
        assert(self.ids@.take(self.ids@.len() as int) =~= self.ids@);
        if self.phantom_shown {
            let at = if self.phantom_index <= vis.len() { self.phantom_index } else { vis.len() };
            vis.insert(at, Tile::Phantom);
        }
        let tiles = vis;
        assert(tiles@ == arena_tiles(self@));
        let horiz = self.split_horizontal;
        let mut out: Vec<Placement> = Vec::new();
        if tiles.len() == 0 {
            out.push(Placement { tile: Tile::Empty, col: 0, row: 0, width: 2, height: 2 });
            assert(out@ =~= tile_layout(tiles@, horiz));
            return out;
        }
        let n = tiles.len();
        let shown = if n < 4 { n } else { 4 };
        let mut k: usize = 0;
        while k < shown
            invariant
                n == tiles@.len(),
                n > 0,
                shown == (if n < 4 { n } else { 4 }),
                k <= shown,
                out@ == tile_layout(tiles@, horiz).take(k as int),
            decreases shown - k,
        {
            let (col, row, width, height) = cell(n, horiz, k);
            out.push(Placement { tile: tiles[k], col, row, width, height });
            k = k + 1;
            assert(out@ =~= tile_layout(tiles@, horiz).take(k as int));
        }
        assert(tile_layout(tiles@, horiz).take(shown as int) =~= tile_layout(tiles@, horiz));
        out
    }
}

/// A tile of the arena grid.
#[derive(Debug, Clone, Copy, PartialEq, Eq, Structural)]
pub enum Tile {
    Session(u32),
    /// The drop placeholder.
    Phantom,
    /// The hint shown when there is nothing to tile.
    Empty,
}

/// A tile and the grid cells it spans.
#[derive(Debug, Clone, Copy, PartialEq, Eq, Structural)]
pub struct Placement {
    pub tile: Tile,
    pub col: i32,
    pub row: i32,
    pub width: i32,
    pub height: i32,
}

/// The slot a drop would take; see `Arena::slot_from_coords`.
pub open spec fn spec_slot(count: int, horizontal: bool, has_area: bool, left: bool, top: bool) -> usize {
    if !has_area || count == 0 {
        0
    } else if count == 1 {
        if (horizontal && left) || (!horizontal && top) { 0 } else { 1 }
    } else if count == 2 {
        if horizontal {
            if left { 0 } else if top { 1 } else { 2 }
        } else {
            if top { 0 } else if left { 1 } else { 2 }
        }
    } else {
        ((if top { 0usize } else { 2usize }) + (if left { 0usize } else { 1usize })) as usize
    }
}

/// The slot a drop takes is the tile covering the pointer's cell (column `left ? 0 : 1`,
/// row `top ? 0 : 1`) in the layout with one tile more than the arena holds.
pub proof fn lemma_slot_is_covering_tile(count: int, horizontal: bool, left: bool, top: bool)
    requires
        count >= 0,
    ensures
        ({
            let n = count + 1;
            let r = spec_slot(count, horizontal, true, left, top) as int;
            let c = spec_cell(n, horizontal, r);
            let col: int = if left { 0 } else { 1 };
            let row: int = if top { 0 } else { 1 };
            &&& 0 <= r < (if n < 4 { n } else { 4 })
            &&& c.0 <= col < c.0 + c.2
            &&& c.1 <= row < c.1 + c.3
        }),
{
}

/// The ids of `s` other than the hidden one, in order.
pub open spec fn visible_ids(s: Seq<u32>, hidden: Option<u32>) -> Seq<u32>
    decreases s.len(),
{
    if s.len() == 0 {
        seq![]
    } else {
        let r = visible_ids(s.drop_last(), hidden);
        if hidden == Some(s.last()) {
            r
        } else {
            r.push(s.last())
        }
    }
}

/// The tiles to lay out: the visible sessions in order, with the placeholder inserted at
/// its slot (clamped to the end).
pub open spec fn arena_tiles(v: ArenaView) -> Seq<Tile> {
    let w = visible_ids(v.ids, v.preview_removed).map_values(|id: u32| Tile::Session(id));
    if v.phantom_shown {
        w.insert(if v.phantom_index <= w.len() { v.phantom_index as int } else { w.len() as int }, Tile::Phantom)
    } else {
        w
    }
}

/// Column, row, width and height of tile `i` when `n` tiles share the grid: one fills it;
/// two split it in halves (side by side or stacked); three give the first tile a half and
/// split the other half; four or more fill the quarters with the first four.
pub open spec fn spec_cell(n: int, horizontal: bool, i: int) -> (i32, i32, i32, i32) {
    if n == 1 {
        (0, 0, 2, 2)
    } else if n == 2 {
        if horizontal {
            if i == 0 { (0, 0, 1, 2) } else { (1, 0, 1, 2) }
        } else {
            if i == 0 { (0, 0, 2, 1) } else { (0, 1, 2, 1) }
        }
    } else if n == 3 {
        if horizontal {
            if i == 0 { (0, 0, 1, 2) } else if i == 1 { (1, 0, 1, 1) } else { (1, 1, 1, 1) }
        } else {
            if i == 0 { (0, 0, 2, 1) } else if i == 1 { (0, 1, 1, 1) } else { (1, 1, 1, 1) }
        }
    } else {
        ((i % 2) as i32, (i / 2) as i32, 1, 1)
    }
}

fn cell(n: usize, horizontal: bool, i: usize) -> (r: (i32, i32, i32, i32))
    requires
        n > 0,
        i < n,
        i < 4,
    ensures
        r == spec_cell(n as int, horizontal, i as int),
{
    if n == 1 {
        (0, 0, 2, 2)
    } else if n == 2 {
        if horizontal {
            if i == 0 { (0, 0, 1, 2) } else { (1, 0, 1, 2) }
        } else {
            if i == 0 { (0, 0, 2, 1) } else { (0, 1, 2, 1) }
        }
    } else if n == 3 {
        if horizontal {
            if i == 0 { (0, 0, 1, 2) } else if i == 1 { (1, 0, 1, 1) } else { (1, 1, 1, 1) }
        } else {
            if i == 0 { (0, 0, 2, 1) } else if i == 1 { (0, 1, 1, 1) } else { (1, 1, 1, 1) }
        }
    } else {
        ((i % 2) as i32, (i / 2) as i32, 1, 1)
    }
}

/// The grid placements of `tiles`: the empty-state hint over the whole grid when there are
/// none, else the first four tiles in their cells.
pub open spec fn tile_layout(tiles: Seq<Tile>, horizontal: bool) -> Seq<Placement> {
    if tiles.len() == 0 {
        seq![Placement { tile: Tile::Empty, col: 0, row: 0, width: 2, height: 2 }]
    } else {
        Seq::new(
            if tiles.len() < 4 { tiles.len() } else { 4 },
            |i: int| {
                let c = spec_cell(tiles.len() as int, horizontal, i);
                Placement { tile: tiles[i], col: c.0, row: c.1, width: c.2, height: c.3 }
            },
        )
    }
}

/// Whether placement `p` spans grid cell (`col`, `row`).
pub open spec fn covers(p: Placement, col: int, row: int) -> bool {
    p.col <= col < p.col + p.width && p.row <= row < p.row + p.height
}

/// Some placement of `ps` spans grid cell (`col`, `row`).
pub open spec fn spanned(ps: Seq<Placement>, col: int, row: int) -> bool {
    exists|i: int| 0 <= i < ps.len() && covers(ps[i], col, row)
}

/// The layout tiles the 2×2 grid: every placement lies inside it and each of its four
/// cells is spanned by exactly one placement, whatever the number of tiles (full, 50/50,
/// 1+2, 2×2; beyond four tiles only the first four are shown).
pub proof fn lemma_layout_fills_grid(tiles: Seq<Tile>, horizontal: bool)
    ensures
        ({
            let ps = tile_layout(tiles, horizontal);
            &&& ps.len() >= 1
            &&& forall|i: int|
                0 <= i < ps.len() ==> 0 <= ps[i].col && 0 <= ps[i].row && 1 <= ps[i].width && 1
                    <= ps[i].height && ps[i].col + ps[i].width <= 2 && ps[i].row + ps[i].height
                    <= 2
            &&& forall|col: int, row: int|
                0 <= col < 2 && 0 <= row < 2 ==> #[trigger] spanned(ps, col, row)
            &&& forall|i: int, j: int, col: int, row: int|
                0 <= i < ps.len() && 0 <= j < ps.len() && i != j && #[trigger] covers(ps[i], col, row)
                    ==> !#[trigger] covers(ps[j], col, row)
        }),
{
    let ps = tile_layout(tiles, horizontal);
    assert forall|col: int, row: int| 0 <= col < 2 && 0 <= row < 2 implies #[trigger] spanned(
        ps,
        col,
        row,
    ) by {
        if tiles.len() == 0 || tiles.len() == 1 {
            assert(covers(ps[0], col, row));
        } else if tiles.len() == 2 {
            if horizontal {
                assert(covers(ps[col], col, row));
            } else {
                assert(covers(ps[row], col, row));
            }
        } else if tiles.len() == 3 {
            if horizontal {
                if col == 0 {
                    assert(covers(ps[0], col, row));
                } else {
                    assert(covers(ps[1 + row], col, row));
                }
            } else {
                if row == 0 {
                    assert(covers(ps[0], col, row));
                } else {
                    assert(covers(ps[1 + col], col, row));
                }
            }
        } else {
            assert(covers(ps[2 * row + col], col, row));
        }
    }
}

/// Swapping the same two sessions twice gives back the starting order, when no id repeats
/// (so a previewed swap that is undone leaves the arena as it was).
pub proof fn lemma_swap_twice(ids: Seq<u32>, a: u32, b: u32)
    requires
        ids.no_duplicates(),
    ensures
        swap_ids(ids, a, b).no_duplicates(),
        swap_ids(swap_ids(ids, a, b), a, b) == ids,
        undo_swap(swap_ids(ids, a, b), Some((a, b))) == ids,
{
    if ids.contains(a) && ids.contains(b) {
        let pa = first_index(ids, a);
        let pb = first_index(ids, b);
        crate::seqs::lemma_first_index(ids, a);
        crate::seqs::lemma_first_index(ids, b);
        let t = swap_at(ids, pa, pb);
        assert(t.no_duplicates()) by {
            assert forall|i: int, j: int| 0 <= i < t.len() && 0 <= j < t.len() && i != j implies t[i]
                != t[j] by {
                let si = if i == pb { pa } else if i == pa { pb } else { i };
                let sj = if j == pb { pa } else if j == pa { pb } else { j };
                assert(t[i] == ids[si]);
                assert(t[j] == ids[sj]);
            }
        }
        assert(t[pb] == a);
        assert(t[pa] == b);
        lemma_first_index_no_dup(t, pb);
        lemma_first_index_no_dup(t, pa);
        assert(t.contains(a));
        assert(t.contains(b));
        assert(swap_at(t, pb, pa) =~= ids);
        assert(swap_at(t, pa, pb) =~= ids);
    }
}

/// Previewing a swap and undoing it restores the arena's order, when ids do not repeat
/// and no other swap was being previewed.
pub proof fn lemma_preview_swap_then_undo(v: ArenaView, a: u32, b: u32)
    requires
        v.ids.no_duplicates(),
        v.preview_swapped is None,
        v.ids.contains(a),
        v.ids.contains(b),
    ensures
        undo_swap(swap_ids(undo_swap(v.ids, v.preview_swapped), a, b), Some((a, b))) == v.ids,
{
    lemma_swap_twice(v.ids, a, b);
}

/// Adding to an arena that holds at most `MAX_ACTIVE` sessions keeps it at most that full.
pub proof fn lemma_add_keeps_bound(ids: Seq<u32>, id: u32)
    requires
        ids.len() <= MAX_ACTIVE,
    ensures
        (if ids.len() >= MAX_ACTIVE { ids.drop_first().push(id) } else { ids.push(id) }).len()
            <= MAX_ACTIVE,
{
}

} // verus!
