//! The sidebar (the dock of demoted sessions): card order, the drop placeholder shown
//! while dragging, and the filter and attention-edge decisions.
use vstd::prelude::*;
use crate::seqs::{contains_id, copy_ids, first_index, lemma_first_index, position};

verus! {

/// Which cards of the dock are shown.
#[derive(Debug, Clone, Copy, PartialEq, Eq, Structural)]
pub enum FilterMode {
    All,
    Busy,
    Attention,
}

/// Whether a card is shown under `mode`.
pub open spec fn spec_filter_shows(mode: FilterMode, busy: bool, attention: bool) -> bool {
    match mode {
        FilterMode::All => true,
        FilterMode::Busy => busy,
        FilterMode::Attention => attention,
    }
}

/// Whether a session's card is shown under `mode`: always, when busy, or when it needs
/// attention.
pub fn filter_shows(mode: FilterMode, busy: bool, attention: bool) -> (r: bool)
    ensures
        r == spec_filter_shows(mode, busy, attention),
{
    match mode {
        FilterMode::All => true,
        FilterMode::Busy => busy,
        FilterMode::Attention => attention,
    }
}

/// The drop placeholder of the dock.
#[derive(Debug, Clone, Copy, PartialEq, Eq, Structural)]
pub struct Placeholder {
    /// How many cards precede it in the list, when it is in the list.
    pub gap: Option<usize>,
    pub visible: bool,
}

/// The dock's sessions (by id, in card order) and drag state.
pub struct Sidebar {
    ids: Vec<u32>,
    placeholder: Option<Placeholder>,
    dragging_id: Option<u32>,
    filter_mode: FilterMode,
}

/// What a `Sidebar` holds.
#[verifier::ext_equal]
pub struct SidebarView {
    pub ids: Seq<u32>,
    pub placeholder: Option<Placeholder>,
    /// The session being dragged out of the dock, if any.
    pub dragging_id: Option<u32>,
    pub filter_mode: FilterMode,
}

impl View for Sidebar {
    type V = SidebarView;

    closed spec fn view(&self) -> SidebarView {
        SidebarView {
            ids: self.ids@,
            placeholder: self.placeholder,
            dragging_id: self.dragging_id,
            filter_mode: self.filter_mode,
        }
    }
}

/// The placeholder never stands past the last card.
pub open spec fn gap_in_range(p: Option<Placeholder>, len: nat) -> bool {
    p matches Some(ph) ==> (ph.gap matches Some(g) ==> g <= len)
}

/// The placeholder after the card at `pos` left the list.
pub open spec fn gap_after_remove(p: Option<Placeholder>, pos: int) -> Option<Placeholder> {
    match p {
        Some(ph) => match ph.gap {
            Some(g) => if pos < g {
                Some(Placeholder { gap: Some((g - 1) as usize), ..ph })
            } else {
                p
            },
            None => p,
        },
        None => p,
    }
}

/// The placeholder after a card was put at position `q` (at the front, or right after
/// the card before it).
pub open spec fn gap_after_insert(p: Option<Placeholder>, q: int) -> Option<Placeholder> {
    match p {
        Some(ph) => match ph.gap {
            Some(g) => if q == 0 || g >= q {
                Some(Placeholder { gap: Some((g + 1) as usize), ..ph })
            } else {
                p
            },
            None => p,
        },
        None => p,
    }
}

/// The dock without card `id` (which it holds).
pub open spec fn without_card(v: SidebarView, id: u32) -> SidebarView {
    SidebarView {
        ids: v.ids.remove(first_index(v.ids, id)),
        placeholder: gap_after_remove(v.placeholder, first_index(v.ids, id)),
        ..v
    }
}

/// Where `reorder_to_index` puts card `src` in the shortened list: `index` counts
/// positions before the move, so a card moved down lands one place earlier; clamped to
/// the end.
pub open spec fn reorder_target(ids: Seq<u32>, src: u32, index: usize) -> int {
    let p = first_index(ids, src);
    let adjusted = if p < index { index - 1 } else { index as int };
    if adjusted <= ids.len() - 1 { adjusted } else { ids.len() - 1 }
}

/// The card order after `reorder_to_index(src, index)`.
pub open spec fn reordered_to(ids: Seq<u32>, src: u32, index: usize) -> Seq<u32> {
    if ids.contains(src) {
        ids.remove(first_index(ids, src)).insert(reorder_target(ids, src, index), src)
    } else {
        ids
    }
}

/// Reordering keeps the same cards and puts the moved card at its target position.
pub proof fn lemma_reorder_keeps_cards(ids: Seq<u32>, src: u32, index: usize)
    requires
        ids.contains(src),
    ensures
        reordered_to(ids, src, index).to_multiset() == ids.to_multiset(),
        reordered_to(ids, src, index)[reorder_target(ids, src, index)] == src,
        reordered_to(ids, src, index).len() == ids.len(),
{
    lemma_first_index(ids, src);
    let p = first_index(ids, src);
    let rest = ids.remove(p);
    let q = reorder_target(ids, src, index);
    vstd::seq_lib::to_multiset_remove(ids, p);
    vstd::seq_lib::to_multiset_insert(rest, q, src);
    broadcast use vstd::multiset::group_multiset_axioms;
    assert(ids.to_multiset().contains(src)) by {
        vstd::seq_lib::to_multiset_contains(ids, src);
    }
    assert(ids.to_multiset().remove(src).insert(src) =~= ids.to_multiset());
}

/// Where the placeholder would put the dragged card: position 0 for `None`, after card
/// `i` for `Some(i)`.
pub open spec fn target_pos(insert_idx: Option<usize>) -> int {
    match insert_idx {
        None => 0,
        Some(i) => i + 1,
    }
}

/// Dropping at the target would leave the dragged card where it is.
pub open spec fn is_noop_target(v: SidebarView, insert_idx: Option<usize>) -> bool {
    match v.dragging_id {
        Some(d) => v.ids.contains(d) && (target_pos(insert_idx) == first_index(v.ids, d)
            || target_pos(insert_idx) == first_index(v.ids, d) + 1),
        None => false,
    }
}

/// Where the placeholder goes in the list for a target: after card `i` when that card
/// exists, otherwise at the front.
pub open spec fn attach_gap(ids: Seq<u32>, insert_idx: Option<usize>) -> usize {
    match insert_idx {
        Some(i) => if i < ids.len() { (i + 1) as usize } else { 0 },
        None => 0,
    }
}

impl Sidebar {
    #[verifier::type_invariant]
    spec fn inv(self) -> bool {
        gap_in_range(self.placeholder, self.ids@.len())
    }

    /// An empty dock showing every card.
    pub fn new() -> (r: Sidebar)
        ensures
            r@ == (SidebarView {
                ids: seq![],
                placeholder: None,
                dragging_id: None,
                filter_mode: FilterMode::All,
            }),
    {
        let r = Sidebar {
            ids: Vec::new(),
            placeholder: None,
            dragging_id: None,
            filter_mode: FilterMode::All,
        };
        assert(r@ =~= SidebarView {
            ids: seq![],
            placeholder: None,
            dragging_id: None,
            filter_mode: FilterMode::All,
        });
        r
    }

    /// Appends a card.
    pub fn add(&mut self, id: u32)
        ensures
            final(self)@ == (SidebarView { ids: old(self)@.ids.push(id), ..old(self)@ }),
    {
        proof {
            use_type_invariant(&*self);
        }
        let ph = self.placeholder;
        self.placeholder = None;
        let mut ids: Vec<u32> = Vec::new();
        std::mem::swap(&mut ids, &mut self.ids);
        ids.push(id);
        self.ids = ids;
        self.placeholder = ph;
    }

    /// Removes a card; returns its session when it was present.
    pub fn remove(&mut self, id: u32) -> (r: Option<u32>)
        ensures
            r == (if old(self)@.ids.contains(id) { Some(id) } else { None }),
            old(self)@.ids.contains(id) ==> final(self)@ == without_card(old(self)@, id),
            !old(self)@.ids.contains(id) ==> final(self)@ == old(self)@,
    {
        proof {
            use_type_invariant(&*self);
        }
        match position(&self.ids, id) {
            Some(pos) => {
                let down = Self::shift_down(self.placeholder, pos);
                self.placeholder = None;
                let mut ids: Vec<u32> = Vec::new();
                std::mem::swap(&mut ids, &mut self.ids);
                ids.remove(pos);
                self.ids = ids;
                self.placeholder = down;
                Some(id)
            },
            None => None,
        }
    }

    fn shift_down(p: Option<Placeholder>, pos: usize) -> (r: Option<Placeholder>)
        ensures
            r == gap_after_remove(p, pos as int),
            forall|n: nat| gap_in_range(p, n) && n > pos ==> gap_in_range(r, (n - 1) as nat),
    {
        match p {
            Some(ph) => match ph.gap {
                Some(g) => if pos < g {
                    Some(Placeholder { gap: Some(g - 1), ..ph })
                } else {
                    p
                },
                None => p,
            },
            None => p,
        }
    }

    fn shift_up(p: Option<Placeholder>, q: usize, len: usize) -> (r: Option<Placeholder>)
        requires
            gap_in_range(p, len as nat),
            q <= len,
            len < usize::MAX,
        ensures
            r == gap_after_insert(p, q as int),
            gap_in_range(r, (len + 1) as nat),
    {
        match p {
            Some(ph) => match ph.gap {
                Some(g) => if q == 0 || g >= q {
                    Some(Placeholder { gap: Some(g + 1), ..ph })
                } else {
                    p
                },
                None => p,
            },
            None => p,
        }
    }

    pub fn contains(&self, id: u32) -> (r: bool)
        ensures
            r == self@.ids.contains(id),
    {
        contains_id(&self.ids, id)
    }

    /// Card position of `id`.
    pub fn position(&self, id: u32) -> (r: Option<usize>)
        ensures
            match r {
                Some(i) => i < self@.ids.len() && self@.ids[i as int] == id && first_index(
                    self@.ids,
                    id,
                ) == i,
                None => !self@.ids.contains(id) && first_index(self@.ids, id) == -1,
            },
    {
        position(&self.ids, id)
    }

    /// The session ids in card order.
    pub fn session_ids(&self) -> (r: Vec<u32>)
        ensures
            r@ == self@.ids,
    {
        copy_ids(&self.ids)
    }

    /// Moves card `src` from `p` to `q` of the shortened list, keeping the placeholder
    /// between the same cards.
    fn move_card(&mut self, src: u32, p: usize, q: usize)
        requires
            p < old(self)@.ids.len(),
            old(self)@.ids[p as int] == src,
            q < old(self)@.ids.len(),
        ensures
            final(self)@ == (SidebarView {
                ids: old(self)@.ids.remove(p as int).insert(q as int, src),
                placeholder: gap_after_insert(
                    gap_after_remove(old(self)@.placeholder, p as int),
                    q as int,
                ),
                ..old(self)@
            }),
    {
        proof {
            use_type_invariant(&*self);
        }
        let len = self.ids.len();
        let down = Self::shift_down(self.placeholder, p);
        let up = Self::shift_up(down, q, len - 1);
        self.placeholder = None;
        let mut ids: Vec<u32> = Vec::new();
        std::mem::swap(&mut ids, &mut self.ids);
        ids.remove(p);
        ids.insert(q, src);
        self.ids = ids;
        self.placeholder = up;
    }

    /// Moves card `source_id` to the place of card `target_id` (to the end when the target
    /// is not in the dock). Nothing when the source is not in the dock, or is the target
    /// itself (it already stands at its own place).
    pub fn reorder_before(&mut self, source_id: u32, target_id: u32)
        ensures
            (!old(self)@.ids.contains(source_id) || source_id == target_id) ==> final(self)@ == old(self)@,
            old(self)@.ids.contains(source_id) && source_id != target_id ==> ({
                let p = first_index(old(self)@.ids, source_id);
                let rest = old(self)@.ids.remove(p);
                let q = if rest.contains(target_id) { first_index(rest, target_id) } else { rest.len() as int };
                final(self)@ == (SidebarView {
                    ids: rest.insert(q, source_id),
                    placeholder: gap_after_insert(gap_after_remove(old(self)@.placeholder, p), q),
                    ..old(self)@
                })
            }),
    {
        if source_id == target_id {
            return;
        }
        let p = match position(&self.ids, source_id) {
            Some(p) => p,
            None => return,
        };
        let mut rest = copy_ids(&self.ids);
        rest.remove(p);
        let q = match position(&rest, target_id) {
            Some(q) => q,
            None => rest.len(),
        };
        self.move_card(source_id, p, q);
    }

    /// Moves card `source_id` to `index`, a position in the list before the move (so a
    /// card moved down lands one place earlier), clamped to the end. Nothing when the
    /// source is not in the dock.
    pub fn reorder_to_index(&mut self, source_id: u32, index: usize)
        ensures
            !old(self)@.ids.contains(source_id) ==> final(self)@ == old(self)@,
            old(self)@.ids.contains(source_id) ==> ({
                let p = first_index(old(self)@.ids, source_id);
                let q = reorder_target(old(self)@.ids, source_id, index);
                final(self)@ == (SidebarView {
                    ids: reordered_to(old(self)@.ids, source_id, index),
                    placeholder: gap_after_insert(gap_after_remove(old(self)@.placeholder, p), q),
                    ..old(self)@
                })
            }),
    {
        let p = match position(&self.ids, source_id) {
            Some(p) => p,
            None => return,
        };
        let adjusted = if p < index { index - 1 } else { index };
        let last = self.ids.len() - 1;
        let q = if adjusted <= last { adjusted } else { last };
        self.move_card(source_id, p, q);
    }

    /// Where the placeholder is: the number of cards before it, or 0 when it is not in the
    /// list.
    pub fn placeholder_insert_index(&self) -> (r: usize)
        ensures
            r == match self@.placeholder {
                Some(ph) => match ph.gap {
                    Some(g) => g,
                    None => 0,
                },
                None => 0,
            },
    {
        match self.placeholder {
            Some(ph) => match ph.gap {
                Some(g) => g,
                None => 0,
            },
            None => 0,
        }
    }

    /// The placeholder, when one is shown or parked.
    pub fn placeholder(&self) -> (r: Option<Placeholder>)
        ensures
            r == self@.placeholder,
    {
        self.placeholder
    }

    /// The session being dragged out of the dock, if any.
    pub fn dragging_id(&self) -> (r: Option<u32>)
        ensures
            r == self@.dragging_id,
    {
        self.dragging_id
    }

    /// Records the session being dragged out of the dock.
    pub fn set_dragging_id(&mut self, id: u32)
        ensures
            final(self)@ == (SidebarView { dragging_id: Some(id), ..old(self)@ }),
    {
        proof {
            use_type_invariant(&*self);
        }
        self.dragging_id = Some(id);
    }

    pub fn clear_dragging_id(&mut self)
        ensures
            final(self)@ == (SidebarView { dragging_id: None, ..old(self)@ }),
    {
        proof {
            use_type_invariant(&*self);
        }
        self.dragging_id = None;
    }

    pub fn set_filter_mode(&mut self, mode: FilterMode)
        ensures
            final(self)@ == (SidebarView { filter_mode: mode, ..old(self)@ }),
    {
        proof {
            use_type_invariant(&*self);
        }
        self.filter_mode = mode;
    }

    pub fn filter_mode(&self) -> (r: FilterMode)
        ensures
            r == self@.filter_mode,
    {
        self.filter_mode
    }

    fn noop_target(&self, insert_idx: Option<usize>) -> (r: bool)
        requires
            insert_idx matches Some(i) ==> i < usize::MAX,
        ensures
            r == is_noop_target(self@, insert_idx),
    {
        match self.dragging_id {
            Some(d) => match position(&self.ids, d) {
                Some(dp) => {
                    assert(dp < self.ids.len());
                    let target: usize = match insert_idx {
                        None => 0,
                        Some(i) => i + 1,
                    };
                    target == dp || target == dp + 1
                },
                None => false,
            },
            None => false,
        }
    }

    /// Shows the placeholder at a target (`None`: before the first card; `Some(i)`: after
    /// card `i`). A target that would leave the dragged card in place hides it instead.
    pub fn show_placeholder(&mut self, insert_idx: Option<usize>)
        requires
            insert_idx matches Some(i) ==> i < usize::MAX,
        ensures
            final(self)@ == (SidebarView {
                placeholder: Some(
                    if is_noop_target(old(self)@, insert_idx) {
                        Placeholder { gap: None, visible: false }
                    } else {
                        Placeholder { gap: Some(attach_gap(old(self)@.ids, insert_idx)), visible: true }
                    },
                ),
                ..old(self)@
            }),
    {
        proof {
            use_type_invariant(&*self);
        }
        if self.noop_target(insert_idx) {
            self.placeholder = Some(Placeholder { gap: None, visible: false });
            return;
        }
        let gap: usize = match insert_idx {
            Some(i) => if i < self.ids.len() { i + 1 } else { 0 },
            None => 0,
        };
        self.placeholder = Some(Placeholder { gap: Some(gap), visible: true });
    }

    /// Moves a placeholder that exists to a new target, as `show_placeholder` places it;
    /// nothing when there is none.
    pub fn move_placeholder(&mut self, insert_idx: Option<usize>)
        requires
            insert_idx matches Some(i) ==> i < usize::MAX,
        ensures
            old(self)@.placeholder is None ==> final(self)@ == old(self)@,
            old(self)@.placeholder is Some ==> final(self)@ == (SidebarView {
                placeholder: Some(
                    if is_noop_target(old(self)@, insert_idx) {
                        Placeholder { gap: None, visible: false }
                    } else {
                        Placeholder { gap: Some(attach_gap(old(self)@.ids, insert_idx)), visible: true }
                    },
                ),
                ..old(self)@
            }),
    {
        if self.placeholder.is_none() {
            return;
        }
        self.show_placeholder(insert_idx);
    }

    /// Takes the placeholder away.
    pub fn hide_placeholder(&mut self)
        ensures
            final(self)@ == (SidebarView { placeholder: None, ..old(self)@ }),
    {
        self.placeholder = None;
    }
}

/// The target for a drop at a height, given for each card whether the height lies above
/// its middle: before the first card (`None`) when it is above the first card's middle,
/// after card `i - 1` when it is first above card `i`'s middle, after the last card when
/// it is above none (and `None` for an empty dock).
pub fn find_insert_index(above_midpoint: &Vec<bool>) -> (r: Option<usize>)
    ensures
        above_midpoint@.len() == 0 ==> r is None,
        above_midpoint@.len() > 0 ==> ({
            if exists|i: int| 0 <= i < above_midpoint@.len() && above_midpoint@[i] {
                let i = choose|i: int|
                    0 <= i < above_midpoint@.len() && above_midpoint@[i] && forall|j: int|
                        0 <= j < i ==> !above_midpoint@[j];
                r == if i == 0 { None } else { Some((i - 1) as usize) }
            } else {
                r == Some((above_midpoint@.len() - 1) as usize)
            }
        }),
{
    let n = above_midpoint.len();
    if n == 0 {
        return None;
    }
    let mut i: usize = 0;
    while i < n
        invariant
            n == above_midpoint@.len(),
            i <= n,
            forall|j: int| 0 <= j < i ==> !above_midpoint@[j],
        decreases n - i,
    {
        if above_midpoint[i] {
            proof {
                let k = choose|k: int|
                    0 <= k < above_midpoint@.len() && above_midpoint@[k] && forall|j: int|
                        0 <= j < k ==> !above_midpoint@[j];
                assert(0 <= i < above_midpoint@.len() && above_midpoint@[i as int] && forall|j: int|
                    0 <= j < i ==> !above_midpoint@[j]);
                if k < i {
                    assert(!above_midpoint@[k]);
                } else if k > i {
                    assert(!above_midpoint@[i as int]);
                }
            }
            return if i == 0 { None } else { Some(i - 1) };
        }
        i = i + 1;
    }
    Some(n - 1)
}

/// Where a card stands relative to the dock's visible area.
#[derive(Debug, Clone, Copy)]
pub struct EdgeCard {
    pub attention: bool,
    pub visible: bool,
    /// The card has a position and a positive height.
    pub placed: bool,
    /// Its bottom is at or above the top of the visible area.
    pub fully_above: bool,
    /// Its top is at or below the bottom of the visible area.
    pub fully_below: bool,
}

pub open spec fn counts_above(c: EdgeCard) -> bool {
    c.attention && c.visible && c.placed && c.fully_above
}

pub open spec fn counts_below(c: EdgeCard) -> bool {
    c.attention && c.visible && c.placed && !c.fully_above && c.fully_below
}

/// How many cards of `cs` satisfy `f`.
pub open spec fn count_where(cs: Seq<EdgeCard>, f: spec_fn(EdgeCard) -> bool) -> nat
    decreases cs.len(),
{
    if cs.len() == 0 {
        0
    } else {
        count_where(cs.drop_last(), f) + if f(cs.last()) { 1nat } else { 0nat }
    }
}

proof fn lemma_count_where_bound(cs: Seq<EdgeCard>, f: spec_fn(EdgeCard) -> bool)
    ensures
        count_where(cs, f) <= cs.len(),
    decreases cs.len(),
{
    if cs.len() > 0 {
        lemma_count_where_bound(cs.drop_last(), f);
    }
}

/// The numbers of attention cards out of view above and below the visible area (the
/// counts on the edge indicators).
pub fn count_edge_attention(cards: &Vec<EdgeCard>) -> (r: (u32, u32))
    requires
        cards@.len() <= u32::MAX,
    ensures
        r.0 == count_where(cards@, |c: EdgeCard| counts_above(c)),
        r.1 == count_where(cards@, |c: EdgeCard| counts_below(c)),
{
    let mut above: u32 = 0;
    let mut below: u32 = 0;
    let mut i: usize = 0;
    while i < cards.len()
        invariant
            cards@.len() <= u32::MAX,
            i <= cards@.len(),
            above == count_where(cards@.take(i as int), |c: EdgeCard| counts_above(c)),
            below == count_where(cards@.take(i as int), |c: EdgeCard| counts_below(c)),
        decreases cards.len() - i,
    {
        let c = cards[i];
        let ghost pre = cards@.take(i as int);
        let ghost post = cards@.take(i as int + 1);
        assert(post.drop_last() =~= pre);
        assert(post.last() == c);
        proof {
            lemma_count_where_bound(pre, |c: EdgeCard| counts_above(c));
            lemma_count_where_bound(pre, |c: EdgeCard| counts_below(c));
        }
        if c.attention && c.visible && c.placed {
            if c.fully_above {
                above = above + 1;
            } else if c.fully_below {
                below = below + 1;
            }
        }
        i = i + 1;
    }
    assert(cards@.take(cards@.len() as int) =~= cards@);
    (above, below)
}

/// The label of an edge indicator: an arrow up (cards above the visible area) or down,
/// and how many attention cards lie that way.
pub fn edge_caption(above: bool, count: u32) -> (r: String)
    ensures
        r@ == (if above { "\u{2191} "@ } else { "\u{2193} "@ }) + crate::runtime::decimal(count as nat)
            + " attention"@,
{
    let mut out = String::from_str(if above { "\u{2191} " } else { "\u{2193} " });
    crate::runtime::append_decimal(&mut out, count as u64);
    out.append(" attention");
    out
}

} // verus!
