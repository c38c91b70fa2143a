//! A workspace: every session it owns, each either in the arena or in the sidebar,
//! and the moves between the two (promote, demote, drops, closing) with the focus rules
//! that go with them.
use vstd::prelude::*;
use crate::arena::{undo_swap, Arena, ArenaView, MAX_ACTIVE};
use crate::seqs::{
    first_index, lemma_first_index, lemma_first_index_no_dup, lemma_insert_fresh, lemma_push_contains, lemma_push_no_dup, lemma_remove_id,
    lemma_swap_ids, lemma_update_fresh, remove_id, swap_ids,
};
use crate::session::{spec_tick, Location, Session, TickProbe, ALERT_MILLIS};
use crate::sidebar::{reorder_target, reordered_to, without_card, Sidebar, SidebarView};
use crate::templates::{SessionSpecView, WorkspaceTemplate};

verus! {

/// How many emojis the pool that identifies sessions holds.
pub const EMOJI_POOL_LEN: usize = 45;

/// The ids of the sessions, in registry order.
pub open spec fn ids_of(reg: Seq<Session>) -> Seq<u32> {
    reg.map_values(|s: Session| s.id)
}

/// A session's state once its terminal is shown in `loc`.
pub open spec fn placed_state(s: Session, loc: Location) -> Session {
    if loc == Location::Arena {
        Session { location: Location::Arena, attention: false, ..s }
    } else {
        Session { location: Location::Sidebar, ..s }
    }
}

/// The registry with session `id` placed in `loc`.
pub open spec fn place(reg: Seq<Session>, id: u32, loc: Location) -> Seq<Session> {
    Seq::new(reg.len(), |i: int| if reg[i].id == id { placed_state(reg[i], loc) } else { reg[i] })
}

/// The registry without session `id`.
pub open spec fn unregister(reg: Seq<Session>, id: u32) -> Seq<Session> {
    if ids_of(reg).contains(id) {
        reg.remove(first_index(ids_of(reg), id))
    } else {
        reg
    }
}

/// The emoji indices no session uses, or the whole pool when every one is taken.
pub open spec fn emoji_pool(reg: Seq<Session>) -> Seq<usize> {
    let free = Seq::new(EMOJI_POOL_LEN as nat, |i: int| i as usize).filter(
        |e: usize| forall|k: int| 0 <= k < reg.len() ==> reg[k].emoji != e,
    );
    if free.len() > 0 {
        free
    } else {
        Seq::new(EMOJI_POOL_LEN as nat, |i: int| i as usize)
    }
}

/// All sessions of a workspace and where each one is shown.
pub struct Workspace {
    arena: Arena,
    sidebar: Sidebar,
    /// Every session, in spawn order.
    registry: Vec<Session>,
    /// The id the next session gets.
    next_session_id: u32,
    /// The session focused last, restored on tab switch.
    last_focused_id: Option<u32>,
    /// The session drawn as focused.
    focus_holder: Option<u32>,
}

/// What a `Workspace` holds.
#[verifier::ext_equal]
pub struct WorkspaceView {
    pub arena: ArenaView,
    pub sidebar: SidebarView,
    pub registry: Seq<Session>,
    pub next_session_id: u32,
    pub last_focused_id: Option<u32>,
    pub focus_holder: Option<u32>,
}

impl View for Workspace {
    type V = WorkspaceView;

    closed spec fn view(&self) -> WorkspaceView {
        WorkspaceView {
            arena: self.arena@,
            sidebar: self.sidebar@,
            registry: self.registry@,
            next_session_id: self.next_session_id,
            last_focused_id: self.last_focused_id,
            focus_holder: self.focus_holder,
        }
    }
}

/// The facts every well-formed workspace keeps: session ids do not repeat, in the
/// registry, the arena or the sidebar; the registered sessions are exactly those in the
/// arena or the sidebar, and none is in both; the arena holds at most `MAX_ACTIVE`.
pub open spec fn consistent(v: WorkspaceView) -> bool {
    &&& ids_of(v.registry).no_duplicates()
    &&& v.arena.ids.no_duplicates()
    &&& v.sidebar.ids.no_duplicates()
    &&& v.arena.ids.len() <= MAX_ACTIVE
    &&& forall|x: u32| #[trigger] ids_of(v.registry).contains(x) <==> (v.arena.ids.contains(x)
        || v.sidebar.ids.contains(x))
    &&& forall|x: u32| #[trigger] v.arena.ids.contains(x) ==> !v.sidebar.ids.contains(x)
}

impl Workspace {
    /// Each session is in exactly one of arena and sidebar and says so, ids do not repeat,
    /// the arena holds at most `MAX_ACTIVE`, the focused session exists and was focused
    /// last, and new ids are fresh.
    pub closed spec fn wf(&self) -> bool {
        let reg = self@.registry;
        let a = self@.arena.ids;
        let sb = self@.sidebar.ids;
        &&& ids_of(reg).no_duplicates()
        &&& a.no_duplicates()
        &&& sb.no_duplicates()
        &&& a.len() <= MAX_ACTIVE
        &&& forall|x: u32| #[trigger] ids_of(reg).contains(x) <==> (a.contains(x) || sb.contains(x))
        &&& forall|x: u32| #[trigger] a.contains(x) ==> !sb.contains(x)
        &&& forall|i: int|
            0 <= i < reg.len() ==> ((#[trigger] reg[i]).location == Location::Arena <==> a.contains(
                reg[i].id,
            ))
        &&& forall|i: int| 0 <= i < reg.len() ==> (#[trigger] reg[i]).id < self.next_session_id
        &&& self.focus_holder matches Some(f) ==> ids_of(reg).contains(f) && self.last_focused_id
            == Some(f)
    }

    /// What a well-formed workspace guarantees its callers: see `consistent`.
    pub proof fn lemma_wf_consistent(&self)
        requires
            self.wf(),
        ensures
            consistent(self@),
    {
    }

    /// A workspace with no sessions.
    pub fn empty() -> (r: Workspace)
        ensures
            r.wf(),
            r@ == empty_workspace(),
            r@.registry == Seq::<Session>::empty(),
            r@.arena.ids == Seq::<u32>::empty(),
            r@.sidebar.ids == Seq::<u32>::empty(),
            r@.next_session_id == 1,
            r@.last_focused_id is None,
            r@.focus_holder is None,
    {
        let r = Workspace {
            arena: Arena::new(),
            sidebar: Sidebar::new(),
            registry: Vec::new(),
            next_session_id: 1,
            last_focused_id: None,
            focus_holder: None,
        };
        assert(ids_of(r@.registry) =~= Seq::<u32>::empty());
        r
    }

    /// The arena.
    pub fn arena(&self) -> (r: &Arena)
        ensures
            r@ == self@.arena,
    {
        &self.arena
    }

    /// The sidebar.
    pub fn sidebar(&self) -> (r: &Sidebar)
        ensures
            r@ == self@.sidebar,
    {
        &self.sidebar
    }

    /// The id the next session gets.
    pub fn next_session_id(&self) -> (r: u32)
        ensures
            r == self@.next_session_id,
    {
        self.next_session_id
    }

    /// The session focused last, if any.
    pub fn last_focused_id(&self) -> (r: Option<u32>)
        ensures
            r == self@.last_focused_id,
    {
        self.last_focused_id
    }

    /// The session drawn as focused, if any.
    pub fn focus_holder(&self) -> (r: Option<u32>)
        ensures
            r == self@.focus_holder,
    {
        self.focus_holder
    }

    /// Shows the sidebar cards that `mode` lets through.
    pub fn set_filter_mode(&mut self, mode: crate::sidebar::FilterMode)
        requires
            old(self).wf(),
        ensures
            final(self).wf(),
            final(self)@ == (WorkspaceView {
                sidebar: SidebarView { filter_mode: mode, ..old(self)@.sidebar },
                ..old(self)@
            }),
    {
        self.sidebar.set_filter_mode(mode);
        proof {
            let reg = self@.registry;
            assert forall|j: int| 0 <= j < reg.len() implies ((#[trigger] reg[j]).location
                == Location::Arena <==> self@.arena.ids.contains(reg[j].id)) by {
                assert(old(self)@.registry[j] == reg[j]);
            }
        }
    }

    /// Position of session `id` in the registry (its first record).
    pub fn record_index(&self, id: u32) -> (r: Option<usize>)
        ensures
            match r {
                Some(i) => i < self@.registry.len() && self@.registry[i as int].id == id
                    && i == record_pos(self@.registry, id),
                None => !ids_of(self@.registry).contains(id),
            },
    {
        let mut i: usize = 0;
        while i < self.registry.len()
            invariant
                i <= self@.registry.len(),
                forall|j: int| 0 <= j < i ==> self@.registry[j].id != id,
            decreases self.registry.len() - i,
        {
            if self.registry[i].id == id {
                proof {
                    let ids = ids_of(self@.registry);
                    lemma_first_index(ids, id);
                    assert(crate::seqs::is_first_index(ids, id, i as int));
                }
                return Some(i);
            }
            i = i + 1;
        }
        proof {
            if ids_of(self@.registry).contains(id) {
                let k = choose|k: int| 0 <= k < ids_of(self@.registry).len() && ids_of(self@.registry)[k] == id;
                assert(self@.registry[k].id == id);
            }
        }
        None
    }

    /// The state of session `id`.
    pub fn find(&self, id: u32) -> (r: Option<Session>)
        ensures
            match r {
                Some(s) => s.id == id && s == self@.registry[record_pos(self@.registry, id)]
                    && self@.registry.contains(s),
                None => !ids_of(self@.registry).contains(id),
            },
    {
        match self.record_index(id) {
            Some(i) => Some(self.registry[i]),
            None => None,
        }
    }

    /// The state of the session focused last, if it still exists.
    pub fn focused_session(&self) -> (r: Option<Session>)
        ensures
            match self@.last_focused_id {
                None => r is None,
                Some(id) => match r {
                    Some(s) => s.id == id && s == self@.registry[record_pos(self@.registry, id)]
                        && self@.registry.contains(s),
                    None => !ids_of(self@.registry).contains(id),
                },
            },
    {
        match self.last_focused_id {
            Some(id) => self.find(id),
            None => None,
        }
    }

    /// Every session's state, in spawn order.
    pub fn sessions(&self) -> (r: Vec<Session>)
        ensures
            r@ == self@.registry,
    {
        let mut r: Vec<Session> = Vec::new();
        let mut i: usize = 0;
        while i < self.registry.len()
            invariant
                i <= self@.registry.len(),
                r@ == self@.registry.take(i as int),
            decreases self.registry.len() - i,
        {
            r.push(self.registry[i]);
            i = i + 1;
            assert(r@ =~= self@.registry.take(i as int));
        }
        assert(self@.registry.take(self@.registry.len() as int) =~= self@.registry);
        r
    }

    /// Applies `placed_state` to session `id`.
    fn place_record(&mut self, id: u32, loc: Location)
        ensures
            final(self)@.registry == place(old(self)@.registry, id, loc),
            final(self)@.arena == old(self)@.arena,
            final(self)@.sidebar == old(self)@.sidebar,
            final(self)@.next_session_id == old(self)@.next_session_id,
            final(self)@.last_focused_id == old(self)@.last_focused_id,
            final(self)@.focus_holder == old(self)@.focus_holder,
    {
        let mut i: usize = 0;
        while i < self.registry.len()
            invariant
                i <= self@.registry.len(),
                self@.registry.len() == old(self)@.registry.len(),
                forall|j: int|
                    0 <= j < i ==> self@.registry[j] == (if old(self)@.registry[j].id == id {
                        placed_state(old(self)@.registry[j], loc)
                    } else {
                        old(self)@.registry[j]
                    }),
                forall|j: int| i <= j < self@.registry.len() ==> self@.registry[j] == old(self)@.registry[j],
                self@.arena == old(self)@.arena,
                self@.sidebar == old(self)@.sidebar,
                self@.next_session_id == old(self)@.next_session_id,
                self@.last_focused_id == old(self)@.last_focused_id,
                self@.focus_holder == old(self)@.focus_holder,
            decreases self.registry.len() - i,
        {
            let mut s = self.registry[i];
            if s.id == id {
                if loc == Location::Arena {
                    s.place_in_arena();
                } else {
                    s.place_in_sidebar();
                }
                self.registry.set(i, s);
            }
            i = i + 1;
        }
        assert(self@.registry =~= place(old(self)@.registry, id, loc));
    }

    /// Focuses session `id`: it becomes the last focused one and, when it exists, the one
    /// drawn as focused.
    pub fn focus_session(&mut self, id: u32)
        requires
            old(self).wf(),
        ensures
            final(self).wf(),
            final(self)@.last_focused_id == Some(id),
            final(self)@.focus_holder == (if ids_of(old(self)@.registry).contains(id) {
                Some(id)
            } else {
                None
            }),
            final(self)@.registry == old(self)@.registry,
            final(self)@.arena == old(self)@.arena,
            final(self)@.sidebar == old(self)@.sidebar,
            final(self)@.next_session_id == old(self)@.next_session_id,
    {
        self.last_focused_id = Some(id);
        self.focus_holder = match self.record_index(id) {
            Some(_) => Some(id),
            None => None,
        };
        proof {
            if self.focus_holder is Some {
                let i = choose|i: int| 0 <= i < self@.registry.len() && self@.registry[i].id == id;
                assert(ids_of(self@.registry)[i] == id);
            }
        }
    }

    /// Drops focus altogether.
    fn clear_focus(&mut self)
        requires
            old(self).wf(),
        ensures
            final(self).wf(),
            final(self)@.last_focused_id is None,
            final(self)@.focus_holder is None,
            final(self)@.registry == old(self)@.registry,
            final(self)@.arena == old(self)@.arena,
            final(self)@.sidebar == old(self)@.sidebar,
            final(self)@.next_session_id == old(self)@.next_session_id,
    {
        self.last_focused_id = None;
        self.focus_holder = None;
    }

    /// The emoji indices a new session may take: those no session uses, or the whole pool
    /// when all are taken. The caller picks one at random.
    pub fn emoji_pool(&self) -> (r: Vec<usize>)
        ensures
            r@ == emoji_pool(self@.registry),
            r@.len() > 0,
    {
        let ghost reg = self@.registry;
        let ghost all = Seq::new(EMOJI_POOL_LEN as nat, |i: int| i as usize);
        let ghost pred = |e: usize| forall|k: int| 0 <= k < reg.len() ==> reg[k].emoji != e;
        let mut free: Vec<usize> = Vec::new();
        let mut e: usize = 0;
        while e < EMOJI_POOL_LEN
            invariant
                e <= EMOJI_POOL_LEN,
                reg == self@.registry,
                all == Seq::new(EMOJI_POOL_LEN as nat, |i: int| i as usize),
                pred == (|e: usize| forall|k: int| 0 <= k < reg.len() ==> reg[k].emoji != e),
                free@ == all.take(e as int).filter(pred),
            decreases EMOJI_POOL_LEN - e,
        {
            let mut used = false;
            let mut k: usize = 0;
            while k < self.registry.len()
                invariant
                    k <= self@.registry.len(),
                    reg == self@.registry,
                    used == exists|j: int| 0 <= j < k && reg[j].emoji == e,
                decreases self.registry.len() - k,
            {
                if self.registry[k].emoji == e {
                    used = true;
                }
                k = k + 1;
            }
            assert(used == !pred(e));
            proof {
                reveal(Seq::filter);
                assert(all.take(e + 1).drop_last() =~= all.take(e as int));
                assert(all.take(e + 1).last() == e);
            }
            if !used {
                free.push(e);
            }
            e = e + 1;
        }
        assert(all.take(EMOJI_POOL_LEN as int) =~= all);
        if free.len() > 0 {
            return free;
        }
        let mut every: Vec<usize> = Vec::new();
        let mut i: usize = 0;
        while i < EMOJI_POOL_LEN
            invariant
                i <= EMOJI_POOL_LEN,
                every@ == all.take(i as int),
                all == Seq::new(EMOJI_POOL_LEN as nat, |i: int| i as usize),
            decreases EMOJI_POOL_LEN - i,
        {
            every.push(i);
            i = i + 1;
            assert(every@ =~= all.take(i as int));
        }
        assert(all.take(EMOJI_POOL_LEN as int) =~= all);
        every
    }
}

/// The view of a workspace with no sessions.
pub open spec fn empty_workspace() -> WorkspaceView {
    WorkspaceView {
        arena: ArenaView {
            ids: seq![],
            split_horizontal: false,
            phantom_shown: false,
            phantom_index: 0,
            preview_removed: None,
            preview_swapped: None,
        },
        sidebar: SidebarView {
            ids: seq![],
            placeholder: None,
            dragging_id: None,
            filter_mode: crate::sidebar::FilterMode::All,
        },
        registry: seq![],
        next_session_id: 1,
        last_focused_id: None,
        focus_holder: None,
    }
}

/// What spawning a session with emoji `emoji` at `now` does to `o`: it gets the next id
/// and goes into the arena when `promote` is asked and there is room, else into the
/// sidebar.
pub open spec fn spawned(o: WorkspaceView, promote: bool, emoji: usize, now: u64) -> WorkspaceView {
    let id = o.next_session_id;
    let st = Session::spec_new(id, emoji, now);
    if promote && o.arena.ids.len() < MAX_ACTIVE {
        WorkspaceView {
            arena: ArenaView { ids: o.arena.ids.push(id), ..o.arena },
            registry: o.registry.push(placed_state(st, Location::Arena)),
            next_session_id: (id + 1) as u32,
            ..o
        }
    } else {
        WorkspaceView {
            sidebar: SidebarView { ids: o.sidebar.ids.push(id), ..o.sidebar },
            registry: o.registry.push(placed_state(st, Location::Sidebar)),
            next_session_id: (id + 1) as u32,
            ..o
        }
    }
}

/// The random number drawn for session `i` of a template (0 when none was drawn).
pub open spec fn roll_at(rolls: Seq<u32>, i: int) -> u32 {
    if 0 <= i < rolls.len() {
        rolls[i]
    } else {
        0
    }
}

/// The emoji a random number `roll` picks from the pool offered for registry `reg`.
pub open spec fn emoji_pick(reg: Seq<Session>, roll: u32) -> usize {
    let p = emoji_pool(reg);
    p[(roll as int) % (p.len() as int)]
}

/// The workspace after spawning the sessions `specs` in order from an empty one, session
/// `i` taking the emoji its random number picks.
pub open spec fn built(specs: Seq<SessionSpecView>, rolls: Seq<u32>, now: u64) -> WorkspaceView
    decreases specs.len(),
{
    if specs.len() == 0 {
        empty_workspace()
    } else {
        let v = built(specs.drop_last(), rolls, now);
        spawned(v, specs.last().promote, emoji_pick(v.registry, roll_at(rolls, specs.len() - 1)), now)
    }
}

/// The pool offered is never empty.
pub proof fn lemma_emoji_pool_nonempty(reg: Seq<Session>)
    ensures
        emoji_pool(reg).len() > 0,
{
}

/// A new workspace opened from a template: the template's sessions spawned in order and
/// the first arena session (if any) focused.
pub open spec fn opened(specs: Seq<SessionSpecView>, rolls: Seq<u32>, now: u64, n: WorkspaceView) -> bool {
    let v = built(specs, rolls, now);
    if v.arena.ids.len() > 0 {
        focus_moved(v, n, v.arena.ids[0])
    } else {
        n == v
    }
}

impl Workspace {
    /// Opens a workspace from `template` at time `now`: its sessions are spawned in the
    /// template's order, numbered from 1, each promoted ones into the arena while there is
    /// room; session `i` takes the emoji that random number `rolls[i]` (0 when missing)
    /// picks among the free ones. The first arena session gets the focus.
    pub fn new(template: &WorkspaceTemplate, rolls: &Vec<u32>, now: u64) -> (r: Workspace)
        requires
            template.sessions@.len() < u32::MAX,
        ensures
            r.wf(),
            opened(template@.sessions, rolls@, now, r@),
            ids_of(r@.registry) == Seq::new(template.sessions@.len(), |k: int| (k + 1) as u32),
            r@.next_session_id == template.sessions@.len() + 1,
            template.sessions@.len() <= EMOJI_POOL_LEN ==> forall|a: int, b: int|
                0 <= a < b < r@.registry.len() ==> #[trigger] r@.registry[a].emoji != #[trigger] r@.registry[b].emoji,
    {
        let ghost specs = template@.sessions;
        let mut ws = Workspace::empty();
        let n = template.sessions.len();
        let mut i: usize = 0;
        assert(specs.take(0) =~= Seq::<SessionSpecView>::empty());
        assert(ids_of(ws@.registry) =~= Seq::new(0, |k: int| (k + 1) as u32));
        while i < n
            invariant
                n == template.sessions@.len(),
                n < u32::MAX,
                specs == template@.sessions,
                i <= n,
                ws.wf(),
                ws@ == built(specs.take(i as int), rolls@, now),
                ws@.next_session_id == i + 1,
                ids_of(ws@.registry) == Seq::new(i as nat, |k: int| (k + 1) as u32),
                ws@.registry.len() == i,
                i <= EMOJI_POOL_LEN ==> forall|a: int, b: int|
                    0 <= a < b < ws@.registry.len() ==> #[trigger] ws@.registry[a].emoji != #[trigger] ws@.registry[b].emoji,
            decreases n - i,
        {
            let ghost before = ws@;
            let pool = ws.emoji_pool();
            let roll: u32 = if i < rolls.len() { rolls[i] } else { 0 };
            let k = (roll as usize) % pool.len();
            let emoji = pool[k];
            let promote = template.sessions[i].promote;
            proof {
                assert(specs.take(i + 1).drop_last() =~= specs.take(i as int));
                assert(specs[i as int] == template.sessions@[i as int]@);
                assert(specs.take(i + 1).last() == specs[i as int]);
                assert(roll == roll_at(rolls@, i as int));
                assert(emoji == emoji_pick(before.registry, roll));
                if i < EMOJI_POOL_LEN {
                    lemma_fresh_emoji_while_pool_lasts(before.registry);
                    assert forall|a: int| 0 <= a < before.registry.len() implies before.registry[a].emoji != emoji by {
                        assert(before.registry[a].emoji != emoji_pool(before.registry)[k as int]);
                    }
                }
            }
            ws.spawn_session(promote, emoji, now);
            proof {
                let reg = ws@.registry;
                assert(reg == before.registry.push(reg[i as int]));
                assert(ids_of(reg) =~= Seq::new((i + 1) as nat, |k: int| (k + 1) as u32)) by {
                    lemma_ids_of_push(before.registry, reg[i as int]);
                }
                if i + 1 <= EMOJI_POOL_LEN {
                    assert forall|a: int, b: int| 0 <= a < b < reg.len() implies #[trigger] reg[a].emoji != #[trigger] reg[b].emoji by {
                        if b < i {
                            assert(reg[a] == before.registry[a] && reg[b] == before.registry[b]);
                        } else {
                            assert(reg[a] == before.registry[a]);
                            assert(reg[b].emoji == emoji);
                        }
                    }
                }
            }
            i = i + 1;
        }
        assert(specs.take(n as int) =~= specs);
        let ghost v = ws@;
        match ws.arena.session_by_index(0) {
            Some(first) => {
                proof {
                    assert(v.arena.ids.contains(first));
                }
                ws.focus_session(first);
                assert(ws@ =~= WorkspaceView {
                    last_focused_id: Some(first),
                    focus_holder: if ids_of(v.registry).contains(first) { Some(first) } else { None },
                    ..v
                });
            },
            None => {},
        }
        ws
    }
}

impl Workspace {
    /// Creates session number `next_session_id` with emoji `emoji` at time `now`. It goes
    /// into the arena when `promote` is asked and the arena has room, else into the
    /// sidebar. Returns its id.
    pub fn spawn_session(&mut self, promote: bool, emoji: usize, now: u64) -> (id: u32)
        requires
            old(self).wf(),
            old(self)@.next_session_id < u32::MAX,
        ensures
            final(self).wf(),
            id == old(self)@.next_session_id,
            final(self)@.next_session_id == old(self)@.next_session_id + 1,
            !ids_of(old(self)@.registry).contains(id),
            promote && old(self)@.arena.ids.len() < MAX_ACTIVE ==> {
                &&& final(self)@.arena == (ArenaView { ids: old(self)@.arena.ids.push(id), ..old(self)@.arena })
                &&& final(self)@.sidebar == old(self)@.sidebar
                &&& final(self)@.registry == old(self)@.registry.push(
                    placed_state(Session::spec_new(id, emoji, now), Location::Arena),
                )
            },
            !(promote && old(self)@.arena.ids.len() < MAX_ACTIVE) ==> {
                &&& final(self)@.arena == old(self)@.arena
                &&& final(self)@.sidebar == (SidebarView { ids: old(self)@.sidebar.ids.push(id), ..old(self)@.sidebar })
                &&& final(self)@.registry == old(self)@.registry.push(
                    placed_state(Session::spec_new(id, emoji, now), Location::Sidebar),
                )
            },
            final(self)@.last_focused_id == old(self)@.last_focused_id,
            final(self)@.focus_holder == old(self)@.focus_holder,
            final(self)@ == spawned(old(self)@, promote, emoji, now),
    {
        let sid = self.next_session_id;
        assert(!ids_of(self@.registry).contains(sid)) by {
            if ids_of(self@.registry).contains(sid) {
                let k = choose|k: int| 0 <= k < ids_of(self@.registry).len() && ids_of(self@.registry)[k] == sid;
                assert(self@.registry[k].id < sid);
            }
        }
        self.next_session_id = sid + 1;
        let mut st = Session::new(sid, emoji, now);
        let ghost reg0 = self@.registry;
        let ghost a0 = self@.arena.ids;
        let ghost s0 = self@.sidebar.ids;
        proof {
            lemma_ids_of_push(reg0, placed_state(st, Location::Arena));
            lemma_ids_of_push(reg0, placed_state(st, Location::Sidebar));
            lemma_push_no_dup(ids_of(reg0), sid);
            lemma_push_contains(ids_of(reg0), sid);
            lemma_push_contains(a0, sid);
            lemma_push_contains(s0, sid);
        }
        if promote && !self.arena.is_full() {
            self.arena.add(sid);
            st.place_in_arena();
            self.registry.push(st);
            proof {
                lemma_push_no_dup(a0, sid);
            }
        } else {
            self.sidebar.add(sid);
            st.place_in_sidebar();
            self.registry.push(st);
            proof {
                lemma_push_no_dup(s0, sid);
            }
        }
        proof {
            let reg = self@.registry;
            assert forall|i: int| 0 <= i < reg.len() implies ((#[trigger] reg[i]).location
                == Location::Arena <==> self@.arena.ids.contains(reg[i].id)) by {
                if i < reg0.len() {
                    assert(reg[i] == reg0[i]);
                    assert(ids_of(reg0)[i] == reg0[i].id);
                }
            }
            assert forall|i: int| 0 <= i < reg.len() implies (#[trigger] reg[i]).id
                < self.next_session_id by {
                if i < reg0.len() {
                    assert(reg[i] == reg0[i]);
                }
            }
            assert forall|x: u32| #[trigger] self@.arena.ids.contains(x) implies !self@.sidebar.ids.contains(x) by {
                if x == sid {
                }
            }
        }
        sid
    }
}

/// What `promote_at(id, slot)` does to workspace `o`, giving `n` and the session to focus.
pub open spec fn promoted(o: WorkspaceView, n: WorkspaceView, id: u32, slot: Option<usize>, focus: Option<u32>) -> bool {
    &&& o.arena.ids.contains(id) ==> {
        &&& focus == Some(id)
        &&& n.arena == o.arena
        &&& n.sidebar == o.sidebar
        &&& n.registry == o.registry
        &&& n.last_focused_id == Some(id)
        &&& n.focus_holder == Some(id)
    }
    &&& !o.arena.ids.contains(id) && !o.sidebar.ids.contains(id) ==> {
        &&& focus is None
        &&& n == o
    }
    &&& !o.arena.ids.contains(id) && o.sidebar.ids.contains(id) ==> {
        &&& focus == Some(id)
        &&& n.last_focused_id == Some(id)
        &&& n.focus_holder == Some(id)
        &&& o.arena.ids.len() < MAX_ACTIVE ==> {
            &&& n.arena == (ArenaView {
                ids: insert_at_slot(o.arena.ids, slot, id),
                ..o.arena
            })
            &&& n.sidebar == without_card(o.sidebar, id)
            &&& n.registry == place(o.registry, id, Location::Arena)
        }
        &&& o.arena.ids.len() >= MAX_ACTIVE ==> {
            let t = swap_target(o.arena.ids, o.focus_holder);
            &&& n.arena == (ArenaView {
                ids: o.arena.ids.update(first_index(o.arena.ids, t), id),
                ..o.arena
            })
            &&& n.sidebar == (SidebarView {
                ids: without_card(o.sidebar, id).ids.push(t),
                ..without_card(o.sidebar, id)
            })
            &&& n.registry == place(
                place(o.registry, id, Location::Arena),
                t,
                Location::Sidebar,
            )
        }
    }
}

/// The arena session a promotion into a full arena replaces: the focused one when it is
/// in the arena, else the oldest.
pub open spec fn swap_target(a: Seq<u32>, holder: Option<u32>) -> u32 {
    match holder {
        Some(f) => if a.contains(f) { f } else { a[0] },
        None => a[0],
    }
}

/// `s` with `id` inserted at `slot` (clamped to the end), or appended without a slot.
pub open spec fn insert_at_slot(s: Seq<u32>, slot: Option<usize>, id: u32) -> Seq<u32> {
    match slot {
        Some(i) => s.insert(if i <= s.len() { i as int } else { s.len() as int }, id),
        None => s.push(id),
    }
}

impl Workspace {
    /// Promotes sidebar session `id` into the arena, at `slot` (clamped) or at the end
    /// when there is room; into a full arena it takes the place of the focused arena
    /// session (else the oldest), which moves to the sidebar. A session already in the
    /// arena is just focused; an unknown one changes nothing. Returns the session to
    /// focus.
    #[verifier::rlimit(40)]
    pub fn promote_at(&mut self, id: u32, slot: Option<usize>) -> (focus: Option<u32>)
        requires
            old(self).wf(),
        ensures
            final(self).wf(),
            final(self)@.next_session_id == old(self)@.next_session_id,
            promoted(old(self)@, final(self)@, id, slot, focus),
    {
        if self.arena.contains(id) {
            self.focus_session(id);
            proof {
                assert(ids_of(self@.registry).contains(id));
            }
            return Some(id);
        }
        let ghost reg0 = self@.registry;
        let ghost a0 = self@.arena.ids;
        let ghost s0 = self@.sidebar.ids;
        if self.sidebar.remove(id).is_none() {
            return None;
        }
        proof {
            lemma_remove_id(s0, id);
            lemma_ids_of_place(reg0, id, Location::Arena);
            assert(ids_of(reg0).contains(id));
        }
        if self.arena.count() < MAX_ACTIVE {
            match slot {
                Some(i) => self.arena.insert_at(i, id),
                None => {
                    self.arena.add(id);
                },
            }
            self.place_record(id, Location::Arena);
            proof {
                let a1 = self@.arena.ids;
                match slot {
                    Some(i) => {
                        lemma_insert_fresh(a0, if i <= a0.len() { i as int } else { a0.len() as int }, id);
                    },
                    None => {
                        lemma_push_no_dup(a0, id);
                        lemma_push_contains(a0, id);
                    },
                }
                let reg = self@.registry;
                assert forall|k: int| 0 <= k < reg.len() implies ((#[trigger] reg[k]).location
                    == Location::Arena <==> a1.contains(reg[k].id)) by {
                    assert(reg0[k].location == Location::Arena <==> a0.contains(reg0[k].id));
                }
                assert forall|k: int| 0 <= k < reg.len() implies (#[trigger] reg[k]).id
                    < self.next_session_id by {
                    assert(reg0[k].id < self.next_session_id);
                }
            }
            self.focus_session(id);
            return Some(id);
        }
        let target = match self.arena.focused(self.focus_holder) {
            Some(t) => t,
            None => {
                let first = self.arena.session_by_index(0);
                first.unwrap()
            },
        };
        assert(target == swap_target(a0, self.focus_holder));
        let ev = self.arena.swap_at(target, id);
        assert(ev == Some(target)) by {
            assert(a0.contains(target)) by {
                assert(a0[0] == a0[0]);
            }
        }
        self.place_record(id, Location::Arena);
        self.sidebar.add(target);
        self.place_record(target, Location::Sidebar);
        proof {
            crate::seqs::lemma_first_index(a0, target);
            let k = first_index(a0, target);
            lemma_update_fresh(a0, k, id);
            let s1 = remove_id(s0, id);
            assert(!s1.contains(target));
            lemma_push_no_dup(s1, target);
            lemma_push_contains(s1, target);
            lemma_ids_of_place(place(reg0, id, Location::Arena), target, Location::Sidebar);
            assert(id != target);
            let a1 = self@.arena.ids;
            let reg = self@.registry;
            assert forall|j: int| 0 <= j < reg.len() implies ((#[trigger] reg[j]).location
                == Location::Arena <==> a1.contains(reg[j].id)) by {
                assert(reg0[j].location == Location::Arena <==> a0.contains(reg0[j].id));
            }
            assert forall|j: int| 0 <= j < reg.len() implies (#[trigger] reg[j]).id
                < self.next_session_id by {
                assert(reg0[j].id < self.next_session_id);
            }
        }
        self.focus_session(id);
        Some(id)
    }

    /// Promotes session `id` to the end of the arena; see `promote_at`.
    pub fn promote(&mut self, id: u32) -> (focus: Option<u32>)
        requires
            old(self).wf(),
        ensures
            final(self).wf(),
            final(self)@.next_session_id == old(self)@.next_session_id,
            promoted(old(self)@, final(self)@, id, None, focus),
    {
        self.promote_at(id, None)
    }
}

/// What `demote(id)` does to workspace `o`, giving `n` and the arena slot whose session
/// is to get the focus afterwards.
pub open spec fn demoted(o: WorkspaceView, n: WorkspaceView, id: u32, slot: Option<usize>) -> bool {
    &&& n.next_session_id == o.next_session_id
    &&& !o.arena.ids.contains(id) ==> slot is None && n == o
    &&& o.arena.ids.contains(id) ==> {
        let k = first_index(o.arena.ids, id);
        &&& slot == Some((if k == 0 { 0 } else { k - 1 }) as usize)
        &&& n.arena == (ArenaView { ids: remove_id(o.arena.ids, id), ..o.arena })
        &&& n.sidebar == (SidebarView { ids: o.sidebar.ids.push(id), ..o.sidebar })
        &&& n.registry == place(o.registry, id, Location::Sidebar)
        &&& n.last_focused_id == o.last_focused_id
        &&& n.focus_holder == o.focus_holder
    }
}

/// What focusing arena slot `slot` does to `o`: the session there gets the focus, or,
/// when the slot is empty, nothing keeps it.
pub open spec fn focused_slot(o: WorkspaceView, n: WorkspaceView, slot: usize, focus: Option<u32>) -> bool {
    &&& n.arena == o.arena
    &&& n.sidebar == o.sidebar
    &&& n.registry == o.registry
    &&& n.next_session_id == o.next_session_id
    &&& slot < o.arena.ids.len() ==> {
        let f = o.arena.ids[slot as int];
        &&& focus == Some(f)
        &&& n.last_focused_id == Some(f)
        &&& n.focus_holder == Some(f)
    }
    &&& slot >= o.arena.ids.len() ==> focus is None && n.last_focused_id is None
        && n.focus_holder is None
}

impl Workspace {
    /// Moves arena session `id` to the end of the sidebar. Returns the arena slot to
    /// focus once the move has settled (the one before the session's, or the first), or
    /// `None` when `id` is not in the arena.
    pub fn demote(&mut self, id: u32) -> (slot: Option<usize>)
        requires
            old(self).wf(),
        ensures
            final(self).wf(),
            demoted(old(self)@, final(self)@, id, slot),
    {
        let ghost reg0 = self@.registry;
        let ghost a0 = self@.arena.ids;
        let ghost s0 = self@.sidebar.ids;
        let k = match self.arena.position(id) {
            Some(k) => k,
            None => return None,
        };
        self.arena.remove(id);
        self.sidebar.add(id);
        self.place_record(id, Location::Sidebar);
        proof {
            lemma_remove_id(a0, id);
            assert(!s0.contains(id));
            lemma_push_no_dup(s0, id);
            lemma_push_contains(s0, id);
            lemma_ids_of_place(reg0, id, Location::Sidebar);
            let a1 = self@.arena.ids;
            let reg = self@.registry;
            assert forall|j: int| 0 <= j < reg.len() implies ((#[trigger] reg[j]).location
                == Location::Arena <==> a1.contains(reg[j].id)) by {
                assert(reg0[j].location == Location::Arena <==> a0.contains(reg0[j].id));
            }
            assert forall|j: int| 0 <= j < reg.len() implies (#[trigger] reg[j]).id
                < self.next_session_id by {
                assert(reg0[j].id < self.next_session_id);
            }
        }
        Some(if k == 0 { 0 } else { k - 1 })
    }

    /// Gives the focus to the session in arena slot `slot`; with no session there,
    /// clears the focus. Returns the focused session.
    pub fn focus_arena_slot(&mut self, slot: usize) -> (focus: Option<u32>)
        requires
            old(self).wf(),
        ensures
            final(self).wf(),
            focused_slot(old(self)@, final(self)@, slot, focus),
    {
        match self.arena.session_by_index(slot) {
            Some(nid) => {
                proof {
                    assert(self@.arena.ids.contains(nid));
                    assert(ids_of(self@.registry).contains(nid));
                }
                self.focus_session(nid);
                Some(nid)
            },
            None => {
                self.clear_focus();
                None
            },
        }
    }

    /// Removes session `id` from the registry.
    fn unregister(&mut self, id: u32)
        requires
            ids_of(old(self)@.registry).no_duplicates(),
        ensures
            final(self)@.registry == unregister(old(self)@.registry, id),
            ids_of(final(self)@.registry) == remove_id(ids_of(old(self)@.registry), id),
            final(self)@.arena == old(self)@.arena,
            final(self)@.sidebar == old(self)@.sidebar,
            final(self)@.next_session_id == old(self)@.next_session_id,
            final(self)@.last_focused_id == old(self)@.last_focused_id,
            final(self)@.focus_holder == old(self)@.focus_holder,
    {
        match self.record_index(id) {
            Some(i) => {
                proof {
                    assert(ids_of(self@.registry)[i as int] == id);
                    crate::seqs::lemma_first_index_no_dup(ids_of(self@.registry), i as int);
                    assert(ids_of(self@.registry).contains(id));
                    lemma_ids_of_remove(self@.registry, i as int);
                }
                self.registry.remove(i);
            },
            None => {},
        }
    }

    /// Tears session `id` down: it leaves the arena or the sidebar and the registry.
    /// Closing an arena session passes the focus to the arena slot before it (or the
    /// first); closing the last-focused sidebar session forgets that focus. Returns the
    /// session to focus, if any.
    pub fn close_session(&mut self, id: u32) -> (focus: Option<u32>)
        requires
            old(self).wf(),
        ensures
            final(self).wf(),
            closed(old(self)@, final(self)@, id, focus),
    {
        let ghost reg0 = self@.registry;
        let ghost a0 = self@.arena.ids;
        let ghost s0 = self@.sidebar.ids;
        let ri = self.record_index(id);
        if ri.is_none() {
            return None;
        }
        let arena_idx = self.arena.position(id);
        proof {
            assert(ids_of(reg0)[ri.unwrap() as int] == id);
            assert(ids_of(reg0).contains(id));
            lemma_remove_id(a0, id);
            lemma_remove_id(s0, id);
            lemma_remove_id(ids_of(reg0), id);
        }
        match arena_idx {
            Some(_) => {
                self.arena.remove(id);
            },
            None => {
                self.sidebar.remove(id);
            },
        }
        self.unregister(id);
        proof {
            let reg = self@.registry;
            let a1 = self@.arena.ids;
            let k = first_index(ids_of(reg0), id);
            crate::seqs::lemma_first_index(ids_of(reg0), id);
            assert(reg == reg0.remove(k));
            assert forall|j: int| 0 <= j < reg.len() implies ((#[trigger] reg[j]).location
                == Location::Arena <==> a1.contains(reg[j].id)) by {
                let oj = if j < k { j } else { j + 1 };
                assert(reg[j] == reg0[oj]);
                assert(ids_of(reg0)[oj] == reg0[oj].id);
                assert(reg0[oj].location == Location::Arena <==> a0.contains(reg0[oj].id));
            }
            assert forall|j: int| 0 <= j < reg.len() implies (#[trigger] reg[j]).id
                < self.next_session_id by {
                let oj = if j < k { j } else { j + 1 };
                assert(reg[j] == reg0[oj]);
            }
        }
        match arena_idx {
            Some(i) => {
                if self.focus_holder == Some(id) {
                    self.focus_holder = None;
                }
                let slot = if i == 0 { 0 } else { i - 1 };
                self.focus_arena_slot(slot)
            },
            None => {
                if self.last_focused_id == Some(id) {
                    self.last_focused_id = None;
                    self.focus_holder = None;
                }
                None
            },
        }
    }
}

/// The arena with every drag preview dropped.
pub open spec fn cleared_arena(v: ArenaView) -> ArenaView {
    ArenaView {
        ids: undo_swap(v.ids, v.preview_swapped),
        phantom_shown: false,
        preview_removed: None,
        preview_swapped: None,
        ..v
    }
}

/// The sidebar without its placeholder.
pub open spec fn cleared_sidebar(v: SidebarView) -> SidebarView {
    SidebarView { placeholder: None, ..v }
}

/// Which session is to get the focus after a drop.
#[derive(Debug, Clone, Copy, PartialEq, Eq, Structural)]
pub enum FocusRequest {
    /// No change of focus.
    Keep,
    /// Focus this session now.
    Now(u32),
    /// Focus this session once the moved terminals have settled.
    Later(u32),
}

impl Workspace {
    /// Drops every drag preview: arena placeholder, hidden tile, previewed swap, and the
    /// sidebar placeholder. Returns whether the arena layout must be rebuilt.
    pub fn clear_all_previews(&mut self) -> (rebuild: bool)
        requires
            old(self).wf(),
        ensures
            final(self).wf(),
            final(self)@.arena == cleared_arena(old(self)@.arena),
            final(self)@.sidebar == cleared_sidebar(old(self)@.sidebar),
            final(self)@.registry == old(self)@.registry,
            final(self)@.next_session_id == old(self)@.next_session_id,
            final(self)@.last_focused_id == old(self)@.last_focused_id,
            final(self)@.focus_holder == old(self)@.focus_holder,
            rebuild == (old(self)@.arena.phantom_shown || old(self)@.arena.preview_removed is Some
                || old(self)@.arena.preview_swapped is Some),
    {
        proof {
            match self@.arena.preview_swapped {
                Some((x, y)) => lemma_swap_ids(self@.arena.ids, x, y),
                None => {},
            }
        }
        let r = self.arena.clear_all_previews();
        self.sidebar.hide_placeholder();
        proof {
            let reg = self@.registry;
            assert forall|j: int| 0 <= j < reg.len() implies ((#[trigger] reg[j]).location
                == Location::Arena <==> self@.arena.ids.contains(reg[j].id)) by {
                assert(old(self)@.registry[j] == reg[j]);
            }
        }
        r
    }

    /// Arena session `outgoing` and sidebar session `incoming` change places: `incoming`
    /// takes `outgoing`'s tile, `outgoing` goes to the end of the sidebar.
    fn exchange(&mut self, incoming: u32, outgoing: u32)
        requires
            old(self).wf(),
            old(self)@.sidebar.ids.contains(incoming),
            old(self)@.arena.ids.contains(outgoing),
        ensures
            final(self).wf(),
            final(self)@.arena == (ArenaView {
                ids: old(self)@.arena.ids.update(first_index(old(self)@.arena.ids, outgoing), incoming),
                ..old(self)@.arena
            }),
            final(self)@.sidebar == (SidebarView {
                ids: without_card(old(self)@.sidebar, incoming).ids.push(outgoing),
                ..without_card(old(self)@.sidebar, incoming)
            }),
            final(self)@.registry == place(
                place(old(self)@.registry, incoming, Location::Arena),
                outgoing,
                Location::Sidebar,
            ),
            final(self)@.next_session_id == old(self)@.next_session_id,
            final(self)@.last_focused_id == old(self)@.last_focused_id,
            final(self)@.focus_holder == old(self)@.focus_holder,
    {
        let ghost reg0 = self@.registry;
        let ghost a0 = self@.arena.ids;
        let ghost s0 = self@.sidebar.ids;
        self.sidebar.remove(incoming);
        self.arena.swap_at(outgoing, incoming);
        self.place_record(incoming, Location::Arena);
        self.sidebar.add(outgoing);
        self.place_record(outgoing, Location::Sidebar);
        proof {
            assert(!a0.contains(incoming));
            crate::seqs::lemma_first_index(a0, outgoing);
            let k = first_index(a0, outgoing);
            lemma_update_fresh(a0, k, incoming);
            lemma_remove_id(s0, incoming);
            let s1 = remove_id(s0, incoming);
            assert(!s1.contains(outgoing));
            lemma_push_no_dup(s1, outgoing);
            lemma_push_contains(s1, outgoing);
            lemma_ids_of_place(reg0, incoming, Location::Arena);
            lemma_ids_of_place(place(reg0, incoming, Location::Arena), outgoing, Location::Sidebar);
            let a1 = self@.arena.ids;
            let reg = self@.registry;
            assert forall|j: int| 0 <= j < reg.len() implies ((#[trigger] reg[j]).location
                == Location::Arena <==> a1.contains(reg[j].id)) by {
                assert(reg0[j].location == Location::Arena <==> a0.contains(reg0[j].id));
            }
            assert forall|j: int| 0 <= j < reg.len() implies (#[trigger] reg[j]).id
                < self.next_session_id by {
                assert(reg0[j].id < self.next_session_id);
            }
        }
    }
}

/// What `handle_drop(source, target)` does to `o`, giving `n` and a focus request: after
/// the previews are cleared, two arena tiles swap places; a sidebar card dropped on a
/// tile is promoted to that tile's place when the arena has room, else the two change
/// places; an arena tile dropped on a card changes places with it; a card dropped on a
/// card moves to its place.
pub open spec fn dropped(o: WorkspaceView, n: WorkspaceView, source: u32, target: u32, r: FocusRequest) -> bool {
    let a = undo_swap(o.arena.ids, o.arena.preview_swapped);
    let s = o.sidebar.ids;
    let reg = o.registry;
    let sa = a.contains(source);
    let ta = a.contains(target);
    let ss = s.contains(source);
    let ts = s.contains(target);
    let keeps_focus = n.last_focused_id == o.last_focused_id && n.focus_holder == o.focus_holder;
    &&& n.next_session_id == o.next_session_id
    &&& source == target ==> r == FocusRequest::Keep && n == o
    &&& source != target && sa && ta ==> {
        &&& r == FocusRequest::Keep && keeps_focus
        &&& n.arena == (ArenaView { ids: swap_ids(a, source, target), ..cleared_arena(o.arena) })
        &&& n.sidebar == cleared_sidebar(o.sidebar)
        &&& n.registry == reg
    }
    &&& source != target && !(sa && ta) && ta && ss && a.len() < MAX_ACTIVE ==> {
        &&& r == FocusRequest::Now(source)
        &&& n.last_focused_id == Some(source) && n.focus_holder == Some(source)
        &&& n.arena == (ArenaView {
            ids: a.insert(first_index(a, target), source),
            ..cleared_arena(o.arena)
        })
        &&& n.sidebar == (SidebarView { ids: remove_id(s, source), ..cleared_sidebar(o.sidebar) })
        &&& n.registry == place(reg, source, Location::Arena)
    }
    &&& source != target && !(sa && ta) && ta && ss && a.len() >= MAX_ACTIVE ==> {
        &&& r == FocusRequest::Later(source) && keeps_focus
        &&& n.arena == (ArenaView {
            ids: a.update(first_index(a, target), source),
            ..cleared_arena(o.arena)
        })
        &&& n.sidebar == (SidebarView {
            ids: remove_id(s, source).push(target),
            ..cleared_sidebar(o.sidebar)
        })
        &&& n.registry == place(place(reg, source, Location::Arena), target, Location::Sidebar)
    }
    &&& source != target && !(sa && ta) && !(ta && ss) && sa && ts ==> {
        &&& r == FocusRequest::Later(target) && keeps_focus
        &&& n.arena == (ArenaView {
            ids: a.update(first_index(a, source), target),
            ..cleared_arena(o.arena)
        })
        &&& n.sidebar == (SidebarView {
            ids: remove_id(s, target).push(source),
            ..cleared_sidebar(o.sidebar)
        })
        &&& n.registry == place(place(reg, target, Location::Arena), source, Location::Sidebar)
    }
    &&& source != target && !(sa && ta) && !(ta && ss) && !(sa && ts) && ss && ts ==> {
        let rest = remove_id(s, source);
        &&& r == FocusRequest::Keep && keeps_focus
        &&& n.arena == cleared_arena(o.arena)
        &&& n.sidebar == (SidebarView {
            ids: rest.insert(first_index(rest, target), source),
            ..cleared_sidebar(o.sidebar)
        })
        &&& n.registry == reg
    }
    &&& source != target && !(sa && ta) && !(ta && ss) && !(sa && ts) && !(ss && ts) ==> {
        &&& r == FocusRequest::Keep && keeps_focus
        &&& n.arena == cleared_arena(o.arena)
        &&& n.sidebar == cleared_sidebar(o.sidebar)
        &&& n.registry == reg
    }
}

impl Workspace {
    /// A dragged session `source` was dropped on session `target`; see `dropped`.
    pub fn handle_drop(&mut self, source: u32, target: u32) -> (r: FocusRequest)
        requires
            old(self).wf(),
        ensures
            final(self).wf(),
            dropped(old(self)@, final(self)@, source, target, r),
    {
        if source == target {
            return FocusRequest::Keep;
        }
        self.clear_all_previews();
        let ghost a = self@.arena.ids;
        let ghost sb = self@.sidebar.ids;
        let sa = self.arena.contains(source);
        let ta = self.arena.contains(target);
        let ss = self.sidebar.contains(source);
        let ts = self.sidebar.contains(target);
        if sa && ta {
            proof {
                lemma_swap_ids(a, source, target);
            }
            self.arena.swap_sessions(source, target);
            proof {
                let reg = self@.registry;
                assert forall|j: int| 0 <= j < reg.len() implies ((#[trigger] reg[j]).location
                    == Location::Arena <==> self@.arena.ids.contains(reg[j].id)) by {
                    assert(old(self)@.registry[j] == reg[j]);
                }
            }
            return FocusRequest::Keep;
        }
        if ta && ss {
            if !self.arena.is_full() {
                let slot = match self.arena.position(target) {
                    Some(k) => k,
                    None => self.arena.count(),
                };
                self.promote_at(source, Some(slot));
                return FocusRequest::Now(source);
            } else {
                self.exchange(source, target);
                return FocusRequest::Later(source);
            }
        }
        if sa && ts {
            self.exchange(target, source);
            return FocusRequest::Later(target);
        }
        if ss && ts {
            proof {
                lemma_remove_id(sb, source);
                let rest = remove_id(sb, source);
                crate::seqs::lemma_first_index(rest, target);
                assert(rest.contains(target));
                lemma_insert_fresh(rest, first_index(rest, target), source);
            }
            self.sidebar.reorder_before(source, target);
            return FocusRequest::Keep;
        }
        FocusRequest::Keep
    }
}

/// The workspace with every drag preview dropped.
pub open spec fn cleared(o: WorkspaceView) -> WorkspaceView {
    WorkspaceView { arena: cleared_arena(o.arena), sidebar: cleared_sidebar(o.sidebar), ..o }
}

/// Where the sidebar's placeholder stands (0 when it is not in the list).
pub open spec fn placeholder_index(v: SidebarView) -> usize {
    match v.placeholder {
        Some(ph) => match ph.gap {
            Some(g) => g,
            None => 0,
        },
        None => 0,
    }
}

/// What dropping `source` on the sidebar list does to `o`: an arena session is demoted
/// and its card goes where the placeholder was; a sidebar card moves there, or stays
/// where it is when the placeholder was parked at a place that would not move it.
pub open spec fn dropped_on_sidebar(o: WorkspaceView, n: WorkspaceView, source: u32, slot: Option<usize>) -> bool {
    let c = cleared(o);
    let idx = placeholder_index(o.sidebar);
    &&& n.next_session_id == o.next_session_id
    &&& n.last_focused_id == o.last_focused_id
    &&& n.focus_holder == o.focus_holder
    &&& c.arena.ids.contains(source) ==> {
        let k = first_index(c.arena.ids, source);
        &&& slot == Some((if k == 0 { 0 } else { k - 1 }) as usize)
        &&& n.arena == (ArenaView { ids: remove_id(c.arena.ids, source), ..c.arena })
        &&& n.sidebar == (SidebarView {
            ids: reordered_to(c.sidebar.ids.push(source), source, idx),
            ..c.sidebar
        })
        &&& n.registry == place(o.registry, source, Location::Sidebar)
    }
    &&& !c.arena.ids.contains(source) ==> {
        &&& slot is None
        &&& n.arena == c.arena
        &&& n.sidebar == (if placeholder_parked(o.sidebar) {
            c.sidebar
        } else {
            SidebarView { ids: reordered_to(c.sidebar.ids, source, idx), ..c.sidebar }
        })
        &&& n.registry == o.registry
    }
}

/// The sidebar's placeholder is parked out of the list: the pointer was at a place where
/// dropping the dragged card would leave it where it is.
pub open spec fn placeholder_parked(v: SidebarView) -> bool {
    v.placeholder matches Some(ph) && ph.gap is None
}

/// What a pointer over the arena grid asks for.
#[derive(Debug, Clone, Copy, PartialEq, Eq, Structural)]
pub enum GridHover {
    /// The dragged session is an arena tile: the grid shows nothing for it.
    SourceInArena,
    /// There is no room for another tile.
    ArenaFull,
    /// Show the placeholder at this slot.
    ShowPhantom(usize),
    /// The pointer moved, and the placeholder already stands at its slot.
    Unchanged,
}

impl Workspace {
    /// A session dropped on the arena background: a sidebar session is promoted into the
    /// slot the placeholder showed. Returns the session to focus.
    pub fn drop_on_grid(&mut self, source: u32) -> (focus: Option<u32>)
        requires
            old(self).wf(),
        ensures
            final(self).wf(),
            old(self)@.sidebar.ids.contains(source) ==> promoted(
                cleared(old(self)@),
                final(self)@,
                source,
                Some(old(self)@.arena.phantom_index),
                focus,
            ),
            !old(self)@.sidebar.ids.contains(source) ==> focus is None && final(self)@ == cleared(
                old(self)@,
            ),
    {
        let slot = self.arena.phantom_slot();
        self.clear_all_previews();
        if self.sidebar.contains(source) {
            self.promote_at(source, Some(slot))
        } else {
            None
        }
    }

    /// A session dropped on the empty arena's hint: it is promoted. Returns the session to
    /// focus.
    pub fn drop_on_empty_state(&mut self, source: u32) -> (focus: Option<u32>)
        requires
            old(self).wf(),
        ensures
            final(self).wf(),
            promoted(cleared(old(self)@), final(self)@, source, None, focus),
    {
        self.clear_all_previews();
        self.promote(source)
    }

    /// A session dropped on the sidebar list; see `dropped_on_sidebar`. Returns the arena
    /// slot to focus once a demoted terminal has settled.
    pub fn drop_on_sidebar(&mut self, source: u32) -> (slot: Option<usize>)
        requires
            old(self).wf(),
        ensures
            final(self).wf(),
            dropped_on_sidebar(old(self)@, final(self)@, source, slot),
    {
        let idx = self.sidebar.placeholder_insert_index();
        let parked = match self.sidebar.placeholder() {
            Some(ph) => ph.gap.is_none(),
            None => false,
        };
        self.clear_all_previews();
        if self.arena.contains(source) {
            let slot = self.demote(source);
            proof {
                let s = self@.sidebar.ids;
                assert(s[s.len() - 1] == source);
                lemma_remove_id(s, source);
                let rest = remove_id(s, source);
                crate::seqs::lemma_first_index(s, source);
                lemma_insert_fresh(rest, reorder_target(s, source, idx), source);
            }
            self.sidebar.reorder_to_index(source, idx);
            proof {
                let reg = self@.registry;
                assert forall|j: int| 0 <= j < reg.len() implies ((#[trigger] reg[j]).location
                    == Location::Arena <==> self@.arena.ids.contains(reg[j].id)) by {}
            }
            return slot;
        }
        if self.sidebar.contains(source) && !parked {
            proof {
                let s = self@.sidebar.ids;
                lemma_remove_id(s, source);
                let rest = remove_id(s, source);
                crate::seqs::lemma_first_index(s, source);
                lemma_insert_fresh(rest, reorder_target(s, source, idx), source);
            }
            self.sidebar.reorder_to_index(source, idx);
            proof {
                let reg = self@.registry;
                assert forall|j: int| 0 <= j < reg.len() implies ((#[trigger] reg[j]).location
                    == Location::Arena <==> self@.arena.ids.contains(reg[j].id)) by {}
            }
        }
        None
    }

    /// What a pointer over the arena grid at a point asks for while `source` is dragged
    /// (`None` when the drag carries no session). `has_area`, `left`, `top` describe the
    /// point as for `Arena::slot_from_coords`; `motion` tells a move within the grid from
    /// an entry into it.
    pub fn grid_hover(&self, source: Option<u32>, has_area: bool, left: bool, top: bool, motion: bool) -> (r: GridHover)
        ensures
            match source {
                Some(s) if self@.arena.ids.contains(s) => r == GridHover::SourceInArena,
                _ => if self@.arena.ids.len() >= MAX_ACTIVE {
                    r == GridHover::ArenaFull
                } else {
                    let slot = crate::arena::spec_slot(self@.arena.ids.len() as int, self@.arena.split_horizontal, has_area, left, top);
                    if motion && self@.arena.phantom_shown && self@.arena.phantom_index == slot {
                        r == GridHover::Unchanged
                    } else {
                        r == GridHover::ShowPhantom(slot)
                    }
                },
            },
    {
        let in_arena = match source {
            Some(s) => self.arena.contains(s),
            None => false,
        };
        if in_arena {
            return GridHover::SourceInArena;
        }
        if self.arena.is_full() {
            return GridHover::ArenaFull;
        }
        let slot = self.arena.slot_from_coords(has_area, left, top);
        if motion && self.arena.has_phantom() && self.arena.phantom_slot() == slot {
            return GridHover::Unchanged;
        }
        GridHover::ShowPhantom(slot)
    }

    /// The placeholder slot to show while a sidebar session is dragged over arena tile
    /// `target`, at a point described as for `Arena::slot_from_coords`; `None` when the
    /// drag does not ask for one. While the pointer moves (`motion`), a placeholder
    /// already shown at that slot is left alone.
    pub fn tile_hover_slot(
        &self,
        source: u32,
        target: u32,
        has_area: bool,
        left: bool,
        top: bool,
        motion: bool,
    ) -> (r: Option<usize>)
        ensures
            ({
                let a = self@.arena;
                let slot = crate::arena::spec_slot(a.ids.len() as int, a.split_horizontal, has_area, left, top);
                if self@.sidebar.ids.contains(source) && a.ids.contains(target) && a.ids.len() < MAX_ACTIVE
                    && !(motion && slot == a.phantom_index && a.phantom_shown) {
                    r == Some(slot)
                } else {
                    r is None
                }
            }),
    {
        if self.sidebar.contains(source) && self.arena.contains(target) && !self.arena.is_full() {
            let slot = self.arena.slot_from_coords(has_area, left, top);
            if motion && slot == self.arena.phantom_slot() && self.arena.has_phantom() {
                return None;
            }
            return Some(slot);
        }
        None
    }

    /// Shows the arena placeholder at `slot` (moving it there when shown). Returns whether
    /// the layout must be rebuilt.
    pub fn ensure_phantom_at(&mut self, slot: usize) -> (rebuild: bool)
        requires
            old(self).wf(),
        ensures
            final(self).wf(),
            final(self)@ == (WorkspaceView {
                arena: if old(self)@.arena.ids.len() >= MAX_ACTIVE {
                    old(self)@.arena
                } else {
                    ArenaView { phantom_shown: true, phantom_index: slot, ..old(self)@.arena }
                },
                ..old(self)@
            }),
            rebuild == (old(self)@.arena.ids.len() < MAX_ACTIVE && (!old(self)@.arena.phantom_shown
                || old(self)@.arena.phantom_index != slot)),
    {
        let r = self.arena.ensure_phantom_at(slot);
        proof {
            let reg = self@.registry;
            assert forall|j: int| 0 <= j < reg.len() implies ((#[trigger] reg[j]).location
                == Location::Arena <==> self@.arena.ids.contains(reg[j].id)) by {
                assert(old(self)@.registry[j] == reg[j]);
            }
        }
        r
    }

    /// A drag carrying `source` (if known) entered the sidebar list with the placeholder
    /// target `insert_idx`: an arena source is hidden from the arena to preview its
    /// removal, and the placeholder is shown. Returns whether the arena layout must be
    /// rebuilt.
    pub fn sidebar_hover_enter(&mut self, source: Option<u32>, insert_idx: Option<usize>) -> (rebuild: bool)
        requires
            old(self).wf(),
            insert_idx matches Some(i) ==> i < usize::MAX,
        ensures
            final(self).wf(),
            ({
                let o = old(self)@;
                let hide = source matches Some(s) && o.arena.ids.contains(s);
                &&& final(self)@.arena == (if hide {
                    ArenaView { preview_removed: source, ..o.arena }
                } else {
                    o.arena
                })
                &&& rebuild == (hide && o.arena.preview_removed != source)
                &&& final(self)@.sidebar == (SidebarView {
                    placeholder: Some(
                        if crate::sidebar::is_noop_target(o.sidebar, insert_idx) {
                            crate::sidebar::Placeholder { gap: None, visible: false }
                        } else {
                            crate::sidebar::Placeholder {
                                gap: Some(crate::sidebar::attach_gap(o.sidebar.ids, insert_idx)),
                                visible: true,
                            }
                        },
                    ),
                    ..o.sidebar
                })
                &&& final(self)@.registry == o.registry
                &&& final(self)@.next_session_id == o.next_session_id
                &&& final(self)@.last_focused_id == o.last_focused_id
                &&& final(self)@.focus_holder == o.focus_holder
            }),
    {
        let mut rebuild = false;
        if let Some(s) = source {
            if self.arena.contains(s) {
                rebuild = self.arena.preview_remove(s);
            }
        }
        self.sidebar.show_placeholder(insert_idx);
        proof {
            let reg = self@.registry;
            assert forall|j: int| 0 <= j < reg.len() implies ((#[trigger] reg[j]).location
                == Location::Arena <==> self@.arena.ids.contains(reg[j].id)) by {
                assert(old(self)@.registry[j] == reg[j]);
            }
        }
        rebuild
    }

    /// The pointer moved over the sidebar list: the placeholder follows to `insert_idx`.
    pub fn sidebar_hover_motion(&mut self, insert_idx: Option<usize>)
        requires
            old(self).wf(),
            insert_idx matches Some(i) ==> i < usize::MAX,
        ensures
            final(self).wf(),
            final(self)@.arena == old(self)@.arena,
            final(self)@.registry == old(self)@.registry,
            old(self)@.sidebar.placeholder is None ==> final(self)@ == old(self)@,
            old(self)@.sidebar.placeholder is Some ==> final(self)@.sidebar == (SidebarView {
                placeholder: Some(
                    if crate::sidebar::is_noop_target(old(self)@.sidebar, insert_idx) {
                        crate::sidebar::Placeholder { gap: None, visible: false }
                    } else {
                        crate::sidebar::Placeholder {
                            gap: Some(crate::sidebar::attach_gap(old(self)@.sidebar.ids, insert_idx)),
                            visible: true,
                        }
                    },
                ),
                ..old(self)@.sidebar
            }),
            final(self)@.next_session_id == old(self)@.next_session_id,
            final(self)@.last_focused_id == old(self)@.last_focused_id,
            final(self)@.focus_holder == old(self)@.focus_holder,
    {
        self.sidebar.move_placeholder(insert_idx);
    }

    /// Marks `id` as the session being dragged when it is a sidebar card.
    pub fn drag_started(&mut self, id: u32)
        requires
            old(self).wf(),
        ensures
            final(self).wf(),
            final(self)@ == (WorkspaceView {
                sidebar: if old(self)@.sidebar.ids.contains(id) {
                    SidebarView { dragging_id: Some(id), ..old(self)@.sidebar }
                } else {
                    old(self)@.sidebar
                },
                ..old(self)@
            }),
    {
        if self.sidebar.contains(id) {
            self.sidebar.set_dragging_id(id);
        }
    }

    /// A drag ended: no card is being dragged and every preview is dropped. Returns
    /// whether the arena layout must be rebuilt.
    pub fn drag_ended(&mut self) -> (rebuild: bool)
        requires
            old(self).wf(),
        ensures
            final(self).wf(),
            final(self)@ == (WorkspaceView {
                sidebar: SidebarView { dragging_id: None, ..cleared(old(self)@).sidebar },
                ..cleared(old(self)@)
            }),
            rebuild == (old(self)@.arena.phantom_shown || old(self)@.arena.preview_removed is Some
                || old(self)@.arena.preview_swapped is Some),
    {
        self.sidebar.clear_dragging_id();
        self.clear_all_previews()
    }
}

/// Whether session `id` is registered and needs attention.
pub open spec fn needs_attention(reg: Seq<Session>, id: u32) -> bool {
    exists|k: int| 0 <= k < reg.len() && reg[k].id == id && reg[k].attention
}

/// The sidebar session to peek: the first card that needs attention, else the first card.
pub open spec fn peek_choice(s: Seq<u32>, reg: Seq<Session>) -> Option<u32> {
    if exists|i: int| 0 <= i < s.len() && needs_attention(reg, s[i]) {
        Some(
            s[choose|i: int|
                0 <= i < s.len() && needs_attention(reg, s[i]) && forall|j: int|
                    0 <= j < i ==> !needs_attention(reg, s[j])],
        )
    } else if s.len() > 0 {
        Some(s[0])
    } else {
        None
    }
}

/// The focused arena session: the focus holder when it is in the arena.
pub open spec fn arena_focus(v: WorkspaceView) -> Option<u32> {
    match v.focus_holder {
        Some(f) => if v.arena.ids.contains(f) { Some(f) } else { None },
        None => None,
    }
}

/// The arena session after `cur` in display order, wrapping around; the first one when
/// `cur` is not an arena session.
pub open spec fn next_in_cycle(ids: Seq<u32>, cur: Option<u32>) -> u32 {
    match cur {
        Some(c) => if ids.contains(c) {
            let k = first_index(ids, c);
            if k + 1 < ids.len() { ids[k + 1] } else { ids[0] }
        } else {
            ids[0]
        },
        None => ids[0],
    }
}

/// The arena session before `cur` in display order, wrapping around; the last one when
/// `cur` is not an arena session.
pub open spec fn prev_in_cycle(ids: Seq<u32>, cur: Option<u32>) -> u32 {
    match cur {
        Some(c) => if ids.contains(c) {
            let k = first_index(ids, c);
            if k > 0 { ids[k - 1] } else { ids[ids.len() - 1] }
        } else {
            ids[ids.len() - 1]
        },
        None => ids[ids.len() - 1],
    }
}

/// What `focus_next` does to `o`, giving `n` and the session it focused.
pub open spec fn focused_next(o: WorkspaceView, n: WorkspaceView, focus: Option<u32>) -> bool {
    if o.arena.ids.len() == 0 {
        focus is None && n == o
    } else {
        let next = next_in_cycle(o.arena.ids, arena_focus(o));
        focus == Some(next) && focus_moved(o, n, next)
    }
}

/// What `focus_prev` does to `o`, giving `n` and the session it focused.
pub open spec fn focused_prev(o: WorkspaceView, n: WorkspaceView, focus: Option<u32>) -> bool {
    if o.arena.ids.len() == 0 {
        focus is None && n == o
    } else {
        let prev = prev_in_cycle(o.arena.ids, arena_focus(o));
        focus == Some(prev) && focus_moved(o, n, prev)
    }
}

/// What the focus does when `focus_session(id)` runs on `o`.
pub open spec fn focus_moved(o: WorkspaceView, n: WorkspaceView, id: u32) -> bool {
    n == (WorkspaceView {
        last_focused_id: Some(id),
        focus_holder: if ids_of(o.registry).contains(id) { Some(id) } else { None },
        ..o
    })
}

/// What `close_session(id)` does to `o`, giving `n` and the session to focus.
pub open spec fn closed(o: WorkspaceView, n: WorkspaceView, id: u32, focus: Option<u32>) -> bool {
    &&& n.next_session_id == o.next_session_id
    &&& n.registry == unregister(o.registry, id)
    &&& !ids_of(n.registry).contains(id)
    &&& !n.arena.ids.contains(id)
    &&& !n.sidebar.ids.contains(id)
    &&& !ids_of(o.registry).contains(id) ==> focus is None && n == o
    &&& o.arena.ids.contains(id) ==> {
        let k = first_index(o.arena.ids, id);
        let a1 = remove_id(o.arena.ids, id);
        let slot = if k == 0 { 0 } else { k - 1 };
        &&& n.arena == (ArenaView { ids: a1, ..o.arena })
        &&& n.sidebar == o.sidebar
        &&& slot < a1.len() ==> focus == Some(a1[slot]) && n.last_focused_id
            == Some(a1[slot]) && n.focus_holder == Some(a1[slot])
        &&& slot >= a1.len() ==> focus is None && n.last_focused_id is None
            && n.focus_holder is None
    }
    &&& o.sidebar.ids.contains(id) ==> {
        &&& focus is None
        &&& n.arena == o.arena
        &&& n.sidebar == without_card(o.sidebar, id)
        &&& n.last_focused_id == (if o.last_focused_id == Some(id) {
            None
        } else {
            o.last_focused_id
        })
        &&& n.focus_holder == (if o.last_focused_id == Some(id) {
            None
        } else {
            o.focus_holder
        })
    }
}

/// The answer to a request to close a session.
#[derive(Debug, Clone, Copy, PartialEq, Eq, Structural)]
pub enum CloseRequest {
    /// No such session.
    Unknown,
    /// A process still runs in it: ask the user first.
    Confirm,
    /// It was closed; focus this session, if any.
    Closed(Option<u32>),
}

impl Workspace {
    /// The sidebar session to peek: the first card needing attention, else the first card.
    pub fn peek_best(&self) -> (r: Option<u32>)
        requires
            self.wf(),
        ensures
            r == peek_choice(self@.sidebar.ids, self@.registry),
    {
        let ids = self.sidebar.session_ids();
        let ghost s = ids@;
        let ghost reg = self@.registry;
        let mut i: usize = 0;
        while i < ids.len()
            invariant
                s == ids@,
                s == self@.sidebar.ids,
                reg == self@.registry,
                ids_of(reg).no_duplicates(),
                i <= s.len(),
                forall|j: int| 0 <= j < i ==> !needs_attention(reg, s[j]),
            decreases ids.len() - i,
        {
            let ri = self.record_index(ids[i]);
            let found = match ri {
                Some(k) => self.registry[k].attention,
                None => false,
            };
            proof {
                if needs_attention(reg, s[i as int]) {
                    let k = choose|k: int| 0 <= k < reg.len() && reg[k].id == s[i as int] && reg[k].attention;
                    assert(ids_of(reg)[k] == s[i as int]);
                    match ri {
                        Some(k2) => {
                            assert(ids_of(reg)[k2 as int] == s[i as int]);
                        },
                        None => {
                            assert(ids_of(reg).contains(s[i as int]));
                        },
                    }
                }
                if found {
                    let k2 = ri.unwrap() as int;
                    assert(reg[k2].id == s[i as int] && reg[k2].attention);
                    assert(needs_attention(reg, s[i as int]));
                }
            }
            if found {
                proof {
                    assert(0 <= i < s.len() && needs_attention(reg, s[i as int]) && forall|j: int|
                        0 <= j < i ==> !needs_attention(reg, s[j]));
                    let c = choose|c: int|
                        0 <= c < s.len() && needs_attention(reg, s[c]) && forall|j: int|
                            0 <= j < c ==> !needs_attention(reg, s[j]);
                    if c < i {
                        assert(!needs_attention(reg, s[c]));
                    } else if c > i {
                        assert(!needs_attention(reg, s[i as int]));
                    }
                }
                return Some(ids[i]);
            }
            i = i + 1;
        }
        if ids.len() > 0 {
            Some(ids[0])
        } else {
            None
        }
    }
}

/// Position of session `id` in the registry.
pub open spec fn record_pos(reg: Seq<Session>, id: u32) -> int {
    first_index(ids_of(reg), id)
}

impl Workspace {
    /// Puts `r` in place of the record at `k`, which has the same id and location.
    fn replace_record(&mut self, k: usize, r: Session)
        requires
            old(self).wf(),
            k < old(self)@.registry.len(),
            r.id == old(self)@.registry[k as int].id,
            r.location == old(self)@.registry[k as int].location,
        ensures
            final(self).wf(),
            final(self)@ == (WorkspaceView { registry: old(self)@.registry.update(k as int, r), ..old(self)@ }),
    {
        self.registry.set(k, r);
        proof {
            assert(ids_of(self@.registry) =~= ids_of(old(self)@.registry));
            let reg = self@.registry;
            assert forall|j: int| 0 <= j < reg.len() implies ((#[trigger] reg[j]).location
                == Location::Arena <==> self@.arena.ids.contains(reg[j].id)) by {
                assert(old(self)@.registry[j].location == Location::Arena <==> self@.arena.ids.contains(old(self)@.registry[j].id));
            }
            assert forall|j: int| 0 <= j < reg.len() implies (#[trigger] reg[j]).id
                < self.next_session_id by {
                assert(old(self)@.registry[j].id < self.next_session_id);
            }
        }
    }

    /// Locates session `id` by its registry position.
    fn locate(&self, id: u32) -> (r: Option<usize>)
        requires
            self.wf(),
        ensures
            match r {
                Some(k) => k == record_pos(self@.registry, id) && k < self@.registry.len()
                    && self@.registry[k as int].id == id && ids_of(self@.registry).contains(id),
                None => !ids_of(self@.registry).contains(id),
            },
    {
        let r = self.record_index(id);
        proof {
            if let Some(k) = r {
                assert(ids_of(self@.registry)[k as int] == id);
                crate::seqs::lemma_first_index_no_dup(ids_of(self@.registry), k as int);
            }
        }
        r
    }

    /// One poll of session `id` at `now` with what its probe found; see
    /// `Session::tick`. Returns whether its card caption is due for a refresh, or
    /// `None` for an unknown session.
    pub fn tick_session(&mut self, id: u32, now: u64, probe: Option<TickProbe>) -> (r: Option<bool>)
        requires
            old(self).wf(),
        ensures
            final(self).wf(),
            !ids_of(old(self)@.registry).contains(id) ==> r is None && final(self)@ == old(self)@,
            ids_of(old(self)@.registry).contains(id) ==> {
                let k = record_pos(old(self)@.registry, id);
                &&& r == Some(old(self)@.registry[k].location == Location::Sidebar)
                &&& final(self)@ == (WorkspaceView {
                    registry: old(self)@.registry.update(k, spec_tick(old(self)@.registry[k], now, probe)),
                    ..old(self)@
                })
            },
    {
        match self.locate(id) {
            Some(k) => {
                let mut st = self.registry[k];
                let refresh = st.tick(now, probe);
                self.replace_record(k, st);
                Some(refresh)
            },
            None => None,
        }
    }

    /// The terminal of session `id` rang its bell at `now`: its pip shows the alert.
    pub fn raise_alert(&mut self, id: u32, now: u64)
        requires
            old(self).wf(),
            now <= u64::MAX - ALERT_MILLIS,
        ensures
            final(self).wf(),
            !ids_of(old(self)@.registry).contains(id) ==> final(self)@ == old(self)@,
            ids_of(old(self)@.registry).contains(id) ==> {
                let k = record_pos(old(self)@.registry, id);
                final(self)@ == (WorkspaceView {
                    registry: old(self)@.registry.update(k, Session {
                        pip: crate::session::PipState::Alert,
                        alert_until: Some((now + ALERT_MILLIS) as u64),
                        ..old(self)@.registry[k]
                    }),
                    ..old(self)@
                })
            },
    {
        if let Some(k) = self.locate(id) {
            let mut st = self.registry[k];
            st.raise_alert(now);
            self.replace_record(k, st);
        }
    }

    /// The shell of session `id` started with pid `pid`.
    pub fn set_shell_pid(&mut self, id: u32, pid: i32)
        requires
            old(self).wf(),
        ensures
            final(self).wf(),
            !ids_of(old(self)@.registry).contains(id) ==> final(self)@ == old(self)@,
            ids_of(old(self)@.registry).contains(id) ==> {
                let k = record_pos(old(self)@.registry, id);
                final(self)@ == (WorkspaceView {
                    registry: old(self)@.registry.update(k, Session {
                        shell_pid: Some(pid),
                        ..old(self)@.registry[k]
                    }),
                    ..old(self)@
                })
            },
    {
        if let Some(k) = self.locate(id) {
            let mut st = self.registry[k];
            st.set_shell_pid(pid);
            self.replace_record(k, st);
        }
    }

    /// Opens a peek on sidebar session `id`; see `Session::peek`. Returns
    /// whether it opened.
    pub fn peek(&mut self, id: u32) -> (opened: bool)
        requires
            old(self).wf(),
        ensures
            final(self).wf(),
            !ids_of(old(self)@.registry).contains(id) ==> !opened && final(self)@ == old(self)@,
            ids_of(old(self)@.registry).contains(id) ==> {
                let k = record_pos(old(self)@.registry, id);
                let s = old(self)@.registry[k];
                &&& opened == (s.location == Location::Sidebar && !s.peeking)
                &&& opened ==> final(self)@ == (WorkspaceView {
                    registry: old(self)@.registry.update(k, Session { peeking: true, attention: false, ..s }),
                    ..old(self)@
                })
                &&& !opened ==> final(self)@ == old(self)@
            },
    {
        match self.locate(id) {
            Some(k) => {
                let mut st = self.registry[k];
                let opened = st.peek();
                if opened {
                    self.replace_record(k, st);
                }
                opened
            },
            None => false,
        }
    }

    /// The peek of session `id` closed.
    pub fn end_peek(&mut self, id: u32)
        requires
            old(self).wf(),
        ensures
            final(self).wf(),
            !ids_of(old(self)@.registry).contains(id) ==> final(self)@ == old(self)@,
            ids_of(old(self)@.registry).contains(id) ==> {
                let k = record_pos(old(self)@.registry, id);
                final(self)@ == (WorkspaceView {
                    registry: old(self)@.registry.update(k, Session {
                        peeking: false,
                        ..old(self)@.registry[k]
                    }),
                    ..old(self)@
                })
            },
    {
        if let Some(k) = self.locate(id) {
            let mut st = self.registry[k];
            st.end_peek();
            self.replace_record(k, st);
        }
    }

    /// A request to close session `id`: a busy session needs the user's confirmation,
    /// an idle one is closed at once (see `close_session`).
    pub fn request_close(&mut self, id: u32) -> (r: CloseRequest)
        requires
            old(self).wf(),
        ensures
            final(self).wf(),
            !ids_of(old(self)@.registry).contains(id) ==> r == CloseRequest::Unknown && final(self)@
                == old(self)@,
            ids_of(old(self)@.registry).contains(id) && old(self)@.registry[record_pos(
                old(self)@.registry,
                id,
            )].busy ==> r == CloseRequest::Confirm && final(self)@ == old(self)@,
            ids_of(old(self)@.registry).contains(id) && !old(self)@.registry[record_pos(
                old(self)@.registry,
                id,
            )].busy ==> (r matches CloseRequest::Closed(f) && closed(old(self)@, final(self)@, id, f)),
    {
        match self.locate(id) {
            None => CloseRequest::Unknown,
            Some(k) => {
                if self.registry[k].busy {
                    CloseRequest::Confirm
                } else {
                    CloseRequest::Closed(self.close_session(id))
                }
            },
        }
    }
}

impl Workspace {
    /// Sends the focused arena session to the sidebar; see `demote`. Nothing when no
    /// arena session holds the focus.
    pub fn demote_focused(&mut self) -> (slot: Option<usize>)
        requires
            old(self).wf(),
        ensures
            final(self).wf(),
            match arena_focus(old(self)@) {
                Some(id) => demoted(old(self)@, final(self)@, id, slot),
                None => slot is None && final(self)@ == old(self)@,
            },
    {
        match self.arena.focused(self.focus_holder) {
            Some(id) => self.demote(id),
            None => None,
        }
    }

    /// Focuses the arena session at 1-based position `index`; nothing for 0 or past the
    /// end. Returns the focused session.
    pub fn focus_index(&mut self, index: usize) -> (focus: Option<u32>)
        requires
            old(self).wf(),
        ensures
            final(self).wf(),
            (index == 0 || index > old(self)@.arena.ids.len()) ==> focus is None && final(self)@
                == old(self)@,
            (0 < index <= old(self)@.arena.ids.len()) ==> focus == Some(old(self)@.arena.ids[index - 1])
                && focus_moved(old(self)@, final(self)@, old(self)@.arena.ids[index - 1]),
    {
        if index == 0 {
            return None;
        }
        match self.arena.session_by_index(index - 1) {
            Some(id) => {
                self.focus_session(id);
                Some(id)
            },
            None => None,
        }
    }

    /// Gives the focus back to the last focused session when it still exists, else to
    /// the first arena session. Returns the focused session.
    pub fn refocus(&mut self) -> (focus: Option<u32>)
        requires
            old(self).wf(),
        ensures
            final(self).wf(),
            match old(self)@.last_focused_id {
                Some(id) if ids_of(old(self)@.registry).contains(id) => focus == Some(id)
                    && focus_moved(old(self)@, final(self)@, id),
                _ => if old(self)@.arena.ids.len() > 0 {
                    focus == Some(old(self)@.arena.ids[0]) && focus_moved(
                        old(self)@,
                        final(self)@,
                        old(self)@.arena.ids[0],
                    )
                } else {
                    focus is None && final(self)@ == old(self)@
                },
            },
    {
        if let Some(id) = self.last_focused_id {
            if self.locate(id).is_some() {
                self.focus_session(id);
                return Some(id);
            }
        }
        self.focus_index(1)
    }

    /// Focuses the next arena session in display order, wrapping around. Returns it.
    pub fn focus_next(&mut self) -> (focus: Option<u32>)
        requires
            old(self).wf(),
        ensures
            final(self).wf(),
            focused_next(old(self)@, final(self)@, focus),
    {
        let ids = self.arena.session_ids();
        if ids.len() == 0 {
            return None;
        }
        let current = self.arena.focused(self.focus_holder);
        let next = match current {
            Some(c) => match self.arena.position(c) {
                Some(i) => if i + 1 < ids.len() { ids[i + 1] } else { ids[0] },
                None => ids[0],
            },
            None => ids[0],
        };
        self.focus_session(next);
        Some(next)
    }

    /// Focuses the previous arena session in display order, wrapping around. Returns it.
    pub fn focus_prev(&mut self) -> (focus: Option<u32>)
        requires
            old(self).wf(),
        ensures
            final(self).wf(),
            focused_prev(old(self)@, final(self)@, focus),
    {
        let ids = self.arena.session_ids();
        let len = ids.len();
        if len == 0 {
            return None;
        }
        let current = self.arena.focused(self.focus_holder);
        let prev = match current {
            Some(c) => match self.arena.position(c) {
                Some(i) => if i > 0 { ids[i - 1] } else { ids[len - 1] },
                None => ids[len - 1],
            },
            None => ids[len - 1],
        };
        self.focus_session(prev);
        Some(prev)
    }

    /// Switches the arena between side-by-side and stacked layouts.
    pub fn toggle_split(&mut self)
        requires
            old(self).wf(),
        ensures
            final(self).wf(),
            final(self)@ == (WorkspaceView {
                arena: ArenaView { split_horizontal: !old(self)@.arena.split_horizontal, ..old(self)@.arena },
                ..old(self)@
            }),
    {
        self.arena.toggle_split();
        proof {
            let reg = self@.registry;
            assert forall|j: int| 0 <= j < reg.len() implies ((#[trigger] reg[j]).location
                == Location::Arena <==> self@.arena.ids.contains(reg[j].id)) by {
                assert(old(self)@.registry[j] == reg[j]);
            }
        }
    }
}

impl Workspace {
    /// The title of the next new shell: `Shell` and the number it will get.
    pub fn new_session_title(&self) -> (r: String)
        ensures
            r@ == "Shell "@ + crate::runtime::decimal(self@.next_session_id as nat),
    {
        let mut out = String::from_str("Shell ");
        crate::runtime::append_decimal(&mut out, self.next_session_id as u64);
        out
    }
}

impl Workspace {
    /// Whether a working directory reported by session `id` is passed on (to the file
    /// tree): only while that session is the one focused last.
    pub fn routes_cwd_report(&self, id: u32) -> (r: bool)
        ensures
            r == (self@.last_focused_id == Some(id)),
    {
        self.last_focused_id == Some(id)
    }

    /// The session a `cd` picked in the file tree goes to: the last focused session, when
    /// it exists and waits at its prompt; `None` when there is none or it is busy.
    pub fn cd_target(&self) -> (r: Option<u32>)
        ensures
            r == match self@.last_focused_id {
                Some(id) => if ids_of(self@.registry).contains(id)
                    && !self@.registry[record_pos(self@.registry, id)].busy {
                    Some(id)
                } else {
                    None
                },
                None => None,
            },
    {
        match self.focused_session() {
            Some(s) => {
                proof {
                    let reg = self@.registry;
                    let j = choose|j: int| 0 <= j < reg.len() && reg[j] == s;
                    assert(ids_of(reg)[j] == s.id);
                }
                if s.busy {
                    None
                } else {
                    Some(s.id)
                }
            },
            None => None,
        }
    }
}

/// The registry after `solo_focused` kept `id`: arena sessions other than `id` are
/// placed in the sidebar, and `id` in the arena when it came from the sidebar.
pub open spec fn solo_registry(reg: Seq<Session>, a: Seq<u32>, s: Seq<u32>, id: u32) -> Seq<Session> {
    Seq::new(
        reg.len(),
        |i: int|
            if reg[i].id == id && s.contains(id) {
                placed_state(reg[i], Location::Arena)
            } else if a.contains(reg[i].id) && reg[i].id != id {
                placed_state(reg[i], Location::Sidebar)
            } else {
                reg[i]
            },
    )
}

/// What `solo_focused` does to `o`: the last focused session becomes the arena's only
/// session (the others go to the end of the sidebar, in arena order) and is focused.
pub open spec fn soloed(o: WorkspaceView, n: WorkspaceView, focus: Option<u32>) -> bool {
    match o.last_focused_id {
        None => focus is None && n == o,
        Some(id) => {
            let a = o.arena.ids;
            let s = o.sidebar.ids;
            let moved = SidebarView { ids: s + remove_id(a, id), ..o.sidebar };
            &&& focus == Some(id)
            &&& n.arena == (ArenaView {
                ids: if a.contains(id) || s.contains(id) { seq![id] } else { seq![] },
                ..o.arena
            })
            &&& n.sidebar == (if s.contains(id) { without_card(moved, id) } else { moved })
            &&& n.registry == solo_registry(o.registry, a, s, id)
            &&& n.next_session_id == o.next_session_id
            &&& n.last_focused_id == Some(id)
            &&& n.focus_holder == (if ids_of(o.registry).contains(id) { Some(id) } else { None })
        },
    }
}

/// Distinct ids that are all `id` are `id` alone, or nothing.
proof fn lemma_only(t: Seq<u32>, id: u32)
    requires
        t.no_duplicates(),
        forall|x: u32| #[trigger] t.contains(x) ==> x == id,
    ensures
        t.contains(id) ==> t == seq![id],
        !t.contains(id) ==> t == Seq::<u32>::empty(),
{
    if t.len() >= 2 {
        assert(t.contains(t[0]));
        assert(t.contains(t[1]));
    }
    if t.len() == 1 {
        assert(t.contains(t[0]));
        assert(t =~= seq![id]);
    }
    if t.len() == 0 {
        assert(t =~= Seq::<u32>::empty());
    }
}

impl Workspace {
    /// Makes the last focused session the only arena session: the other arena sessions go
    /// to the sidebar, and the session comes into the arena from the sidebar if needed.
    /// Nothing when no session was focused. Returns the focused session.
    pub fn solo_focused(&mut self) -> (focus: Option<u32>)
        requires
            old(self).wf(),
        ensures
            final(self).wf(),
            soloed(old(self)@, final(self)@, focus),
    {
        let id = match self.last_focused_id {
            Some(id) => id,
            None => return None,
        };
        let ghost o = self@;
        let ghost a0 = self@.arena.ids;
        let ghost s0 = self@.sidebar.ids;
        let ghost reg0 = self@.registry;
        let mut to_demote = self.arena.session_ids();
        if let Some(p) = crate::seqs::position(&to_demote, id) {
            to_demote.remove(p);
        }
        assert(to_demote@ == remove_id(a0, id));
        proof {
            lemma_remove_id(a0, id);
        }
        let ghost td = to_demote@;
        let mut k: usize = 0;
        while k < to_demote.len()
            invariant
                self.wf(),
                td == to_demote@,
                td == remove_id(a0, id),
                td.no_duplicates(),
                forall|x: u32| #[trigger] td.contains(x) <==> (a0.contains(x) && x != id),
                k <= td.len(),
                forall|x: u32| #[trigger] self@.arena.ids.contains(x) <==> (a0.contains(x)
                    && !td.take(k as int).contains(x)),
                self@.arena == (ArenaView { ids: self@.arena.ids, ..o.arena }),
                self@.sidebar == (SidebarView { ids: s0 + td.take(k as int), ..o.sidebar }),
                self@.registry == Seq::new(
                    reg0.len(),
                    |i: int|
                        if td.take(k as int).contains(reg0[i].id) {
                            placed_state(reg0[i], Location::Sidebar)
                        } else {
                            reg0[i]
                        },
                ),
                self@.next_session_id == o.next_session_id,
                self@.last_focused_id == o.last_focused_id,
                self@.focus_holder == o.focus_holder,
                o.last_focused_id == Some(id),
            decreases to_demote.len() - k,
        {
            let x = to_demote[k];
            let ghost before = self@;
            proof {
                assert(td.contains(x));
                assert(!td.take(k as int).contains(x)) by {
                    if td.take(k as int).contains(x) {
                        let j = choose|j: int| 0 <= j < k && td.take(k as int)[j] == x;
                        assert(td[j] == td[k as int]);
                    }
                }
                lemma_remove_id(before.arena.ids, x);
            }
            self.demote(x);
            proof {
                let t0 = td.take(k as int);
                let t1 = td.take(k + 1);
                assert(t1 =~= t0.push(x));
                lemma_push_contains(t0, x);
                assert((s0 + t0).push(x) =~= s0 + t1);
                assert forall|y: u32| #[trigger] self@.arena.ids.contains(y) <==> (a0.contains(y)
                    && !t1.contains(y)) by {}
                assert(self@.registry =~= Seq::new(
                    reg0.len(),
                    |i: int|
                        if t1.contains(reg0[i].id) {
                            placed_state(reg0[i], Location::Sidebar)
                        } else {
                            reg0[i]
                        },
                ));
            }
            k = k + 1;
        }
        proof {
            assert(td.take(td.len() as int) =~= td);
            lemma_only(self@.arena.ids, id);
        }
        let ghost mid = self@;
        proof {
            if !a0.contains(id) {
                assert(!mid.arena.ids.contains(id));
                assert(mid.arena.ids =~= Seq::<u32>::empty());
                if s0.contains(id) {
                    assert(mid.sidebar.ids.contains(id)) by {
                        let j = choose|j: int| 0 <= j < s0.len() && s0[j] == id;
                        assert(mid.sidebar.ids[j] == id);
                    }
                }
            } else {
                assert(mid.arena.ids.contains(id));
            }
        }
        if !self.arena.contains(id) {
            self.promote_at(id, None);
        }
        self.focus_session(id);
        proof {
            let n = self@;
            let moved = SidebarView { ids: s0 + remove_id(a0, id), ..o.sidebar };
            if a0.contains(id) {
                assert(n.arena.ids =~= seq![id]);
            } else if s0.contains(id) {
                assert(n.arena.ids =~= seq![id]);
            } else {
                assert(n.arena.ids =~= Seq::<u32>::empty());
            }
            assert(n.registry =~= solo_registry(reg0, a0, s0, id));
        }
        Some(id)
    }
}

/// The ids after removing the session at `i`.
pub proof fn lemma_ids_of_remove(reg: Seq<Session>, i: int)
    requires
        0 <= i < reg.len(),
    ensures
        ids_of(reg.remove(i)) == ids_of(reg).remove(i),
{
    assert(ids_of(reg.remove(i)) =~= ids_of(reg).remove(i));
}

/// The ids after appending a session.
pub proof fn lemma_ids_of_push(reg: Seq<Session>, s: Session)
    ensures
        ids_of(reg.push(s)) == ids_of(reg).push(s.id),
{
    assert(ids_of(reg.push(s)) =~= ids_of(reg).push(s.id));
}

/// Placing a session changes no id.
pub proof fn lemma_ids_of_place(reg: Seq<Session>, id: u32, loc: Location)
    ensures
        ids_of(place(reg, id, loc)) == ids_of(reg),
        place(reg, id, loc).len() == reg.len(),
{
    assert(ids_of(place(reg, id, loc)) =~= ids_of(reg));
}


/// `n` holds the sessions of `o`, in the same order and unchanged but for where they
/// are shown and whether they ask for attention.
pub open spec fn reparented(o: Seq<Session>, n: Seq<Session>) -> bool {
    &&& n.len() == o.len()
    &&& forall|i: int|
        0 <= i < o.len() ==> #[trigger] n[i] == (Session {
            location: n[i].location,
            attention: n[i].attention,
            ..o[i]
        })
}

proof fn lemma_place_reparents(o: Seq<Session>, n: Seq<Session>, id: u32, loc: Location)
    requires
        reparented(o, n),
    ensures
        reparented(o, place(n, id, loc)),
{
}

/// Promoting a session moves terminals between arena and sidebar and starts or ends
/// none: every session stays, unchanged but for its place.
pub proof fn lemma_promote_reparents(o: WorkspaceView, n: WorkspaceView, id: u32, slot: Option<usize>, focus: Option<u32>)
    requires
        promoted(o, n, id, slot, focus),
    ensures
        reparented(o.registry, n.registry),
        ids_of(n.registry) == ids_of(o.registry),
{
    assert(reparented(o.registry, o.registry));
    lemma_place_reparents(o.registry, o.registry, id, Location::Arena);
    let t = swap_target(o.arena.ids, o.focus_holder);
    lemma_place_reparents(o.registry, place(o.registry, id, Location::Arena), t, Location::Sidebar);
    assert(ids_of(n.registry) =~= ids_of(o.registry));
}

/// Demoting a session keeps every session, unchanged but for its place.
pub proof fn lemma_demote_reparents(o: WorkspaceView, n: WorkspaceView, id: u32, slot: Option<usize>)
    requires
        demoted(o, n, id, slot),
    ensures
        reparented(o.registry, n.registry),
        ids_of(n.registry) == ids_of(o.registry),
{
    assert(reparented(o.registry, o.registry));
    lemma_place_reparents(o.registry, o.registry, id, Location::Sidebar);
    assert(ids_of(n.registry) =~= ids_of(o.registry));
}

/// A drop of one session on another keeps every session, unchanged but for its place.
pub proof fn lemma_drop_reparents(o: WorkspaceView, n: WorkspaceView, source: u32, target: u32, r: FocusRequest)
    requires
        dropped(o, n, source, target, r),
    ensures
        reparented(o.registry, n.registry),
        ids_of(n.registry) == ids_of(o.registry),
{
    let reg = o.registry;
    assert(reparented(reg, reg));
    lemma_place_reparents(reg, reg, source, Location::Arena);
    lemma_place_reparents(reg, place(reg, source, Location::Arena), target, Location::Sidebar);
    lemma_place_reparents(reg, reg, target, Location::Arena);
    lemma_place_reparents(reg, place(reg, target, Location::Arena), source, Location::Sidebar);
    assert(ids_of(n.registry) =~= ids_of(o.registry));
}

/// A drop on the sidebar list (demoting an arena tile or reordering a card) keeps every
/// session, unchanged but for its place.
pub proof fn lemma_sidebar_drop_reparents(o: WorkspaceView, n: WorkspaceView, source: u32, slot: Option<usize>)
    requires
        dropped_on_sidebar(o, n, source, slot),
    ensures
        reparented(o.registry, n.registry),
        ids_of(n.registry) == ids_of(o.registry),
{
    assert(reparented(o.registry, o.registry));
    lemma_place_reparents(o.registry, o.registry, source, Location::Sidebar);
    assert(ids_of(n.registry) =~= ids_of(o.registry));
}

/// Making one session the arena's only one keeps every session, unchanged but for its
/// place.
pub proof fn lemma_solo_reparents(o: WorkspaceView, n: WorkspaceView, focus: Option<u32>)
    requires
        soloed(o, n, focus),
    ensures
        reparented(o.registry, n.registry),
        ids_of(n.registry) == ids_of(o.registry),
{
    assert(ids_of(n.registry) =~= ids_of(o.registry));
}

/// Cycling the focus forward and then back (or back and then forward) returns it to the
/// arena session it started on.
pub proof fn lemma_cycle_back(ids: Seq<u32>, c: u32)
    requires
        ids.no_duplicates(),
        ids.contains(c),
    ensures
        prev_in_cycle(ids, Some(next_in_cycle(ids, Some(c)))) == c,
        next_in_cycle(ids, Some(prev_in_cycle(ids, Some(c)))) == c,
{
    let k = first_index(ids, c);
    lemma_first_index(ids, c);
    let n = ids.len() as int;
    let nk = if k + 1 < n { k + 1 } else { 0 };
    let pk = if k > 0 { k - 1 } else { n - 1 };
    lemma_first_index_no_dup(ids, nk);
    lemma_first_index_no_dup(ids, pk);
    assert(ids.contains(ids[nk]));
    assert(ids.contains(ids[pk]));
}

/// Closing the arena session at display position `k` passes the focus to the session
/// that stood just before it (position `k - 1`); closing the first one passes it to the
/// session that stood second, and closing the only one focuses nothing.
pub proof fn lemma_close_focuses_previous_tile(o: WorkspaceView, n: WorkspaceView, id: u32, focus: Option<u32>)
    requires
        o.arena.ids.contains(id),
        closed(o, n, id, focus),
    ensures
        ({
            let a = o.arena.ids;
            let k = first_index(a, id);
            &&& 0 <= k < a.len() && a[k] == id
            &&& k > 0 ==> focus == Some(a[k - 1])
            &&& k == 0 && a.len() > 1 ==> focus == Some(a[1])
            &&& k == 0 && a.len() == 1 ==> focus is None
        }),
{
    let a = o.arena.ids;
    lemma_first_index(a, id);
    let k = first_index(a, id);
    let a1 = remove_id(a, id);
    assert(a1 == a.remove(k));
    if k > 0 {
        assert(a1[k - 1] == a[k - 1]);
    } else if a.len() > 1 {
        assert(a1[0] == a[1]);
    }
}

/// The card to peek is the first sidebar card that needs attention: when card `i` needs
/// attention and no card before it does, card `i` is peeked.
pub proof fn lemma_peek_first_attention(s: Seq<u32>, reg: Seq<Session>, i: int)
    requires
        0 <= i < s.len(),
        needs_attention(reg, s[i]),
        forall|j: int| 0 <= j < i ==> !needs_attention(reg, #[trigger] s[j]),
    ensures
        peek_choice(s, reg) == Some(s[i]),
{
    assert(0 <= i < s.len() && needs_attention(reg, s[i]) && forall|j: int|
        0 <= j < i ==> !needs_attention(reg, s[j]));
    let c = choose|c: int|
        0 <= c < s.len() && needs_attention(reg, s[c]) && forall|j: int|
            0 <= j < c ==> !needs_attention(reg, s[j]);
    if c < i {
        assert(!needs_attention(reg, s[c]));
    } else if c > i {
        assert(!needs_attention(reg, s[i]));
    }
}

/// When some sidebar card needs attention, the card peeked needs attention and no card
/// before it in sidebar order does; when none does, the first card is peeked (nothing
/// when the sidebar is empty).
pub proof fn lemma_peek_prefers_attention(s: Seq<u32>, reg: Seq<Session>)
    ensures
        (exists|i: int| 0 <= i < s.len() && needs_attention(reg, #[trigger] s[i])) ==> exists|i: int|
            0 <= i < s.len() && peek_choice(s, reg) == Some(#[trigger] s[i]) && needs_attention(reg, s[i])
                && forall|j: int| 0 <= j < i ==> !needs_attention(reg, #[trigger] s[j]),
        !(exists|i: int| 0 <= i < s.len() && needs_attention(reg, #[trigger] s[i])) ==> peek_choice(s, reg)
            == (if s.len() > 0 { Some(s[0]) } else { None }),
{
    if exists|i: int| 0 <= i < s.len() && needs_attention(reg, #[trigger] s[i]) {
        let i = choose|i: int| 0 <= i < s.len() && needs_attention(reg, #[trigger] s[i]);
        let m = lemma_first_attention(s, reg, i);
        lemma_peek_first_attention(s, reg, m);
    }
}

/// Below a card that needs attention there is a first one.
proof fn lemma_first_attention(s: Seq<u32>, reg: Seq<Session>, i: int) -> (m: int)
    requires
        0 <= i < s.len(),
        needs_attention(reg, s[i]),
    ensures
        0 <= m <= i,
        needs_attention(reg, s[m]),
        forall|j: int| 0 <= j < m ==> !needs_attention(reg, #[trigger] s[j]),
    decreases i,
{
    if exists|j: int| 0 <= j < i && needs_attention(reg, #[trigger] s[j]) {
        let j = choose|j: int| 0 <= j < i && needs_attention(reg, #[trigger] s[j]);
        lemma_first_attention(s, reg, j)
    } else {
        i
    }
}

/// A sidebar card dropped on another sidebar card lands immediately before it, and the
/// other cards keep their order: the new order, without the moved card, is the old one
/// without it.
pub proof fn lemma_card_drop_lands_before_target(
    o: WorkspaceView,
    n: WorkspaceView,
    source: u32,
    target: u32,
    r: FocusRequest,
)
    requires
        consistent(o),
        source != target,
        o.sidebar.ids.contains(source),
        o.sidebar.ids.contains(target),
        dropped(o, n, source, target, r),
    ensures
        ({
            let t = n.sidebar.ids;
            &&& r == FocusRequest::Keep
            &&& t.len() == o.sidebar.ids.len()
            &&& t.no_duplicates()
            &&& 0 <= first_index(t, source) && first_index(t, source) + 1 == first_index(t, target)
            &&& remove_id(t, source) == remove_id(o.sidebar.ids, source)
            &&& n.arena.ids == undo_swap(o.arena.ids, o.arena.preview_swapped)
        }),
{
    let s = o.sidebar.ids;
    let a = undo_swap(o.arena.ids, o.arena.preview_swapped);
    match o.arena.preview_swapped {
        Some((x, y)) => {
            lemma_swap_ids(o.arena.ids, x, y);
        },
        None => {},
    }
    assert(!a.contains(source));
    assert(!a.contains(target));
    lemma_remove_id(s, source);
    let rest = remove_id(s, source);
    assert(rest.contains(target));
    lemma_first_index(rest, target);
    let j = first_index(rest, target);
    lemma_insert_fresh(rest, j, source);
    let t = rest.insert(j, source);
    assert(n.sidebar.ids == t);
    assert(t[j] == source);
    assert(t[j + 1] == target);
    lemma_first_index_no_dup(t, j);
    lemma_first_index_no_dup(t, j + 1);
    assert(t.contains(source));
    assert(t.remove(j) =~= rest);
}

/// Closing a session a second time changes nothing and focuses nothing: closing twice
/// has the effect of closing once.
pub proof fn lemma_close_twice(
    o: WorkspaceView,
    m: WorkspaceView,
    n: WorkspaceView,
    id: u32,
    first: Option<u32>,
    second: Option<u32>,
)
    requires
        closed(o, m, id, first),
        closed(m, n, id, second),
    ensures
        n == m,
        second is None,
{
}

/// Focusing the next arena session and then the previous one gives the focus back to
/// the arena session that held it.
pub proof fn lemma_focus_next_then_prev(
    o: WorkspaceView,
    m: WorkspaceView,
    n: WorkspaceView,
    f1: Option<u32>,
    f2: Option<u32>,
)
    requires
        consistent(o),
        arena_focus(o) is Some,
        focused_next(o, m, f1),
        focused_prev(m, n, f2),
    ensures
        f2 == arena_focus(o),
        arena_focus(n) == arena_focus(o),
        n.arena == o.arena,
        n.registry == o.registry,
{
    let ids = o.arena.ids;
    let c = arena_focus(o)->0;
    lemma_cycle_back(ids, c);
    let next = next_in_cycle(ids, Some(c));
    lemma_next_in_cycle_member(ids, c);
    assert(ids_of(o.registry).contains(next));
    assert(arena_focus(m) == Some(next));
    assert(ids_of(m.registry).contains(c));
}

/// Focusing the previous arena session and then the next one gives the focus back to
/// the arena session that held it.
pub proof fn lemma_focus_prev_then_next(
    o: WorkspaceView,
    m: WorkspaceView,
    n: WorkspaceView,
    f1: Option<u32>,
    f2: Option<u32>,
)
    requires
        consistent(o),
        arena_focus(o) is Some,
        focused_prev(o, m, f1),
        focused_next(m, n, f2),
    ensures
        f2 == arena_focus(o),
        arena_focus(n) == arena_focus(o),
        n.arena == o.arena,
        n.registry == o.registry,
{
    let ids = o.arena.ids;
    let c = arena_focus(o)->0;
    lemma_cycle_back(ids, c);
    let prev = prev_in_cycle(ids, Some(c));
    lemma_next_in_cycle_member(ids, c);
    assert(ids_of(o.registry).contains(prev));
    assert(arena_focus(m) == Some(prev));
    assert(ids_of(m.registry).contains(c));
}

/// The neighbours of an arena session in the focus cycle are arena sessions too.
proof fn lemma_next_in_cycle_member(ids: Seq<u32>, c: u32)
    requires
        ids.contains(c),
    ensures
        ids.contains(next_in_cycle(ids, Some(c))),
        ids.contains(prev_in_cycle(ids, Some(c))),
{
    let k = first_index(ids, c);
    lemma_first_index(ids, c);
    let n = ids.len() as int;
    let nk = if k + 1 < n { k + 1 } else { 0 };
    let pk = if k > 0 { k - 1 } else { n - 1 };
    assert(ids[nk] == next_in_cycle(ids, Some(c)));
    assert(ids[pk] == prev_in_cycle(ids, Some(c)));
}

/// While a workspace holds fewer sessions than there are emojis, a new session is only
/// offered emojis that no session wears, and at least one: emojis repeat only once the
/// pool is exhausted.
pub proof fn lemma_fresh_emoji_while_pool_lasts(reg: Seq<Session>)
    requires
        reg.len() < EMOJI_POOL_LEN,
    ensures
        emoji_pool(reg).len() > 0,
        forall|i: int, k: int|
            0 <= i < emoji_pool(reg).len() && 0 <= k < reg.len() ==> #[trigger] reg[k].emoji != #[trigger] emoji_pool(reg)[i],
{
    let all = Seq::new(EMOJI_POOL_LEN as nat, |i: int| i as usize);
    let pred = |e: usize| forall|k: int| 0 <= k < reg.len() ==> reg[k].emoji != e;
    let free = all.filter(pred);
    let used = reg.map_values(|st: Session| st.emoji);
    if free.len() == 0 {
        assert forall|e: usize| all.to_set().contains(e) implies used.to_set().contains(e) by {
            let i = choose|i: int| 0 <= i < all.len() && all[i] == e;
            if pred(e) {
                all.lemma_filter_contains(pred, i);
            }
            let k = choose|k: int| 0 <= k < reg.len() && reg[k].emoji == e;
            assert(used[k] == e);
        }
        assert(all.no_duplicates());
        all.unique_seq_to_set();
        used.lemma_cardinality_of_set();
        vstd::seq_lib::seq_to_set_is_finite(used);
        vstd::set_lib::lemma_len_subset(all.to_set(), used.to_set());
        assert(false);
    }
    assert forall|i: int, k: int| 0 <= i < free.len() && 0 <= k < reg.len() implies #[trigger] reg[k].emoji != #[trigger] free[i] by {
        all.lemma_filter_pred(pred, i);
    }
}

} // verus!
