//! The workspace tabs of a window: which workspace each tab page shows, when a page may
//! close, and the small choices the window makes around them.
use vstd::prelude::*;
use crate::filetree::{components, is_normal, path_components, root_comp, SLASH};
use crate::runtime::{trim, trim_end, trim_start};

verus! {

/// The workspace shown by tab page `page` among `pages` (pairs of page and workspace):
/// the one recorded last for it.
pub open spec fn page_workspace(pages: Seq<(u64, u32)>, page: u64) -> Option<u32>
    decreases pages.len(),
{
    if pages.len() == 0 {
        None
    } else if pages.last().0 == page {
        Some(pages.last().1)
    } else {
        page_workspace(pages.drop_last(), page)
    }
}

/// `pages` without the entries of `page`.
pub open spec fn without_page(pages: Seq<(u64, u32)>, page: u64) -> Seq<(u64, u32)>
    decreases pages.len(),
{
    if pages.len() == 0 {
        seq![]
    } else {
        let r = without_page(pages.drop_last(), page);
        if pages.last().0 != page {
            r.push(pages.last())
        } else {
            r
        }
    }
}

/// The tab pages of a window and the workspace each shows; new workspaces are numbered
/// from 1.
pub struct WorkspaceTabs {
    next_ws_id: u32,
    pages: Vec<(u64, u32)>,
}

/// What a `WorkspaceTabs` holds.
#[verifier::ext_equal]
pub struct TabsView {
    pub next_ws_id: u32,
    pub pages: Seq<(u64, u32)>,
}

impl View for WorkspaceTabs {
    type V = TabsView;

    closed spec fn view(&self) -> TabsView {
        TabsView { next_ws_id: self.next_ws_id, pages: self.pages@ }
    }
}

/// What asking to close a tab page comes to.
#[derive(Debug, Clone, Copy, PartialEq, Eq, Structural)]
pub enum PageClose {
    /// The window's last page stays open.
    Refuse,
    /// The page closes; this workspace, if the page showed one, is dropped.
    Close(Option<u32>),
}

impl WorkspaceTabs {
    /// No pages yet; the first workspace gets number 1.
    pub fn new() -> (r: WorkspaceTabs)
        ensures
            r@ == (TabsView { next_ws_id: 1, pages: seq![] }),
    {
        let r = WorkspaceTabs { next_ws_id: 1, pages: Vec::new() };
        assert(r@ =~= TabsView { next_ws_id: 1, pages: seq![] });
        r
    }

    fn remove_page(&mut self, page: u64)
        ensures
            final(self)@ == (TabsView { pages: without_page(old(self)@.pages, page), ..old(self)@ }),
    {
        let mut kept: Vec<(u64, u32)> = Vec::new();
        let mut i: usize = 0;
        assert(self.pages@.take(0) =~= Seq::<(u64, u32)>::empty());
        while i < self.pages.len()
            invariant
                i <= self.pages@.len(),
                self@ == old(self)@,
                kept@ == without_page(self.pages@.take(i as int), page),
            decreases self.pages.len() - i,
        {
            let e = self.pages[i];
            let ghost pre = self.pages@.take(i as int);
            let ghost post = self.pages@.take(i + 1);
            assert(post.drop_last() =~= pre);
            assert(post.last() == e);
            if e.0 != page {
                kept.push(e);
            }
            i = i + 1;
        }
        assert(self.pages@.take(self.pages@.len() as int) =~= self.pages@);
        self.pages = kept;
        assert(self@ =~= TabsView { pages: without_page(old(self)@.pages, page), ..old(self)@ });
    }

    /// The number the next workspace gets.
    pub fn next_ws_id(&self) -> (r: u32)
        ensures
            r == self@.next_ws_id,
    {
        self.next_ws_id
    }

    /// Tab page `page` now shows a new workspace: it gets the next number, which is
    /// returned.
    pub fn open_page(&mut self, page: u64) -> (id: u32)
        requires
            old(self)@.next_ws_id < u32::MAX,
        ensures
            id == old(self)@.next_ws_id,
            final(self)@ == (TabsView {
                next_ws_id: (id + 1) as u32,
                pages: without_page(old(self)@.pages, page).push((page, id)),
            }),
    {
        let id = self.next_ws_id;
        self.next_ws_id = id + 1;
        self.remove_page(page);
        self.pages.push((page, id));
        id
    }

    /// The workspace that tab page `page` shows.
    pub fn workspace_of(&self, page: u64) -> (r: Option<u32>)
        ensures
            r == page_workspace(self@.pages, page),
    {
        let mut i: usize = self.pages.len();
        assert(self.pages@.take(i as int) =~= self.pages@);
        while i > 0
            invariant
                i <= self.pages@.len(),
                page_workspace(self.pages@, page) == page_workspace(self.pages@.take(i as int), page),
            decreases i,
        {
            let e = self.pages[i - 1];
            let ghost t = self.pages@.take(i as int);
            assert(t.last() == e);
            assert(t.drop_last() =~= self.pages@.take(i - 1));
            if e.0 == page {
                return Some(e.1);
            }
            i = i - 1;
        }
        assert(self.pages@.take(0) =~= Seq::<(u64, u32)>::empty());
        None
    }

    /// The user asks to close tab page `page` while the window has `n_pages` pages: the
    /// last page stays; otherwise the page closes and its workspace goes.
    pub fn close_page(&mut self, page: u64, n_pages: i32) -> (r: PageClose)
        ensures
            n_pages <= 1 ==> r == PageClose::Refuse && final(self)@ == old(self)@,
            n_pages > 1 ==> r == PageClose::Close(page_workspace(old(self)@.pages, page))
                && final(self)@ == (TabsView { pages: without_page(old(self)@.pages, page), ..old(self)@ }),
    {
        if n_pages <= 1 {
            return PageClose::Refuse;
        }
        let ws = self.workspace_of(page);
        self.remove_page(page);
        PageClose::Close(ws)
    }
}

/// A page opened on a tab is found again there.
pub proof fn lemma_opened_page_found(pages: Seq<(u64, u32)>, page: u64, id: u32)
    ensures
        page_workspace(without_page(pages, page).push((page, id)), page) == Some(id),
{
    assert(without_page(pages, page).push((page, id)).drop_last() =~= without_page(pages, page));
}

/// A closed page shows no workspace any more; other pages keep theirs.
pub proof fn lemma_closed_page_gone(pages: Seq<(u64, u32)>, page: u64, other: u64)
    ensures
        page_workspace(without_page(pages, page), page) is None,
        other != page ==> page_workspace(without_page(pages, page), other) == page_workspace(pages, other),
    decreases pages.len(),
{
    if pages.len() > 0 {
        lemma_closed_page_gone(pages.drop_last(), page, other);
        let r = without_page(pages.drop_last(), page);
        let x = pages.last();
        assert(r.push(x).drop_last() =~= r);
        assert(r.push(x).last() == x);
    }
}

/// The current page may be closed from the keyboard only when the window has another.
pub fn may_close_current(n_pages: i32) -> (r: bool)
    ensures
        r == (n_pages > 1),
{
    n_pages > 1
}

/// The name typed for a workspace, trimmed; `None` when nothing is left.
pub open spec fn spec_workspace_name(text: Seq<char>) -> Option<Seq<char>> {
    let t = trim_end(trim_start(text));
    if t.len() == 0 {
        None
    } else {
        Some(t)
    }
}

/// The workspace name the name dialog confirms for the typed `text`.
pub fn workspace_name(text: &str) -> (r: Option<String>)
    ensures
        match r {
            Some(s) => spec_workspace_name(text@) == Some(s@),
            None => spec_workspace_name(text@) is None,
        },
{
    let t = trim(text);
    if t.unicode_len() == 0 {
        None
    } else {
        Some(t)
    }
}

/// The title of a terminal opened from the tree at `path`: the entry the path names, or
/// `/` when its last component names none.
pub open spec fn spec_terminal_title(path: Seq<u8>) -> Seq<u8> {
    let cs = components(path);
    if cs.len() > 0 && is_normal(cs.last()) {
        cs.last()
    } else {
        root_comp()
    }
}

/// The title of a terminal opened from the tree at `path`.
pub fn terminal_title(path: &[u8]) -> (r: Vec<u8>)
    ensures
        r@ == spec_terminal_title(path@),
{
    let comps = path_components(path);
    let n = comps.len();
    let mut root: Vec<u8> = Vec::new();
    root.push(SLASH);
    assert(root@ =~= root_comp());
    if n == 0 {
        return root;
    }
    let last = &comps[n - 1];
    assert(last@ == components(path@)[n - 1]);
    let special = (last.len() == 1 && (last[0] == SLASH || last[0] == crate::filetree::DOT))
        || (last.len() == 2 && last[0] == crate::filetree::DOT && last[1] == crate::filetree::DOT);
    proof {
        let c = last@;
        if c == root_comp() || c == crate::filetree::cur_comp() {
            assert(c.len() == 1);
        }
        if c == crate::filetree::parent_comp() {
            assert(c.len() == 2);
        }
        if c.len() == 1 && c[0] == SLASH {
            assert(c =~= root_comp());
        }
        if c.len() == 1 && c[0] == crate::filetree::DOT {
            assert(c =~= crate::filetree::cur_comp());
        }
        if c.len() == 2 && c[0] == crate::filetree::DOT && c[1] == crate::filetree::DOT {
            assert(c =~= crate::filetree::parent_comp());
        }
    }
    if special {
        root
    } else {
        let mut out: Vec<u8> = Vec::new();
        let mut i: usize = 0;
        while i < last.len()
            invariant
                i <= last@.len(),
                out@ == last@.take(i as int),
            decreases last.len() - i,
        {
            out.push(last[i]);
            i = i + 1;
            assert(out@ =~= last@.take(i as int));
        }
        assert(last@.take(last@.len() as int) =~= last@);
        out
    }
}

/// The width the file tree gets back when it is shown again: the width it had, or 240
/// when none was recorded.
pub fn restored_tree_width(saved: i32) -> (r: i32)
    ensures
        r == (if saved > 0 { saved } else { 240 }),
{
    if saved > 0 { saved } else { 240 }
}

/// What toggling the file tree does.
#[derive(Clone, Copy, Debug, PartialEq, Eq, Structural)]
pub enum TreeToggle {
    /// Hide the tree, keeping this width to give back later; the tree is saved as closed.
    Hide { keep_width: i32 },
    /// Show the tree at this width; the tree is saved as open.
    Show { width: i32 },
}

impl TreeToggle {
    /// Whether the tree is open afterwards (the state saved for the next start).
    pub fn opens(&self) -> (r: bool)
        ensures
            r == (*self is Show),
    {
        match self {
            TreeToggle::Hide { .. } => false,
            TreeToggle::Show { .. } => true,
        }
    }
}

/// Toggling the file tree: a shown tree is hidden and its current width (the pane
/// divider's position) kept; a hidden one is shown at the width it had (or the default).
pub open spec fn toggled(visible: bool, position: i32, kept_width: i32) -> TreeToggle {
    if visible {
        TreeToggle::Hide { keep_width: position }
    } else {
        TreeToggle::Show { width: if kept_width > 0 { kept_width } else { 240 } }
    }
}

/// What toggling the file tree does, given whether it is shown, the pane divider's
/// position and the width kept from the last time it was hidden.
pub fn toggle_file_tree(visible: bool, position: i32, kept_width: i32) -> (r: TreeToggle)
    ensures
        r == toggled(visible, position, kept_width),
{
    if visible {
        TreeToggle::Hide { keep_width: position }
    } else {
        TreeToggle::Show { width: restored_tree_width(kept_width) }
    }
}

/// Hiding the file tree and showing it again gives it back the width it had, when it had
/// one (whatever the divider's position while it was hidden).
pub proof fn lemma_tree_width_restored(position: i32, earlier_kept: i32, later_position: i32)
    requires
        position > 0,
    ensures
        toggled(true, position, earlier_kept) matches TreeToggle::Hide { keep_width } && toggled(
            false,
            later_position,
            keep_width,
        ) == (TreeToggle::Show { width: position }),
{
}

} // verus!
