//! Tab manager: the files open in the editor and the active one.
use vstd::prelude::*;
use crate::markdown::{is_markdown, is_markdown_path};
use crate::paths::{note_title, title_of};
use crate::text::{chars_of, string_from_chars};
use crate::ids::random_uuid;

verus! {

/// Unique identifier for a tab (the 128 bits of a random UUID).
pub type TabId = u128;

/// A single open tab representing one file.
#[derive(Clone, Debug)]
pub struct Tab {
    /// Unique tab identifier.
    pub id: TabId,
    /// Absolute path to the file (used for IPC save/load).
    pub file_path: String,
    /// Relative path within the vault (used for display).
    pub rel_path: String,
    /// Display title (file name, stripped of .md extension for markdown).
    pub title: String,
    /// Cached file content (synced on open, updated on edit/save).
    pub content: String,
    /// True if the tab has unsaved changes.
    pub modified: bool,
    /// True if this file is markdown (.md).
    pub is_markdown: bool,
}

pub struct TabView {
    pub id: TabId,
    pub file_path: Seq<char>,
    pub rel_path: Seq<char>,
    pub title: Seq<char>,
    pub content: Seq<char>,
    pub modified: bool,
    pub is_markdown: bool,
}

impl View for Tab {
    type V = TabView;

    open spec fn view(&self) -> TabView {
        TabView {
            id: self.id,
            file_path: self.file_path@,
            rel_path: self.rel_path@,
            title: self.title@,
            content: self.content@,
            modified: self.modified,
            is_markdown: self.is_markdown,
        }
    }
}

/// Tab manager: all open tabs, in order, and the id of the active one.
pub struct TabManager {
    /// All currently open tabs.
    pub tabs: Vec<Tab>,
    /// ID of the currently active (visible) tab, if any.
    pub active_tab_id: Option<TabId>,
}

/// The abstract state of a [`TabManager`].
pub struct TabsView {
    pub tabs: Seq<TabView>,
    pub active: Option<TabId>,
}

impl View for TabManager {
    type V = TabsView;

    open spec fn view(&self) -> TabsView {
        TabsView { tabs: self.tabs@.map_values(|t: Tab| t@), active: self.active_tab_id }
    }
}

/// The first position of a tab with this id.
pub open spec fn position_of_id(tabs: Seq<TabView>, id: TabId) -> Option<int>
    decreases tabs.len(),
{
    if tabs.len() == 0 {
        None
    } else {
        match position_of_id(tabs.drop_last(), id) {
            Some(i) => Some(i),
            None => if tabs.last().id == id {
                Some(tabs.len() - 1)
            } else {
                None
            },
        }
    }
}

/// The first position of a tab showing this file.
pub open spec fn position_of_path(tabs: Seq<TabView>, path: Seq<char>) -> Option<int>
    decreases tabs.len(),
{
    if tabs.len() == 0 {
        None
    } else {
        match position_of_path(tabs.drop_last(), path) {
            Some(i) => Some(i),
            None => if tabs.last().file_path == path {
                Some(tabs.len() - 1)
            } else {
                None
            },
        }
    }
}

pub proof fn lemma_position_of_id(tabs: Seq<TabView>, id: TabId)
    ensures
        match position_of_id(tabs, id) {
            Some(i) => 0 <= i < tabs.len() && tabs[i].id == id && forall|k: int|
                0 <= k < i ==> (#[trigger] tabs[k]).id != id,
            None => forall|k: int| 0 <= k < tabs.len() ==> (#[trigger] tabs[k]).id != id,
        },
    decreases tabs.len(),
{
    if tabs.len() > 0 {
        lemma_position_of_id(tabs.drop_last(), id);
        assert(forall|k: int| 0 <= k < tabs.len() - 1 ==> tabs.drop_last()[k] == #[trigger] tabs[k]);
    }
}

pub proof fn lemma_position_of_path(tabs: Seq<TabView>, path: Seq<char>)
    ensures
        match position_of_path(tabs, path) {
            Some(i) => 0 <= i < tabs.len() && tabs[i].file_path == path && forall|k: int|
                0 <= k < i ==> (#[trigger] tabs[k]).file_path != path,
            None => forall|k: int| 0 <= k < tabs.len() ==> (#[trigger] tabs[k]).file_path != path,
        },
    decreases tabs.len(),
{
    if tabs.len() > 0 {
        lemma_position_of_path(tabs.drop_last(), path);
        assert(forall|k: int| 0 <= k < tabs.len() - 1 ==> tabs.drop_last()[k] == #[trigger] tabs[k]);
    }
}

/// The tab a new file opens in.
pub open spec fn new_tab(id: TabId, file_path: Seq<char>, rel_path: Seq<char>, content: Seq<char>) -> TabView {
    TabView {
        id,
        file_path,
        rel_path,
        title: title_of(rel_path),
        content,
        modified: false,
        is_markdown: is_markdown_path(rel_path),
    }
}

/// The state after opening a file.
///
/// An open file is activated; its first tab with the same id takes the new
/// content unless it has unsaved changes.  Otherwise a new tab with `id` is
/// appended and activated.
pub open spec fn opened(s: TabsView, id: TabId, file_path: Seq<char>, rel_path: Seq<char>, content: Seq<
    char,
>) -> (TabsView, TabId) {
    match position_of_path(s.tabs, file_path) {
        Some(i) => {
            let existing = s.tabs[i].id;
            let j = position_of_id(s.tabs, existing)->0;
            let t = s.tabs[j];
            let tabs = if t.modified {
                s.tabs
            } else {
                s.tabs.update(j, TabView { content, ..t })
            };
            (TabsView { tabs, active: Some(existing) }, existing)
        },
        None => (
            TabsView {
                tabs: s.tabs.push(new_tab(id, file_path, rel_path, content)),
                active: Some(id),
            },
            id,
        ),
    }
}

/// The state after closing the tab with this id.
///
/// Its first tab is removed.  If it was active, its right neighbour becomes
/// active, else its left neighbour, else none.  Without such a tab nothing
/// changes.
pub open spec fn closed(s: TabsView, id: TabId) -> TabsView {
    match position_of_id(s.tabs, id) {
        None => s,
        Some(i) => {
            let was_active = s.active == Some(id);
            let next = if !was_active {
                s.active
            } else if s.tabs.len() <= 1 {
                None
            } else if i + 1 < s.tabs.len() {
                Some(s.tabs[i + 1].id)
            } else {
                Some(s.tabs[i - 1].id)
            };
            TabsView { tabs: s.tabs.remove(i), active: next }
        },
    }
}

/// The state after moving the active selection by one tab, to the right
/// (`forward`) or left, wrapping around.  An unknown active id counts as
/// the first tab; with one tab or none, or no active tab, nothing changes.
pub open spec fn cycled(s: TabsView, forward: bool) -> TabsView {
    if s.tabs.len() <= 1 || s.active is None {
        s
    } else {
        let n = s.tabs.len();
        let idx = match position_of_id(s.tabs, s.active->0) {
            Some(i) => i,
            None => 0,
        };
        let k = if forward {
            (idx + 1) % (n as int)
        } else if idx == 0 {
            n - 1
        } else {
            idx - 1
        };
        TabsView { tabs: s.tabs, active: Some(s.tabs[k].id) }
    }
}

/// The state after editing the active tab's content (`saved` false) or
/// saving it (`saved` true): its first tab takes the content and is marked
/// modified, or not modified.
pub open spec fn with_active_content(s: TabsView, content: Seq<char>, saved: bool) -> TabsView {
    match s.active {
        None => s,
        Some(id) => match position_of_id(s.tabs, id) {
            None => s,
            Some(j) => TabsView {
                tabs: s.tabs.update(j, TabView { content, modified: !saved, ..s.tabs[j] }),
                active: s.active,
            },
        },
    }
}

/// The active tab: the first tab with the active id.
pub open spec fn active_of(s: TabsView) -> Option<TabView> {
    match s.active {
        None => None,
        Some(id) => match position_of_id(s.tabs, id) {
            Some(j) => Some(s.tabs[j]),
            None => None,
        },
    }
}

fn copy_string(s: &String) -> (r: String)
    ensures
        r@ == s@,
{
    s.clone()
}

fn copy_tab(t: &Tab) -> (r: Tab)
    ensures
        r@ == t@,
{
    Tab {
        id: t.id,
        file_path: copy_string(&t.file_path),
        rel_path: copy_string(&t.rel_path),
        title: copy_string(&t.title),
        content: copy_string(&t.content),
        modified: t.modified,
        is_markdown: t.is_markdown,
    }
}

impl TabManager {
    /// Create a new empty tab manager.
    pub fn new() -> (r: Self)
        ensures
            r@.tabs == Seq::<TabView>::empty(),
            r@.active is None,
    {
        let r = TabManager { tabs: Vec::new(), active_tab_id: None };
        assert(r@.tabs =~= Seq::<TabView>::empty());
        r
    }

    fn find_id(&self, id: TabId) -> (r: Option<usize>)
        ensures
            crate::text::opt_int(r) == position_of_id(self@.tabs, id),
            r matches Some(i) ==> i < self.tabs@.len() && self@.tabs[i as int] == self.tabs@[i as int]@,
    {
        let ghost tv = self@.tabs;
        let mut i: usize = 0;
        while i < self.tabs.len()
            invariant
                i <= self.tabs@.len(),
                tv == self@.tabs,
                forall|k: int| 0 <= k < i ==> (#[trigger] tv[k]).id != id,
            decreases self.tabs.len() - i,
        {
            assert(tv[i as int] == self.tabs@[i as int]@);
            if self.tabs[i].id == id {
                proof {
                    lemma_position_of_id(tv, id);
                }
                return Some(i);
            }
            i += 1;
        }
        proof {
            lemma_position_of_id(tv, id);
        }
        None
    }

    pub(crate) fn find_path(&self, path: &str) -> (r: Option<usize>)
        ensures
            crate::text::opt_int(r) == position_of_path(self@.tabs, path@),
            r matches Some(i) ==> i < self.tabs@.len() && self@.tabs[i as int] == self.tabs@[i as int]@,
    {
        let ghost tv = self@.tabs;
        let mut i: usize = 0;
        while i < self.tabs.len()
            invariant
                i <= self.tabs@.len(),
                tv == self@.tabs,
                forall|k: int| 0 <= k < i ==> (#[trigger] tv[k]).file_path != path@,
            decreases self.tabs.len() - i,
        {
            assert(tv[i as int] == self.tabs@[i as int]@);
            if crate::wikilink::eq_chars(
                chars_of(self.tabs[i].file_path.as_str()).as_slice(),
                chars_of(path).as_slice(),
            ) {
                proof {
                    lemma_position_of_path(tv, path@);
                }
                return Some(i);
            }
            i += 1;
        }
        proof {
            lemma_position_of_path(tv, path@);
        }
        None
    }

    /// Open a file in a tab, with `id` for the tab if one has to be made.
    /// If the file is already open, switch to it (refreshing its content
    /// unless it has unsaved changes).  Returns the id of the tab.
    pub fn open_with_id(&mut self, id: TabId, file_path: &str, rel_path: &str, content: &str) -> (r:
        TabId)
        ensures
            (final(self)@, r) == opened(old(self)@, id, file_path@, rel_path@, content@),
    {
        match self.find_path(file_path) {
            Some(i) => {
                let existing = self.tabs[i].id;
                self.active_tab_id = Some(existing);
                proof {
                    lemma_position_of_id(old(self)@.tabs, existing);
                }
                match self.find_id(existing) {
                    Some(j) => {
                        if !self.tabs[j].modified {
                            let mut t = copy_tab(&self.tabs[j]);
                            t.content = string_from_chars(chars_of(content));
                            self.tabs.set(j, t);
                            assert(self@.tabs =~= old(self)@.tabs.update(
                                j as int,
                                TabView { content: content@, ..old(self)@.tabs[j as int] },
                            ));
                        }
                    },
                    None => {},
                }
                existing
            },
            None => {
                let t = Tab {
                    id,
                    file_path: string_from_chars(chars_of(file_path)),
                    rel_path: string_from_chars(chars_of(rel_path)),
                    title: string_from_chars(chars_of(note_title(rel_path))),
                    content: string_from_chars(chars_of(content)),
                    modified: false,
                    is_markdown: is_markdown(rel_path),
                };
                self.tabs.push(t);
                self.active_tab_id = Some(id);
                assert(self@.tabs =~= old(self)@.tabs.push(
                    new_tab(id, file_path@, rel_path@, content@),
                ));
                id
            },
        }
    }

    /// Open a file in a tab. If the file is already open, switch to it.
    /// Otherwise, create a new tab with a fresh random id and activate it.
    ///
    /// Returns the id of the (new or existing) tab.
    pub fn open(&mut self, file_path: &str, rel_path: &str, content: &str) -> (r: TabId)
        ensures
            exists|id: TabId|
                position_of_id(old(self)@.tabs, id) is None && (final(self)@, r) == opened(
                    old(self)@,
                    id,
                    file_path@,
                    rel_path@,
                    content@,
                ),
    {
        let drawn = random_uuid();
        let id = if self.find_id(drawn).is_none() {
            drawn
        } else {
            self.fresh_id()
        };
        self.open_with_id(id, file_path, rel_path, content)
    }

    /// The smallest id that no open tab has (one of `0..=n` for `n` tabs).
    fn fresh_id(&self) -> (r: TabId)
        ensures
            position_of_id(self@.tabs, r) is None,
    {
        let n = self.tabs.len();
        let ghost ids = self@.tabs.map_values(|t: TabView| t.id as int);
        let mut c: u128 = 0;
        while c <= n as u128
            invariant
                n == self@.tabs.len(),
                ids == self@.tabs.map_values(|t: TabView| t.id as int),
                c <= n + 1,
                forall|k: int| 0 <= k < c ==> #[trigger] ids.to_set().contains(k),
            decreases n + 1 - c,
        {
            match self.find_id(c) {
                None => {
                    return c;
                },
                Some(j) => {
                    proof {
                        lemma_position_of_id(self@.tabs, c);
                        assert(ids[j as int] == c as int);
                        assert(ids.contains(c as int));
                    }
                },
            }
            c += 1;
        }
        proof {
            vstd::set_lib::lemma_int_range(0, n + 1);
            assert(vstd::set_lib::set_int_range(0, n + 1).subset_of(ids.to_set()));
            ids.lemma_cardinality_of_set();
            vstd::seq_lib::seq_to_set_is_finite(ids);
            vstd::set_lib::lemma_len_subset(vstd::set_lib::set_int_range(0, n + 1), ids.to_set());
            assert(false);
        }
        0
    }

    /// Switch to a tab by id; unknown ids are ignored.
    pub fn activate(&mut self, id: TabId)
        ensures
            final(self)@.tabs == old(self)@.tabs,
            final(self)@.active == if position_of_id(old(self)@.tabs, id) is Some {
                Some(id)
            } else {
                old(self)@.active
            },
    {
        if self.find_id(id).is_some() {
            self.active_tab_id = Some(id);
        }
    }

    /// Close a tab by id. If it was the active tab, activate an adjacent one.
    pub fn close(&mut self, id: TabId)
        ensures
            final(self)@ == closed(old(self)@, id),
    {
        let len = self.tabs.len();
        let was_active = match self.active_tab_id {
            Some(a) => a == id,
            None => false,
        };
        match self.find_id(id) {
            Some(idx) => {
                proof {
                    lemma_position_of_id(old(self)@.tabs, id);
                }
                let next_active = if was_active {
                    if len <= 1 {
                        None
                    } else if idx + 1 < len {
                        Some(self.tabs[idx + 1].id)
                    } else {
                        Some(self.tabs[idx - 1].id)
                    }
                } else {
                    self.active_tab_id
                };
                self.tabs.remove(idx);
                assert(self@.tabs =~= old(self)@.tabs.remove(idx as int));
                if was_active {
                    self.active_tab_id = next_active;
                }
            },
            None => {},
        }
    }

    /// Close all tabs except the ones with the given id, and make it active.
    pub fn close_others(&mut self, keep_id: TabId)
        ensures
            final(self)@.tabs == old(self)@.tabs.filter(|t: TabView| t.id == keep_id),
            final(self)@.active == Some(keep_id),
    {
        let ghost tv = old(self)@.tabs;
        let mut kept: Vec<Tab> = Vec::new();
        let mut i: usize = 0;
        assert(kept@.map_values(|t: Tab| t@) =~= tv.take(0).filter(|t: TabView| t.id == keep_id));
        while i < self.tabs.len()
            invariant
                i <= self.tabs@.len(),
                tv == self@.tabs,
                kept@.map_values(|t: Tab| t@) == tv.take(i as int).filter(|t: TabView| t.id == keep_id),
            decreases self.tabs.len() - i,
        {
            let ghost before = kept@.map_values(|t: Tab| t@);
            assert(tv.take(i + 1) =~= tv.take(i as int).push(tv[i as int]));
            proof {
                tv.take(i as int).lemma_filter_push(tv[i as int], |t: TabView| t.id == keep_id);
            }
            if self.tabs[i].id == keep_id {
                kept.push(copy_tab(&self.tabs[i]));
                assert(kept@.map_values(|t: Tab| t@) =~= before.push(tv[i as int]));
            }
            i += 1;
        }
        assert(tv.take(tv.len() as int) =~= tv);
        self.tabs = kept;
        self.active_tab_id = Some(keep_id);
    }

    /// Get the currently active tab (a copy).
    pub fn active_tab(&self) -> (r: Option<Tab>)
        ensures
            match r {
                Some(t) => active_of(self@) == Some(t@),
                None => active_of(self@) is None,
            },
    {
        match self.active_tab_id {
            None => None,
            Some(id) => match self.find_id(id) {
                Some(j) => Some(copy_tab(&self.tabs[j])),
                None => None,
            },
        }
    }

    /// Get the active tab without subscribing to changes (same as
    /// [`TabManager::active_tab`] on this plain state).
    pub fn active_tab_untracked(&self) -> (r: Option<Tab>)
        ensures
            match r {
                Some(t) => active_of(self@) == Some(t@),
                None => active_of(self@) is None,
            },
    {
        self.active_tab()
    }

    fn set_active_content(&mut self, new_content: String, saved: bool)
        ensures
            final(self)@ == with_active_content(old(self)@, new_content@, saved),
    {
        match self.active_tab_id {
            None => {},
            Some(id) => match self.find_id(id) {
                Some(j) => {
                    let mut t = copy_tab(&self.tabs[j]);
                    t.content = new_content;
                    t.modified = !saved;
                    self.tabs.set(j, t);
                    assert(self@.tabs =~= old(self)@.tabs.update(
                        j as int,
                        TabView { content: new_content@, modified: !saved, ..old(self)@.tabs[j as int] },
                    ));
                },
                None => {},
            },
        }
    }

    /// Update the content of the active tab (called on each edit keystroke)
    /// and mark it modified.
    pub fn update_active_content(&mut self, new_content: String)
        ensures
            final(self)@ == with_active_content(old(self)@, new_content@, false),
    {
        self.set_active_content(new_content, false)
    }

    /// Mark the active tab as saved (not modified), with the saved content.
    pub fn mark_active_saved(&mut self, saved_content: String)
        ensures
            final(self)@ == with_active_content(old(self)@, saved_content@, true),
    {
        self.set_active_content(saved_content, true)
    }

    fn cycle(&mut self, forward: bool)
        ensures
            final(self)@ == cycled(old(self)@, forward),
    {
        let n = self.tabs.len();
        if n <= 1 {
            return;
        }
        match self.active_tab_id {
            None => {},
            Some(id) => {
                let idx = match self.find_id(id) {
                    Some(i) => {
                        proof {
                            lemma_position_of_id(self@.tabs, id);
                        }
                        i
                    },
                    None => 0,
                };
                let k = if forward {
                    (idx + 1) % n
                } else if idx == 0 {
                    n - 1
                } else {
                    idx - 1
                };
                self.active_tab_id = Some(self.tabs[k].id);
            },
        }
    }

    /// Switch to the next tab (wraps around).
    pub fn next_tab(&mut self)
        ensures
            final(self)@ == cycled(old(self)@, true),
    {
        self.cycle(true)
    }

    /// Switch to the previous tab (wraps around).
    pub fn prev_tab(&mut self)
        ensures
            final(self)@ == cycled(old(self)@, false),
    {
        self.cycle(false)
    }

    /// Derive a display title from a relative path.
    pub fn make_title(rel_path: &str) -> (r: String)
        ensures
            r@ == title_of(rel_path@),
    {
        string_from_chars(chars_of(note_title(rel_path)))
    }
}

/// The label a tab shows: its title, followed by ` •` while it has unsaved
/// changes.
pub fn tab_label(title: &str, modified: bool) -> (r: String)
    ensures
        r@ == if modified {
            title@ + " \u{2022}"@
        } else {
            title@
        },
{
    if modified {
        crate::errors::concat(title, " \u{2022}")
    } else {
        string_from_chars(chars_of(title))
    }
}

/// The first position of a path depends only on the paths of the tabs.
proof fn lemma_position_of_path_same_paths(a: Seq<TabView>, b: Seq<TabView>, path: Seq<char>)
    requires
        a.len() == b.len(),
        forall|k: int| 0 <= k < a.len() ==> (#[trigger] a[k]).file_path == b[k].file_path,
    ensures
        position_of_path(a, path) == position_of_path(b, path),
{
    lemma_position_of_path(a, path);
    lemma_position_of_path(b, path);
    if position_of_path(a, path) != position_of_path(b, path) {
        match position_of_path(a, path) {
            Some(i) => {
                assert(b[i].file_path == path);
            },
            None => {
                let j = position_of_path(b, path)->0;
                assert(a[j].file_path == path);
            },
        }
        match position_of_path(b, path) {
            Some(j) => {
                assert(a[j].file_path == path);
            },
            None => {},
        }
    }
}

/// Opening a file that is already open adds no tab: the second open gives
/// back the tab of the first and activates it.
pub proof fn law_open_same_file_twice(
    s: TabsView,
    id1: TabId,
    id2: TabId,
    file_path: Seq<char>,
    rel_path: Seq<char>,
    c1: Seq<char>,
    c2: Seq<char>,
)
    ensures
        ({
            let (s1, r1) = opened(s, id1, file_path, rel_path, c1);
            let (s2, r2) = opened(s1, id2, file_path, rel_path, c2);
            &&& s2.tabs.len() == s1.tabs.len()
            &&& r2 == r1
            &&& s2.active == Some(r1)
        }),
{
    let (s1, r1) = opened(s, id1, file_path, rel_path, c1);
    lemma_position_of_path(s.tabs, file_path);
    lemma_position_of_path(s1.tabs, file_path);
    match position_of_path(s.tabs, file_path) {
        Some(i) => {
            let existing = s.tabs[i].id;
            lemma_position_of_id(s.tabs, existing);
            lemma_position_of_path_same_paths(s.tabs, s1.tabs, file_path);
            let j = position_of_id(s.tabs, existing)->0;
            assert(s1.tabs[i].id == existing);
            lemma_position_of_id(s1.tabs, existing);
        },
        None => {
            let n = s.tabs.len() as int;
            assert(s1.tabs[n].file_path == file_path);
            assert(s1.tabs.drop_last() == s.tabs);
            assert(position_of_path(s1.tabs, file_path) == Some(n));
            lemma_position_of_id(s1.tabs, id1);
        },
    }
}

/// Closing an open tab removes exactly that tab; when ids are distinct no
/// tab with its id is left and it is not active.
pub proof fn law_close_removes_one(s: TabsView, id: TabId)
    requires
        position_of_id(s.tabs, id) is Some,
    ensures
        closed(s, id).tabs.len() == s.tabs.len() - 1,
        closed(s, id).tabs == s.tabs.remove(position_of_id(s.tabs, id)->0),
        (forall|i: int, j: int|
            0 <= i < j < s.tabs.len() ==> #[trigger] s.tabs[i].id != #[trigger] s.tabs[j].id)
            ==> position_of_id(closed(s, id).tabs, id) is None && closed(s, id).active != Some(id),
{
    lemma_position_of_id(s.tabs, id);
    let i = position_of_id(s.tabs, id)->0;
    let t = s.tabs.remove(i);
    lemma_position_of_id(t, id);
    if forall|a: int, b: int|
        0 <= a < b < s.tabs.len() ==> #[trigger] s.tabs[a].id != #[trigger] s.tabs[b].id {
        if position_of_id(t, id) is Some {
            let k = position_of_id(t, id)->0;
            if k < i {
                assert(t[k] == s.tabs[k]);
            } else {
                assert(t[k] == s.tabs[k + 1]);
            }
        }
        if s.active == Some(id) && s.tabs.len() > 1 {
            if i + 1 < s.tabs.len() {
                assert(s.tabs[i + 1].id != s.tabs[i].id);
            } else {
                assert(s.tabs[i - 1].id != s.tabs[i].id);
            }
        }
    }
}

/// With distinct tab ids and an open active tab, moving to the next tab and
/// back to the previous one returns to where it started (and the other way
/// round).
pub proof fn law_next_prev_inverse(s: TabsView)
    requires
        forall|i: int, j: int|
            0 <= i < j < s.tabs.len() ==> #[trigger] s.tabs[i].id != #[trigger] s.tabs[j].id,
        s.active is Some,
        position_of_id(s.tabs, s.active->0) is Some,
    ensures
        cycled(cycled(s, true), false) == s,
        cycled(cycled(s, false), true) == s,
{
    let n = s.tabs.len();
    if n > 1 {
        let id = s.active->0;
        lemma_position_of_id(s.tabs, id);
        let i = position_of_id(s.tabs, id)->0;
        let nx = (i + 1) % (n as int);
        let pv = if i == 0 { n - 1 } else { i - 1 };
        if i + 1 < n {
            vstd::arithmetic::div_mod::lemma_small_mod((i + 1) as nat, n as nat);
        } else {
            vstd::arithmetic::div_mod::lemma_mod_self_0(n as int);
        }
        if pv + 1 < n {
            vstd::arithmetic::div_mod::lemma_small_mod((pv + 1) as nat, n as nat);
        } else {
            vstd::arithmetic::div_mod::lemma_mod_self_0(n as int);
        }
        assert(0 <= nx < n);
        lemma_position_of_id(s.tabs, s.tabs[nx].id);
        lemma_position_of_id(s.tabs, s.tabs[pv].id);
        assert(position_of_id(s.tabs, s.tabs[nx].id) == Some(nx)) by {
            let p = position_of_id(s.tabs, s.tabs[nx].id)->0;
            if p != nx {
                assert(s.tabs[p].id == s.tabs[nx].id);
            }
        }
        assert(position_of_id(s.tabs, s.tabs[pv].id) == Some(pv)) by {
            let p = position_of_id(s.tabs, s.tabs[pv].id)->0;
            if p != pv {
                assert(s.tabs[p].id == s.tabs[pv].id);
            }
        }
        if nx == 0 {
            assert(i == n - 1);
        }
        if i == 0 {
            assert((pv + 1) % (n as int) == 0);
        } else {
            assert((pv + 1) % (n as int) == i);
        }
    }
}

/// Closing the active tab leaves a tab active whenever one is left: the tab
/// that now stands where the closed one stood (the one that followed it),
/// or, when the closed tab was the last, the new last tab.  Only when no
/// tab is left is none active.  Closing a tab that is not active keeps the
/// active tab.
pub proof fn law_close_active_moves_to_neighbour(s: TabsView, id: TabId)
    requires
        position_of_id(s.tabs, id) is Some,
    ensures
        ({
            let r = closed(s, id);
            let i = position_of_id(s.tabs, id)->0;
            &&& s.active == Some(id) && r.tabs.len() == 0 ==> r.active is None
            &&& s.active == Some(id) && r.tabs.len() > 0 ==> r.active == Some(
                r.tabs[if i < r.tabs.len() {
                    i
                } else {
                    r.tabs.len() - 1
                }].id,
            )
            &&& s.active == Some(id) && r.tabs.len() > 0 ==> exists|k: int|
                0 <= k < r.tabs.len() && r.active == Some(#[trigger] r.tabs[k].id)
            &&& s.active == Some(id) && i == 0 && s.tabs.len() >= 2 ==> r.active == Some(
                s.tabs[1].id,
            )
            &&& s.active != Some(id) ==> r.active == s.active
        }),
{
    lemma_position_of_id(s.tabs, id);
    let i = position_of_id(s.tabs, id)->0;
    let r = closed(s, id);
    assert(r.tabs == s.tabs.remove(i));
    assert(r.tabs.len() == s.tabs.len() - 1);
    if s.active == Some(id) && r.tabs.len() > 0 {
        let k = if i < r.tabs.len() {
            i
        } else {
            r.tabs.len() - 1
        };
        if i + 1 < s.tabs.len() {
            assert(r.tabs[i] == s.tabs[i + 1]);
        } else {
            assert(r.tabs[i - 1] == s.tabs[i - 1]);
        }
        assert(r.active == Some(r.tabs[k].id));
    }
}

} // verus!
