//! The window manager's state: nine workspaces of tiled windows, the
//! workspace shown, the focused window, dock windows and floating windows.
use std::collections::HashSet;
use vstd::prelude::*;

use crate::Window;

verus! {

broadcast use vstd::std_specs::hash::group_hash_axioms;

/// How many workspaces there are.
pub const WORKSPACE_COUNT: usize = 9;

/// `Some` of the first element of `s`, or `None` when `s` is empty.
pub open spec fn first_of(s: Seq<Window>) -> Option<Window> {
    if s.len() > 0 {
        Some(s[0])
    } else {
        None
    }
}

/// `s` with every occurrence of `w` left out, the rest in order.
pub open spec fn remove_all(s: Seq<Window>, w: Window) -> Seq<Window>
    decreases s.len(),
{
    if s.len() == 0 {
        s
    } else if s.last() == w {
        remove_all(s.drop_last(), w)
    } else {
        remove_all(s.drop_last(), w).push(s.last())
    }
}

/// The elements of `s` that are not in `docks`, in order.
pub open spec fn without_docks(s: Seq<Window>, docks: Seq<Window>) -> Seq<Window>
    decreases s.len(),
{
    if s.len() == 0 {
        s
    } else if docks.contains(s.last()) {
        without_docks(s.drop_last(), docks)
    } else {
        without_docks(s.drop_last(), docks).push(s.last())
    }
}

/// No element occurs twice in `s`.
pub open spec fn no_dup(s: Seq<Window>) -> bool {
    forall|a: int, b: int| 0 <= a < b < s.len() ==> s[a] != s[b]
}

/// `s` and `t` share no element.
pub open spec fn disjoint(s: Seq<Window>, t: Seq<Window>) -> bool {
    forall|x: Window| s.contains(x) ==> !t.contains(x)
}

/// The position of `w` in `s` (meaningful when `w` occurs in `s`).
pub open spec fn index_in(s: Seq<Window>, w: Window) -> int {
    choose|k: int| 0 <= k < s.len() && s[k] == w
}

/// The abstract state of the window manager.
#[verifier::ext_equal]
pub struct WMModel {
    /// The tiled windows of each workspace, master first.
    pub workspaces: Seq<Seq<Window>>,
    /// The workspace shown.
    pub current: nat,
    /// The window that has the input focus, if any.
    pub focused: Option<Window>,
    /// Dock windows (panels), never tiled.
    pub docks: Seq<Window>,
    /// Windows that float above the tiling.
    pub floating: Set<Window>,
}

impl WMModel {
    /// The tiled windows of the workspace shown.
    pub open spec fn windows(self) -> Seq<Window> {
        self.workspaces[self.current as int]
    }

    /// `w` is tiled on some workspace.
    pub open spec fn contains(self, w: Window) -> bool {
        exists|i: int| 0 <= i < WORKSPACE_COUNT && #[trigger] self.workspaces[i].contains(w)
    }

    /// `w` is tiled somewhere or floats.
    pub open spec fn tracks(self, w: Window) -> bool {
        self.contains(w) || self.floating.contains(w)
    }

    /// The state's invariant: nine workspaces, one of them shown, no tiled
    /// window twice, no dock twice, and focus only on a tracked window.
    pub open spec fn well_formed(self) -> bool {
        &&& self.workspaces.len() == WORKSPACE_COUNT
        &&& self.current < WORKSPACE_COUNT
        &&& forall|i: int| 0 <= i < WORKSPACE_COUNT ==> no_dup(#[trigger] self.workspaces[i])
        &&& forall|i: int, j: int|
            0 <= i < WORKSPACE_COUNT && 0 <= j < WORKSPACE_COUNT && i != j ==> disjoint(
                #[trigger] self.workspaces[i],
                #[trigger] self.workspaces[j],
            )
        &&& no_dup(self.docks)
        &&& (self.focused matches Some(f) ==> self.tracks(f))
    }

    /// No dock is tiled.
    pub open spec fn docks_untiled(self) -> bool {
        forall|w: Window| self.docks.contains(w) ==> !self.contains(w)
    }

    /// The focused window when it is on the workspace shown, else that
    /// workspace's first window.
    pub open spec fn focused_or_first(self) -> Option<Window> {
        if self.focused matches Some(f) && self.windows().contains(f) {
            self.focused
        } else {
            first_of(self.windows())
        }
    }

    /// The state after tiling `w` on the workspace shown, which leaves a
    /// window that is already tiled or is a dock alone.
    pub open spec fn add(self, w: Window) -> WMModel {
        if self.contains(w) || self.docks.contains(w) {
            self
        } else {
            WMModel {
                workspaces: self.workspaces.update(self.current as int, self.windows().push(w)),
                ..self
            }
        }
    }

    /// The state after marking `w` floating.
    pub open spec fn add_floating(self, w: Window) -> WMModel {
        WMModel { floating: self.floating.insert(w), ..self }
    }

    /// The state after forgetting `w` everywhere but among the docks; focus
    /// on `w` moves to the first window of the workspace shown.
    pub open spec fn remove(self, w: Window) -> WMModel {
        let ws = Seq::new(self.workspaces.len(), |i: int| remove_all(self.workspaces[i], w));
        WMModel {
            workspaces: ws,
            floating: self.floating.remove(w),
            focused: if self.focused == Some(w) {
                first_of(ws[self.current as int])
            } else {
                self.focused
            },
            ..self
        }
    }

    /// The state after recording `w` as a dock (once).
    pub open spec fn add_dock(self, w: Window) -> WMModel {
        if self.docks.contains(w) {
            self
        } else {
            WMModel { docks: self.docks.push(w), ..self }
        }
    }

    /// The state after forgetting the dock `w`.
    pub open spec fn remove_dock(self, w: Window) -> WMModel {
        WMModel { docks: remove_all(self.docks, w), ..self }
    }

    /// Whether showing workspace `idx` changes anything.
    pub open spec fn switch_applies(self, idx: int) -> bool {
        0 <= idx < WORKSPACE_COUNT && idx != self.current
    }

    /// The state after showing workspace `idx`: focus goes to its first window.
    pub open spec fn switch_to(self, idx: int) -> WMModel {
        if self.switch_applies(idx) {
            WMModel {
                current: idx as nat,
                focused: first_of(self.workspaces[idx]),
                ..self
            }
        } else {
            self
        }
    }

    /// The state once workspace `idx` is the one shown (its predecessor's
    /// windows hidden), focus not yet moved.
    pub open spec fn show(self, idx: int) -> WMModel {
        if self.switch_applies(idx) {
            WMModel { current: idx as nat, ..self }
        } else {
            self
        }
    }

    /// The state after focusing the first window of the workspace shown
    /// (no focus when it is empty).
    pub open spec fn focus_first(self) -> WMModel {
        WMModel { focused: first_of(self.windows()), ..self }
    }

    /// Whether sending the focused window to workspace `idx` changes anything.
    pub open spec fn move_applies(self, idx: int) -> bool {
        self.switch_applies(idx) && self.focused_or_first() is Some
    }

    /// The state after sending the focused (or first) window of the
    /// workspace shown to the end of workspace `idx`; focus goes to the
    /// first window left on the workspace shown.
    pub open spec fn move_to(self, idx: int) -> WMModel {
        if self.move_applies(idx) {
            let w = self.focused_or_first()->0;
            let rest = remove_all(self.windows(), w);
            WMModel {
                workspaces: self.workspaces.update(self.current as int, rest).update(
                    idx,
                    self.workspaces[idx].push(w),
                ),
                focused: first_of(rest),
                ..self
            }
        } else {
            self
        }
    }

    /// The state after sending the focused (or first) window of the
    /// workspace shown to the end of workspace `idx`, focus not yet moved.
    pub open spec fn move_window(self, idx: int) -> WMModel {
        if self.move_applies(idx) {
            let w = self.focused_or_first()->0;
            WMModel {
                workspaces: self.workspaces.update(
                    self.current as int,
                    remove_all(self.windows(), w),
                ).update(idx, self.workspaces[idx].push(w)),
                ..self
            }
        } else {
            self
        }
    }

    /// The position on the workspace shown that focus starts from when it
    /// moves: that of the focused window, or 0.
    pub open spec fn focus_position(self) -> int {
        match self.focused {
            Some(f) => if self.windows().contains(f) {
                index_in(self.windows(), f)
            } else {
                0
            },
            None => 0,
        }
    }

    /// The window `dir` places after the focus position, cyclically.
    pub open spec fn shifted(self, dir: int) -> Window {
        self.windows()[(self.focus_position() + dir) % (self.windows().len() as int)]
    }

    /// The state after moving focus by `dir` places among the windows of
    /// the workspace shown (nothing changes when there are none).
    pub open spec fn shift_focus(self, dir: int) -> WMModel {
        if self.windows().len() > 0 {
            WMModel { focused: Some(self.shifted(dir)), ..self }
        } else {
            self
        }
    }

    /// The state after exchanging the first two windows of the workspace
    /// shown, when it holds at least two.
    pub open spec fn swap_master(self) -> WMModel {
        if self.windows().len() >= 2 {
            WMModel {
                workspaces: self.workspaces.update(
                    self.current as int,
                    self.windows().update(0, self.windows()[1]).update(1, self.windows()[0]),
                ),
                ..self
            }
        } else {
            self
        }
    }

    /// The state after focusing the tracked window `w`.
    pub open spec fn focus(self, w: Window) -> WMModel {
        WMModel { focused: Some(w), ..self }
    }
}

/// What showing another workspace asks of the display: windows to hide,
/// windows to show, and the desktop number to announce.
#[derive(Debug, Clone, PartialEq, Eq)]
pub struct WorkspaceSwitch {
    /// The non-dock windows of the workspace left, in order.
    pub unmap: Vec<Window>,
    /// The non-dock windows of the workspace shown now, in order.
    pub map: Vec<Window>,
    /// The workspace to show.
    pub workspace: usize,
    /// Its desktop number, to announce.
    pub desktop: u32,
}

/// The window manager's state.
pub struct WMState {
    workspaces: [Vec<Window>; WORKSPACE_COUNT],
    current: usize,
    focused: Option<Window>,
    docks: Vec<Window>,
    floating: HashSet<Window>,
}

impl View for WMState {
    type V = WMModel;

    closed spec fn view(&self) -> WMModel {
        WMModel {
            workspaces: Seq::new(WORKSPACE_COUNT as nat, |i: int| self.workspaces@[i]@),
            current: self.current as nat,
            focused: self.focused,
            docks: self.docks@,
            floating: self.floating@,
        }
    }
}

proof fn lemma_remove_all(s: Seq<Window>, w: Window)
    ensures
        forall|x: Window| remove_all(s, w).contains(x) <==> (s.contains(x) && x != w),
        no_dup(s) ==> no_dup(remove_all(s, w)),
        !s.contains(w) ==> remove_all(s, w) == s,
        remove_all(s, w).len() <= s.len(),
    decreases s.len(),
{
    if s.len() > 0 {
        let t = s.drop_last();
        lemma_remove_all(t, w);
        let r = remove_all(t, w);
        assert(remove_all(s, w) == if s.last() == w { r } else { r.push(s.last()) });
        assert forall|x: Window| t.contains(x) implies s.contains(x) by {
            let j = choose|j: int| 0 <= j < t.len() && t[j] == x;
            assert(s[j] == x);
        }
        assert forall|x: Window| remove_all(s, w).contains(x) <==> (s.contains(x) && x != w) by {
            let q = remove_all(s, w);
            if q.contains(x) {
                let k = choose|k: int| 0 <= k < q.len() && q[k] == x;
                if s.last() != w && k == r.len() {
                    assert(q[k] == s.last());
                    assert(s[s.len() - 1] == x);
                } else {
                    assert(r[k] == x);
                    assert(r.contains(x));
                    assert(t.contains(x) && x != w);
                }
            }
            if s.contains(x) && x != w {
                let k = choose|k: int| 0 <= k < s.len() && s[k] == x;
                if k < s.len() - 1 {
                    assert(t[k] == x);
                    assert(t.contains(x));
                    assert(r.contains(x));
                    let j = choose|j: int| 0 <= j < r.len() && r[j] == x;
                    assert(q[j] == x);
                } else {
                    assert(q[r.len() as int] == x);
                }
            }
        }
        if no_dup(s) {
            assert(no_dup(t)) by {
                assert forall|a: int, b: int| 0 <= a < b < t.len() implies t[a] != t[b] by {
                    assert(s[a] == t[a] && s[b] == t[b]);
                }
            }
            if s.last() != w {
                assert(!t.contains(s.last())) by {
                    if t.contains(s.last()) {
                        let j = choose|j: int| 0 <= j < t.len() && t[j] == s.last();
                        assert(s[j] == s[s.len() - 1]);
                    }
                }
                assert(!r.contains(s.last()));
                let q = r.push(s.last());
                assert forall|a: int, b: int| 0 <= a < b < q.len() implies q[a] != q[b] by {
                    if b == r.len() {
                        assert(q[a] == r[a]);
                        assert(r.contains(r[a]));
                    } else {
                        assert(q[a] == r[a] && q[b] == r[b]);
                    }
                }
            }
        }
        if !s.contains(w) {
            assert(!t.contains(w)) by {
                if t.contains(w) {
                    let j = choose|j: int| 0 <= j < t.len() && t[j] == w;
                    assert(s[j] == w);
                }
            }
            assert(s.last() != w) by {
                assert(s[s.len() - 1] == s.last());
            }
            assert(r.push(s.last()) =~= s);
        }
    }
}

proof fn lemma_without_docks(s: Seq<Window>, docks: Seq<Window>)
    ensures
        forall|x: Window| without_docks(s, docks).contains(x) ==> s.contains(x),
    decreases s.len(),
{
    if s.len() > 0 {
        let t = s.drop_last();
        lemma_without_docks(t, docks);
        assert(without_docks(s, docks) == if docks.contains(s.last()) {
            without_docks(t, docks)
        } else {
            without_docks(t, docks).push(s.last())
        });
        assert forall|x: Window| t.contains(x) implies s.contains(x) by {
            let j = choose|j: int| 0 <= j < t.len() && t[j] == x;
            assert(s[j] == x);
        }
        assert forall|x: Window| without_docks(s, docks).contains(x) implies s.contains(x) by {
            let r = without_docks(s.drop_last(), docks);
            let k = choose|k: int| 0 <= k < without_docks(s, docks).len() && without_docks(s, docks)[k] == x;
            if !docks.contains(s.last()) && k == r.len() {
                assert(s[s.len() - 1] == x);
            } else {
                assert(r[k] == x);
                assert(r.contains(x));
                assert(t.contains(x));
            }
        }
    }
}

/// Whether `w` occurs in `s`.
pub fn slice_contains(s: &[Window], w: Window) -> (r: bool)
    ensures
        r == s@.contains(w),
{
    let mut i: usize = 0;
    while i < s.len()
        invariant
            i <= s.len(),
            forall|k: int| 0 <= k < i ==> s@[k] != w,
        decreases s.len() - i,
    {
        if s[i] == w {
            proof {
                assert(s@[i as int] == w);
            }
            return true;
        }
        i = i + 1;
    }
    false
}

fn position_of(s: &[Window], w: Window) -> (r: Option<usize>)
    ensures
        match r {
            Some(k) => k < s@.len() && s@[k as int] == w && forall|j: int| 0 <= j < k ==> s@[j] != w,
            None => !s@.contains(w),
        },
{
    let mut i: usize = 0;
    while i < s.len()
        invariant
            i <= s.len(),
            forall|k: int| 0 <= k < i ==> s@[k] != w,
        decreases s.len() - i,
    {
        if s[i] == w {
            return Some(i);
        }
        i = i + 1;
    }
    None
}

fn vec_remove_all(s: &Vec<Window>, w: Window) -> (r: Vec<Window>)
    ensures
        r@ == remove_all(s@, w),
{
    let mut r: Vec<Window> = Vec::new();
    let mut i: usize = 0;
    proof {
        assert(s@.take(0) =~= Seq::<Window>::empty());
    }
    while i < s.len()
        invariant
            i <= s.len(),
            r@ == remove_all(s@.take(i as int), w),
        decreases s.len() - i,
    {
        proof {
            assert(s@.take(i + 1).drop_last() =~= s@.take(i as int));
            assert(s@.take(i + 1).last() == s@[i as int]);
        }
        if s[i] != w {
            r.push(s[i]);
        }
        i = i + 1;
    }
    proof {
        assert(s@.take(i as int) =~= s@);
    }
    r
}

fn vec_without_docks(s: &Vec<Window>, docks: &Vec<Window>) -> (r: Vec<Window>)
    ensures
        r@ == without_docks(s@, docks@),
{
    let mut r: Vec<Window> = Vec::new();
    let mut i: usize = 0;
    proof {
        assert(s@.take(0) =~= Seq::<Window>::empty());
    }
    while i < s.len()
        invariant
            i <= s.len(),
            r@ == without_docks(s@.take(i as int), docks@),
        decreases s.len() - i,
    {
        proof {
            assert(s@.take(i + 1).drop_last() =~= s@.take(i as int));
            assert(s@.take(i + 1).last() == s@[i as int]);
        }
        if !slice_contains(docks.as_slice(), s[i]) {
            r.push(s[i]);
        }
        i = i + 1;
    }
    proof {
        assert(s@.take(i as int) =~= s@);
    }
    r
}

fn first_window(s: &[Window]) -> (r: Option<Window>)
    ensures
        r == first_of(s@),
{
    if s.len() > 0 {
        Some(s[0])
    } else {
        None
    }
}

impl Default for WMState {
    fn default() -> (r: Self)
        ensures
            r@.well_formed(),
            r@.workspaces == Seq::new(WORKSPACE_COUNT as nat, |i: int| Seq::<Window>::empty()),
            r@.current == 0,
            r@.focused is None,
            r@.docks == Seq::<Window>::empty(),
            r@.floating == Set::<Window>::empty(),
    {
        WMState::new()
    }
}

impl WMState {
    /// An empty state: nine empty workspaces, the first one shown, no focus,
    /// no docks, nothing floating.
    pub fn new() -> (r: Self)
        ensures
            r@.well_formed(),
            r@.workspaces == Seq::new(WORKSPACE_COUNT as nat, |i: int| Seq::<Window>::empty()),
            r@.current == 0,
            r@.focused is None,
            r@.docks == Seq::<Window>::empty(),
            r@.floating == Set::<Window>::empty(),
    {
        let r = WMState {
            workspaces: [
                Vec::new(),
                Vec::new(),
                Vec::new(),
                Vec::new(),
                Vec::new(),
                Vec::new(),
                Vec::new(),
                Vec::new(),
                Vec::new(),
            ],
            current: 0,
            focused: None,
            docks: Vec::new(),
            floating: HashSet::new(),
        };
        proof {
            assert(r@.workspaces =~= Seq::new(WORKSPACE_COUNT as nat, |i: int| Seq::<Window>::empty()));
        }
        r
    }

    /// The index of the workspace shown.
    pub fn current(&self) -> (r: usize)
        ensures
            r == self@.current,
    {
        self.current
    }

    /// The focused window, if any.
    pub fn focused(&self) -> (r: Option<Window>)
        ensures
            r == self@.focused,
    {
        self.focused
    }

    /// The dock windows.
    pub fn docks(&self) -> (r: &[Window])
        ensures
            r@ == self@.docks,
    {
        self.docks.as_slice()
    }

    /// The tiled windows of workspace `idx`.
    pub fn workspace(&self, idx: usize) -> (r: &[Window])
        requires
            idx < WORKSPACE_COUNT,
        ensures
            r@ == self@.workspaces[idx as int],
    {
        self.workspaces[idx].as_slice()
    }

    /// The tiled windows of the workspace shown, master first.
    pub fn windows(&self) -> (r: &[Window])
        requires
            self@.well_formed(),
        ensures
            r@ == self@.windows(),
    {
        self.workspaces[self.current].as_slice()
    }

    /// Whether `win` is tiled on some workspace.
    pub fn contains(&self, win: Window) -> (r: bool)
        ensures
            r == self@.contains(win),
    {
        let mut i: usize = 0;
        while i < WORKSPACE_COUNT
            invariant
                i <= WORKSPACE_COUNT,
                forall|k: int| 0 <= k < i ==> !(#[trigger] self@.workspaces[k]).contains(win),
            decreases WORKSPACE_COUNT - i,
        {
            if slice_contains(self.workspaces[i].as_slice(), win) {
                proof {
                    assert(self@.workspaces[i as int].contains(win));
                }
                return true;
            }
            i = i + 1;
        }
        false
    }

    /// Whether `win` is a dock.
    pub fn is_dock(&self, win: Window) -> (r: bool)
        ensures
            r == self@.docks.contains(win),
    {
        slice_contains(self.docks.as_slice(), win)
    }

    /// Whether `win` floats.
    pub fn is_floating(&self, win: Window) -> (r: bool)
        ensures
            r == self@.floating.contains(win),
    {
        self.floating.contains(&win)
    }

    /// Tiles `win` at the end of the workspace shown, unless it is already
    /// tiled somewhere or is a dock.
    pub fn add(&mut self, win: Window)
        requires
            old(self)@.well_formed(),
        ensures
            final(self)@ == old(self)@.add(win),
            final(self)@.well_formed(),
    {
        if self.contains(win) || self.is_dock(win) {
            return;
        }
        let ghost m = self@;
        let c = self.current;
        self.workspaces[c].push(win);
        proof {
            assert(self@.workspaces =~= m.add(win).workspaces);
            lemma_add_keeps_invariant(m, win);
        }
    }

    /// The tiled windows of the workspace shown, for the caller to change;
    /// the caller's changes become that workspace's windows.
    pub fn windows_mut(&mut self) -> (r: &mut Vec<Window>)
        requires
            old(self)@.well_formed(),
        ensures
            r@ == old(self)@.windows(),
            final(self)@.workspaces =~= old(self)@.workspaces.update(old(self)@.current as int, final(r)@),
            final(self)@.current == old(self)@.current,
            final(self)@.focused == old(self)@.focused,
            final(self)@.docks == old(self)@.docks,
            final(self)@.floating == old(self)@.floating,
    {
        let c = self.current;
        &mut self.workspaces[c]
    }

    /// Marks `win` floating.
    pub fn add_floating(&mut self, win: Window)
        requires
            old(self)@.well_formed(),
        ensures
            final(self)@ == old(self)@.add_floating(win),
            final(self)@.well_formed(),
    {
        let ghost m = self@;
        self.floating.insert(win);
        proof {
            let n = self@;
            assert(n.workspaces == m.workspaces);
            assert(n.current == m.current);
            assert(n.docks == m.docks);
            assert(n.focused == m.focused);
            assert(n.floating == m.floating.insert(win));
            if let Some(f) = n.focused {
                assert(m.tracks(f));
                assert(n.tracks(f));
            }
        }
    }

    /// Records `win` as a dock, once.
    pub fn add_dock(&mut self, win: Window)
        requires
            old(self)@.well_formed(),
        ensures
            final(self)@ == old(self)@.add_dock(win),
            final(self)@.well_formed(),
    {
        if !self.is_dock(win) {
            let ghost d = self.docks@;
            self.docks.push(win);
            proof {
                assert forall|a: int, b: int| 0 <= a < b < self.docks@.len() implies self.docks@[a]
                    != self.docks@[b] by {
                    if b == d.len() {
                        assert(d.contains(self.docks@[a]));
                    }
                }
            }
        }
    }

    /// Forgets the dock `win`.
    pub fn remove_dock(&mut self, win: Window)
        requires
            old(self)@.well_formed(),
        ensures
            final(self)@ == old(self)@.remove_dock(win),
            final(self)@.well_formed(),
    {
        let ghost m = self@;
        proof {
            lemma_remove_all(self.docks@, win);
        }
        self.docks = vec_remove_all(&self.docks, win);
        proof {
            let n = self@;
            assert(n.workspaces == m.workspaces);
            if let Some(f) = n.focused {
                assert(m.tracks(f));
                assert(n.tracks(f));
            }
        }
    }
}


/// `w` tiled on workspace `i` is tiled.
proof fn lemma_contains_at(m: WMModel, i: int, w: Window)
    requires
        0 <= i < WORKSPACE_COUNT,
        m.workspaces[i].contains(w),
    ensures
        m.contains(w),
{
}

/// The first window of a sequence is one of its elements.
proof fn lemma_first_of(s: Seq<Window>)
    ensures
        first_of(s) matches Some(f) ==> s.contains(f),
{
    if s.len() > 0 {
        assert(s[0] == s[0]);
    }
}

/// Tiling a window keeps the invariant.
pub proof fn lemma_add_keeps_invariant(m: WMModel, w: Window)
    requires
        m.well_formed(),
    ensures
        m.add(w).well_formed(),
{
    if !(m.contains(w) || m.docks.contains(w)) {
        let n = m.add(w);
        let c = m.current as int;
        let ws = n.workspaces;
        assert forall|i: int| 0 <= i < WORKSPACE_COUNT implies no_dup(#[trigger] ws[i]) by {
            if i == c {
                assert(!m.windows().contains(w)) by {
                    if m.windows().contains(w) {
                        lemma_contains_at(m, c, w);
                    }
                }
                assert forall|a: int, b: int| 0 <= a < b < ws[i].len() implies ws[i][a] != ws[i][b] by {
                    if b == m.windows().len() {
                        assert(m.windows()[a] == ws[i][a]);
                        assert(m.windows().contains(ws[i][a]));
                    } else {
                        assert(no_dup(m.workspaces[i]));
                    }
                }
            }
        }
        assert forall|i: int, j: int|
            0 <= i < WORKSPACE_COUNT && 0 <= j < WORKSPACE_COUNT && i != j implies disjoint(
            #[trigger] ws[i],
            #[trigger] ws[j],
        ) by {
            assert forall|x: Window| ws[i].contains(x) implies !ws[j].contains(x) by {
                assert(disjoint(m.workspaces[i], m.workspaces[j]));
                if i == c {
                    let k = choose|k: int| 0 <= k < ws[i].len() && ws[i][k] == x;
                    if k < m.workspaces[i].len() {
                        assert(m.workspaces[i][k] == x);
                        assert(m.workspaces[i].contains(x));
                    } else {
                        assert(x == w);
                        if m.workspaces[j].contains(w) {
                            lemma_contains_at(m, j, w);
                        }
                    }
                } else if j == c {
                    if ws[j].contains(x) {
                        let k = choose|k: int| 0 <= k < ws[j].len() && ws[j][k] == x;
                        if k < m.workspaces[j].len() {
                            assert(m.workspaces[j][k] == x);
                            assert(m.workspaces[j].contains(x));
                        } else {
                            assert(x == w);
                            lemma_contains_at(m, i, w);
                        }
                    }
                }
            }
        }
        if let Some(f) = n.focused {
            assert(m.tracks(f));
            if m.contains(f) {
                let i = choose|i: int| 0 <= i < WORKSPACE_COUNT && #[trigger] m.workspaces[i].contains(f);
                let k = choose|k: int| 0 <= k < m.workspaces[i].len() && m.workspaces[i][k] == f;
                assert(ws[i][k] == f);
                lemma_contains_at(n, i, f);
            }
        }
    }
}

/// Forgetting a window keeps the invariant.
pub proof fn lemma_remove_keeps_invariant(m: WMModel, w: Window)
    requires
        m.well_formed(),
    ensures
        m.remove(w).well_formed(),
{
    let n = m.remove(w);
    let ws = n.workspaces;
    assert forall|i: int| 0 <= i < WORKSPACE_COUNT implies no_dup(#[trigger] ws[i]) by {
        lemma_remove_all(m.workspaces[i], w);
    }
    assert forall|i: int, j: int|
        0 <= i < WORKSPACE_COUNT && 0 <= j < WORKSPACE_COUNT && i != j implies disjoint(
        #[trigger] ws[i],
        #[trigger] ws[j],
    ) by {
        lemma_remove_all(m.workspaces[i], w);
        lemma_remove_all(m.workspaces[j], w);
        assert(disjoint(m.workspaces[i], m.workspaces[j]));
    }
    if let Some(f) = n.focused {
        if m.focused == Some(w) {
            lemma_first_of(ws[m.current as int]);
            lemma_contains_at(n, m.current as int, f);
        } else {
            assert(m.tracks(f));
            if m.contains(f) {
                let i = choose|i: int| 0 <= i < WORKSPACE_COUNT && #[trigger] m.workspaces[i].contains(f);
                lemma_remove_all(m.workspaces[i], w);
                lemma_contains_at(n, i, f);
            }
        }
    }
}

/// Showing another workspace keeps the invariant.
pub proof fn lemma_switch_keeps_invariant(m: WMModel, idx: int)
    requires
        m.well_formed(),
    ensures
        m.switch_to(idx).well_formed(),
{
    if m.switch_applies(idx) {
        let n = m.switch_to(idx);
        lemma_first_of(m.workspaces[idx]);
        if let Some(f) = n.focused {
            lemma_contains_at(n, idx, f);
        }
    }
}

/// Sending the focused window to another workspace keeps the invariant,
/// before focus moves as well as after.
pub proof fn lemma_move_keeps_invariant(m: WMModel, idx: int)
    requires
        m.well_formed(),
    ensures
        m.move_window(idx).well_formed(),
{
    if m.move_applies(idx) {
        let c = m.current as int;
        let w = m.focused_or_first()->0;
        lemma_first_of(m.windows());
        assert(m.windows().contains(w));
        let rest = remove_all(m.windows(), w);
        lemma_remove_all(m.windows(), w);
        let n = m.move_window(idx);
        let ws = n.workspaces;
        assert(ws[c] == rest);
        assert(ws[idx] == m.workspaces[idx].push(w));
        assert(!m.workspaces[idx].contains(w)) by {
            assert(disjoint(m.workspaces[c], m.workspaces[idx]));
        }
        assert forall|i: int| 0 <= i < WORKSPACE_COUNT && i != c && i != idx implies ws[i] == m.workspaces[i] by {
        }
        assert forall|x: Window| #[trigger] ws[idx].contains(x) implies (m.workspaces[idx].contains(x) || x == w) by {
            let k = choose|k: int| 0 <= k < ws[idx].len() && ws[idx][k] == x;
            if k < m.workspaces[idx].len() {
                assert(m.workspaces[idx][k] == x);
            }
        }
        assert forall|i: int| 0 <= i < WORKSPACE_COUNT implies no_dup(#[trigger] ws[i]) by {
            if i == idx {
                assert(no_dup(m.workspaces[idx]));
                assert forall|a: int, b: int| 0 <= a < b < ws[i].len() implies ws[i][a] != ws[i][b] by {
                    if b == m.workspaces[idx].len() {
                        assert(m.workspaces[idx][a] == ws[i][a]);
                        assert(m.workspaces[idx].contains(ws[i][a]));
                    }
                }
            }
        }
        assert forall|i: int, j: int|
            0 <= i < WORKSPACE_COUNT && 0 <= j < WORKSPACE_COUNT && i != j implies disjoint(
            #[trigger] ws[i],
            #[trigger] ws[j],
        ) by {
            assert forall|x: Window| ws[i].contains(x) implies !ws[j].contains(x) by {
                assert(disjoint(m.workspaces[i], m.workspaces[j]));
                let xi = m.workspaces[i].contains(x) || (i == idx && x == w);
                assert(xi);
                if ws[j].contains(x) {
                    assert(m.workspaces[j].contains(x) || (j == idx && x == w));
                    if x == w {
                        if i == idx {
                            // w sits on the shown workspace, which no other workspace shares
                            assert(j != idx);
                            if j == c {
                                assert(!rest.contains(w));
                            } else {
                                assert(disjoint(m.workspaces[c], m.workspaces[j]));
                            }
                        } else if j == idx {
                            if i == c {
                                assert(!rest.contains(w));
                            } else {
                                assert(disjoint(m.workspaces[c], m.workspaces[i]));
                            }
                        } else {
                            if i == c {
                                assert(!rest.contains(w));
                            } else {
                                assert(disjoint(m.workspaces[c], m.workspaces[i]));
                            }
                        }
                    }
                }
            }
        }
        if let Some(f) = n.focused {
            assert(m.tracks(f));
            if m.contains(f) {
                let i = choose|i: int| 0 <= i < WORKSPACE_COUNT && #[trigger] m.workspaces[i].contains(f);
                if f == w {
                    assert(ws[idx][m.workspaces[idx].len() as int] == w);
                    lemma_contains_at(n, idx, f);
                } else if i == c {
                    lemma_contains_at(n, c, f);
                } else if i == idx {
                    let k = choose|k: int| 0 <= k < m.workspaces[i].len() && m.workspaces[i][k] == f;
                    assert(ws[idx][k] == f);
                    lemma_contains_at(n, idx, f);
                } else {
                    lemma_contains_at(n, i, f);
                }
            }
        }
    }
}

/// Showing a workspace, before focus moves, keeps the invariant.
pub proof fn lemma_show_keeps_invariant(m: WMModel, idx: int)
    requires
        m.well_formed(),
    ensures
        m.show(idx).well_formed(),
{
    if let Some(f) = m.show(idx).focused {
        assert(m.tracks(f));
        if m.contains(f) {
            let i = choose|i: int| 0 <= i < WORKSPACE_COUNT && #[trigger] m.workspaces[i].contains(f);
            lemma_contains_at(m.show(idx), i, f);
        }
    }
}

/// Focusing the first window of the workspace shown keeps the invariant.
pub proof fn lemma_focus_first_keeps_invariant(m: WMModel)
    requires
        m.well_formed(),
    ensures
        m.focus_first().well_formed(),
{
    lemma_first_of(m.windows());
    if let Some(f) = m.focus_first().focused {
        lemma_contains_at(m.focus_first(), m.current as int, f);
    }
}

/// A switch is its two steps: showing the workspace, then focusing its
/// first window.
pub proof fn law_switch_in_steps(m: WMModel, idx: int)
    requires
        m.switch_applies(idx),
    ensures
        m.show(idx).focus_first() == m.switch_to(idx),
{
    assert(m.show(idx).focus_first() =~= m.switch_to(idx));
}

/// A move is its two steps: moving the window, then focusing the first
/// window left on the workspace shown.
pub proof fn law_move_in_steps(m: WMModel, idx: int)
    requires
        m.well_formed(),
        m.move_applies(idx),
    ensures
        m.move_window(idx).focus_first() == m.move_to(idx),
{
    let n = m.move_window(idx);
    assert(n.workspaces[m.current as int] == remove_all(m.windows(), m.focused_or_first()->0));
    assert(n.focus_first() =~= m.move_to(idx));
}

/// Moving focus keeps the invariant.
pub proof fn lemma_shift_keeps_invariant(m: WMModel, dir: int)
    requires
        m.well_formed(),
    ensures
        m.shift_focus(dir).well_formed(),
{
    if m.windows().len() > 0 {
        let len = m.windows().len() as int;
        let k = (m.focus_position() + dir) % len;
        assert(0 <= k < len) by (nonlinear_arith)
            requires
                len > 0,
                k == (m.focus_position() + dir) % len,
        ;
        assert(m.windows()[k] == m.shifted(dir));
        lemma_contains_at(m, m.current as int, m.shifted(dir));
    }
}

/// Exchanging the first two windows keeps the invariant.
pub proof fn lemma_swap_keeps_invariant(m: WMModel)
    requires
        m.well_formed(),
    ensures
        m.swap_master().well_formed(),
{
    if m.windows().len() >= 2 {
        let c = m.current as int;
        let s = m.windows();
        let t = s.update(0, s[1]).update(1, s[0]);
        let n = m.swap_master();
        let ws = n.workspaces;
        assert forall|x: Window| t.contains(x) <==> s.contains(x) by {
            if t.contains(x) {
                let k = choose|k: int| 0 <= k < t.len() && t[k] == x;
                if k == 0 {
                    assert(s[1] == x);
                } else if k == 1 {
                    assert(s[0] == x);
                } else {
                    assert(s[k] == x);
                }
            }
            if s.contains(x) {
                let k = choose|k: int| 0 <= k < s.len() && s[k] == x;
                if k == 0 {
                    assert(t[1] == x);
                } else if k == 1 {
                    assert(t[0] == x);
                } else {
                    assert(t[k] == x);
                }
            }
        }
        assert(no_dup(t)) by {
            assert(no_dup(s));
            assert forall|a: int, b: int| 0 <= a < b < t.len() implies t[a] != t[b] by {
                let a2 = if a == 0 { 1 } else if a == 1 { 0 } else { a };
                let b2 = if b == 0 { 1 } else if b == 1 { 0 } else { b };
                assert(t[a] == s[a2] && t[b] == s[b2]);
            }
        }
        assert(ws[c] == t);
        assert forall|i: int, j: int|
            0 <= i < WORKSPACE_COUNT && 0 <= j < WORKSPACE_COUNT && i != j implies disjoint(
            #[trigger] ws[i],
            #[trigger] ws[j],
        ) by {
            assert(disjoint(m.workspaces[i], m.workspaces[j]));
        }
        if let Some(f) = n.focused {
            assert(m.tracks(f));
            if m.contains(f) {
                let i = choose|i: int| 0 <= i < WORKSPACE_COUNT && #[trigger] m.workspaces[i].contains(f);
                assert(ws[i].contains(f));
                lemma_contains_at(n, i, f);
            }
        }
    }
}

impl WMState {
    /// Forgets `win` on every workspace and among the floating windows;
    /// focus on it moves to the first window of the workspace shown.
    pub fn remove(&mut self, win: Window)
        requires
            old(self)@.well_formed(),
        ensures
            final(self)@ == old(self)@.remove(win),
            final(self)@.well_formed(),
            forall|i: int|
                0 <= i < WORKSPACE_COUNT ==> #[trigger] final(self)@.workspaces[i] == old(self)@.workspaces[i].filter(
                    |x: Window| x != win,
                ),
    {
        let ghost m = self@;
        let mut i: usize = 0;
        while i < WORKSPACE_COUNT
            invariant
                i <= WORKSPACE_COUNT,
                forall|k: int| 0 <= k < i ==> self.workspaces@[k]@ == remove_all(#[trigger] m.workspaces[k], win),
                forall|k: int| i <= k < WORKSPACE_COUNT ==> self.workspaces@[k]@ == #[trigger] m.workspaces[k],
                self.current == m.current,
                self.focused == m.focused,
                self.docks@ == m.docks,
                self.floating@ == m.floating,
            decreases WORKSPACE_COUNT - i,
        {
            let v = vec_remove_all(&self.workspaces[i], win);
            self.workspaces[i] = v;
            i = i + 1;
        }
        self.floating.remove(&win);
        let c = self.current;
        match self.focused {
            Some(f) => {
                if f == win {
                    self.focused = first_window(self.workspaces[c].as_slice());
                }
            },
            None => {},
        }
        proof {
            assert(self@.workspaces =~= m.remove(win).workspaces);
            lemma_remove_keeps_invariant(m, win);
            law_remove_keeps_order(m, win);
        }
    }

    /// What showing workspace `idx` asks of the display, without changing
    /// anything: `None` when `idx` is out of range or already shown, else the
    /// non-dock windows of the workspace shown now (to hide), those of
    /// workspace `idx` (to show), and the desktop number to announce.
    pub fn plan_switch(&self, idx: usize) -> (r: Option<WorkspaceSwitch>)
        requires
            self@.well_formed(),
        ensures
            r is Some <==> self@.switch_applies(idx as int),
            r matches Some(p) ==> {
                &&& p.unmap@ == without_docks(self@.windows(), self@.docks)
                &&& p.map@ == without_docks(self@.workspaces[idx as int], self@.docks)
                &&& p.workspace == idx
                &&& p.desktop == idx
            },
    {
        if idx >= WORKSPACE_COUNT || idx == self.current {
            return None;
        }
        let unmap = vec_without_docks(&self.workspaces[self.current], &self.docks);
        let map = vec_without_docks(&self.workspaces[idx], &self.docks);
        Some(WorkspaceSwitch { unmap, map, workspace: idx, desktop: idx as u32 })
    }

    /// Shows workspace `idx`, unless it is out of range or already shown;
    /// focus goes to its first window. Returns whether it applied. The
    /// display's part is given by `plan_switch`; where its requests may fail,
    /// the switch can be made in its two steps instead (`show_workspace` once
    /// the windows left are hidden, `focus_first` once the new ones are shown).
    pub fn switch_workspace(&mut self, idx: usize) -> (r: bool)
        requires
            old(self)@.well_formed(),
        ensures
            final(self)@ == old(self)@.switch_to(idx as int),
            final(self)@.well_formed(),
            r == old(self)@.switch_applies(idx as int),
            !r ==> final(self)@ == old(self)@,
    {
        let ghost m = self@;
        if self.show_workspace(idx) {
            self.focus_first();
            proof {
                law_switch_in_steps(m, idx as int);
            }
            true
        } else {
            false
        }
    }

    /// Makes workspace `idx` the one shown, unless it is out of range or
    /// already shown; returns whether it did. Focus stays where it is: this
    /// is the first step of a switch, taken once the windows of the
    /// workspace left are hidden.
    pub fn show_workspace(&mut self, idx: usize) -> (r: bool)
        requires
            old(self)@.well_formed(),
        ensures
            final(self)@ == old(self)@.show(idx as int),
            final(self)@.well_formed(),
            r == old(self)@.switch_applies(idx as int),
            !r ==> final(self)@ == old(self)@,
    {
        if idx >= WORKSPACE_COUNT || idx == self.current {
            return false;
        }
        let ghost m = self@;
        self.current = idx;
        proof {
            lemma_show_keeps_invariant(m, idx as int);
        }
        true
    }

    /// Focuses the first window of the workspace shown (no focus when it is
    /// empty); returns that window.
    pub fn focus_first(&mut self) -> (r: Option<Window>)
        requires
            old(self)@.well_formed(),
        ensures
            final(self)@ == old(self)@.focus_first(),
            final(self)@.well_formed(),
            r == first_of(old(self)@.windows()),
    {
        let ghost m = self@;
        let f = first_window(self.workspaces[self.current].as_slice());
        self.focused = f;
        proof {
            lemma_focus_first_keeps_invariant(m);
        }
        f
    }

    /// The focused window when it is on the workspace shown, else that
    /// workspace's first window.
    pub fn focused_or_first(&self) -> (r: Option<&Window>)
        requires
            self@.well_formed(),
        ensures
            match r {
                Some(w) => self@.focused_or_first() == Some(*w),
                None => self@.focused_or_first() is None,
            },
    {
        let ws = self.workspaces[self.current].as_slice();
        match self.focused {
            Some(f) => match position_of(ws, f) {
                Some(k) => {
                    return Some(&ws[k]);
                },
                None => {},
            },
            None => {},
        }
        if ws.len() > 0 {
            Some(&ws[0])
        } else {
            None
        }
    }

    /// Sends the focused (or first) window of the workspace shown to the end
    /// of workspace `idx`, unless `idx` is out of range or shown, or the
    /// workspace shown is empty; focus goes to the first window left on the
    /// workspace shown. Returns the window sent, which the display has to
    /// hide. Where hiding it may fail, the move can be made in its two steps
    /// instead (`move_window_to`, then `focus_first` once it is hidden).
    pub fn move_to_workspace(&mut self, idx: usize) -> (r: Option<Window>)
        requires
            old(self)@.well_formed(),
        ensures
            final(self)@ == old(self)@.move_to(idx as int),
            final(self)@.well_formed(),
            r == (if old(self)@.move_applies(idx as int) {
                old(self)@.focused_or_first()
            } else {
                None
            }),
            r is None ==> final(self)@ == old(self)@,
            r matches Some(w) ==> final(self)@.workspaces[old(self)@.current as int] == old(self)@.windows().filter(
                |x: Window| x != w,
            ),
    {
        let ghost m = self@;
        let r = self.move_window_to(idx);
        if r.is_some() {
            self.focus_first();
            proof {
                law_move_in_steps(m, idx as int);
            }
        }
        proof {
            law_move_keeps_order(m, idx as int);
        }
        r
    }

    /// Sends the focused (or first) window of the workspace shown to the end
    /// of workspace `idx`, unless `idx` is out of range or shown, or the
    /// workspace shown is empty. Returns the window sent, which the display
    /// has to hide; focus stays where it is: this is the first step of a
    /// move, followed by `focus_first` once the window is hidden.
    pub fn move_window_to(&mut self, idx: usize) -> (r: Option<Window>)
        requires
            old(self)@.well_formed(),
        ensures
            final(self)@ == old(self)@.move_window(idx as int),
            final(self)@.well_formed(),
            r == (if old(self)@.move_applies(idx as int) {
                old(self)@.focused_or_first()
            } else {
                None
            }),
            r is None ==> final(self)@ == old(self)@,
            r matches Some(w) ==> final(self)@.workspaces[old(self)@.current as int] == old(self)@.windows().filter(
                |x: Window| x != w,
            ),
    {
        if idx >= WORKSPACE_COUNT || idx == self.current {
            return None;
        }
        let win = match self.focused_or_first() {
            Some(w) => *w,
            None => {
                return None;
            },
        };
        let ghost m = self@;
        let c = self.current;
        let rest = vec_remove_all(&self.workspaces[c], win);
        self.workspaces[c] = rest;
        self.workspaces[idx].push(win);
        proof {
            assert(self@.workspaces =~= m.move_window(idx as int).workspaces);
            lemma_move_keeps_invariant(m, idx as int);
            law_move_keeps_order(m, idx as int);
        }
        Some(win)
    }

    fn shift_focus(&mut self, forward: bool) -> (r: Option<Window>)
        requires
            old(self)@.well_formed(),
        ensures
            final(self)@ == old(self)@.shift_focus(if forward { 1int } else { -1int }),
            final(self)@.well_formed(),
            r == (if old(self)@.windows().len() > 0 {
                Some(old(self)@.shifted(if forward { 1int } else { -1int }))
            } else {
                None
            }),
    {
        let ghost m = self@;
        let ghost dir: int = if forward { 1int } else { -1int };
        let ws = self.workspaces[self.current].as_slice();
        let len = ws.len();
        if len == 0 {
            return None;
        }
        let pos: usize = match self.focused {
            Some(f) => match position_of(ws, f) {
                Some(k) => k,
                None => 0,
            },
            None => 0,
        };
        proof {
            if let Some(f) = m.focused {
                if m.windows().contains(f) {
                    let k = index_in(m.windows(), f);
                    assert(0 <= k < len && m.windows()[k] == f);
                    assert(no_dup(m.windows()));
                    assert(k == pos);
                }
            }
            assert(pos == m.focus_position());
        }
        let next: usize = if forward {
            if pos + 1 == len {
                0
            } else {
                pos + 1
            }
        } else {
            if pos == 0 {
                len - 1
            } else {
                pos - 1
            }
        };
        proof {
            let l = len as int;
            let p = pos as int;
            if forward {
                if p + 1 == l {
                    assert((p + 1) % l == 0) by (nonlinear_arith)
                        requires
                            p + 1 == l,
                            l > 0,
                    ;
                } else {
                    assert((p + 1) % l == p + 1) by (nonlinear_arith)
                        requires
                            0 <= p + 1 < l,
                    ;
                }
            } else {
                if p == 0 {
                    assert((p - 1) % l == l - 1) by (nonlinear_arith)
                        requires
                            p == 0,
                            l > 0,
                    ;
                } else {
                    assert((p - 1) % l == p - 1) by (nonlinear_arith)
                        requires
                            0 <= p - 1 < l,
                    ;
                }
            }
            assert(next as int == (m.focus_position() + dir) % l);
        }
        let win = ws[next];
        self.focused = Some(win);
        proof {
            lemma_shift_keeps_invariant(m, dir);
        }
        Some(win)
    }

    /// Moves focus to the next window of the workspace shown, cyclically.
    /// Returns the window to focus and raise (none when the workspace is empty).
    pub fn focus_next(&mut self) -> (r: Option<Window>)
        requires
            old(self)@.well_formed(),
        ensures
            final(self)@ == old(self)@.shift_focus(1),
            final(self)@.well_formed(),
            r == (if old(self)@.windows().len() > 0 {
                Some(old(self)@.shifted(1))
            } else {
                None
            }),
    {
        self.shift_focus(true)
    }

    /// Moves focus to the previous window of the workspace shown, cyclically.
    /// Returns the window to focus and raise (none when the workspace is empty).
    pub fn focus_prev(&mut self) -> (r: Option<Window>)
        requires
            old(self)@.well_formed(),
        ensures
            final(self)@ == old(self)@.shift_focus(-1),
            final(self)@.well_formed(),
            r == (if old(self)@.windows().len() > 0 {
                Some(old(self)@.shifted(-1))
            } else {
                None
            }),
    {
        self.shift_focus(false)
    }

    /// Exchanges the first two windows of the workspace shown when it holds
    /// at least two; returns whether it did.
    pub fn swap_master(&mut self) -> (r: bool)
        requires
            old(self)@.well_formed(),
        ensures
            final(self)@ == old(self)@.swap_master(),
            final(self)@.well_formed(),
            r == (old(self)@.windows().len() >= 2),
    {
        let c = self.current;
        if self.workspaces[c].len() < 2 {
            return false;
        }
        let ghost m = self@;
        let a = self.workspaces[c][0];
        let b = self.workspaces[c][1];
        self.workspaces[c][0] = b;
        self.workspaces[c][1] = a;
        proof {
            assert(self@.workspaces =~= m.swap_master().workspaces);
            lemma_swap_keeps_invariant(m);
        }
        true
    }

    /// Gives focus to the tracked window `win`.
    pub fn focus(&mut self, win: Window)
        requires
            old(self)@.well_formed(),
            old(self)@.tracks(win),
        ensures
            final(self)@ == old(self)@.focus(win),
            final(self)@.well_formed(),
    {
        let ghost m = self@;
        self.focused = Some(win);
        proof {
            let n = self@;
            assert(n.workspaces == m.workspaces);
            if m.contains(win) {
                let i = choose|i: int| 0 <= i < WORKSPACE_COUNT && #[trigger] m.workspaces[i].contains(win);
                lemma_contains_at(n, i, win);
            }
            assert(n.tracks(win));
        }
    }
}


/// A window tiled by `add` is then tiled, unless it is a dock.
pub proof fn law_add_then_contains(m: WMModel, w: Window)
    requires
        m.well_formed(),
        !m.docks.contains(w),
    ensures
        m.add(w).contains(w),
{
    if !m.contains(w) {
        let n = m.add(w);
        assert(n.workspaces[m.current as int] == m.windows().push(w));
        assert(n.workspaces[m.current as int][m.windows().len() as int] == w);
        lemma_contains_at(n, m.current as int, w);
    }
}

/// Tiling the same window twice is tiling it once.
pub proof fn law_add_idempotent(m: WMModel, w: Window)
    requires
        m.well_formed(),
    ensures
        m.add(w).add(w) == m.add(w),
{
    if !m.docks.contains(w) {
        law_add_then_contains(m, w);
    }
}

/// After `remove`, the window is neither tiled nor floating, and every other
/// window is tracked exactly as before.
pub proof fn law_remove_forgets(m: WMModel, w: Window)
    requires
        m.well_formed(),
    ensures
        !m.remove(w).contains(w),
        !m.remove(w).floating.contains(w),
        forall|x: Window| x != w ==> (m.remove(w).tracks(x) <==> m.tracks(x)),
{
    let n = m.remove(w);
    assert(!n.contains(w)) by {
        if n.contains(w) {
            let i = choose|i: int| 0 <= i < WORKSPACE_COUNT && #[trigger] n.workspaces[i].contains(w);
            lemma_remove_all(m.workspaces[i], w);
        }
    }
    assert forall|x: Window| x != w implies (n.tracks(x) <==> m.tracks(x)) by {
        if n.contains(x) {
            let i = choose|i: int| 0 <= i < WORKSPACE_COUNT && #[trigger] n.workspaces[i].contains(x);
            lemma_remove_all(m.workspaces[i], w);
            lemma_contains_at(m, i, x);
        }
        if m.contains(x) {
            let i = choose|i: int| 0 <= i < WORKSPACE_COUNT && #[trigger] m.workspaces[i].contains(x);
            lemma_remove_all(m.workspaces[i], w);
            lemma_contains_at(n, i, x);
        }
    }
}

/// Removing a window just tiled restores the state, when the window was
/// new: not tracked, not a dock, not focused.
pub proof fn law_remove_undoes_add(m: WMModel, w: Window)
    requires
        m.well_formed(),
        !m.tracks(w),
        !m.docks.contains(w),
        m.focused != Some(w),
    ensures
        m.add(w).remove(w) == m,
{
    let a = m.add(w);
    let n = a.remove(w);
    let c = m.current as int;
    assert forall|i: int| 0 <= i < WORKSPACE_COUNT implies #[trigger] n.workspaces[i] == m.workspaces[i] by {
        assert(!m.workspaces[i].contains(w)) by {
            if m.workspaces[i].contains(w) {
                lemma_contains_at(m, i, w);
            }
        }
        lemma_remove_all(m.workspaces[i], w);
        if i == c {
            let s = m.windows();
            assert(a.workspaces[i] == s.push(w));
            assert(s.push(w).drop_last() =~= s);
            assert(remove_all(s.push(w), w) == remove_all(s, w));
        }
    }
    assert(n.workspaces =~= m.workspaces);
    assert(n.floating =~= m.floating);
    assert(n =~= m);
}

/// Showing a workspace changes neither which windows any workspace holds,
/// nor the docks, nor the floating windows; when it applies, the workspace
/// shown is `idx` and its windows are the ones listed.
pub proof fn law_switch_keeps_windows(m: WMModel, idx: int)
    requires
        m.well_formed(),
    ensures
        m.switch_to(idx).workspaces == m.workspaces,
        m.switch_to(idx).docks == m.docks,
        m.switch_to(idx).floating == m.floating,
        m.switch_applies(idx) ==> m.switch_to(idx).current == idx && m.switch_to(idx).windows()
            == m.workspaces[idx],
{
}

/// Showing another workspace and then the first one again comes back to it,
/// with every workspace as it was.
pub proof fn law_switch_back(m: WMModel, idx: int)
    requires
        m.well_formed(),
    ensures
        m.switch_to(idx).switch_to(m.current as int).current == m.current,
        m.switch_to(idx).switch_to(m.current as int).workspaces == m.workspaces,
{
}

/// Sending a window to another workspace keeps the set of tiled windows;
/// the window sent leaves the workspace shown and ends workspace `idx`, and
/// every other workspace stays as it was.
pub proof fn law_move_keeps_windows(m: WMModel, idx: int)
    requires
        m.well_formed(),
    ensures
        forall|x: Window| m.move_window(idx).contains(x) <==> m.contains(x),
        m.move_applies(idx) ==> {
            let w = m.focused_or_first()->0;
            &&& !m.move_window(idx).windows().contains(w)
            &&& m.move_window(idx).workspaces[idx] == m.workspaces[idx].push(w)
            &&& forall|j: int|
                0 <= j < WORKSPACE_COUNT && j != idx && j != m.current ==> #[trigger] m.move_window(
                    idx,
                ).workspaces[j] == m.workspaces[j]
        },
{
    if m.move_applies(idx) {
        let c = m.current as int;
        let w = m.focused_or_first()->0;
        lemma_first_of(m.windows());
        let rest = remove_all(m.windows(), w);
        lemma_remove_all(m.windows(), w);
        let n = m.move_window(idx);
        assert(n.workspaces[c] == rest);
        assert forall|x: Window| n.contains(x) <==> m.contains(x) by {
            if n.contains(x) {
                let i = choose|i: int| 0 <= i < WORKSPACE_COUNT && #[trigger] n.workspaces[i].contains(x);
                if i == c {
                    lemma_contains_at(m, c, x);
                } else if i == idx {
                    let k = choose|k: int| 0 <= k < n.workspaces[i].len() && n.workspaces[i][k] == x;
                    if k < m.workspaces[idx].len() {
                        assert(m.workspaces[idx][k] == x);
                        lemma_contains_at(m, idx, x);
                    } else {
                        lemma_contains_at(m, c, x);
                    }
                } else {
                    lemma_contains_at(m, i, x);
                }
            }
            if m.contains(x) {
                let i = choose|i: int| 0 <= i < WORKSPACE_COUNT && #[trigger] m.workspaces[i].contains(x);
                if i == c {
                    if x == w {
                        assert(n.workspaces[idx][m.workspaces[idx].len() as int] == w);
                        lemma_contains_at(n, idx, x);
                    } else {
                        lemma_contains_at(n, c, x);
                    }
                } else if i == idx {
                    let k = choose|k: int| 0 <= k < m.workspaces[i].len() && m.workspaces[i][k] == x;
                    assert(n.workspaces[idx][k] == x);
                    lemma_contains_at(n, idx, x);
                } else {
                    lemma_contains_at(n, i, x);
                }
            }
        }
    }
}

/// Moving focus forward and then back lands on the window focus started
/// from: the focused window, or the first one when focus was elsewhere.
pub proof fn law_focus_next_then_prev(m: WMModel)
    requires
        m.well_formed(),
        m.windows().len() > 0,
    ensures
        m.shift_focus(1).shift_focus(-1).focused == m.focused_or_first(),
        m.shift_focus(-1).shift_focus(1).focused == m.focused_or_first(),
{
    lemma_shift_round_trip(m, 1);
    lemma_shift_round_trip(m, -1);
}

proof fn lemma_shift_round_trip(m: WMModel, dir: int)
    requires
        m.well_formed(),
        m.windows().len() > 0,
        dir == 1 || dir == -1,
    ensures
        m.shift_focus(dir).shift_focus(-dir).focused == m.focused_or_first(),
{
    let s = m.windows();
    let len = s.len() as int;
    let p = m.focus_position();
    assert(0 <= p < len) by {
        if let Some(f) = m.focused {
            if s.contains(f) {
                assert(0 <= index_in(s, f) < len);
            }
        }
    }
    let q = (p + dir) % len;
    assert(0 <= q < len) by (nonlinear_arith)
        requires
            len > 0,
            q == (p + dir) % len,
    ;
    let n = m.shift_focus(dir);
    assert(n.focused == Some(s[q]));
    assert(n.windows() == s);
    assert(s.contains(s[q]));
    assert(n.focus_position() == q) by {
        let k = index_in(s, s[q]);
        assert(0 <= k < len && s[k] == s[q]);
        assert(no_dup(s));
    }
    assert((q - dir) % len == p) by (nonlinear_arith)
        requires
            len > 0,
            0 <= p < len,
            q == (p + dir) % len,
            dir == 1 || dir == -1,
    ;
    assert(n.shifted(-dir) == s[p]);
    if let Some(f) = m.focused {
        if s.contains(f) {
            assert(s[index_in(s, f)] == f);
        }
    }
}

/// Exchanging the first two windows twice restores the order.
pub proof fn law_swap_master_twice(m: WMModel)
    requires
        m.well_formed(),
    ensures
        m.swap_master().swap_master() == m,
{
    if m.windows().len() >= 2 {
        let s = m.windows();
        let t = s.update(0, s[1]).update(1, s[0]);
        let u = t.update(0, t[1]).update(1, t[0]);
        assert(u =~= s);
        let n = m.swap_master().swap_master();
        assert(n.workspaces =~= m.workspaces);
        assert(n =~= m);
    }
}

/// Switching workspaces never both hides and shows a window: the windows
/// hidden and the windows shown share none.
pub proof fn law_switch_plan_disjoint(m: WMModel, idx: int)
    requires
        m.well_formed(),
        m.switch_applies(idx),
    ensures
        disjoint(without_docks(m.windows(), m.docks), without_docks(m.workspaces[idx], m.docks)),
{
    let a = without_docks(m.windows(), m.docks);
    let b = without_docks(m.workspaces[idx], m.docks);
    lemma_without_docks(m.windows(), m.docks);
    lemma_without_docks(m.workspaces[idx], m.docks);
    assert(disjoint(m.workspaces[m.current as int], m.workspaces[idx]));
    assert forall|x: Window| a.contains(x) implies !b.contains(x) by {
        assert(m.windows().contains(x));
        if b.contains(x) {
            assert(m.workspaces[idx].contains(x));
        }
    }
}

/// The elements a workspace holds after one operation, compared with before.
proof fn lemma_contains_after(m: WMModel, w: Window, idx: int)
    requires
        m.well_formed(),
    ensures
        forall|x: Window| m.add(w).contains(x) ==> m.contains(x) || x == w,
        forall|x: Window| m.remove(w).contains(x) ==> m.contains(x),
        forall|x: Window| m.move_window(idx).contains(x) ==> m.contains(x),
        forall|x: Window| m.swap_master().contains(x) ==> m.contains(x),
{
    assert forall|x: Window| m.add(w).contains(x) implies m.contains(x) || x == w by {
        let n = m.add(w);
        let i = choose|i: int| 0 <= i < WORKSPACE_COUNT && #[trigger] n.workspaces[i].contains(x);
        let k = choose|k: int| 0 <= k < n.workspaces[i].len() && n.workspaces[i][k] == x;
        if k < m.workspaces[i].len() {
            assert(m.workspaces[i][k] == x);
            lemma_contains_at(m, i, x);
        }
    }
    assert forall|x: Window| m.remove(w).contains(x) implies m.contains(x) by {
        let n = m.remove(w);
        let i = choose|i: int| 0 <= i < WORKSPACE_COUNT && #[trigger] n.workspaces[i].contains(x);
        lemma_remove_all(m.workspaces[i], w);
        lemma_contains_at(m, i, x);
    }
    law_move_keeps_windows(m, idx);
    assert forall|x: Window| m.swap_master().contains(x) implies m.contains(x) by {
        let n = m.swap_master();
        let i = choose|i: int| 0 <= i < WORKSPACE_COUNT && #[trigger] n.workspaces[i].contains(x);
        let k = choose|k: int| 0 <= k < n.workspaces[i].len() && n.workspaces[i][k] == x;
        if m.windows().len() >= 2 && i == m.current {
            let s = m.windows();
            let j = if k == 0 { 1 } else if k == 1 { 0 } else { k };
            assert(s[j] == x);
        } else {
            assert(m.workspaces[i][k] == x);
        }
        lemma_contains_at(m, i, x);
    }
}

proof fn lemma_untiled_from(m: WMModel, n: WMModel)
    requires
        m.docks_untiled(),
        forall|x: Window| n.docks.contains(x) ==> m.docks.contains(x) || !n.contains(x),
        forall|x: Window| n.contains(x) ==> m.contains(x) || !n.docks.contains(x),
    ensures
        n.docks_untiled(),
{
    assert forall|d: Window| n.docks.contains(d) implies !n.contains(d) by {
        if n.contains(d) {
            assert(m.docks.contains(d));
            assert(m.contains(d));
        }
    }
}

/// No dock is ever tiled: every operation keeps docks off the workspaces,
/// except recording as a dock a window that is already tiled.
pub proof fn law_docks_stay_untiled(m: WMModel, w: Window, idx: int, dir: int)
    requires
        m.well_formed(),
        m.docks_untiled(),
    ensures
        m.add(w).docks_untiled(),
        m.add_floating(w).docks_untiled(),
        m.remove(w).docks_untiled(),
        m.remove_dock(w).docks_untiled(),
        !m.contains(w) ==> m.add_dock(w).docks_untiled(),
        m.show(idx).docks_untiled(),
        m.focus_first().docks_untiled(),
        m.switch_to(idx).docks_untiled(),
        m.move_window(idx).docks_untiled(),
        m.move_to(idx).docks_untiled(),
        m.shift_focus(dir).docks_untiled(),
        m.swap_master().docks_untiled(),
        m.focus(w).docks_untiled(),
{
    lemma_contains_after(m, w, idx);
    assert forall|d: Window| m.remove_dock(w).docks.contains(d) implies !m.remove_dock(w).contains(d) by {
        lemma_remove_all(m.docks, w);
        assert(m.docks.contains(d));
        assert(!m.contains(d));
        assert(m.remove_dock(w).workspaces == m.workspaces);
    }
    if !m.contains(w) {
        assert forall|d: Window| m.add_dock(w).docks.contains(d) implies !m.add_dock(w).contains(d) by {
            if !m.docks.contains(w) {
                let k = choose|k: int| 0 <= k < m.docks.push(w).len() && m.docks.push(w)[k] == d;
                if k < m.docks.len() {
                    assert(m.docks[k] == d);
                    assert(m.docks.contains(d));
                    assert(!m.contains(d));
                } else {
                    assert(d == w);
                }
            }
            assert(m.add_dock(w).workspaces == m.workspaces);
        }
    }
    if m.move_applies(idx) {
        law_move_in_steps(m, idx);
    }
    assert forall|x: Window| m.add(w).contains(x) implies m.contains(x) || !m.add(w).docks.contains(x) by {
    }
    lemma_untiled_from(m, m.add(w));
    lemma_untiled_from(m, m.add_floating(w));
    lemma_untiled_from(m, m.remove(w));
    lemma_untiled_from(m, m.show(idx));
    lemma_untiled_from(m, m.focus_first());
    lemma_untiled_from(m, m.switch_to(idx));
    lemma_untiled_from(m, m.move_window(idx));
    assert(m.move_to(idx).workspaces == m.move_window(idx).workspaces);
    lemma_untiled_from(m, m.move_to(idx));
    lemma_untiled_from(m, m.shift_focus(dir));
    lemma_untiled_from(m, m.swap_master());
    lemma_untiled_from(m, m.focus(w));
}

/// Leaving `w` out of `s` keeps every other window, in the same order:
/// the result is `s` filtered by "is not `w`".
pub proof fn law_remove_all_keeps_order(s: Seq<Window>, w: Window)
    ensures
        remove_all(s, w) == s.filter(|x: Window| x != w),
    decreases s.len(),
{
    reveal(Seq::filter);
    if s.len() > 0 {
        law_remove_all_keeps_order(s.drop_last(), w);
    }
}

/// Forgetting `w` leaves every workspace as it was with `w` filtered out,
/// the other windows in the same order; `w` stops floating; the docks and
/// the workspace shown stay; focus stays unless it was on `w`, in which
/// case it goes to the first window left on the workspace shown.
pub proof fn law_remove_keeps_order(m: WMModel, w: Window)
    requires
        m.well_formed(),
    ensures
        m.remove(w).workspaces.len() == m.workspaces.len(),
        forall|i: int|
            0 <= i < m.workspaces.len() ==> #[trigger] m.remove(w).workspaces[i] == m.workspaces[i].filter(
                |x: Window| x != w,
            ),
        m.remove(w).current == m.current,
        m.remove(w).docks == m.docks,
        m.remove(w).floating == m.floating.remove(w),
        m.remove(w).focused == (if m.focused == Some(w) {
            first_of(m.windows().filter(|x: Window| x != w))
        } else {
            m.focused
        }),
{
    assert forall|i: int| 0 <= i < m.workspaces.len() implies #[trigger] m.remove(w).workspaces[i]
        == m.workspaces[i].filter(|x: Window| x != w) by {
        law_remove_all_keeps_order(m.workspaces[i], w);
    }
    law_remove_all_keeps_order(m.windows(), w);
}

/// Sending a window away, when the move applies (`idx` names another
/// workspace and the one shown has windows): the window sent is the
/// focused one if it is on the workspace shown, else that workspace's
/// first. The workspace shown keeps its other windows in the same order,
/// the window sent goes to the end of workspace `idx`, every other
/// workspace stays, and focus goes to the first window left on the
/// workspace shown. When the move does not apply, nothing changes.
pub proof fn law_move_keeps_order(m: WMModel, idx: int)
    requires
        m.well_formed(),
    ensures
        m.move_applies(idx) <==> (0 <= idx < WORKSPACE_COUNT && idx != m.current && m.windows().len() > 0),
        !m.move_applies(idx) ==> m.move_window(idx) == m && m.move_to(idx) == m,
        m.move_applies(idx) ==> {
            let w = m.focused_or_first()->0;
            let rest = m.windows().filter(|x: Window| x != w);
            let n = m.move_window(idx);
            &&& m.windows().contains(w)
            &&& (m.focused is Some && m.windows().contains(m.focused->0) ==> w == m.focused->0)
            &&& (!(m.focused is Some && m.windows().contains(m.focused->0)) ==> w == m.windows()[0])
            &&& n.workspaces.len() == m.workspaces.len()
            &&& n.workspaces[m.current as int] == rest
            &&& n.workspaces[idx] == m.workspaces[idx].push(w)
            &&& forall|i: int|
                0 <= i < WORKSPACE_COUNT && i != idx && i != m.current ==> #[trigger] n.workspaces[i]
                    == m.workspaces[i]
            &&& n.current == m.current
            &&& n.focused == m.focused
            &&& n.docks == m.docks
            &&& n.floating == m.floating
            &&& m.move_to(idx) == (WMModel { focused: first_of(rest), ..n })
        },
{
    lemma_first_of(m.windows());
    if m.move_applies(idx) {
        let w = m.focused_or_first()->0;
        law_remove_all_keeps_order(m.windows(), w);
        assert(m.move_to(idx) =~= (WMModel { focused: first_of(m.windows().filter(|x: Window| x != w)), ..m.move_window(idx) }));
    }
}

/// Showing workspace `idx`: when `idx` is out of range or already shown,
/// nothing changes at all, focus included. Otherwise `idx` is shown and
/// focus goes to its first window (none when it is empty), while the
/// windows of every workspace, the docks and the floating windows stay.
/// The first step alone (`show`) moves no focus.
pub proof fn law_switch_effect(m: WMModel, idx: int)
    ensures
        (idx < 0 || idx >= WORKSPACE_COUNT || idx == m.current) ==> m.switch_to(idx) == m && m.show(idx) == m,
        (0 <= idx < WORKSPACE_COUNT && idx != m.current) ==> {
            let n = m.switch_to(idx);
            &&& n.current == idx
            &&& n.focused == (if m.workspaces[idx].len() > 0 { Some(m.workspaces[idx][0]) } else { None::<Window> })
            &&& n.workspaces == m.workspaces
            &&& n.docks == m.docks
            &&& n.floating == m.floating
            &&& m.show(idx) == (WMModel { current: idx as nat, ..m })
        },
{
}

/// Moving focus forward from the window at position `k` of the workspace
/// shown focuses the one at `k + 1`, or the first after the last; moving
/// it back focuses the one at `k - 1`, or the last before the first. When
/// the focus is on no window of that workspace, the move counts from its
/// first window. Nothing but the focus changes.
pub proof fn law_focus_moves_by_one(m: WMModel, k: int)
    requires
        m.well_formed(),
        0 <= k < m.windows().len(),
        m.focused == Some(m.windows()[k]) || (k == 0 && !(m.focused is Some && m.windows().contains(
            m.focused->0,
        ))),
    ensures
        m.shift_focus(1) == (WMModel {
            focused: Some(m.windows()[if k + 1 == m.windows().len() { 0 } else { k + 1 }]),
            ..m
        }),
        m.shift_focus(-1) == (WMModel {
            focused: Some(m.windows()[if k == 0 { m.windows().len() - 1 } else { k - 1 }]),
            ..m
        }),
{
    let s = m.windows();
    let l = s.len() as int;
    if m.focused == Some(s[k]) {
        assert(s.contains(s[k]));
        let j = index_in(s, s[k]);
        assert(0 <= j < l && s[j] == s[k]);
        assert(no_dup(s));
        assert(j == k);
    }
    assert(m.focus_position() == k);
    if k + 1 == l {
        assert((k + 1) % l == 0) by (nonlinear_arith)
            requires
                k + 1 == l,
                l > 0,
        ;
    } else {
        assert((k + 1) % l == k + 1) by (nonlinear_arith)
            requires
                0 <= k + 1 < l,
        ;
    }
    if k == 0 {
        assert((k - 1) % l == l - 1) by (nonlinear_arith)
            requires
                k == 0,
                l > 0,
        ;
    } else {
        assert((k - 1) % l == k - 1) by (nonlinear_arith)
            requires
                0 <= k - 1 < l,
        ;
    }
}

/// Exchanging the master: with two windows or more on the workspace shown,
/// the first two trade places and every other window keeps its place;
/// with fewer, nothing changes. Focus and the other workspaces stay.
pub proof fn law_swap_master_effect(m: WMModel)
    requires
        m.well_formed(),
    ensures
        m.swap_master().current == m.current,
        m.swap_master().focused == m.focused,
        m.swap_master().docks == m.docks,
        m.swap_master().floating == m.floating,
        m.windows().len() < 2 ==> m.swap_master() == m,
        m.windows().len() >= 2 ==> {
            let t = m.swap_master().windows();
            &&& t.len() == m.windows().len()
            &&& t[0] == m.windows()[1]
            &&& t[1] == m.windows()[0]
            &&& forall|i: int| 2 <= i < t.len() ==> #[trigger] t[i] == m.windows()[i]
            &&& forall|i: int|
                0 <= i < WORKSPACE_COUNT && i != m.current ==> #[trigger] m.swap_master().workspaces[i]
                    == m.workspaces[i]
        },
{
}

/// Tiling a new window (tiled nowhere, not a dock) puts it at the end of
/// the workspace shown, after the windows already there, and changes
/// nothing else; tiling a window that is already tiled, or a dock,
/// changes nothing.
pub proof fn law_add_appends(m: WMModel, w: Window)
    requires
        m.well_formed(),
    ensures
        (m.contains(w) || m.docks.contains(w)) ==> m.add(w) == m,
        !(m.contains(w) || m.docks.contains(w)) ==> {
            &&& m.add(w).windows() == m.windows().push(w)
            &&& m.add(w).workspaces.len() == m.workspaces.len()
            &&& forall|i: int|
                0 <= i < WORKSPACE_COUNT && i != m.current ==> #[trigger] m.add(w).workspaces[i]
                    == m.workspaces[i]
            &&& m.add(w).current == m.current
            &&& m.add(w).focused == m.focused
            &&& m.add(w).docks == m.docks
            &&& m.add(w).floating == m.floating
        },
{
}

/// Forgetting the dock `w` leaves the other docks in the same order.
pub proof fn law_remove_dock_keeps_order(m: WMModel, w: Window)
    ensures
        m.remove_dock(w).docks == m.docks.filter(|x: Window| x != w),
        m.remove_dock(w) == (WMModel { docks: m.remove_dock(w).docks, ..m }),
{
    law_remove_all_keeps_order(m.docks, w);
}

} // verus!
