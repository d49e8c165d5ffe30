//! The live replica of the window manager's topology: the workspace and
//! monitor tables, their key-uniqueness invariant, and the operations the
//! dispatcher and the renderer need.
use crate::keyed::{
    lemma_map_of_absent, lemma_map_of_contains, lemma_map_of_index, lemma_map_of_push,
    lemma_map_of_remove, lemma_map_of_update, map_of, unique_keys,
};
use crate::text::{copy_chars, eq_chars};
use vstd::prelude::*;

verus! {

/// A workspace: a small integer id, and the name of the monitor it lives on
/// (absent while it has not been assigned to any monitor yet).
pub struct Workspace {
    pub id: u8,
    pub monitor_name: Option<Vec<char>>,
}

/// A monitor: a unique name, the workspace it currently shows, and whether
/// the user is interacting with it.
pub struct Monitor {
    pub name: Vec<char>,
    pub active_workspace: Workspace,
    pub focused: bool,
}

/// Mathematical image of a `Workspace`.
#[verifier::ext_equal]
pub struct WsView {
    pub id: u8,
    pub monitor_name: Option<Seq<char>>,
}

/// Mathematical image of a `Monitor`.
#[verifier::ext_equal]
pub struct MonView {
    pub name: Seq<char>,
    pub active_workspace: WsView,
    pub focused: bool,
}

/// Mathematical image of a `StateStore`: both tables, in storage order.
#[verifier::ext_equal]
pub struct StateView {
    pub workspaces: Seq<WsView>,
    pub monitors: Seq<MonView>,
}

impl View for Workspace {
    type V = WsView;

    open spec fn view(&self) -> WsView {
        WsView {
            id: self.id,
            monitor_name: match self.monitor_name {
                Option::Some(n) => Option::Some(n@),
                Option::None => Option::None,
            },
        }
    }
}

impl View for Monitor {
    type V = MonView;

    open spec fn view(&self) -> MonView {
        MonView { name: self.name@, active_workspace: self.active_workspace@, focused: self.focused }
    }
}

/// Key function of the workspace table.
pub open spec fn ws_key() -> spec_fn(WsView) -> u8 {
    |w: WsView| w.id
}

/// Key function of the monitor table.
pub open spec fn mon_key() -> spec_fn(MonView) -> Seq<char> {
    |m: MonView| m.name
}

/// Index of the first focused monitor, scanning from position `i`.
pub open spec fn first_focused_from(s: Seq<MonView>, i: int) -> Option<int>
    decreases s.len() - i,
{
    if i < 0 || i >= s.len() {
        Option::None
    } else if s[i].focused {
        Option::Some(i)
    } else {
        first_focused_from(s, i + 1)
    }
}

/// The monitor that owns newly created workspaces: the first focused monitor
/// in storage order, or the first monitor when none is focused.
pub open spec fn fallback_monitor(s: Seq<MonView>) -> Option<MonView> {
    match first_focused_from(s, 0) {
        Option::Some(i) => Option::Some(s[i]),
        Option::None => if s.len() > 0 {
            Option::Some(s[0])
        } else {
            Option::None
        },
    }
}

impl StateView {
    /// The workspace table as a map keyed by id.
    pub open spec fn ws_map(self) -> Map<u8, WsView> {
        map_of(self.workspaces, ws_key())
    }

    /// The monitor table as a map keyed by name.
    pub open spec fn mon_map(self) -> Map<Seq<char>, MonView> {
        map_of(self.monitors, mon_key())
    }

    /// Key uniqueness: workspace ids and monitor names are unique.
    pub open spec fn wf(self) -> bool {
        unique_keys(self.workspaces, ws_key()) && unique_keys(self.monitors, mon_key())
    }
}

/// Owns the two live tables and keeps their keys unique.
pub struct StateStore {
    workspaces: Vec<Workspace>,
    monitors: Vec<Monitor>,
}

impl View for StateStore {
    type V = StateView;

    closed spec fn view(&self) -> StateView {
        StateView {
            workspaces: self.workspaces@.map_values(|w: Workspace| w@),
            monitors: self.monitors@.map_values(|m: Monitor| m@),
        }
    }
}

/// Copies a workspace record.
pub fn clone_workspace(w: &Workspace) -> (r: Workspace)
    ensures
        r@ == w@,
{
    let monitor_name = match &w.monitor_name {
        Option::Some(n) => Option::Some(copy_chars(n)),
        Option::None => Option::None,
    };
    Workspace { id: w.id, monitor_name }
}

/// Copies a monitor record.
pub fn clone_monitor(m: &Monitor) -> (r: Monitor)
    ensures
        r@ == m@,
{
    Monitor {
        name: copy_chars(&m.name),
        active_workspace: clone_workspace(&m.active_workspace),
        focused: m.focused,
    }
}

impl StateStore {
    /// Seeds both tables from full snapshot lists.  Later duplicates of a key
    /// overwrite earlier ones, as in the induced maps; when the snapshot keys
    /// are unique the storage order is the snapshot order.
    pub fn new(workspaces: Vec<Workspace>, monitors: Vec<Monitor>) -> (st: StateStore)
        ensures
            st@.wf(),
            st@.ws_map() == map_of(workspaces@.map_values(|w: Workspace| w@), ws_key()),
            st@.mon_map() == map_of(monitors@.map_values(|m: Monitor| m@), mon_key()),
            unique_keys(workspaces@.map_values(|w: Workspace| w@), ws_key()) ==> st@.workspaces
                == workspaces@.map_values(|w: Workspace| w@),
            unique_keys(monitors@.map_values(|m: Monitor| m@), mon_key()) ==> st@.monitors
                == monitors@.map_values(|m: Monitor| m@),
    {
        let ghost wviews = workspaces@.map_values(|w: Workspace| w@);
        let ghost mviews = monitors@.map_values(|m: Monitor| m@);
        let mut st = StateStore { workspaces: Vec::new(), monitors: Vec::new() };
        proof {
            assert(st@.workspaces =~= Seq::<WsView>::empty());
            assert(st@.monitors =~= Seq::<MonView>::empty());
            assert(wviews.take(0) =~= Seq::<WsView>::empty());
            assert(mviews.take(0) =~= Seq::<MonView>::empty());
        }
        let mut i: usize = 0;
        while i < workspaces.len()
            invariant
                0 <= i <= workspaces@.len(),
                wviews == workspaces@.map_values(|w: Workspace| w@),
                st@.wf(),
                st@.monitors.len() == 0,
                st@.ws_map() == map_of(wviews.take(i as int), ws_key()),
                unique_keys(wviews.take(i as int), ws_key()) ==> st@.workspaces == wviews.take(
                    i as int,
                ),
            decreases workspaces@.len() - i,
        {
            let w = clone_workspace(&workspaces[i]);
            proof {
                assert(wviews.take(i as int + 1).drop_last() =~= wviews.take(i as int));
                assert(wviews.take(i as int + 1).last() == w@);
                if unique_keys(wviews.take(i as int + 1), ws_key()) {
                    assert(unique_keys(wviews.take(i as int), ws_key()));
                    assert(forall|k: int| 0 <= k < i ==> ws_key()(
                        #[trigger] wviews.take(i as int)[k],
                    ) != ws_key()(w@)) by {
                        assert(forall|k: int| 0 <= k < i ==> wviews.take(i as int + 1)[k]
                            == wviews.take(i as int)[k]);
                    }
                    lemma_map_of_absent(wviews.take(i as int), ws_key(), ws_key()(w@));
                }
            }
            self_set_workspace(&mut st, w);
            i = i + 1;
        }
        proof {
            assert(wviews.take(workspaces@.len() as int) =~= wviews);
        }
        let mut j: usize = 0;
        while j < monitors.len()
            invariant
                0 <= j <= monitors@.len(),
                mviews == monitors@.map_values(|m: Monitor| m@),
                st@.wf(),
                st@.ws_map() == map_of(wviews, ws_key()),
                unique_keys(wviews, ws_key()) ==> st@.workspaces == wviews,
                st@.mon_map() == map_of(mviews.take(j as int), mon_key()),
                unique_keys(mviews.take(j as int), mon_key()) ==> st@.monitors == mviews.take(
                    j as int,
                ),
            decreases monitors@.len() - j,
        {
            let m = clone_monitor(&monitors[j]);
            proof {
                assert(mviews.take(j as int + 1).drop_last() =~= mviews.take(j as int));
                assert(mviews.take(j as int + 1).last() == m@);
                if unique_keys(mviews.take(j as int + 1), mon_key()) {
                    assert(unique_keys(mviews.take(j as int), mon_key()));
                    assert(forall|k: int| 0 <= k < j ==> mon_key()(
                        #[trigger] mviews.take(j as int)[k],
                    ) != mon_key()(m@)) by {
                        assert(forall|k: int| 0 <= k < j ==> mviews.take(j as int + 1)[k]
                            == mviews.take(j as int)[k]);
                    }
                    lemma_map_of_absent(mviews.take(j as int), mon_key(), mon_key()(m@));
                }
            }
            self_set_monitor(&mut st, m);
            j = j + 1;
        }
        proof {
            assert(mviews.take(monitors@.len() as int) =~= mviews);
        }
        st
    }

    /// Index of the workspace with the given id, if any.
    fn find_ws(&self, id: u8) -> (r: Option<usize>)
        ensures
            match r {
                Option::Some(i) => i < self@.workspaces.len() && self@.workspaces[i as int].id
                    == id,
                Option::None => forall|k: int|
                    0 <= k < self@.workspaces.len() ==> (#[trigger] self@.workspaces[k]).id != id,
            },
    {
        let mut i: usize = 0;
        while i < self.workspaces.len()
            invariant
                0 <= i <= self@.workspaces.len(),
                self@.workspaces.len() == self.workspaces.len(),
                forall|k: int| 0 <= k < i ==> (#[trigger] self@.workspaces[k]).id != id,
            decreases self@.workspaces.len() - i,
        {
            if self.workspaces[i].id == id {
                return Option::Some(i);
            }
            i = i + 1;
        }
        Option::None
    }

    /// Index of the monitor with the given name, if any.
    fn find_mon(&self, name: &Vec<char>) -> (r: Option<usize>)
        ensures
            match r {
                Option::Some(i) => i < self@.monitors.len() && self@.monitors[i as int].name
                    == name@,
                Option::None => forall|k: int|
                    0 <= k < self@.monitors.len() ==> (#[trigger] self@.monitors[k]).name != name@,
            },
    {
        let mut i: usize = 0;
        while i < self.monitors.len()
            invariant
                0 <= i <= self@.monitors.len(),
                self@.monitors.len() == self.monitors.len(),
                forall|k: int| 0 <= k < i ==> (#[trigger] self@.monitors[k]).name != name@,
            decreases self@.monitors.len() - i,
        {
            if eq_chars(&self.monitors[i].name, name) {
                return Option::Some(i);
            }
            i = i + 1;
        }
        Option::None
    }

    /// Looks a workspace up by id.
    pub fn get_workspace(&self, id: u8) -> (r: Option<&Workspace>)
        requires
            self@.wf(),
        ensures
            match r {
                Option::Some(w) => self@.ws_map().contains_key(id) && w@ == self@.ws_map()[id],
                Option::None => !self@.ws_map().contains_key(id),
            },
    {
        match self.find_ws(id) {
            Option::Some(i) => {
                proof {
                    lemma_map_of_index(self@.workspaces, ws_key(), i as int);
                }
                Option::Some(&self.workspaces[i])
            },
            Option::None => {
                proof {
                    lemma_map_of_absent(self@.workspaces, ws_key(), id);
                }
                Option::None
            },
        }
    }

    /// Looks a monitor up by name.
    pub fn get_monitor(&self, name: &Vec<char>) -> (r: Option<&Monitor>)
        requires
            self@.wf(),
        ensures
            match r {
                Option::Some(m) => self@.mon_map().contains_key(name@) && m@
                    == self@.mon_map()[name@],
                Option::None => !self@.mon_map().contains_key(name@),
            },
    {
        match self.find_mon(name) {
            Option::Some(i) => {
                proof {
                    lemma_map_of_index(self@.monitors, mon_key(), i as int);
                }
                Option::Some(&self.monitors[i])
            },
            Option::None => {
                proof {
                    lemma_map_of_absent(self@.monitors, mon_key(), name@);
                }
                Option::None
            },
        }
    }

    /// Inserts or replaces the workspace with `w`'s id.
    pub fn set_workspace(&mut self, w: Workspace)
        requires
            old(self)@.wf(),
        ensures
            final(self)@.wf(),
            final(self)@.monitors == old(self)@.monitors,
            final(self)@.ws_map() == old(self)@.ws_map().insert(w@.id, w@),
            !old(self)@.ws_map().contains_key(w@.id) ==> final(self)@.workspaces == old(
                self,
            )@.workspaces.push(w@),
            old(self)@.ws_map().contains_key(w@.id) ==> exists|i: int|
                0 <= i < old(self)@.workspaces.len() && (#[trigger] old(self)@.workspaces[i]).id
                    == w@.id && final(self)@.workspaces == old(self)@.workspaces.update(i, w@),
    {
        self_set_workspace(self, w)
    }

    /// Inserts or replaces the monitor with `m`'s name.
    pub fn set_monitor(&mut self, m: Monitor)
        requires
            old(self)@.wf(),
        ensures
            final(self)@.wf(),
            final(self)@.workspaces == old(self)@.workspaces,
            final(self)@.mon_map() == old(self)@.mon_map().insert(m@.name, m@),
            !old(self)@.mon_map().contains_key(m@.name) ==> final(self)@.monitors == old(
                self,
            )@.monitors.push(m@),
            old(self)@.mon_map().contains_key(m@.name) ==> exists|i: int|
                0 <= i < old(self)@.monitors.len() && (#[trigger] old(self)@.monitors[i]).name
                    == m@.name && final(self)@.monitors == old(self)@.monitors.update(i, m@),
    {
        self_set_monitor(self, m)
    }

    /// Removes the workspace with the given id; absent ids are a no-op.
    pub fn remove_workspace(&mut self, id: u8)
        requires
            old(self)@.wf(),
        ensures
            final(self)@.wf(),
            final(self)@.monitors == old(self)@.monitors,
            final(self)@.ws_map() == old(self)@.ws_map().remove(id),
            !old(self)@.ws_map().contains_key(id) ==> final(self)@.workspaces == old(self)@.workspaces,
    {
        match self.find_ws(id) {
            Option::Some(i) => {
                proof {
                    lemma_map_of_index(self@.workspaces, ws_key(), i as int);
                    lemma_map_of_remove(self@.workspaces, ws_key(), i as int);
                }
                self.workspaces.remove(i);
                proof {
                    assert(self@.workspaces =~= old(self)@.workspaces.remove(i as int));
                }
            },
            Option::None => {
                proof {
                    lemma_map_of_absent(self@.workspaces, ws_key(), id);
                    assert(self@.ws_map().remove(id) =~= self@.ws_map());
                }
            },
        }
    }

    /// Number of monitors.
    pub fn num_monitors(&self) -> (n: usize)
        ensures
            n == self@.monitors.len(),
    {
        self.monitors.len()
    }

    /// The monitor at a storage position.
    pub fn monitor_at(&self, i: usize) -> (m: &Monitor)
        requires
            i < self@.monitors.len(),
        ensures
            m@ == self@.monitors[i as int],
    {
        &self.monitors[i]
    }

    /// The monitor that owns newly created workspaces: the first focused one
    /// in storage order, or the first monitor when none is focused.
    pub fn fallback_monitor(&self) -> (r: Option<&Monitor>)
        ensures
            match r {
                Option::Some(m) => fallback_monitor(self@.monitors) == Option::Some(m@),
                Option::None => self@.monitors.len() == 0 && fallback_monitor(self@.monitors)
                    is None,
            },
    {
        if self.monitors.len() == 0 {
            return Option::None;
        }
        let mut i: usize = 0;
        while i < self.monitors.len()
            invariant
                0 <= i <= self@.monitors.len(),
                self@.monitors.len() == self.monitors.len(),
                self@.monitors.len() > 0,
                first_focused_from(self@.monitors, 0) == first_focused_from(
                    self@.monitors,
                    i as int,
                ),
            decreases self@.monitors.len() - i,
        {
            if self.monitors[i].focused {
                return Option::Some(&self.monitors[i]);
            }
            i = i + 1;
        }
        Option::Some(&self.monitors[0])
    }

    /// The `focusedmon` sweep: the named monitor becomes focused and shows
    /// the given workspace; every other monitor loses focus.
    pub fn focus_monitor(&mut self, name: &Vec<char>, workspace_id: u8)
        requires
            old(self)@.wf(),
        ensures
            final(self)@.wf(),
            final(self)@.workspaces == old(self)@.workspaces,
            final(self)@.monitors.len() == old(self)@.monitors.len(),
            forall|k: int| 0 <= k < final(self)@.monitors.len() ==> #[trigger] final(self)@.monitors[k] == (
            if old(self)@.monitors[k].name == name@ {
                MonView {
                    focused: true,
                    active_workspace: WsView {
                        id: workspace_id,
                        ..old(self)@.monitors[k].active_workspace
                    },
                    ..old(self)@.monitors[k]
                }
            } else {
                MonView { focused: false, ..old(self)@.monitors[k] }
            }),
    {
        let ghost orig = self@.monitors;
        let mut i: usize = 0;
        while i < self.monitors.len()
            invariant
                0 <= i <= self.monitors.len(),
                self@.workspaces == old(self)@.workspaces,
                self@.monitors.len() == self.monitors.len(),
                orig == old(self)@.monitors,
                orig.len() == self@.monitors.len(),
                forall|k: int| i <= k < self@.monitors.len() ==> #[trigger] self@.monitors[k]
                    == orig[k],
                forall|k: int| 0 <= k < i ==> #[trigger] self@.monitors[k] == (
                if orig[k].name == name@ {
                    MonView {
                        focused: true,
                        active_workspace: WsView {
                            id: workspace_id,
                            ..orig[k].active_workspace
                        },
                        ..orig[k]
                    }
                } else {
                    MonView { focused: false, ..orig[k] }
                }),
            decreases self.monitors.len() - i,
        {
            proof {
                assert(self@.monitors[i as int] == orig[i as int]);
                assert(self.monitors@[i as int]@ == self@.monitors[i as int]);
            }
            let hit = eq_chars(&self.monitors[i].name, name);
            let old_m = &self.monitors[i];
            let new_m = Monitor {
                name: copy_chars(&old_m.name),
                active_workspace: Workspace {
                    id: if hit {
                        workspace_id
                    } else {
                        old_m.active_workspace.id
                    },
                    monitor_name: match &old_m.active_workspace.monitor_name {
                        Option::Some(n) => Option::Some(copy_chars(n)),
                        Option::None => Option::None,
                    },
                },
                focused: hit,
            };
            let ghost prev = self@.monitors;
            let ghost nv = new_m@;
            proof {
                assert(nv == (if orig[i as int].name == name@ {
                    MonView {
                        focused: true,
                        active_workspace: WsView {
                            id: workspace_id,
                            ..orig[i as int].active_workspace
                        },
                        ..orig[i as int]
                    }
                } else {
                    MonView { focused: false, ..orig[i as int] }
                }));
            }
            self.monitors[i] = new_m;
            proof {
                assert(self@.monitors =~= prev.update(i as int, nv));
            }
            i = i + 1;
        }
        proof {
            lemma_unique_pointwise_names(orig, self@.monitors);
        }
    }

    /// Sets the named monitor's active workspace id; reports whether the
    /// monitor exists.
    pub fn set_active(&mut self, name: &Vec<char>, workspace_id: u8) -> (found: bool)
        requires
            old(self)@.wf(),
        ensures
            final(self)@.wf(),
            final(self)@.workspaces == old(self)@.workspaces,
            found <==> old(self)@.mon_map().contains_key(name@),
            !found ==> final(self)@.monitors == old(self)@.monitors,
            found ==> final(self)@.mon_map() == old(self)@.mon_map().insert(
                name@,
                MonView {
                    active_workspace: WsView {
                        id: workspace_id,
                        ..old(self)@.mon_map()[name@].active_workspace
                    },
                    ..old(self)@.mon_map()[name@]
                },
            ),
            found ==> final(self)@.monitors.len() == old(self)@.monitors.len() && forall|k: int|
                0 <= k < final(self)@.monitors.len() ==> #[trigger] final(self)@.monitors[k] == (
                if old(self)@.monitors[k].name == name@ {
                    MonView {
                        active_workspace: WsView {
                            id: workspace_id,
                            ..old(self)@.monitors[k].active_workspace
                        },
                        ..old(self)@.monitors[k]
                    }
                } else {
                    old(self)@.monitors[k]
                }),
    {
        match self.find_mon(name) {
            Option::Some(i) => {
                proof {
                    lemma_map_of_index(self@.monitors, mon_key(), i as int);
                }
                let old_m = &self.monitors[i];
                let new_m = Monitor {
                    name: copy_chars(&old_m.name),
                    active_workspace: Workspace {
                        id: workspace_id,
                        monitor_name: match &old_m.active_workspace.monitor_name {
                            Option::Some(n) => Option::Some(copy_chars(n)),
                            Option::None => Option::None,
                        },
                    },
                    focused: old_m.focused,
                };
                let ghost mv = new_m@;
                proof {
                    lemma_map_of_update(self@.monitors, mon_key(), i as int, mv);
                }
                self.monitors[i] = new_m;
                proof {
                    assert(self@.monitors =~= old(self)@.monitors.update(i as int, mv));
                    lemma_map_of_contains(old(self)@.monitors, mon_key(), name@);
                    assert forall|k: int| 0 <= k < self@.monitors.len() implies #[trigger] self@
                        .monitors[k] == (
                    if old(self)@.monitors[k].name == name@ {
                        MonView {
                            active_workspace: WsView {
                                id: workspace_id,
                                ..old(self)@.monitors[k].active_workspace
                            },
                            ..old(self)@.monitors[k]
                        }
                    } else {
                        old(self)@.monitors[k]
                    }) by {
                        if k != i as int {
                            assert(mon_key()(old(self)@.monitors[k]) != mon_key()(
                                old(self)@.monitors[i as int],
                            ));
                        }
                    }
                }
                true
            },
            Option::None => {
                proof {
                    lemma_map_of_absent(self@.monitors, mon_key(), name@);
                }
                false
            },
        }
    }
}

/// Pointwise name-preserving rewrites keep monitor names unique.
proof fn lemma_unique_pointwise_names(orig: Seq<MonView>, new: Seq<MonView>)
    requires
        unique_keys(orig, mon_key()),
        new.len() == orig.len(),
        forall|k: int| 0 <= k < new.len() ==> (#[trigger] new[k]).name == orig[k].name,
    ensures
        unique_keys(new, mon_key()),
{
}

/// Shared upsert body for the workspace table.
fn self_set_workspace(st: &mut StateStore, w: Workspace)
    requires
        old(st)@.wf(),
    ensures
        final(st)@.wf(),
        final(st)@.monitors == old(st)@.monitors,
        final(st)@.ws_map() == old(st)@.ws_map().insert(w@.id, w@),
        !old(st)@.ws_map().contains_key(w@.id) ==> final(st)@.workspaces == old(st)@.workspaces.push(w@),
        old(st)@.ws_map().contains_key(w@.id) ==> exists|i: int|
            0 <= i < old(st)@.workspaces.len() && (#[trigger] old(st)@.workspaces[i]).id == w@.id
                && final(st)@.workspaces == old(st)@.workspaces.update(i, w@),
{
    let ghost wv = w@;
    match st.find_ws(w.id) {
        Option::Some(i) => {
            proof {
                lemma_map_of_contains(st@.workspaces, ws_key(), wv.id);
                lemma_map_of_update(st@.workspaces, ws_key(), i as int, wv);
            }
            st.workspaces[i] = w;
            proof {
                assert(st@.workspaces =~= old(st)@.workspaces.update(i as int, wv));
            }
        },
        Option::None => {
            proof {
                lemma_map_of_absent(st@.workspaces, ws_key(), wv.id);
                lemma_map_of_push(st@.workspaces, ws_key(), wv);
            }
            st.workspaces.push(w);
            proof {
                assert(st@.workspaces =~= old(st)@.workspaces.push(wv));
            }
        },
    }
}

/// Shared upsert body for the monitor table.
fn self_set_monitor(st: &mut StateStore, m: Monitor)
    requires
        old(st)@.wf(),
    ensures
        final(st)@.wf(),
        final(st)@.workspaces == old(st)@.workspaces,
        final(st)@.mon_map() == old(st)@.mon_map().insert(m@.name, m@),
        !old(st)@.mon_map().contains_key(m@.name) ==> final(st)@.monitors == old(st)@.monitors.push(m@),
        old(st)@.mon_map().contains_key(m@.name) ==> exists|i: int|
            0 <= i < old(st)@.monitors.len() && (#[trigger] old(st)@.monitors[i]).name == m@.name
                && final(st)@.monitors == old(st)@.monitors.update(i, m@),
{
    let ghost mv = m@;
    match st.find_mon(&m.name) {
        Option::Some(i) => {
            proof {
                lemma_map_of_contains(st@.monitors, mon_key(), mv.name);
                lemma_map_of_update(st@.monitors, mon_key(), i as int, mv);
            }
            st.monitors[i] = m;
            proof {
                assert(st@.monitors =~= old(st)@.monitors.update(i as int, mv));
            }
        },
        Option::None => {
            proof {
                lemma_map_of_absent(st@.monitors, mon_key(), mv.name);
                lemma_map_of_push(st@.monitors, mon_key(), mv);
            }
            st.monitors.push(m);
            proof {
                assert(st@.monitors =~= old(st)@.monitors.push(mv));
            }
        },
    }
}

} // verus!
