//! The dispatcher: applies one parsed event to the state store, atomically,
//! and tells the caller what to do next (render, reload, or nothing).
use crate::events::Event;
use crate::events::EvView;
use crate::keyed::{lemma_map_of_index, map_of, unique_keys};
use crate::state::{
    fallback_monitor, first_focused_from, mon_key, MonView, Monitor, StateStore, StateView,
    Workspace, WsView,
};
use crate::text::copy_chars;
use vstd::prelude::*;

verus! {

/// What the caller must do after a successful application.
#[derive(Clone, Copy, Debug, PartialEq, Eq, Structural)]
pub enum Outcome {
    /// The store changed (or was confirmed): render a frame.
    Render,
    /// The topology changed: re-seed the store from a snapshot, then render.
    Reload,
    /// Unrecognized event: no mutation happened and no frame is due.
    Skip,
}

/// An event that references state it needs but that does not exist.  The
/// caller treats this as fatal; the store is left exactly as it was.
#[derive(Clone, Copy, Debug, PartialEq, Eq, Structural)]
pub enum ApplyError {
    /// The named monitor is not in the store.
    UnknownMonitor,
    /// The workspace to move is not in the store.
    UnknownWorkspace,
    /// A workspace event arrived while the store has no monitors at all.
    NoMonitors,
}

/// The monitor table after `focusedmon name, wid`: the named monitor gains
/// focus and shows `wid`; every other monitor loses focus.
pub open spec fn focus_seq(mons: Seq<MonView>, name: Seq<char>, wid: u8) -> Seq<MonView> {
    mons.map_values(
        |m: MonView|
            if m.name == name {
                MonView {
                    focused: true,
                    active_workspace: WsView { id: wid, ..m.active_workspace },
                    ..m
                }
            } else {
                MonView { focused: false, ..m }
            },
    )
}

/// The monitor table after the monitor called `name` starts showing `wid`.
pub open spec fn set_active_seq(mons: Seq<MonView>, name: Seq<char>, wid: u8) -> Seq<MonView> {
    mons.map_values(
        |m: MonView|
            if m.name == name {
                MonView { active_workspace: WsView { id: wid, ..m.active_workspace }, ..m }
            } else {
                m
            },
    )
}

/// The monitor a `workspace` event addresses: the workspace's own monitor
/// when it exists and is assigned, otherwise the fallback monitor.
pub open spec fn switch_owner(st: StateView, wid: u8, fb: MonView) -> Seq<char> {
    if st.ws_map().contains_key(wid) {
        match st.ws_map()[wid].monitor_name {
            Option::Some(n) => n,
            Option::None => fb.name,
        }
    } else {
        fb.name
    }
}

/// A first-focused scan stays inside the table.
proof fn lemma_first_focused_bounds(s: Seq<MonView>, i: int)
    requires
        first_focused_from(s, i) is Some,
    ensures
        i <= first_focused_from(s, i)->0 < s.len(),
    decreases s.len() - i,
{
    if !(i < 0 || i >= s.len()) && !s[i].focused {
        lemma_first_focused_bounds(s, i + 1);
    }
}

/// The fallback monitor is always an entry of the monitor map.
proof fn lemma_fallback_in_map(mons: Seq<MonView>)
    requires
        unique_keys(mons, mon_key()),
        fallback_monitor(mons) is Some,
    ensures
        map_of(mons, mon_key()).contains_key(fallback_monitor(mons)->0.name),
        map_of(mons, mon_key())[fallback_monitor(mons)->0.name] == fallback_monitor(mons)->0,
{
    match first_focused_from(mons, 0) {
        Option::Some(i) => {
            lemma_first_focused_bounds(mons, 0);
            lemma_map_of_index(mons, mon_key(), i);
        },
        Option::None => {
            lemma_map_of_index(mons, mon_key(), 0);
        },
    }
}

impl StateStore {
    /// Applies one event to the store.  Mutation and validation happen
    /// together: on any error the store is exactly as it was, and no event
    /// ever leaves it with a half-applied update.
    pub fn apply(&mut self, ev: &Event) -> (r: Result<Outcome, ApplyError>)
        requires
            old(self)@.wf(),
        ensures
            final(self)@.wf(),
            ({
                let st0 = old(self)@;
                let st1 = final(self)@;
                match ev@ {
                    EvView::Reload => r == Result::<Outcome, ApplyError>::Ok(Outcome::Reload)
                        && st1 == st0,
                    EvView::Ignored => r == Result::<Outcome, ApplyError>::Ok(Outcome::Skip)
                        && st1 == st0,
                    EvView::FocusedMon { monitor, workspace } => r == Result::<
                        Outcome,
                        ApplyError,
                    >::Ok(Outcome::Render) && st1.workspaces == st0.workspaces && st1.monitors
                        == focus_seq(st0.monitors, monitor, workspace),
                    EvView::MoveWorkspace { workspace, monitor } => if !st0.mon_map().contains_key(
                        monitor,
                    ) {
                        r == Result::<Outcome, ApplyError>::Err(ApplyError::UnknownMonitor) && st1
                            == st0
                    } else if !st0.ws_map().contains_key(workspace) {
                        r == Result::<Outcome, ApplyError>::Err(ApplyError::UnknownWorkspace)
                            && st1 == st0
                    } else {
                        r == Result::<Outcome, ApplyError>::Ok(Outcome::Render) && st1.monitors
                            == set_active_seq(st0.monitors, monitor, workspace) && st1.ws_map()
                            == st0.ws_map().insert(
                            workspace,
                            WsView {
                                id: st0.ws_map()[workspace].id,
                                monitor_name: Option::Some(monitor),
                            },
                        )
                    },
                    EvView::CreateWorkspace { workspace } => match fallback_monitor(st0.monitors) {
                        Option::None => r == Result::<Outcome, ApplyError>::Err(
                            ApplyError::NoMonitors,
                        ) && st1 == st0,
                        Option::Some(fb) => r == Result::<Outcome, ApplyError>::Ok(Outcome::Render)
                            && st1.monitors == st0.monitors && st1.ws_map() == st0.ws_map().insert(
                            workspace,
                            WsView { id: workspace, monitor_name: Option::Some(fb.name) },
                        ),
                    },
                    EvView::SwitchWorkspace { workspace } => match fallback_monitor(st0.monitors) {
                        Option::None => r == Result::<Outcome, ApplyError>::Err(
                            ApplyError::NoMonitors,
                        ) && st1 == st0,
                        Option::Some(fb) => ({
                            let owner = switch_owner(st0, workspace, fb);
                            if st0.mon_map().contains_key(owner) {
                                r == Result::<Outcome, ApplyError>::Ok(Outcome::Render)
                                    && st1.ws_map() == (
                                if st0.ws_map().contains_key(workspace) {
                                    st0.ws_map()
                                } else {
                                    st0.ws_map().insert(
                                        workspace,
                                        WsView {
                                            id: workspace,
                                            monitor_name: Option::Some(fb.name),
                                        },
                                    )
                                }) && st1.monitors == set_active_seq(st0.monitors, owner, workspace)
                            } else {
                                r == Result::<Outcome, ApplyError>::Err(ApplyError::UnknownMonitor)
                                    && st1 == st0
                            }
                        }),
                    },
                    EvView::DestroyWorkspace { workspace } => r == Result::<
                        Outcome,
                        ApplyError,
                    >::Ok(Outcome::Render) && st1.monitors == st0.monitors && st1.ws_map()
                        == st0.ws_map().remove(workspace),
                }
            }),
    {
        match ev {
            Event::Reload => Result::Ok(Outcome::Reload),
            Event::Ignored => Result::Ok(Outcome::Skip),
            Event::FocusedMon { monitor, workspace } => {
                self.focus_monitor(monitor, *workspace);
                proof {
                    assert(self@.monitors =~= focus_seq(old(self)@.monitors, monitor@, *workspace));
                }
                Result::Ok(Outcome::Render)
            },
            Event::MoveWorkspace { workspace, monitor } => {
                if self.get_monitor(monitor).is_none() {
                    return Result::Err(ApplyError::UnknownMonitor);
                }
                let new_ws = match self.get_workspace(*workspace) {
                    Option::None => {
                        return Result::Err(ApplyError::UnknownWorkspace);
                    },
                    Option::Some(w) => Workspace {
                        id: w.id,
                        monitor_name: Option::Some(copy_chars(monitor)),
                    },
                };
                proof {
                    crate::keyed::lemma_map_of_key(
                        old(self)@.workspaces,
                        crate::state::ws_key(),
                        *workspace,
                    );
                }
                self.set_workspace(new_ws);
                let found = self.set_active(monitor, *workspace);
                proof {
                    assert(found);
                    assert(self@.monitors =~= set_active_seq(
                        old(self)@.monitors,
                        monitor@,
                        *workspace,
                    ));
                }
                Result::Ok(Outcome::Render)
            },
            Event::CreateWorkspace { workspace } => {
                let fb_name = match self.fallback_monitor() {
                    Option::None => {
                        return Result::Err(ApplyError::NoMonitors);
                    },
                    Option::Some(m) => copy_chars(&m.name),
                };
                self.set_workspace(
                    Workspace { id: *workspace, monitor_name: Option::Some(fb_name) },
                );
                Result::Ok(Outcome::Render)
            },
            Event::SwitchWorkspace { workspace } => {
                let fb_name = match self.fallback_monitor() {
                    Option::None => {
                        return Result::Err(ApplyError::NoMonitors);
                    },
                    Option::Some(m) => copy_chars(&m.name),
                };
                proof {
                    lemma_fallback_in_map(self@.monitors);
                }
                let mut created = false;
                let owner = match self.get_workspace(*workspace) {
                    Option::Some(w) => match &w.monitor_name {
                        Option::Some(n) => copy_chars(n),
                        Option::None => fb_name,
                    },
                    Option::None => {
                        created = true;
                        fb_name
                    },
                };
                if self.get_monitor(&owner).is_none() {
                    return Result::Err(ApplyError::UnknownMonitor);
                }
                if created {
                    self.set_workspace(
                        Workspace {
                            id: *workspace,
                            monitor_name: Option::Some(copy_chars(&owner)),
                        },
                    );
                }
                let found = self.set_active(&owner, *workspace);
                proof {
                    assert(found);
                    assert(self@.monitors =~= set_active_seq(
                        old(self)@.monitors,
                        owner@,
                        *workspace,
                    ));
                }
                Result::Ok(Outcome::Render)
            },
            Event::DestroyWorkspace { workspace } => {
                self.remove_workspace(*workspace);
                Result::Ok(Outcome::Render)
            },
        }
    }

    /// Replaces the whole store by a fresh snapshot, discarding every
    /// incrementally accumulated entry.
    pub fn reseed(&mut self, workspaces: Vec<Workspace>, monitors: Vec<Monitor>)
        ensures
            final(self)@.wf(),
            final(self)@.ws_map() == map_of(
                workspaces@.map_values(|w: Workspace| w@),
                crate::state::ws_key(),
            ),
            final(self)@.mon_map() == map_of(
                monitors@.map_values(|m: Monitor| m@),
                mon_key(),
            ),
            unique_keys(workspaces@.map_values(|w: Workspace| w@), crate::state::ws_key())
                ==> final(self)@.workspaces == workspaces@.map_values(|w: Workspace| w@),
            unique_keys(monitors@.map_values(|m: Monitor| m@), mon_key()) ==> final(self)@.monitors
                == monitors@.map_values(|m: Monitor| m@),
    {
        *self = StateStore::new(workspaces, monitors);
    }
}

} // verus!
