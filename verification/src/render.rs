//! The renderer: a pure projection of (configuration, state) into one frame
//! of normalized text.  Every configured workspace slot is rendered, in
//! ascending id order, whatever workspaces currently exist.
use crate::config::{Config, ConfigView};
use crate::normalize::{normalize, normalize_spec};
use crate::state::{StateStore, StateView};
use crate::text::{append_chars, dec_spec, dec_u8, replace_all, replace_spec};
use vstd::prelude::*;

verus! {

/// A state the renderer found that makes rendering impossible; the caller
/// treats this as fatal.
#[derive(Clone, Copy, Debug, PartialEq, Eq, Structural)]
pub enum RenderError {
    /// The workspace exists but has no owning monitor.
    UnassignedWorkspace { id: u8 },
    /// The workspace's owning monitor is not in the store.
    UnknownMonitor { id: u8 },
}

pub open spec fn lit_unoccupied() -> Seq<char> {
    seq!['u', 'n', 'o', 'c', 'c', 'u', 'p', 'i', 'e', 'd']
}

pub open spec fn lit_occupied() -> Seq<char> {
    seq!['o', 'c', 'c', 'u', 'p', 'i', 'e', 'd']
}

pub open spec fn lit_focused_prefix() -> Seq<char> {
    seq!['f', 'o', 'c', 'u', 's', 'e', 'd', '_']
}

pub open spec fn pat_id() -> Seq<char> {
    seq!['{', 'i', 'd', '}']
}

pub open spec fn pat_state() -> Seq<char> {
    seq!['{', 's', 't', 'a', 't', 'e', '}']
}

pub open spec fn pat_icon() -> Seq<char> {
    seq!['{', 'i', 'c', 'o', 'n', '}']
}

pub open spec fn pat_body() -> Seq<char> {
    seq!['{', 'b', 'o', 'd', 'y', '}']
}

/// The monitor name as it appears in a `focused_` state: dashes become
/// underscores.
pub open spec fn underscore(s: Seq<char>) -> Seq<char> {
    s.map_values(|c: char| if c == '-' { '_' } else { c })
}

/// The state text of one workspace slot: `unoccupied` when the workspace is
/// not in the store; otherwise `focused_<owner>` when the owning monitor
/// currently shows it, and `occupied` when it does not.  `None` marks the two
/// fatal conditions: a workspace without an owning monitor name, and an owner
/// that is not in the store.
pub open spec fn state_str(st: StateView, id: u8) -> Option<Seq<char>> {
    if !st.ws_map().contains_key(id) {
        Option::Some(lit_unoccupied())
    } else {
        match st.ws_map()[id].monitor_name {
            Option::None => Option::None,
            Option::Some(mn) => if !st.mon_map().contains_key(mn) {
                Option::None
            } else if st.mon_map()[mn].active_workspace.id == id {
                Option::Some(lit_focused_prefix() + underscore(mn))
            } else {
                Option::Some(lit_occupied())
            },
        }
    }
}

/// One rendered entry: the body template with id, state and icon filled in,
/// in that order.
pub open spec fn entry_spec(cfg: ConfigView, st: StateView, id: u8) -> Seq<char> {
    replace_spec(
        replace_spec(
            replace_spec(cfg.body_template, pat_id(), dec_spec(id as int)),
            pat_state(),
            state_str(st, id)->0,
        ),
        pat_icon(),
        cfg.icon_map()[id].1,
    )
}

/// The body: entries of all configured slots with ids below `n`, ascending.
pub open spec fn body_upto(cfg: ConfigView, st: StateView, n: int) -> Seq<char>
    decreases n,
{
    if n <= 0 {
        Seq::empty()
    } else {
        body_upto(cfg, st, n - 1) + if cfg.icon_map().contains_key((n - 1) as u8) {
            entry_spec(cfg, st, (n - 1) as u8)
        } else {
            Seq::empty()
        }
    }
}

/// The raw frame: the template with the full body substituted.
pub open spec fn frame_spec(cfg: ConfigView, st: StateView) -> Seq<char> {
    replace_spec(cfg.template, pat_body(), body_upto(cfg, st, 256))
}

/// Rendering succeeds exactly when no configured slot is in a fatal state.
pub open spec fn render_ok(cfg: ConfigView, st: StateView) -> bool {
    forall|id: u8| cfg.icon_map().contains_key(id) ==> #[trigger] state_str(st, id) is Some
}

/// The smallest configured id at or above `i` whose state is fatal.
pub open spec fn first_fatal_from(cfg: ConfigView, st: StateView, i: int) -> Option<u8>
    decreases 256 - i,
{
    if i < 0 || i >= 256 {
        Option::None
    } else if cfg.icon_map().contains_key(i as u8) && state_str(st, i as u8) is None {
        Option::Some(i as u8)
    } else {
        first_fatal_from(cfg, st, i + 1)
    }
}

/// The error reported for a fatal slot.
pub open spec fn fatal_error(st: StateView, id: u8) -> RenderError {
    if st.ws_map().contains_key(id) && st.ws_map()[id].monitor_name is None {
        RenderError::UnassignedWorkspace { id }
    } else {
        RenderError::UnknownMonitor { id }
    }
}

/// Renders one frame: every configured slot in ascending id order, each
/// through the body template, the concatenation through the frame template,
/// the whole normalized.  Succeeds exactly when no slot is in a fatal state;
/// otherwise reports the smallest fatal id.
pub fn render(cfg: &Config, st: &StateStore) -> (r: Result<Vec<char>, RenderError>)
    requires
        cfg@.wf(),
        st@.wf(),
    ensures
        r is Ok <==> render_ok(cfg@, st@),
        r matches Result::Ok(out) ==> out@ == normalize_spec(frame_spec(cfg@, st@)),
        r matches Result::Err(e) ==> first_fatal_from(cfg@, st@, 0) matches Option::Some(b) && e
            == fatal_error(st@, b),
{
    let mut body: Vec<char> = Vec::new();
    let mut i: usize = 0;
    proof {
        assert(body@ =~= body_upto(cfg@, st@, 0));
    }
    while i < 256
        invariant
            0 <= i <= 256,
            cfg@.wf(),
            st@.wf(),
            body@ == body_upto(cfg@, st@, i as int),
            forall|k: u8| k < i ==> (cfg@.icon_map().contains_key(k) ==> #[trigger] state_str(
                st@,
                k,
            ) is Some),
            first_fatal_from(cfg@, st@, 0) == first_fatal_from(cfg@, st@, i as int),
        decreases 256 - i,
    {
        let id = i as u8;
        match cfg.get_icon(id) {
            Option::None => {
                proof {
                    assert(body@ + Seq::<char>::empty() =~= body@);
                }
            },
            Option::Some(icon) => {
                let state: Vec<char> = match st.get_workspace(id) {
                    Option::None => lit_unoccupied_exec(),
                    Option::Some(w) => match &w.monitor_name {
                        Option::None => {
                            proof {
                                assert(state_str(st@, id) is None);
                                assert(first_fatal_from(cfg@, st@, i as int) == Option::Some(id));
                                assert(!render_ok(cfg@, st@));
                            }
                            return Result::Err(RenderError::UnassignedWorkspace { id });
                        },
                        Option::Some(mn) => match st.get_monitor(mn) {
                            Option::None => {
                                proof {
                                    assert(state_str(st@, id) is None);
                                    assert(first_fatal_from(cfg@, st@, i as int) == Option::Some(
                                        id,
                                    ));
                                    assert(!render_ok(cfg@, st@));
                                }
                                return Result::Err(RenderError::UnknownMonitor { id });
                            },
                            Option::Some(m) => {
                                if m.active_workspace.id == id {
                                    let mut f = lit_focused_prefix_exec();
                                    let u = underscore_chars(mn);
                                    append_chars(&mut f, &u);
                                    f
                                } else {
                                    lit_occupied_exec()
                                }
                            },
                        },
                    },
                };
                proof {
                    assert(state_str(st@, id) is Some);
                    assert(state@ == state_str(st@, id)->0);
                }
                let digits = dec_u8(id);
                let e1 = replace_all(&cfg.body_template, &pat_id_exec(), &digits);
                let e2 = replace_all(&e1, &pat_state_exec(), &state);
                let entry = replace_all(&e2, &pat_icon_exec(), icon);
                proof {
                    assert(entry@ == entry_spec(cfg@, st@, id));
                    assert(body_upto(cfg@, st@, i as int + 1) == body_upto(cfg@, st@, i as int)
                        + entry_spec(cfg@, st@, id));
                }
                append_chars(&mut body, &entry);
            },
        }
        i = i + 1;
    }
    let frame = replace_all(&cfg.template, &pat_body_exec(), &body);
    let out = normalize(&frame);
    proof {
        assert forall|id: u8| cfg@.icon_map().contains_key(id) implies #[trigger] state_str(
            st@,
            id,
        ) is Some by {
            assert(id < 256);
        }
    }
    Result::Ok(out)
}

fn lit_unoccupied_exec() -> (r: Vec<char>)
    ensures
        r@ == lit_unoccupied(),
{
    let r = vec!['u', 'n', 'o', 'c', 'c', 'u', 'p', 'i', 'e', 'd'];
    proof {
        assert(r@ =~= lit_unoccupied());
    }
    r
}

fn lit_occupied_exec() -> (r: Vec<char>)
    ensures
        r@ == lit_occupied(),
{
    let r = vec!['o', 'c', 'c', 'u', 'p', 'i', 'e', 'd'];
    proof {
        assert(r@ =~= lit_occupied());
    }
    r
}

fn lit_focused_prefix_exec() -> (r: Vec<char>)
    ensures
        r@ == lit_focused_prefix(),
{
    let r = vec!['f', 'o', 'c', 'u', 's', 'e', 'd', '_'];
    proof {
        assert(r@ =~= lit_focused_prefix());
    }
    r
}

fn pat_id_exec() -> (r: Vec<char>)
    ensures
        r@ == pat_id(),
{
    let r = vec!['{', 'i', 'd', '}'];
    proof {
        assert(r@ =~= pat_id());
    }
    r
}

fn pat_state_exec() -> (r: Vec<char>)
    ensures
        r@ == pat_state(),
{
    let r = vec!['{', 's', 't', 'a', 't', 'e', '}'];
    proof {
        assert(r@ =~= pat_state());
    }
    r
}

fn pat_icon_exec() -> (r: Vec<char>)
    ensures
        r@ == pat_icon(),
{
    let r = vec!['{', 'i', 'c', 'o', 'n', '}'];
    proof {
        assert(r@ =~= pat_icon());
    }
    r
}

fn pat_body_exec() -> (r: Vec<char>)
    ensures
        r@ == pat_body(),
{
    let r = vec!['{', 'b', 'o', 'd', 'y', '}'];
    proof {
        assert(r@ =~= pat_body());
    }
    r
}

/// Replaces every dash by an underscore.
pub fn underscore_chars(s: &Vec<char>) -> (r: Vec<char>)
    ensures
        r@ == underscore(s@),
{
    let mut r: Vec<char> = Vec::new();
    let mut i: usize = 0;
    while i < s.len()
        invariant
            0 <= i <= s@.len(),
            s@.len() == s.len(),
            r@.len() == i,
            forall|k: int| 0 <= k < i ==> r@[k] == (if s@[k] == '-' {
                '_'
            } else {
                s@[k]
            }),
        decreases s@.len() - i,
    {
        if s[i] == '-' {
            r.push('_');
        } else {
            r.push(s[i]);
        }
        i = i + 1;
    }
    proof {
        assert(r@ =~= underscore(s@));
    }
    r
}

} // verus!
