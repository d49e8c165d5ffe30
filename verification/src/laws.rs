//! The renderer's and dispatcher's guarantees, stated and proved once and
//! for all configurations and states.
use crate::config::ConfigView;
use crate::render::{
    body_upto, entry_spec, lit_focused_prefix, lit_occupied, lit_unoccupied, state_str, underscore,
};
use crate::state::StateView;
use vstd::prelude::*;

verus! {

/// The configured slot ids below `n`, in ascending order.
pub open spec fn slot_ids_upto(cfg: ConfigView, n: int) -> Seq<u8>
    decreases n,
{
    if n <= 0 {
        Seq::empty()
    } else {
        slot_ids_upto(cfg, n - 1) + if cfg.icon_map().contains_key((n - 1) as u8) {
            seq![(n - 1) as u8]
        } else {
            Seq::empty()
        }
    }
}

/// All configured slot ids, in ascending order.
pub open spec fn slot_ids(cfg: ConfigView) -> Seq<u8> {
    slot_ids_upto(cfg, 256)
}

/// The rendered entries of one frame, in slot order.
pub open spec fn entries(cfg: ConfigView, st: StateView) -> Seq<Seq<char>> {
    slot_ids(cfg).map_values(|id: u8| entry_spec(cfg, st, id))
}

proof fn lemma_slot_ids_bounded(cfg: ConfigView, n: int)
    requires
        0 <= n <= 256,
    ensures
        forall|p: int| 0 <= p < slot_ids_upto(cfg, n).len() ==> #[trigger] slot_ids_upto(
            cfg,
            n,
        )[p] < n,
        forall|id: u8| #[trigger] slot_ids_upto(cfg, n).contains(id) <==> id < n
            && cfg.icon_map().contains_key(id),
    decreases n,
{
    if n > 0 {
        lemma_slot_ids_bounded(cfg, n - 1);
        let s = slot_ids_upto(cfg, n);
        let t = slot_ids_upto(cfg, n - 1);
        assert forall|id: u8| #[trigger] s.contains(id) implies id < n
            && cfg.icon_map().contains_key(id) by {
            let p = choose|p: int| 0 <= p < s.len() && s[p] == id;
            if p < t.len() {
                assert(t[p] == id);
                assert(t.contains(id));
            }
        }
        assert forall|id: u8| id < n && cfg.icon_map().contains_key(id) implies #[trigger] s
            .contains(id) by {
            if id < n - 1 {
                assert(t.contains(id));
                let p = choose|p: int| 0 <= p < t.len() && t[p] == id;
                assert(s[p] == id);
            } else {
                assert(s[s.len() - 1] == id);
            }
        }
    }
}

/// One frame holds exactly one entry per configured slot: the entry list is
/// as long as the slot list, and the slot list carries each key of the icon
/// table exactly once.
pub proof fn lemma_one_entry_per_slot(cfg: ConfigView, st: StateView)
    ensures
        entries(cfg, st).len() == slot_ids(cfg).len(),
        entries(cfg, st).len() == cfg.icon_map().dom().len(),
        forall|id: u8| #[trigger] slot_ids(cfg).contains(id) <==> cfg.icon_map().contains_key(id),
        forall|p: int, q: int| 0 <= p < q < slot_ids(cfg).len() ==> slot_ids(cfg)[p] != slot_ids(
            cfg,
        )[q],
{
    lemma_slot_ids_bounded(cfg, 256);
    lemma_slot_ids_ascending(cfg, 256);
    let s = slot_ids(cfg);
    assert(s.no_duplicates());
    s.unique_seq_to_set();
    assert(s.to_set() =~= cfg.icon_map().dom());
}

proof fn lemma_slot_ids_ascending(cfg: ConfigView, n: int)
    requires
        0 <= n <= 256,
    ensures
        forall|p: int, q: int| 0 <= p < q < slot_ids_upto(cfg, n).len() ==> slot_ids_upto(
            cfg,
            n,
        )[p] < slot_ids_upto(cfg, n)[q],
    decreases n,
{
    if n > 0 {
        lemma_slot_ids_ascending(cfg, n - 1);
        lemma_slot_ids_bounded(cfg, n - 1);
        let s = slot_ids_upto(cfg, n);
        let t = slot_ids_upto(cfg, n - 1);
        assert forall|p: int, q: int| 0 <= p < q < s.len() implies s[p] < s[q] by {
            if q < t.len() {
                assert(s[p] == t[p] && s[q] == t[q]);
            } else {
                assert(s[p] == t[p] && t[p] < n - 1 && s[q] == (n - 1) as u8);
            }
        }
    }
}

/// Entries stand in the frame in ascending numeric order of slot id.
pub proof fn lemma_entries_ascending(cfg: ConfigView)
    ensures
        forall|p: int, q: int| 0 <= p < q < slot_ids(cfg).len() ==> slot_ids(cfg)[p] < slot_ids(
            cfg,
        )[q],
{
    lemma_slot_ids_ascending(cfg, 256);
}

proof fn lemma_body_is_entries_upto(cfg: ConfigView, st: StateView, n: int)
    requires
        0 <= n <= 256,
    ensures
        body_upto(cfg, st, n) == slot_ids_upto(cfg, n).map_values(
            |id: u8| entry_spec(cfg, st, id),
        ).flatten_alt(),
    decreases n,
{
    let f = |id: u8| entry_spec(cfg, st, id);
    if n == 0 {
        assert(slot_ids_upto(cfg, n).map_values(f) =~= Seq::<Seq<char>>::empty());
        assert(Seq::<Seq<char>>::empty().flatten_alt() =~= Seq::<char>::empty());
    } else {
        lemma_body_is_entries_upto(cfg, st, n - 1);
        let t = slot_ids_upto(cfg, n - 1).map_values(f);
        if cfg.icon_map().contains_key((n - 1) as u8) {
            let s = slot_ids_upto(cfg, n).map_values(f);
            assert(s.drop_last() =~= t);
            assert(s.last() == f((n - 1) as u8));
            assert(s.flatten_alt() == t.flatten_alt() + f((n - 1) as u8));
        } else {
            assert(slot_ids_upto(cfg, n).map_values(f) =~= t);
            assert(body_upto(cfg, st, n) =~= body_upto(cfg, st, n - 1));
        }
    }
}

/// The body of a frame is exactly the concatenation of the per-slot entries,
/// in slot order.
pub proof fn lemma_body_is_entries(cfg: ConfigView, st: StateView)
    ensures
        body_upto(cfg, st, 256) == entries(cfg, st).flatten_alt(),
{
    lemma_body_is_entries_upto(cfg, st, 256);
}

/// A workspace absent from the store always renders `unoccupied`.
pub proof fn lemma_absent_renders_unoccupied(st: StateView, id: u8)
    requires
        !st.ws_map().contains_key(id),
    ensures
        state_str(st, id) == Option::Some(lit_unoccupied()),
{
}

/// A workspace that exists but is not the one shown on its owning monitor
/// always renders `occupied`.
pub proof fn lemma_inactive_renders_occupied(st: StateView, id: u8, mn: Seq<char>)
    requires
        st.ws_map().contains_key(id),
        st.ws_map()[id].monitor_name == Option::Some(mn),
        st.mon_map().contains_key(mn),
        st.mon_map()[mn].active_workspace.id != id,
    ensures
        state_str(st, id) == Option::Some(lit_occupied()),
{
}

/// A workspace shown on its owning monitor renders `focused_<owner>`, dashes
/// replaced by underscores; in particular this holds when that monitor is
/// the focused one.
pub proof fn lemma_active_renders_focused(st: StateView, id: u8, mn: Seq<char>)
    requires
        st.ws_map().contains_key(id),
        st.ws_map()[id].monitor_name == Option::Some(mn),
        st.mon_map().contains_key(mn),
        st.mon_map()[mn].active_workspace.id == id,
    ensures
        state_str(st, id) == Option::Some(lit_focused_prefix() + underscore(mn)),
{
}

/// Destroying a workspace makes its slot render `unoccupied` on the very
/// next frame, whatever it rendered before (even `focused_...`).
pub proof fn lemma_destroyed_renders_unoccupied(st0: StateView, st1: StateView, id: u8)
    requires
        st1.ws_map() == st0.ws_map().remove(id),
    ensures
        state_str(st1, id) == Option::Some(lit_unoccupied()),
{
    assert(!st1.ws_map().contains_key(id));
}

} // verus!
