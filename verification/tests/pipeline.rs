use hypr_workspaces::config::Config;
use hypr_workspaces::dispatch::{ApplyError, Outcome};
use hypr_workspaces::events::{parse_line, Event, ParseError};
use hypr_workspaces::normalize::normalize;
use hypr_workspaces::render::{render, RenderError};
use hypr_workspaces::state::{Monitor, StateStore, Workspace};
use hypr_workspaces::text::parse_u8;

fn cv(s: &str) -> Vec<char> {
    s.chars().collect()
}

fn sv(v: &[char]) -> String {
    v.iter().collect()
}

fn demo_config() -> Config {
    Config::new(
        vec![(1, cv("A")), (2, cv("B"))],
        cv("[{body}]"),
        cv("({id}:{state}:{icon})"),
    )
}

fn ws(id: u8, monitor: Option<&str>) -> Workspace {
    Workspace {
        id,
        monitor_name: monitor.map(cv),
    }
}

fn mon(name: &str, active: u8, focused: bool) -> Monitor {
    Monitor {
        name: cv(name),
        active_workspace: ws(active, None),
        focused,
    }
}

#[test]
fn scenario_a_empty_state() {
    let cfg = demo_config();
    let st = StateStore::new(vec![], vec![]);
    let out = render(&cfg, &st).unwrap();
    assert_eq!(sv(&out), "[(1:unoccupied:A)(2:unoccupied:B)]");
}

#[test]
fn scenario_b_focusedmon() {
    let cfg = demo_config();
    let mut st = StateStore::new(vec![ws(1, Some("DP-1"))], vec![mon("DP-1", 2, false)]);
    let line = cv("focusedmon>>DP-1,1");
    let ev = parse_line(&line).unwrap();
    let outcome = st.apply(&ev).unwrap();
    assert_eq!(outcome, Outcome::Render);
    let out = render(&cfg, &st).unwrap();
    assert_eq!(sv(&out), "[(1:focused_DP_1:A)(2:unoccupied:B)]");
}

#[test]
fn scenario_c_destroyworkspace() {
    let cfg = demo_config();
    let mut st = StateStore::new(vec![ws(1, Some("DP-1"))], vec![mon("DP-1", 2, false)]);
    st.apply(&parse_line(&cv("focusedmon>>DP-1,1")).unwrap()).unwrap();
    let outcome = st.apply(&parse_line(&cv("destroyworkspace>>1")).unwrap()).unwrap();
    assert_eq!(outcome, Outcome::Render);
    let out = render(&cfg, &st).unwrap();
    assert_eq!(sv(&out), "[(1:unoccupied:A)(2:unoccupied:B)]");
}

#[test]
fn scenario_d_monitoradded_reloads() {
    let mut st = StateStore::new(vec![ws(1, Some("DP-1"))], vec![mon("DP-1", 1, true)]);
    let ev = parse_line(&cv("monitoradded>>HDMI-1")).unwrap();
    let outcome = st.apply(&ev).unwrap();
    assert_eq!(outcome, Outcome::Reload);
    // the caller queries a fresh snapshot and replaces the store wholesale
    st.reseed(vec![ws(3, Some("HDMI-1"))], vec![mon("HDMI-1", 3, true)]);
    assert!(st.get_workspace(1).is_none());
    assert!(st.get_workspace(3).is_some());
    assert!(st.get_monitor(&cv("DP-1")).is_none());
    assert!(st.get_monitor(&cv("HDMI-1")).is_some());
}

#[test]
fn entry_count_tracks_configured_slots() {
    // three configured slots, no live workspaces: three entries
    let cfg = Config::new(
        vec![(7, cv("x")), (3, cv("y")), (9, cv("z"))],
        cv("{body}"),
        cv("<{id}>"),
    );
    let st = StateStore::new(vec![], vec![]);
    let out = render(&cfg, &st).unwrap();
    assert_eq!(sv(&out), "<3><7><9>");
}

#[test]
fn entries_appear_in_ascending_id_order() {
    let cfg = Config::new(
        vec![(200, cv("c")), (5, cv("a")), (40, cv("b"))],
        cv("{body}"),
        cv("{id},"),
    );
    let st = StateStore::new(vec![], vec![]);
    let out = render(&cfg, &st).unwrap();
    assert_eq!(sv(&out), "5,40,200,");
}

#[test]
fn occupied_when_not_active_on_owner() {
    let cfg = demo_config();
    let st = StateStore::new(
        vec![ws(1, Some("DP-1")), ws(2, Some("DP-1"))],
        vec![mon("DP-1", 2, true)],
    );
    let out = render(&cfg, &st).unwrap();
    assert_eq!(sv(&out), "[(1:occupied:A)(2:focused_DP_1:B)]");
}

#[test]
fn focused_state_replaces_dashes() {
    let cfg = Config::new(vec![(4, cv("i"))], cv("{body}"), cv("{state}"));
    let st = StateStore::new(
        vec![ws(4, Some("eDP-1-b"))],
        vec![mon("eDP-1-b", 4, true)],
    );
    let out = render(&cfg, &st).unwrap();
    assert_eq!(sv(&out), "focused_eDP_1_b");
}

#[test]
fn normalization_compacts_parentheses() {
    let cfg = demo_config();
    let mut st = StateStore::new(vec![], vec![]);
    // indented templates collapse around parentheses
    let cfg2 = Config::new(
        vec![(1, cv("A"))],
        cv("[ {body} ]"),
        cv("  ({id})  "),
    );
    let out = render(&cfg2, &st).unwrap();
    assert_eq!(sv(&out), "[(1)]");
    // unrecognized events change nothing and request no render
    let outcome = st.apply(&parse_line(&cv("openlayer>>wofi")).unwrap()).unwrap();
    assert_eq!(outcome, Outcome::Skip);
    let out2 = render(&cfg, &st).unwrap();
    assert_eq!(sv(&out2), "[(1:unoccupied:A)(2:unoccupied:B)]");
}

#[test]
fn normalization_is_idempotent_on_samples() {
    for s in [
        "a  (b) c",
        ")  x  (",
        "[ ( 1 )  ( 2 ) ]",
        "   ",
        "",
        "no parens at all",
        "((( )))",
    ] {
        let once = normalize(&cv(s));
        let twice = normalize(&once);
        assert_eq!(sv(&twice), sv(&once));
    }
}

#[test]
fn normalization_exact_values() {
    assert_eq!(sv(&normalize(&cv("  ("))), "(");
    assert_eq!(sv(&normalize(&cv(") "))), ")");
    assert_eq!(sv(&normalize(&cv("a \n (b) \n c"))), "a(b)c");
}

#[test]
fn create_workspace_goes_to_focused_monitor() {
    let cfg = Config::new(
        vec![(1, cv("A")), (2, cv("B"))],
        cv("{body}"),
        cv("({id}:{state})"),
    );
    let mut st = StateStore::new(
        vec![],
        vec![mon("DP-1", 9, false), mon("DP-2", 9, true)],
    );
    st.apply(&parse_line(&cv("createworkspace>>1")).unwrap()).unwrap();
    // created on the focused monitor DP-2, which still shows workspace 9
    let out = render(&cfg, &st).unwrap();
    assert_eq!(sv(&out), "(1:occupied)(2:unoccupied)");
    // switching to it makes its owner show it
    st.apply(&parse_line(&cv("workspace>>1")).unwrap()).unwrap();
    let out2 = render(&cfg, &st).unwrap();
    assert_eq!(sv(&out2), "(1:focused_DP_2)(2:unoccupied)");
}

#[test]
fn move_workspace_reassigns_owner() {
    let cfg = Config::new(vec![(1, cv("A"))], cv("{body}"), cv("{state}"));
    let mut st = StateStore::new(
        vec![ws(1, Some("DP-1"))],
        vec![mon("DP-1", 1, true), mon("DP-2", 9, false)],
    );
    st.apply(&parse_line(&cv("moveworkspace>>1,DP-2")).unwrap()).unwrap();
    let out = render(&cfg, &st).unwrap();
    assert_eq!(sv(&out), "focused_DP_2");
}

#[test]
fn parse_line_recognizes_every_kind() {
    assert!(matches!(parse_line(&cv("monitoradded>>x")).unwrap(), Event::Reload));
    assert!(matches!(parse_line(&cv("monitorremoved>>x")).unwrap(), Event::Reload));
    assert!(matches!(
        parse_line(&cv("focusedmon>>DP-1,3")).unwrap(),
        Event::FocusedMon { workspace: 3, .. }
    ));
    assert!(matches!(
        parse_line(&cv("moveworkspace>>3,DP-1")).unwrap(),
        Event::MoveWorkspace { workspace: 3, .. }
    ));
    assert!(matches!(
        parse_line(&cv("createworkspace>>12")).unwrap(),
        Event::CreateWorkspace { workspace: 12 }
    ));
    assert!(matches!(
        parse_line(&cv("workspace>>255")).unwrap(),
        Event::SwitchWorkspace { workspace: 255 }
    ));
    assert!(matches!(
        parse_line(&cv("destroyworkspace>>0")).unwrap(),
        Event::DestroyWorkspace { workspace: 0 }
    ));
    assert!(matches!(parse_line(&cv("openwindow>>abc")).unwrap(), Event::Ignored));
}

#[test]
fn parse_line_trims_and_splits_on_first_delimiter() {
    let ev = parse_line(&cv("  workspace>>7\n")).unwrap();
    assert!(matches!(ev, Event::SwitchWorkspace { workspace: 7 }));
    // payload may itself contain the delimiter; only the first one splits
    let ev2 = parse_line(&cv("focusedmon>>DP>>1,2")).unwrap();
    match ev2 {
        Event::FocusedMon { monitor, workspace } => {
            assert_eq!(sv(&monitor), "DP>>1");
            assert_eq!(workspace, 2);
        }
        _ => panic!("wrong event"),
    }
}

#[test]
fn parse_errors() {
    assert_eq!(parse_line(&cv("no delimiter here")).unwrap_err(), ParseError::MissingDelimiter);
    assert_eq!(parse_line(&cv("focusedmon>>DP-1")).unwrap_err(), ParseError::MissingField);
    assert_eq!(parse_line(&cv("moveworkspace>>7")).unwrap_err(), ParseError::MissingField);
    assert_eq!(parse_line(&cv("workspace>>abc")).unwrap_err(), ParseError::InvalidId);
    assert_eq!(parse_line(&cv("workspace>>256")).unwrap_err(), ParseError::InvalidId);
    assert_eq!(parse_line(&cv("workspace>>")).unwrap_err(), ParseError::InvalidId);
    assert_eq!(parse_line(&cv("createworkspace>>1,2")).unwrap_err(), ParseError::InvalidId);
    assert_eq!(parse_line(&cv("focusedmon>>DP-1,9x")).unwrap_err(), ParseError::InvalidId);
}

#[test]
fn parse_u8_accepts_leading_zeros() {
    assert_eq!(parse_u8(&cv("007")), Some(7));
    assert_eq!(parse_u8(&cv("0")), Some(0));
    assert_eq!(parse_u8(&cv("255")), Some(255));
    assert_eq!(parse_u8(&cv("256")), None);
    assert_eq!(parse_u8(&cv("00000000000000255")), Some(255));
    assert_eq!(parse_u8(&cv("")), None);
    assert_eq!(parse_u8(&cv("+1")), None);
}

#[test]
fn apply_errors_leave_state_untouched() {
    let cfg = demo_config();
    let mut st = StateStore::new(vec![ws(1, Some("DP-1"))], vec![mon("DP-1", 1, true)]);
    let before = render(&cfg, &st).unwrap();

    let e = st.apply(&parse_line(&cv("moveworkspace>>1,DP-9")).unwrap()).unwrap_err();
    assert_eq!(e, ApplyError::UnknownMonitor);
    let e = st.apply(&parse_line(&cv("moveworkspace>>2,DP-1")).unwrap()).unwrap_err();
    assert_eq!(e, ApplyError::UnknownWorkspace);

    let after = render(&cfg, &st).unwrap();
    assert_eq!(sv(&before), sv(&after));
}

#[test]
fn workspace_events_need_a_monitor() {
    let mut st = StateStore::new(vec![], vec![]);
    let e = st.apply(&parse_line(&cv("createworkspace>>1")).unwrap()).unwrap_err();
    assert_eq!(e, ApplyError::NoMonitors);
    let e = st.apply(&parse_line(&cv("workspace>>1")).unwrap()).unwrap_err();
    assert_eq!(e, ApplyError::NoMonitors);
}

#[test]
fn create_workspace_without_focus_falls_back_to_first_monitor() {
    let cfg = Config::new(vec![(1, cv("A"))], cv("{body}"), cv("{state}"));
    let mut st = StateStore::new(
        vec![],
        vec![mon("DP-1", 1, false), mon("DP-2", 1, false)],
    );
    st.apply(&parse_line(&cv("createworkspace>>1")).unwrap()).unwrap();
    // owned by DP-1 (first in storage order), which shows workspace 1
    let out = render(&cfg, &st).unwrap();
    assert_eq!(sv(&out), "focused_DP_1");
}

#[test]
fn render_errors_name_the_bad_slot() {
    let cfg = demo_config();
    // workspace present but never assigned to a monitor
    let st = StateStore::new(vec![ws(1, None)], vec![mon("DP-1", 1, true)]);
    assert_eq!(
        render(&cfg, &st).unwrap_err(),
        RenderError::UnassignedWorkspace { id: 1 }
    );
    // workspace names a monitor that is not in the store
    let st2 = StateStore::new(vec![ws(2, Some("gone"))], vec![mon("DP-1", 1, true)]);
    assert_eq!(render(&cfg, &st2).unwrap_err(), RenderError::UnknownMonitor { id: 2 });
}

#[test]
fn focusedmon_defocuses_other_monitors() {
    let cfg = Config::new(
        vec![(1, cv("A")), (2, cv("B"))],
        cv("{body}"),
        cv("({id}:{state})"),
    );
    let mut st = StateStore::new(
        vec![ws(1, Some("DP-1")), ws(2, Some("DP-2"))],
        vec![mon("DP-1", 1, true), mon("DP-2", 9, false)],
    );
    st.apply(&parse_line(&cv("focusedmon>>DP-2,2")).unwrap()).unwrap();
    let out = render(&cfg, &st).unwrap();
    // DP-1 still shows 1, so 1 stays focused_DP_1 by ownership; DP-2 now shows 2
    assert_eq!(sv(&out), "(1:focused_DP_1)(2:focused_DP_2)");
    // and exactly one monitor has the focus flag
    let mut focused = 0;
    for i in 0..st.num_monitors() {
        if st.monitor_at(i).focused {
            focused += 1;
        }
    }
    assert_eq!(focused, 1);
}

#[test]
fn switch_unassigned_workspace_uses_fallback_owner() {
    let cfg = Config::new(vec![(1, cv("A"))], cv("{body}"), cv("{state}"));
    // workspace 1 exists but was never assigned to a monitor; the focused
    // monitor takes the activation
    let mut st = StateStore::new(
        vec![ws(1, None)],
        vec![mon("DP-1", 9, false), mon("DP-2", 9, true)],
    );
    st.apply(&parse_line(&cv("workspace>>1")).unwrap()).unwrap();
    // DP-2 now shows workspace 1, but the workspace itself stays unassigned,
    // which the renderer treats as fatal
    assert_eq!(
        render(&cfg, &st).unwrap_err(),
        RenderError::UnassignedWorkspace { id: 1 }
    );
    assert_eq!(st.get_monitor(&cv("DP-2")).unwrap().active_workspace.id, 1);
}

#[test]
fn switch_workspace_with_dangling_owner_fails() {
    let mut st = StateStore::new(vec![ws(1, Some("gone"))], vec![mon("DP-1", 9, true)]);
    let e = st.apply(&parse_line(&cv("workspace>>1")).unwrap()).unwrap_err();
    assert_eq!(e, ApplyError::UnknownMonitor);
    // untouched: DP-1 still shows 9
    assert_eq!(st.get_monitor(&cv("DP-1")).unwrap().active_workspace.id, 9);
}

#[test]
fn switch_existing_workspace_activates_its_own_monitor() {
    let cfg = Config::new(vec![(1, cv("A"))], cv("{body}"), cv("{state}"));
    // workspace 1 lives on DP-1, while DP-2 is the focused monitor
    let mut st = StateStore::new(
        vec![ws(1, Some("DP-1"))],
        vec![mon("DP-1", 9, false), mon("DP-2", 9, true)],
    );
    st.apply(&parse_line(&cv("workspace>>1")).unwrap()).unwrap();
    let out = render(&cfg, &st).unwrap();
    assert_eq!(sv(&out), "focused_DP_1");
}

#[test]
fn store_operations_roundtrip() {
    let mut st = StateStore::new(vec![], vec![]);
    st.set_monitor(mon("DP-1", 3, true));
    st.set_workspace(ws(3, Some("DP-1")));
    assert_eq!(st.num_monitors(), 1);
    assert_eq!(st.get_monitor(&cv("DP-1")).unwrap().active_workspace.id, 3);
    assert_eq!(
        st.get_workspace(3).unwrap().monitor_name.as_ref().map(|n| sv(n)),
        Some("DP-1".to_string())
    );
    // replacing a workspace by id keeps the table keyed
    st.set_workspace(ws(3, Some("DP-2")));
    assert_eq!(
        st.get_workspace(3).unwrap().monitor_name.as_ref().map(|n| sv(n)),
        Some("DP-2".to_string())
    );
    st.remove_workspace(3);
    assert!(st.get_workspace(3).is_none());
    // removing an absent id is a no-op
    st.remove_workspace(3);
    assert!(st.get_workspace(3).is_none());
}

#[test]
fn focusedmon_for_unknown_monitor_defocuses_everything() {
    let mut st = StateStore::new(vec![], vec![mon("DP-1", 1, true)]);
    // no monitor matches, so the sweep only clears focus flags
    st.apply(&parse_line(&cv("focusedmon>>HDMI-9,1")).unwrap()).unwrap();
    assert!(!st.monitor_at(0).focused);
    assert_eq!(st.monitor_at(0).active_workspace.id, 1);
}

#[test]
fn duplicate_snapshot_keys_last_wins() {
    let cfg = Config::new(vec![(1, cv("A"))], cv("{body}"), cv("{state}"));
    let st = StateStore::new(
        vec![ws(1, Some("DP-1")), ws(1, Some("DP-2"))],
        vec![mon("DP-1", 9, false), mon("DP-2", 1, true)],
    );
    let out = render(&cfg, &st).unwrap();
    assert_eq!(sv(&out), "focused_DP_2");
}
