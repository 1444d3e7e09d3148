use simaai_sentinel::model::MetricDefinition;
use simaai_sentinel::tui::{
    age_label, collector_state, cpu_core_count, CollectorState, duration_label, focused_processes, run_symbol, tab_at, thermal_groups, thermal_metric_keys,
    truncate_text, visible_run_index, CompareState, InputMode, KeyCode, KeyInput, OpsAction,
    OpsContext, OpsState, RunRef, Tab, CONTROL,
};

fn run(id: &str, name: &str) -> RunRef {
    RunRef {
        id: id.to_string(),
        name: name.to_string(),
    }
}

fn key(code: KeyCode) -> KeyInput {
    KeyInput {
        code,
        modifiers: 0,
        press: true,
    }
}

const CTX: OpsContext = OpsContext {
    core_count: 4,
    thermal_groups: 3,
};

#[test]
fn tabs_and_titles() {
    assert_eq!(tab_at(0), Tab::Overview);
    assert_eq!(tab_at(5).title(), "Compare Runs");
    assert_eq!(Tab::Storage.title(), "Storage/Net");
    assert_eq!(run_symbol(0), "⠿");
    assert_eq!(run_symbol(9), "•");
    assert_eq!(truncate_text("abcdef", 4), "abc…");
    assert_eq!(truncate_text("abc", 4), "abc");
}

#[test]
fn tab_keys_cycle_and_jump() {
    let mut state = OpsState::new(Vec::new(), false);
    assert!(matches!(state.handle_key(key(KeyCode::BackTab), CTX), OpsAction::Continue));
    assert_eq!(state.active_tab(), Tab::Compare);
    state.handle_key(key(KeyCode::Tab), CTX);
    assert_eq!(state.active_tab(), Tab::Overview);
    state.handle_key(key(KeyCode::Char('4')), CTX);
    assert_eq!(state.active_tab(), Tab::System);
    state.drawn();
    assert!(!state.dirty);
    let release = KeyInput {
        code: KeyCode::Tab,
        modifiers: 0,
        press: false,
    };
    state.handle_key(release, CTX);
    assert_eq!(state.active_tab(), Tab::System);
}

#[test]
fn quit_keys() {
    let mut state = OpsState::new(Vec::new(), false);
    assert!(matches!(state.handle_key(key(KeyCode::Char('q')), CTX), OpsAction::Quit));
    let ctrl_c = KeyInput {
        code: KeyCode::Char('c'),
        modifiers: CONTROL,
        press: true,
    };
    assert!(matches!(state.handle_key(ctrl_c, CTX), OpsAction::Quit));
}

#[test]
fn checkpoint_prompt_collects_a_trimmed_name() {
    let mut state = OpsState::new(Vec::new(), false);
    state.handle_key(key(KeyCode::Char('r')), CTX);
    assert!(matches!(&state.input, InputMode::CheckpointName(name) if name.is_empty()));
    assert!(matches!(state.handle_key(key(KeyCode::Enter), CTX), OpsAction::Continue));
    for c in [' ', 'a', 'b', 'x'] {
        state.handle_key(key(KeyCode::Char(c)), CTX);
    }
    state.handle_key(key(KeyCode::Backspace), CTX);
    match state.handle_key(key(KeyCode::Enter), CTX) {
        OpsAction::StartRun(name) => assert_eq!(name, "ab"),
        _ => panic!("expected a start"),
    }
    state.start_succeeded();
    assert!(state.recording);
    assert!(matches!(state.handle_key(key(KeyCode::Char('r')), CTX), OpsAction::StopRun));
}

#[test]
fn compare_selection_visibility_and_delete_confirmation() {
    let runs = vec![run("1", "base"), run("2", "opt"), run("3", "third")];
    let mut state = OpsState::new(runs, false);
    assert_eq!(state.compare.visible, vec!["1".to_string(), "2".to_string()]);
    assert_eq!(state.compare.baseline.as_deref(), Some("1"));
    state.handle_key(key(KeyCode::Char('6')), CTX);
    state.handle_key(key(KeyCode::Down), CTX);
    state.handle_key(key(KeyCode::Char(' ')), CTX);
    assert_eq!(state.compare.visible, vec!["1".to_string()]);
    state.handle_key(key(KeyCode::Char(' ')), CTX);
    assert_eq!(visible_run_index(&state.compare, "2"), Some(1));
    state.handle_key(key(KeyCode::Enter), CTX);
    assert_eq!(state.compare.baseline.as_deref(), Some("2"));
    assert!(matches!(state.handle_key(key(KeyCode::Char('d')), CTX), OpsAction::Continue));
    assert_eq!(state.compare.pending_delete.as_deref(), Some("2"));
    match state.handle_key(key(KeyCode::Char('d')), CTX) {
        OpsAction::Delete { id, name } => {
            assert_eq!((id.as_str(), name.as_str()), ("2", "opt"));
        }
        _ => panic!("expected a delete"),
    }
    match state.handle_key(key(KeyCode::Char('x')), CTX) {
        OpsAction::Export(ids) => assert_eq!(ids, vec!["1".to_string(), "2".to_string()]),
        _ => panic!("expected an export"),
    }
}

#[test]
fn refresh_keeps_visible_runs_that_still_exist() {
    let mut compare = CompareState::new(vec![run("1", "a"), run("2", "b")]);
    compare.selected = 1;
    compare.refresh(vec![run("2", "b")]);
    assert_eq!(compare.selected, 0);
    assert_eq!(compare.visible, vec!["2".to_string()]);
    assert_eq!(compare.baseline.as_deref(), Some("2"));
}

#[test]
fn labels_for_ages_and_durations() {
    assert_eq!(age_label(-5), "0s ago");
    assert_eq!(age_label(59), "59s ago");
    assert_eq!(age_label(600), "10m ago");
    assert_eq!(age_label(7200), "2h ago");
    assert_eq!(age_label(7260), "2h1m ago");
    assert_eq!(duration_label(5), "5s");
    assert_eq!(duration_label(65), "1m05s");
    assert_eq!(duration_label(600), "10m00s");
}

fn metric(key: &str, unit: &str) -> MetricDefinition {
    MetricDefinition::new(key, key, key, "G", unit, "", None, None)
}

#[test]
fn metric_counts_and_thermal_keys() {
    let metrics = vec![
        metric("cpu_core_0_usage_pct", "%"),
        metric("rtsn_0", "C"),
        metric("cpu_core_1_usage_pct", "%"),
        metric("cpu_usage_pct", "%"),
        metric("lm96163_temp1", "C"),
    ];
    assert_eq!(cpu_core_count(&metrics), 2);
    assert_eq!(
        thermal_metric_keys(&metrics),
        vec!["rtsn_0".to_string(), "lm96163_temp1".to_string()]
    );
}

fn grouped(key: &str, group: &str, unit: &str) -> MetricDefinition {
    MetricDefinition::new(key, key, key, group, unit, "", None, None)
}

#[test]
fn thermal_groups_put_known_groups_first_then_text_order() {
    let metrics = vec![
        grouped("rtsn_0", "MLA", "C"),
        grouped("lm", "Board", "C"),
        grouped("z1", "Zeta", "C"),
        grouped("a1", "Alpha", "C"),
        grouped("cpu", "MLA", "%"),
        grouped("rtsn_1", "MLA", "C"),
        grouped("a2", "Alpha", "C"),
    ];
    let groups = thermal_groups(&metrics);
    let names: Vec<&str> = groups.iter().map(|(name, _)| name.as_str()).collect();
    assert_eq!(names, ["MLA", "Board", "Alpha", "Zeta"]);
    assert_eq!(groups[0].1, vec!["rtsn_0".to_string(), "rtsn_1".to_string()]);
    assert_eq!(groups[2].1, vec!["a1".to_string(), "a2".to_string()]);
    assert!(thermal_groups(&[]).is_empty());
}

#[test]
fn processes_for_a_core_fall_back_to_all() {
    let cores = [Some(1), None, Some(0), Some(1)];
    assert_eq!(focused_processes(&cores, 1), vec![0, 3]);
    assert_eq!(focused_processes(&cores, 0), vec![2]);
    assert_eq!(focused_processes(&cores, 7), vec![0, 1, 2, 3]);
    assert!(focused_processes(&[], 0).is_empty());
}

#[test]
fn collector_state_labels() {
    assert_eq!(collector_state(0, true, false), CollectorState::Unavailable);
    assert_eq!(collector_state(0, false, true).label(), "UNAVAILABLE");
    assert_eq!(collector_state(3, false, false), CollectorState::Degraded);
    assert_eq!(collector_state(3, true, true).label(), "DEGRADED");
    assert_eq!(collector_state(3, true, false), CollectorState::Active);
    assert_eq!(CollectorState::Active.label(), "ACTIVE");
}
