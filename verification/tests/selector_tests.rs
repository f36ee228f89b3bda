use dataflow::{
    ExecutionEnvironment, LogEntry, Scalar, Value, compute_layout, get_next_execution_environment,
    init_frp,
};

use ExecutionEnvironment::{Design, Live};

fn env(e: ExecutionEnvironment) -> Value {
    Value::Scalar(Scalar::Env(e))
}

#[test]
fn next_option_wraps_through_the_available_list() {
    let available = vec![Design, Live];
    assert_eq!(get_next_execution_environment(&Design, &available), Some(Live));
    assert_eq!(get_next_execution_environment(&Live, &available), Some(Design));
}

#[test]
fn next_option_of_a_single_option_is_that_option() {
    let available = vec![Design];
    assert_eq!(get_next_execution_environment(&Design, &available), Some(Design));
}

#[test]
fn next_option_of_an_absent_current_is_none() {
    let available = vec![Design];
    assert_eq!(get_next_execution_environment(&Live, &available), None);
    let empty: Vec<ExecutionEnvironment> = Vec::new();
    assert_eq!(get_next_execution_environment(&Design, &empty), None);
}

#[test]
fn layout_offsets_are_derived_from_size_and_gap() {
    let layout = compute_layout(100, 40, 20);
    assert_eq!(layout.selector_x, 100); // 20 + 80
    assert_eq!(layout.selector_y, 7); // -13 + 40 / 2
    assert_eq!(layout.breadcrumb_gap_width, 210); // 100 + 100 + 10
    assert_eq!(layout.breadcrumb_y, 1); // -13 + 28 / 2
}

#[test]
fn selection_follows_external_updates_and_toggles() {
    let mut frp = init_frp();
    assert!(frp
        .network
        .emit(
            frp.set_available_execution_environments,
            Value::Scalar(Scalar::Envs(vec![Design, Live])),
        )
        .is_ok());
    assert!(frp.network.run_pending(16));

    // An explicit external selection becomes the authoritative value.
    assert!(frp.network.emit(frp.set_execution_environment, env(Live)).is_ok());
    assert!(frp.network.run_pending(16));
    assert_eq!(frp.network.current(frp.out_execution_environment), Some(&env(Live)));

    // A toggle cycles to the next available option, wrapping around.
    assert!(frp
        .network
        .emit(frp.toggle_execution_environment, Value::Scalar(Scalar::Unit))
        .is_ok());
    assert!(frp.network.run_pending(16));
    assert_eq!(frp.network.current(frp.out_execution_environment), Some(&env(Design)));

    // A concurrent geometry update does not alter the selection.
    assert!(frp.network.emit(frp.selector_size, Value::Scalar(Scalar::Dim(100, 40))).is_ok());
    assert!(frp
        .network
        .emit(frp.space_for_window_buttons, Value::Scalar(Scalar::Dim(20, 0)))
        .is_ok());
    assert!(frp.network.run_pending(16));
    assert_eq!(frp.network.current(frp.out_execution_environment), Some(&env(Design)));

    // Toggling again returns to the first selection.
    assert!(frp
        .network
        .emit(frp.toggle_execution_environment, Value::Scalar(Scalar::Unit))
        .is_ok());
    assert!(frp.network.run_pending(16));
    assert_eq!(frp.network.current(frp.out_execution_environment), Some(&env(Live)));
}

#[test]
fn widget_selection_updates_the_authoritative_value() {
    let mut frp = init_frp();
    assert!(frp
        .network
        .emit(
            frp.set_available_execution_environments,
            Value::Scalar(Scalar::Envs(vec![Design, Live])),
        )
        .is_ok());
    assert!(frp
        .network
        .emit(frp.selector_selected_execution_environment, env(Design))
        .is_ok());
    assert!(frp.network.run_pending(16));
    assert_eq!(frp.network.current(frp.out_execution_environment), Some(&env(Design)));
}

#[test]
fn equal_layout_inputs_produce_identical_observer_output() {
    let mut frp = init_frp();
    assert!(frp.network.emit(frp.selector_size, Value::Scalar(Scalar::Dim(100, 40))).is_ok());
    assert!(frp
        .network
        .emit(frp.space_for_window_buttons, Value::Scalar(Scalar::Dim(20, 0)))
        .is_ok());
    let first_len = frp.network.log_len();
    assert!(first_len > 0);
    let l1 = match frp.network.log_entry(first_len - 1) {
        Some(LogEntry::Geometry { layout, .. }) => *layout,
        other => panic!("expected a geometry entry, got {:?}", other),
    };
    // Feed the same size again: the derived layout must be identical.
    assert!(frp.network.emit(frp.selector_size, Value::Scalar(Scalar::Dim(100, 40))).is_ok());
    let second_len = frp.network.log_len();
    assert!(second_len > first_len);
    let l2 = match frp.network.log_entry(second_len - 1) {
        Some(LogEntry::Geometry { layout, .. }) => *layout,
        other => panic!("expected a geometry entry, got {:?}", other),
    };
    assert_eq!(l1, l2);
    assert_eq!(l1.selector_x, 100);
    assert_eq!(l1.selector_y, 7);
    assert_eq!(l1.breadcrumb_gap_width, 210);
    assert_eq!(l1.breadcrumb_y, 1);
}

#[test]
fn toggle_does_nothing_when_current_is_not_available() {
    let mut frp = init_frp();
    // Only Design is available, but the authoritative value is Live.
    assert!(frp
        .network
        .emit(
            frp.set_available_execution_environments,
            Value::Scalar(Scalar::Envs(vec![Design])),
        )
        .is_ok());
    assert!(frp.network.emit(frp.set_execution_environment, env(Live)).is_ok());
    assert!(frp.network.run_pending(16));
    assert_eq!(frp.network.current(frp.out_execution_environment), Some(&env(Live)));
    assert!(frp
        .network
        .emit(frp.toggle_execution_environment, Value::Scalar(Scalar::Unit))
        .is_ok());
    assert!(frp.network.run_pending(16));
    // No next option: the state is unchanged, not an error.
    assert_eq!(frp.network.current(frp.out_execution_environment), Some(&env(Live)));
}
