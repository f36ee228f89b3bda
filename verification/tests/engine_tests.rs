use dataflow::{
    BuildError, EmitError, ExecutionEnvironment, FilterMapFn, MapFn, Network, ObserverAction,
    PredFn, Scalar, Value,
};

fn env(e: ExecutionEnvironment) -> Value {
    Value::Scalar(Scalar::Env(e))
}

#[test]
fn source_emit_updates_current_value() {
    let mut net = Network::new();
    let s = net.source();
    assert_eq!(net.current(s), None);
    assert!(net.emit(s, env(ExecutionEnvironment::Design)).is_ok());
    assert_eq!(net.current(s), Some(&env(ExecutionEnvironment::Design)));
    assert!(net.emit(s, env(ExecutionEnvironment::Live)).is_ok());
    assert_eq!(net.current(s), Some(&env(ExecutionEnvironment::Live)));
}

#[test]
fn mapping_follows_its_upstream() {
    let mut net = Network::new();
    let s = net.source();
    let m = net.mapping(s, MapFn::Identity).unwrap();
    let c = net.mapping(s, MapFn::ConstEnv(ExecutionEnvironment::Live)).unwrap();
    assert!(net.emit(s, env(ExecutionEnvironment::Design)).is_ok());
    assert_eq!(net.current(m), Some(&env(ExecutionEnvironment::Design)));
    assert_eq!(net.current(c), Some(&env(ExecutionEnvironment::Live)));
}

#[test]
fn merge_any_tie_break_takes_first_declared_upstream() {
    let mut net = Network::new();
    let s = net.source();
    let a = net.mapping(s, MapFn::ConstEnv(ExecutionEnvironment::Design)).unwrap();
    let b = net.mapping(s, MapFn::ConstEnv(ExecutionEnvironment::Live)).unwrap();
    let first_a = net.merge_any(vec![a, b]).unwrap();
    let first_b = net.merge_any(vec![b, a]).unwrap();
    assert!(net.emit(s, Value::Scalar(Scalar::Unit)).is_ok());
    // Both upstreams fired in the same pass from the common ancestor; each
    // merge forwards the upstream it declared first.
    assert_eq!(net.current(first_a), Some(&env(ExecutionEnvironment::Design)));
    assert_eq!(net.current(first_b), Some(&env(ExecutionEnvironment::Live)));
}

#[test]
fn merge_all_waits_for_every_upstream() {
    let mut net = Network::new();
    let x = net.source();
    let y = net.source();
    let m = net.merge_all(vec![x, y]).unwrap();
    assert!(net.emit(x, env(ExecutionEnvironment::Design)).is_ok());
    // Only one upstream has ever fired: the merge stays silent.
    assert_eq!(net.current(m), None);
    assert!(net.emit(y, env(ExecutionEnvironment::Live)).is_ok());
    assert_eq!(
        net.current(m),
        Some(&Value::Tuple(vec![
            Scalar::Env(ExecutionEnvironment::Design),
            Scalar::Env(ExecutionEnvironment::Live),
        ]))
    );
    // From now on any single update re-fires it with the full current tuple.
    assert!(net.emit(x, env(ExecutionEnvironment::Live)).is_ok());
    assert_eq!(
        net.current(m),
        Some(&Value::Tuple(vec![
            Scalar::Env(ExecutionEnvironment::Live),
            Scalar::Env(ExecutionEnvironment::Live),
        ]))
    );
}

#[test]
fn filter_forwards_only_matching_values() {
    let mut net = Network::new();
    let s = net.source();
    let f = net.filter(s, PredFn::EnvIs(ExecutionEnvironment::Live)).unwrap();
    assert!(net.emit(s, env(ExecutionEnvironment::Design)).is_ok());
    assert_eq!(net.current(f), None);
    assert!(net.emit(s, env(ExecutionEnvironment::Live)).is_ok());
    assert_eq!(net.current(f), Some(&env(ExecutionEnvironment::Live)));
}

#[test]
fn sample_fires_on_trigger_with_last_data_value() {
    let mut net = Network::new();
    let d = net.source();
    let t = net.source();
    let sm = net.sample(d, t).unwrap();
    assert!(net.emit(t, Value::Scalar(Scalar::Unit)).is_ok());
    // The data node has never fired: sampling yields nothing.
    assert_eq!(net.current(sm), None);
    assert!(net.emit(d, env(ExecutionEnvironment::Design)).is_ok());
    // Data alone does not fire the sample node.
    assert_eq!(net.current(sm), None);
    assert!(net.emit(t, Value::Scalar(Scalar::Unit)).is_ok());
    assert_eq!(net.current(sm), Some(&env(ExecutionEnvironment::Design)));
}

#[test]
fn filter_map_computes_next_environment() {
    let mut net = Network::new();
    let cur = net.source();
    let avail = net.source();
    let state = net.merge_all(vec![cur, avail]).unwrap();
    let next = net.filter_map(state, FilterMapFn::NextEnv).unwrap();
    assert!(net
        .emit(
            avail,
            Value::Scalar(Scalar::Envs(vec![
                ExecutionEnvironment::Design,
                ExecutionEnvironment::Live,
            ])),
        )
        .is_ok());
    assert!(net.emit(cur, env(ExecutionEnvironment::Design)).is_ok());
    assert_eq!(net.current(next), Some(&env(ExecutionEnvironment::Live)));
}

#[test]
fn reentrant_emission_lands_in_the_next_pass() {
    let mut net = Network::new();
    let s1 = net.source();
    let s2 = net.source();
    let m = net.mapping(s1, MapFn::Identity).unwrap();
    net.observe(m, ObserverAction::EmitInto { source: s2 }).unwrap();
    assert!(net.emit(s1, env(ExecutionEnvironment::Design)).is_ok());
    // The effect of the observer's emission is not visible in this pass.
    assert_eq!(net.current(s2), None);
    assert_eq!(net.pending_len(), 1);
    assert!(net.step_pending());
    assert_eq!(net.current(s2), Some(&env(ExecutionEnvironment::Design)));
    assert_eq!(net.pending_len(), 0);
    assert!(!net.step_pending());
}

#[test]
fn unrelated_nodes_keep_their_values() {
    let mut net = Network::new();
    let a = net.source();
    let b = net.source();
    let ma = net.mapping(a, MapFn::Identity).unwrap();
    assert!(net.emit(a, env(ExecutionEnvironment::Design)).is_ok());
    assert!(net.emit(b, env(ExecutionEnvironment::Live)).is_ok());
    // The pass for `b` does not touch `a`'s subgraph.
    assert_eq!(net.current(ma), Some(&env(ExecutionEnvironment::Design)));
}

#[test]
fn construction_rejects_bad_declarations() {
    let mut net = Network::new();
    let s = net.source();
    assert_eq!(net.mapping(7, MapFn::Identity), Err(BuildError::UnknownNode));
    assert_eq!(net.merge_any(vec![]), Err(BuildError::EmptyUpstreams));
    assert_eq!(net.merge_all(vec![]), Err(BuildError::EmptyUpstreams));
    assert_eq!(net.merge_any(vec![s, 9]), Err(BuildError::UnknownNode));
    // A merge-all over a merge-all would nest tuples: rejected as a type
    // mismatch at construction time.
    let t = net.merge_all(vec![s]).unwrap();
    assert_eq!(net.merge_all(vec![t]), Err(BuildError::ShapeMismatch));
    // A merge-any over differently shaped upstreams is rejected too.
    assert_eq!(net.merge_any(vec![s, t]), Err(BuildError::ShapeMismatch));
    // A filter-map needs a tuple-shaped upstream.
    assert_eq!(
        net.filter_map(s, FilterMapFn::NextEnv),
        Err(BuildError::ShapeMismatch)
    );
}

#[test]
fn emit_rejects_bad_targets() {
    let mut net = Network::new();
    let s = net.source();
    let m = net.mapping(s, MapFn::Identity).unwrap();
    assert_eq!(
        net.emit(42, Value::Scalar(Scalar::Unit)),
        Err(EmitError::UnknownNode)
    );
    assert_eq!(
        net.emit(m, Value::Scalar(Scalar::Unit)),
        Err(EmitError::NotASource)
    );
    assert_eq!(
        net.emit(s, Value::Tuple(vec![Scalar::Unit])),
        Err(EmitError::ShapeMismatch)
    );
    // A rejected emission leaves everything alone.
    assert_eq!(net.current(s), None);
    assert_eq!(net.pending_len(), 0);
}

#[test]
fn observers_run_in_registration_order() {
    let mut net = Network::new();
    let s = net.source();
    let m = net.mapping(s, MapFn::Identity).unwrap();
    net.observe(m, ObserverAction::Layout).unwrap();
    net.observe(m, ObserverAction::Record).unwrap();
    assert!(net.emit(s, env(ExecutionEnvironment::Design)).is_ok());
    assert_eq!(net.log_len(), 2);
    assert!(matches!(net.log_entry(0), Some(dataflow::LogEntry::Geometry { .. })));
    assert!(matches!(net.log_entry(1), Some(dataflow::LogEntry::Fired { .. })));
}

#[test]
fn queued_emissions_are_processed_oldest_first() {
    let mut net = Network::new();
    let s = net.source();
    let a = net.mapping(s, MapFn::ConstEnv(ExecutionEnvironment::Design)).unwrap();
    let b = net.mapping(s, MapFn::ConstEnv(ExecutionEnvironment::Live)).unwrap();
    let t = net.source();
    net.observe(a, ObserverAction::EmitInto { source: t }).unwrap();
    net.observe(b, ObserverAction::EmitInto { source: t }).unwrap();
    assert!(net.emit(s, Value::Scalar(Scalar::Unit)).is_ok());
    assert_eq!(net.pending_len(), 2);
    // `a` settles before `b` in the pass, so its emission was queued first.
    assert!(net.step_pending());
    assert_eq!(net.current(t), Some(&env(ExecutionEnvironment::Design)));
    assert!(net.step_pending());
    assert_eq!(net.current(t), Some(&env(ExecutionEnvironment::Live)));
}

#[test]
fn run_pending_consumes_fuel_one_pass_at_a_time() {
    let mut net = Network::new();
    let s = net.source();
    let m = net.mapping(s, MapFn::Identity).unwrap();
    // A feedback loop that requeues itself on every pass.
    net.observe(m, ObserverAction::EmitInto { source: s }).unwrap();
    assert!(net.emit(s, env(ExecutionEnvironment::Design)).is_ok());
    assert_eq!(net.pending_len(), 1);
    // Each queued pass requeues exactly one emission: the fuel runs out
    // before the queue, and the call says so.
    assert!(!net.run_pending(3));
    assert_eq!(net.pending_len(), 1);
    // Zero fuel processes nothing.
    assert!(!net.run_pending(0));
    assert_eq!(net.pending_len(), 1);
}

#[test]
fn record_observer_logs_fired_values() {
    let mut net = Network::new();
    let s = net.source();
    let m = net.mapping(s, MapFn::Identity).unwrap();
    net.observe(m, ObserverAction::Record).unwrap();
    assert!(net.emit(s, env(ExecutionEnvironment::Live)).is_ok());
    assert_eq!(net.log_len(), 1);
    match net.log_entry(0) {
        Some(dataflow::LogEntry::Fired { node, value }) => {
            assert_eq!(*node, m);
            assert_eq!(*value, env(ExecutionEnvironment::Live));
        }
        other => panic!("unexpected log entry: {:?}", other),
    }
}
