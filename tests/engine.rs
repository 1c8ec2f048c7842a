use dice::ctx::ComputeError;
use dice::ctx::DiceComputationsImpl;
use dice::data::DiceData;
use dice::data::UserComputationData;
use dice::graph::CommitError;
use dice::graph::Dep;
use dice::graph::DiceFuture;
use dice::graph::Engine;
use dice::graph::Key;
use dice::graph::Outcome;

const B: usize = 0;
const A: usize = 0;

fn engine_with(b: u64) -> Engine {
    Engine::new(vec![vec![b]], 2, DiceData::new(vec![7, 8]))
}

fn value_of(o: Option<Outcome>) -> Vec<u64> {
    match o {
        Some(Outcome::Value(v)) => v,
        other => panic!("expected a value, got {:?}", other),
    }
}

/// Evaluates A = B + 1 for a request that spawned A's evaluation.
fn evaluate_a(engine: &mut Engine) {
    let mut ctx = DiceComputationsImpl::open(engine, UserComputationData::new(vec![]));
    let b = ctx.compute(engine, Key::Input(B)).unwrap();
    let deps = ctx.unstable_take();
    let v = ctx.get_version().v;
    engine.complete(A, v, Outcome::Value(vec![b[0] + 1]), deps);
}

/// Requests A; evaluates it where this request spawned it; returns its value and whether it
/// was evaluated.
fn compute_a(engine: &mut Engine) -> (u64, bool) {
    let mut f = engine.request(A, engine.get_version().v);
    let spawned = matches!(f, DiceFuture::AsyncCancellableSpawned(..));
    if spawned {
        evaluate_a(engine);
    }
    (value_of(engine.poll(&mut f))[0], spawned)
}

#[test]
fn scenario_recompute_after_input_change() {
    let mut engine = engine_with(1);
    assert_eq!(engine.get_version().v, 0);
    let (a, evaluated) = compute_a(&mut engine);
    assert_eq!(a, 2);
    assert!(evaluated);
    let (a, evaluated) = compute_a(&mut engine);
    assert_eq!(a, 2);
    assert!(!evaluated);

    let mut u = engine.begin();
    u.set(B, 0, 2);
    let v1 = engine.commit(u).unwrap();
    assert_eq!(v1.v, 1);

    let mut evaluations = 0;
    let (a, evaluated) = compute_a(&mut engine);
    if evaluated {
        evaluations += 1;
    }
    assert_eq!(a, 3);
    let (a, evaluated) = compute_a(&mut engine);
    if evaluated {
        evaluations += 1;
    }
    assert_eq!(a, 3);
    assert_eq!(evaluations, 1);
}

#[test]
fn concurrent_requests_share_one_evaluation() {
    let mut engine = engine_with(4);
    let mut futures: Vec<DiceFuture> = Vec::new();
    for _ in 0..5 {
        futures.push(engine.request(A, engine.get_version().v));
    }
    let spawned = futures
        .iter()
        .filter(|f| matches!(f, DiceFuture::AsyncCancellableSpawned(..)))
        .count();
    let joined = futures
        .iter()
        .filter(|f| matches!(f, DiceFuture::AsyncCancellableJoining(..)))
        .count();
    assert_eq!(spawned, 1);
    assert_eq!(joined, 4);
    assert!(engine.poll(&mut futures[2]).is_none());
    evaluate_a(&mut engine);
    for f in futures.iter_mut() {
        assert_eq!(value_of(engine.poll(f)), vec![5]);
    }
}

#[test]
fn unchanged_input_keeps_cached_value() {
    let mut engine = Engine::new(vec![vec![1], vec![9]], 1, DiceData::new(vec![]));
    let (a, _) = compute_a(&mut engine);
    assert_eq!(a, 2);
    let mut u = engine.begin();
    u.set(1, 0, 10);
    engine.commit(u).unwrap();
    let f = engine.request(A, engine.get_version().v);
    assert!(matches!(f, DiceFuture::Ready(Some(Outcome::Value(ref v))) if v == &vec![2]));
}

#[test]
fn projection_only_depends_on_read_field() {
    let mut engine = Engine::new(vec![vec![10, 20, 30]], 1, DiceData::new(vec![]));
    let run = |engine: &mut Engine| -> (u64, bool) {
        let mut f = engine.request(A, engine.get_version().v);
        let spawned = matches!(f, DiceFuture::AsyncCancellableSpawned(..));
        if spawned {
            let mut ctx = DiceComputationsImpl::open(engine, UserComputationData::new(vec![]));
            let ov = ctx.compute_opaque(engine, Key::Input(B)).unwrap();
            assert!(ctx.deps().is_empty());
            let f1 = ov.project(&mut ctx, 1).unwrap();
            assert_eq!(*ctx.deps(), vec![Dep { source: Key::Input(B), field: 1, seen: f1 }]);
            let deps = ctx.unstable_take();
            let v = ctx.get_version().v;
            engine.complete(A, v, Outcome::Value(vec![f1 * 2]), deps);
        }
        (value_of(engine.poll(&mut f))[0], spawned)
    };
    assert_eq!(run(&mut engine), (40, true));

    let mut u = engine.begin();
    u.set(B, 0, 11);
    u.set(B, 2, 31);
    engine.commit(u).unwrap();
    assert_eq!(run(&mut engine), (40, false));

    let mut u = engine.begin();
    u.set(B, 1, 21);
    engine.commit(u).unwrap();
    assert_eq!(run(&mut engine), (42, true));
}

#[test]
fn cancelled_originator_keeps_evaluation_for_joiner() {
    let mut engine = engine_with(1);
    let r1 = engine.request(A, engine.get_version().v);
    assert!(matches!(r1, DiceFuture::AsyncCancellableSpawned(A, 0)));
    let mut r2 = engine.request(A, engine.get_version().v);
    assert!(matches!(r2, DiceFuture::AsyncCancellableJoining(A, 0)));
    engine.cancel(r1);
    assert!(engine.poll(&mut r2).is_none());
    evaluate_a(&mut engine);
    assert_eq!(value_of(engine.poll(&mut r2)), vec![2]);
}

#[test]
fn cancelling_every_requester_empties_the_slot() {
    let mut engine = engine_with(1);
    let r1 = engine.request(A, engine.get_version().v);
    engine.cancel(r1);
    engine.complete(A, 0, Outcome::Value(vec![99]), vec![]);
    let r = engine.request(A, engine.get_version().v);
    assert!(matches!(r, DiceFuture::AsyncCancellableSpawned(A, 0)));
}

#[test]
fn versions_strictly_increase() {
    let mut engine = engine_with(1);
    let ctx = DiceComputationsImpl::open(&engine, UserComputationData::new(vec![]));
    let mut last = engine.get_version().v;
    for i in 0..3u64 {
        let mut u = engine.begin();
        u.set(B, 0, i + 10);
        let v = engine.commit(u).unwrap();
        assert!(v.v > last);
        last = v.v;
    }
    assert_eq!(last, 3);
    let mut ctx = ctx;
    assert_eq!(ctx.get_version().v, 0);
    assert_eq!(ctx.compute(&engine, Key::Input(B)), Ok(vec![1]));
    let mut now = DiceComputationsImpl::open(&engine, UserComputationData::new(vec![]));
    assert_eq!(now.compute(&engine, Key::Input(B)), Ok(vec![12]));
}

#[test]
fn context_reads_its_own_version_after_commit() {
    let mut engine = engine_with(1);
    let (a, _) = compute_a(&mut engine);
    assert_eq!(a, 2);
    let mut old_ctx = DiceComputationsImpl::open(&engine, UserComputationData::new(vec![]));
    let mut u = engine.begin();
    u.set(B, 0, 7);
    engine.commit(u).unwrap();
    assert_eq!(old_ctx.compute(&engine, Key::Derived(A)), Ok(vec![2]));
    assert_eq!(old_ctx.compute(&engine, Key::Input(B)), Ok(vec![1]));
    let mut new_ctx = DiceComputationsImpl::open(&engine, UserComputationData::new(vec![]));
    assert_eq!(new_ctx.compute(&engine, Key::Derived(A)), Err(ComputeError::NotReady));
    let (a, evaluated) = compute_a(&mut engine);
    assert_eq!((a, evaluated), (8, true));
    assert_eq!(new_ctx.compute(&engine, Key::Derived(A)), Ok(vec![8]));
    assert_eq!(old_ctx.compute(&engine, Key::Derived(A)), Ok(vec![2]));
}

#[test]
fn failed_evaluation_is_replayed() {
    let mut engine = engine_with(1);
    let mut r1 = engine.request(A, engine.get_version().v);
    let mut r2 = engine.request(A, engine.get_version().v);
    engine.complete(A, 0, Outcome::Failed(13), vec![Dep { source: Key::Input(B), field: 0, seen: 1 }]);
    assert!(matches!(engine.poll(&mut r1), Some(Outcome::Failed(13))));
    assert!(matches!(engine.poll(&mut r2), Some(Outcome::Failed(13))));
    let r3 = engine.request(A, engine.get_version().v);
    assert!(matches!(r3, DiceFuture::Ready(Some(Outcome::Failed(13)))));
    let mut ctx = DiceComputationsImpl::open(&engine, UserComputationData::new(vec![]));
    assert_eq!(ctx.compute(&engine, Key::Derived(A)), Err(ComputeError::Eval(13)));
    assert_eq!(*ctx.deps(), vec![Dep { source: Key::Input(B), field: 0, seen: 1 }]);
}

#[test]
fn ready_future_hands_value_once() {
    let mut engine = engine_with(1);
    compute_a(&mut engine);
    let mut f = engine.request(A, engine.get_version().v);
    assert_eq!(value_of(engine.poll(&mut f)), vec![2]);
    assert!(matches!(f, DiceFuture::Ready(None)));
}

#[test]
fn commit_errors_change_nothing() {
    let mut engine = engine_with(1);
    let stale = engine.begin();
    let mut u = engine.begin();
    u.set(B, 0, 5);
    engine.commit(u).unwrap();
    assert_eq!(engine.commit(stale).err(), Some(CommitError::Conflict));
    let mut bad = engine.begin();
    bad.set(B, 0, 6);
    bad.set(B, 3, 6);
    assert_eq!(engine.commit(bad).err(), Some(CommitError::InvalidEdit));
    assert_eq!(engine.input_field(B, 0), Some(5));
    assert_eq!(engine.get_version().v, 1);
}

#[test]
fn compute_errors() {
    let engine = engine_with(1);
    let mut ctx = DiceComputationsImpl::open(&engine, UserComputationData::new(vec![3]));
    assert_eq!(ctx.compute(&engine, Key::Input(5)), Err(ComputeError::UnknownKey));
    assert_eq!(ctx.compute(&engine, Key::Derived(5)), Err(ComputeError::UnknownKey));
    assert_eq!(ctx.compute(&engine, Key::Derived(A)), Err(ComputeError::NotReady));
    assert!(ctx.deps().is_empty());
    assert_eq!(ctx.compute(&engine, Key::Input(B)), Ok(vec![1]));
    assert_eq!(*ctx.deps(), vec![Dep { source: Key::Input(B), field: 0, seen: 1 }]);
}

#[test]
fn data_scopes_are_visible_to_context() {
    let engine = engine_with(1);
    let ctx = DiceComputationsImpl::open(&engine, UserComputationData::new(vec![3]));
    assert_eq!(ctx.global_data().get(1), Some(8));
    assert_eq!(ctx.global_data().get(2), None);
    assert_eq!(ctx.per_transaction_data().get(0), Some(3));
    let u = ctx.into_updater();
    assert_eq!(u.base, 0);
    assert!(u.edits.is_empty());
}

#[test]
fn derived_read_records_its_value() {
    let mut engine = engine_with(1);
    compute_a(&mut engine);
    // Slot 1 reads A and records A's own reads.
    let mut f = engine.request(1, engine.get_version().v);
    let mut ctx = DiceComputationsImpl::open(&engine, UserComputationData::new(vec![]));
    let a = ctx.compute(&engine, Key::Derived(A)).unwrap();
    let deps = ctx.unstable_take();
    assert_eq!(deps, vec![Dep { source: Key::Derived(A), field: 0, seen: 2 }]);
    engine.complete(1, 0, Outcome::Value(vec![a[0] * 10]), deps);
    assert_eq!(value_of(engine.poll(&mut f)), vec![20]);
    let mut u = engine.begin();
    u.set(B, 0, 3);
    engine.commit(u).unwrap();
    assert!(matches!(engine.request(1, engine.get_version().v), DiceFuture::AsyncCancellableSpawned(1, 1)));
}

#[test]
fn evaluations_of_two_versions_run_side_by_side() {
    let mut engine = engine_with(1);
    let mut old_request = engine.request(A, 0);
    assert!(matches!(old_request, DiceFuture::AsyncCancellableSpawned(A, 0)));
    let mut old_ctx = DiceComputationsImpl::open(&engine, UserComputationData::new(vec![]));
    let mut u = engine.begin();
    u.set(B, 0, 5);
    engine.commit(u).unwrap();
    let mut new_request = engine.request(A, 1);
    assert!(matches!(new_request, DiceFuture::AsyncCancellableSpawned(A, 1)));
    // The evaluation for version 0 still reads the inputs of version 0.
    let b = old_ctx.compute(&engine, Key::Input(B)).unwrap();
    assert_eq!(b, vec![1]);
    let deps = old_ctx.unstable_take();
    engine.complete(A, 0, Outcome::Value(vec![b[0] + 1]), deps);
    assert_eq!(value_of(engine.poll(&mut old_request)), vec![2]);
    assert!(engine.poll(&mut new_request).is_none());
    evaluate_a(&mut engine);
    assert_eq!(value_of(engine.poll(&mut new_request)), vec![6]);
}

#[test]
fn retried_errors_are_evaluated_again() {
    let mut engine = engine_with(1);
    engine.set_retry_errors(A, true);
    let mut r1 = engine.request(A, engine.get_version().v);
    let mut r2 = engine.request(A, engine.get_version().v);
    engine.complete(A, 0, Outcome::Failed(4), vec![]);
    assert!(matches!(engine.poll(&mut r1), Some(Outcome::Failed(4))));
    assert!(matches!(engine.poll(&mut r2), Some(Outcome::Failed(4))));
    assert!(matches!(engine.request(A, engine.get_version().v), DiceFuture::AsyncCancellableSpawned(A, 0)));
}

/// Slot 0 doubles field 0 of input 0 and keeps field 1; slot 1 reads only field 1 of slot 0.
fn drive_pair(engine: &mut Engine) -> (Vec<u64>, bool) {
    let v = engine.get_version().v;
    let mut s = engine.request(0, v);
    if matches!(s, DiceFuture::AsyncCancellableSpawned(..)) {
        let mut ctx = DiceComputationsImpl::open(engine, UserComputationData::new(vec![]));
        let rec = ctx.compute(engine, Key::Input(0)).unwrap();
        let deps = ctx.unstable_take();
        engine.complete(0, v, Outcome::Value(vec![rec[0] * 2, rec[1]]), deps);
    }
    value_of(engine.poll(&mut s));
    let mut r = engine.request(1, v);
    let evaluated = matches!(r, DiceFuture::AsyncCancellableSpawned(..));
    if evaluated {
        let mut ctx = DiceComputationsImpl::open(engine, UserComputationData::new(vec![]));
        let ov = ctx.compute_opaque(engine, Key::Derived(0)).unwrap();
        let y = ov.project(&mut ctx, 1).unwrap();
        assert_eq!(*ctx.deps(), vec![Dep { source: Key::Derived(0), field: 1, seen: y }]);
        let deps = ctx.unstable_take();
        engine.complete(1, v, Outcome::Value(vec![y + 1]), deps);
    }
    (value_of(engine.poll(&mut r)), evaluated)
}

#[test]
fn projection_of_derived_value_is_fine_grained() {
    let mut engine = Engine::new(vec![vec![3, 40]], 2, DiceData::new(vec![]));
    assert_eq!(drive_pair(&mut engine), (vec![41], true));
    let mut u = engine.begin();
    u.set(0, 0, 5);
    engine.commit(u).unwrap();
    assert_eq!(drive_pair(&mut engine), (vec![41], false));
    let mut u = engine.begin();
    u.set(0, 1, 50);
    engine.commit(u).unwrap();
    assert_eq!(drive_pair(&mut engine), (vec![51], true));
}

/// Slot 0 is field 0 of input 0 divided by ten; slot 1 reads slot 0 whole and triples it.
fn drive_tenths(engine: &mut Engine) -> (u64, bool) {
    let v = engine.get_version().v;
    let mut s = engine.request(0, v);
    if matches!(s, DiceFuture::AsyncCancellableSpawned(..)) {
        let mut ctx = DiceComputationsImpl::open(engine, UserComputationData::new(vec![]));
        let rec = ctx.compute(engine, Key::Input(0)).unwrap();
        let deps = ctx.unstable_take();
        engine.complete(0, v, Outcome::Value(vec![rec[0] / 10]), deps);
    }
    value_of(engine.poll(&mut s));
    let mut r = engine.request(1, v);
    let evaluated = matches!(r, DiceFuture::AsyncCancellableSpawned(..));
    if evaluated {
        let mut ctx = DiceComputationsImpl::open(engine, UserComputationData::new(vec![]));
        let a = ctx.compute(engine, Key::Derived(0)).unwrap();
        let deps = ctx.unstable_take();
        engine.complete(1, v, Outcome::Value(vec![a[0] * 3]), deps);
    }
    (value_of(engine.poll(&mut r))[0], evaluated)
}

#[test]
fn reader_survives_equal_reevaluation() {
    let mut engine = Engine::new(vec![vec![41]], 2, DiceData::new(vec![]));
    assert_eq!(drive_tenths(&mut engine), (12, true));
    let mut u = engine.begin();
    u.set(0, 0, 45);
    engine.commit(u).unwrap();
    assert_eq!(drive_tenths(&mut engine), (12, false));
    let mut u = engine.begin();
    u.set(0, 0, 52);
    engine.commit(u).unwrap();
    assert_eq!(drive_tenths(&mut engine), (15, true));
}

#[test]
fn retried_error_reaches_readers() {
    let mut engine = engine_with(1);
    engine.set_retry_errors(A, true);
    let mut r1 = engine.request(A, 0);
    engine.complete(A, 0, Outcome::Failed(9), vec![]);
    assert!(matches!(engine.poll(&mut r1), Some(Outcome::Failed(9))));
    let mut ctx = DiceComputationsImpl::open(&engine, UserComputationData::new(vec![]));
    assert_eq!(ctx.compute(&engine, Key::Derived(A)), Err(ComputeError::Eval(9)));
    assert_eq!(ctx.compute_opaque(&engine, Key::Derived(A)).err(), Some(ComputeError::Eval(9)));
    assert!(matches!(engine.request(A, 0), DiceFuture::AsyncCancellableSpawned(A, 0)));
}

#[test]
fn reader_survives_commits_without_requests() {
    let mut engine = Engine::new(vec![vec![41]], 2, DiceData::new(vec![]));
    assert_eq!(drive_tenths(&mut engine), (12, true));
    for x in [45u64, 47] {
        let mut u = engine.begin();
        u.set(0, 0, x);
        engine.commit(u).unwrap();
    }
    assert_eq!(engine.prior_reads(1, 2), vec![Dep { source: Key::Derived(0), field: 0, seen: 4 }]);
    assert_eq!(drive_tenths(&mut engine), (12, false));
}
