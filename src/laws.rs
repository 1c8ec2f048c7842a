use vstd::prelude::*;

use crate::ctx::full_read;
use crate::ctx::lookup;
use crate::ctx::ComputeError;
use crate::ctx::projection_deps;
use crate::ctx::OpaqueModel;
use crate::graph::apply_edits;
use crate::graph::available;
use crate::graph::can_poll;
use crate::graph::carried;
use crate::graph::cell;
use crate::graph::commit_result;
use crate::graph::current_inputs;
use crate::graph::dep_holds;
use crate::graph::input_dep_holds;
use crate::graph::input_deps_hold;
use crate::graph::deps_hold;
use crate::graph::edit_in_range;
use crate::graph::in_range;
use crate::graph::is_fresh;
use crate::graph::lemma_apply_edits_shape;
use crate::graph::model_wf;
use crate::graph::prior;
use crate::graph::retries_errors;
use crate::graph::spec_cancel;
use crate::graph::spec_commit;
use crate::graph::spec_complete;
use crate::graph::spec_poll;
use crate::graph::spec_request;
use crate::graph::with_cell;
use crate::graph::Dep;
use crate::graph::Edit;
use crate::graph::EngineModel;
use crate::graph::FutureModel;
use crate::graph::Key;
use crate::graph::OutcomeModel;
use crate::graph::SlotModel;

verus! {

/// The state after `n` requests for slot `k` at version `v`, with the request handed to each.
pub open spec fn request_many(m: EngineModel, k: usize, v: u64, n: nat) -> (EngineModel, Seq<FutureModel>)
    decreases n,
{
    if n == 0 {
        (m, Seq::empty())
    } else {
        let (m1, rs) = request_many(m, k, v, (n - 1) as nat);
        let (m2, f) = spec_request(m1, k, v);
        (m2, rs.push(f))
    }
}

/// Some edit writes field `field` of input `input`.
pub open spec fn touches(edits: Seq<Edit>, input: usize, field: usize) -> bool {
    exists|j: int| 0 <= j < edits.len() && (#[trigger] edits[j]).input == input && edits[j].field == field
}

proof fn lemma_request_many_in_flight(m: EngineModel, k: usize, v: u64, n: nat)
    requires
        in_range(m, k, v),
        available(m, k, v) is None,
        !(cell(m, k, v) is InFlight),
        1 <= n <= u64::MAX,
    ensures
        request_many(m, k, v, n).0 == with_cell(m, k, v, SlotModel::InFlight(n as u64)),
        request_many(m, k, v, n).1.len() == n,
        request_many(m, k, v, n).1[0] == FutureModel::Spawned(k, v),
        forall|i: int| 1 <= i < n ==> request_many(m, k, v, n).1[i] == FutureModel::Joining(k, v),
    decreases n,
{
    if n > 1 {
        lemma_request_many_in_flight(m, k, v, (n - 1) as nat);
        let (m1, rs) = request_many(m, k, v, (n - 1) as nat);
        assert(m1.slots[k as int].update(v as int, SlotModel::InFlight(n as u64)) =~= m.slots[k as int].update(
            v as int,
            SlotModel::InFlight(n as u64),
        ));
        assert(with_cell(m1, k, v, SlotModel::InFlight(n as u64)).slots =~= with_cell(m, k, v, SlotModel::InFlight(n as u64)).slots);
        let rs2 = request_many(m, k, v, n).1;
        assert forall|i: int| 1 <= i < n implies rs2[i] == FutureModel::Joining(k, v) by {
            if i < n - 1 {
                assert(rs2[i] == rs[i]);
            }
        }
    } else {
        let (m0, rs0) = request_many(m, k, v, 0);
        assert(m0 == m);
        assert(rs0.len() == 0);
        let (m1, rs1) = request_many(m, k, v, 1);
        assert(rs1 == rs0.push(FutureModel::Spawned(k, v)));
    }
}

/// For a fixed version, `n` requests for a slot with no current result there start exactly
/// one evaluation: the first request spawns it and every other joins it. Once the evaluation
/// publishes its outcome, every one of the `n` requests polls that same outcome.
pub proof fn lemma_memoization(m: EngineModel, k: usize, v: u64, n: nat, o: OutcomeModel, d: Seq<Dep>)
    requires
        in_range(m, k, v),
        available(m, k, v) is None,
        !(cell(m, k, v) is InFlight),
        1 <= n <= u64::MAX,
    ensures
        ({
            let (m1, rs) = request_many(m, k, v, n);
            let m2 = spec_complete(m1, k, v, o, d);
            &&& m1.version == m.version
            &&& m1.inputs == m.inputs
            &&& rs.len() == n
            &&& rs[0] == FutureModel::Spawned(k, v)
            &&& forall|i: int| 1 <= i < n ==> rs[i] == FutureModel::Joining(k, v)
            &&& forall|i: int| 0 <= i < n ==> can_poll(m1, #[trigger] rs[i])
                && spec_poll(m2, rs[i]).1 == Some(o)
        }),
{
    lemma_request_many_in_flight(m, k, v, n);
}

/// Requests for a slot whose result at a version is current start no evaluation and change
/// nothing: each one is handed that same result.
pub proof fn lemma_cached_requests_reuse(m: EngineModel, k: usize, v: u64, n: nat)
    requires
        is_fresh(m, k, v),
    ensures
        request_many(m, k, v, n).0 == m,
        request_many(m, k, v, n).1.len() == n,
        forall|i: int| 0 <= i < n ==> #[trigger] request_many(m, k, v, n).1[i]
            == FutureModel::Ready(Some(cell(m, k, v)->Done_0)),
    decreases n,
{
    if n > 0 {
        lemma_cached_requests_reuse(m, k, v, (n - 1) as nat);
        let rs = request_many(m, k, v, n).1;
        let rs1 = request_many(m, k, v, (n - 1) as nat).1;
        assert forall|i: int| 0 <= i < n implies #[trigger] rs[i] == FutureModel::Ready(
            Some(cell(m, k, v)->Done_0),
        ) by {
            if i < n - 1 {
                assert(rs[i] == rs1[i]);
            }
        }
    }
}

proof fn lemma_untouched_field_kept(inputs: Seq<Seq<u64>>, edits: Seq<Edit>, input: usize, field: usize)
    requires
        forall|i: int| 0 <= i < edits.len() ==> edit_in_range(inputs, #[trigger] edits[i]),
        input < inputs.len(),
        field < inputs[input as int].len(),
        !touches(edits, input, field),
    ensures
        apply_edits(inputs, edits)[input as int].len() == inputs[input as int].len(),
        apply_edits(inputs, edits)[input as int][field as int] == inputs[input as int][field as int],
    decreases edits.len(),
{
    if edits.len() > 0 {
        let p = edits.drop_last();
        assert forall|i: int| 0 <= i < p.len() implies edit_in_range(inputs, #[trigger] p[i]) by {
            assert(p[i] == edits[i]);
        }
        if touches(p, input, field) {
            let j = choose|j: int| 0 <= j < p.len() && (#[trigger] p[j]).input == input && p[j].field == field;
            assert(edits[j] == p[j]);
        }
        lemma_untouched_field_kept(inputs, p, input, field);
        lemma_apply_edits_shape(inputs, p);
        assert(edits[edits.len() - 1] == edits.last());
    }
}

/// After a commit, a result that read inputs alone and was current at the old version is
/// handed out at the new version with no evaluation exactly when every value it read is
/// unchanged, and a new evaluation starts there exactly when one of them changed. A commit
/// that writes none of the fields it read keeps it. At the old version it stays current.
pub proof fn lemma_invalidation(m: EngineModel, k: usize, base: u64, edits: Seq<Edit>)
    requires
        model_wf(m),
        is_fresh(m, k, m.version),
        forall|i: int| 0 <= i < cell(m, k, m.version)->Done_1.len()
            ==> (#[trigger] cell(m, k, m.version)->Done_1[i]).source is Input,
        commit_result(m, base, edits) is Ok,
    ensures
        ({
            let m2 = spec_commit(m, base, edits);
            let deps = cell(m, k, m.version)->Done_1;
            let o = cell(m, k, m.version)->Done_0;
            &&& input_deps_hold(current_inputs(m2), deps) ==> spec_request(m2, k, m2.version) == (
                m2,
                FutureModel::Ready(Some(o)),
            )
            &&& !input_deps_hold(current_inputs(m2), deps) ==> spec_request(m2, k, m2.version).1
                == FutureModel::Spawned(k, m2.version)
            &&& (forall|i: int| 0 <= i < deps.len() ==> !touches(edits, #[trigger] deps[i].source->Input_0, deps[i].field))
                ==> input_deps_hold(current_inputs(m2), deps)
            &&& spec_request(m2, k, m.version) == (m2, FutureModel::Ready(Some(o)))
        }),
{
    let m2 = spec_commit(m, base, edits);
    let deps = cell(m, k, m.version)->Done_1;
    let ni = apply_edits(current_inputs(m), edits);
    let v2 = m2.version;
    assert(m2.slots[k as int] == m.slots[k as int].push(carried(m, k as int, ni)));
    assert(m.slots[k as int].last() == cell(m, k, m.version));
    assert(cell(m2, k, m.version) == cell(m, k, m.version));
    assert(m2.inputs[m.version as int] == m.inputs[m.version as int]);
    assert(m2.inputs[v2 as int] == ni);
    assert forall|i: int| 0 <= i < deps.len() implies dep_holds(m2, m.version, #[trigger] deps[i]) by {
        assert(dep_holds(m, m.version, deps[i]));
    }
    assert forall|i: int| 0 <= i < deps.len() implies (dep_holds(m2, v2, #[trigger] deps[i])
        <==> input_dep_holds(ni, deps[i])) by {
        assert(deps[i].source is Input);
    }
    if !input_deps_hold(ni, deps) {
        let i = choose|i: int| 0 <= i < deps.len() && !input_dep_holds(ni, #[trigger] deps[i]);
        assert(!dep_holds(m2, v2, deps[i]));
        assert(cell(m2, k, v2) == SlotModel::Empty);
        assert(cell(m2, k, (v2 - 1) as u64) == cell(m, k, m.version));
    }
    if forall|i: int| 0 <= i < deps.len() ==> !touches(edits, #[trigger] deps[i].source->Input_0, deps[i].field) {
        assert forall|i: int| 0 <= i < deps.len() implies input_dep_holds(ni, #[trigger] deps[i]) by {
            assert(dep_holds(m, m.version, deps[i]));
            lemma_apply_edits_shape(current_inputs(m), edits);
            lemma_untouched_field_kept(current_inputs(m), edits, deps[i].source->Input_0, deps[i].field);
        }
    }
}

/// A result whose only read is a projection of field `f` of an input survives a commit that
/// writes another field `g` of that input, and is evaluated again after a commit that gives
/// `f` a new value.
pub proof fn lemma_projection_is_fine_grained(
    m: EngineModel,
    k: usize,
    ov: OpaqueModel,
    f: usize,
    g: usize,
    x: u64,
)
    requires
        model_wf(m),
        ov.key is Input,
        ov.key->Input_0 < current_inputs(m).len(),
        ov.value == current_inputs(m)[ov.key->Input_0 as int],
        f < ov.value.len(),
        g < ov.value.len(),
        in_range(m, k, m.version),
        cell(m, k, m.version) is Done,
        cell(m, k, m.version)->Done_0 is Value,
        cell(m, k, m.version)->Done_1 == projection_deps(ov, f),
        m.version < u64::MAX,
    ensures
        ({
            let b = ov.key->Input_0;
            let edits = seq![Edit { input: b, field: g, value: x }];
            let m2 = spec_commit(m, m.version, edits);
            &&& g != f ==> spec_request(m2, k, m2.version) == (m2, FutureModel::Ready(
                Some(cell(m, k, m.version)->Done_0),
            ))
            &&& (g == f && x != ov.value[f as int]) ==> spec_request(m2, k, m2.version).1
                == FutureModel::Spawned(k, m2.version)
        }),
{
    let b = ov.key->Input_0;
    let edits = seq![Edit { input: b, field: g, value: x }];
    let deps = cell(m, k, m.version)->Done_1;
    assert(deps.len() == 1 && deps[0] == Dep { source: Key::Input(b), field: f, seen: ov.value[f as int] });
    assert forall|i: int| 0 <= i < deps.len() implies (#[trigger] deps[i]).source is Input by {}
    assert(is_fresh(m, k, m.version));
    assert(edits.drop_last() =~= Seq::<Edit>::empty());
    assert(apply_edits(current_inputs(m), edits.drop_last()) == current_inputs(m));
    assert(edits.last() == Edit { input: b, field: g, value: x });
    assert(commit_result(m, m.version, edits) is Ok);
    lemma_invalidation(m, k, m.version, edits);
    let m2 = spec_commit(m, m.version, edits);
    if g != f {
        assert(!touches(edits, deps[0].source->Input_0, deps[0].field));
    } else if x != ov.value[f as int] {
        assert(current_inputs(m2)[b as int][f as int] == x);
        assert(!input_dep_holds(current_inputs(m2), deps[0]));
    }
}

/// A result whose only read is field `f` of derived slot `j` is not carried by a commit; at
/// the next version it is handed out again with no evaluation when `j`'s value there has the
/// same field `f`, whatever its other fields, and is evaluated again when that field changed.
pub proof fn lemma_derived_projection_is_fine_grained(m: EngineModel, k: usize, v: u64, j: usize, f: usize, seen: u64)
    requires
        model_wf(m),
        0 < v <= m.version,
        k < m.slots.len(),
        j < m.slots.len(),
        cell(m, k, v) is Empty,
        prior(m, k, v) is Done,
        prior(m, k, v)->Done_0 is Value,
        prior(m, k, v)->Done_1 == seq![Dep { source: Key::Derived(j), field: f, seen }],
        cell(m, j, v) is Done,
        cell(m, j, v)->Done_0 is Value,
        f < cell(m, j, v)->Done_0->Value_0.len(),
    ensures
        ({
            let prev = prior(m, k, v);
            let now = cell(m, j, v)->Done_0->Value_0;
            &&& now[f as int] == seen ==> spec_request(m, k, v) == (with_cell(m, k, v, prev), FutureModel::Ready(
                Some(prev->Done_0),
            ))
            &&& now[f as int] != seen ==> spec_request(m, k, v).1 == FutureModel::Spawned(k, v)
        }),
{
    let deps = prior(m, k, v)->Done_1;
    assert(deps[0] == Dep { source: Key::Derived(j), field: f, seen });
    if cell(m, j, v)->Done_0->Value_0[f as int] != seen {
        assert(!dep_holds(m, v, deps[0]));
    }
}

/// A commit carries no result that read a derived value: such a result is revalidated when it
/// is next requested.
pub proof fn lemma_derived_reads_not_carried(m: EngineModel, k: usize, base: u64, edits: Seq<Edit>, i: int)
    requires
        model_wf(m),
        k < m.slots.len(),
        commit_result(m, base, edits) is Ok,
        cell(m, k, m.version) is Done,
        0 <= i < cell(m, k, m.version)->Done_1.len(),
        cell(m, k, m.version)->Done_1[i].source is Derived,
    ensures
        cell(spec_commit(m, base, edits), k, (m.version + 1) as u64) is Empty,
{
    let ni = apply_edits(current_inputs(m), edits);
    let m2 = spec_commit(m, base, edits);
    assert(m2.slots[k as int] == m.slots[k as int].push(carried(m, k as int, ni)));
    assert(m.slots[k as int].last() == cell(m, k, m.version));
    assert(!input_dep_holds(ni, cell(m, k, m.version)->Done_1[i]));
}

/// The request that started an evaluation may be dropped while another request waits on it:
/// the evaluation is kept, polling the waiting request is allowed throughout, and it receives
/// the published outcome.
pub proof fn lemma_cancellation_safety(m: EngineModel, k: usize, v: u64, o: OutcomeModel, d: Seq<Dep>)
    requires
        in_range(m, k, v),
        available(m, k, v) is None,
        !(cell(m, k, v) is InFlight),
    ensures
        ({
            let (m1, r1) = spec_request(m, k, v);
            let (m2, r2) = spec_request(m1, k, v);
            let m3 = spec_cancel(m2, k, v);
            let m4 = spec_complete(m3, k, v, o, d);
            &&& r1 == FutureModel::Spawned(k, v)
            &&& r2 == FutureModel::Joining(k, v)
            &&& can_poll(m3, r2)
            &&& spec_poll(m3, r2).1 is None
            &&& can_poll(m4, r2)
            &&& spec_poll(m4, r2).1 == Some(o)
        }),
{
}

/// Successive commits issue strictly increasing versions.
pub proof fn lemma_version_monotonicity(m: EngineModel, b1: u64, e1: Seq<Edit>, b2: u64, e2: Seq<Edit>)
    requires
        commit_result(m, b1, e1) is Ok,
        commit_result(spec_commit(m, b1, e1), b2, e2) is Ok,
    ensures
        ({
            let m1 = spec_commit(m, b1, e1);
            let m2 = spec_commit(m1, b2, e2);
            &&& m.version < m1.version < m2.version
            &&& commit_result(m, b1, e1)->Ok_0 == m1.version
            &&& commit_result(m1, b2, e2)->Ok_0 == m2.version
        }),
{
}

/// Two models that agree on the inputs, the cells and the error policy at version `v` agree
/// on every read there.
proof fn lemma_same_reads_at(m: EngineModel, m2: EngineModel, v: u64)
    requires
        v < m.inputs.len(),
        v < m2.inputs.len(),
        m2.inputs[v as int] == m.inputs[v as int],
        m2.slots.len() == m.slots.len(),
        m2.retry_errors == m.retry_errors,
        forall|x: int| 0 <= x < m.slots.len() ==> (#[trigger] m2.slots[x]).len() == m.slots[x].len(),
        forall|x: int| 0 <= x < m.slots.len() && v < m.slots[x].len() ==> #[trigger] m2.slots[x][v as int] == m.slots[x][v as int],
    ensures
        forall|d: Dep| #[trigger] dep_holds(m2, v, d) == dep_holds(m, v, d),
        forall|deps: Seq<Dep>| #[trigger] deps_hold(m2, v, deps) == deps_hold(m, v, deps),
{
    assert forall|d: Dep| #[trigger] dep_holds(m2, v, d) == dep_holds(m, v, d) by {
        if let Key::Derived(j) = d.source {
            if j < m.slots.len() {
                assert(m2.slots[j as int].len() == m.slots[j as int].len());
                if v < m.slots[j as int].len() {
                    assert(m2.slots[j as int][v as int] == m.slots[j as int][v as int]);
                }
            }
        }
    }
    assert forall|deps: Seq<Dep>| #[trigger] deps_hold(m2, v, deps) == deps_hold(m, v, deps) by {
        assert forall|i: int| 0 <= i < deps.len() implies dep_holds(m2, v, #[trigger] deps[i]) == dep_holds(m, v, deps[i]) by {}
    }
}

/// Snapshot isolation across a commit: what a context at version `v` sees of any key is the
/// same after the commit.
pub proof fn lemma_snapshot_across_commit(m: EngineModel, v: u64, key: Key, base: u64, edits: Seq<Edit>)
    requires
        model_wf(m),
        v <= m.version,
    ensures
        lookup(spec_commit(m, base, edits), v, key) == lookup(m, v, key),
{
    let m2 = spec_commit(m, base, edits);
    if commit_result(m, base, edits) is Ok {
        let ni = apply_edits(current_inputs(m), edits);
        assert forall|x: int| 0 <= x < m.slots.len() implies #[trigger] m2.slots[x] == m.slots[x].push(carried(m, x, ni)) by {}
        lemma_same_reads_at_grown(m, m2, v, ni);
    }
}

/// Snapshot isolation across evaluations: what a context at version `v` sees of any key is
/// the same after a request, a cancellation or a completion at any other version.
pub proof fn lemma_snapshot_across_versions(m: EngineModel, v: u64, key: Key, k: usize, w: u64, o: OutcomeModel, d: Seq<Dep>)
    requires
        model_wf(m),
        v <= m.version,
        w != v,
        in_range(m, k, w),
    ensures
        lookup(spec_request(m, k, w).0, v, key) == lookup(m, v, key),
        lookup(spec_cancel(m, k, w), v, key) == lookup(m, v, key),
        lookup(spec_complete(m, k, w, o, d), v, key) == lookup(m, v, key),
{
    let s1 = spec_request(m, k, w).0;
    let s2 = spec_cancel(m, k, w);
    let s3 = spec_complete(m, k, w, o, d);
    assert forall|x: int| 0 <= x < m.slots.len() implies (#[trigger] s1.slots[x]).len() == m.slots[x].len() by {}
    assert forall|x: int| 0 <= x < m.slots.len() implies (#[trigger] s2.slots[x]).len() == m.slots[x].len() by {}
    assert forall|x: int| 0 <= x < m.slots.len() implies (#[trigger] s3.slots[x]).len() == m.slots[x].len() by {}
    lemma_same_reads_at(m, s1, v);
    lemma_same_reads_at(m, s2, v);
    lemma_same_reads_at(m, s3, v);
}

/// A result that read derived slot `j` as a whole is handed out again at the next version with
/// no evaluation when `j`'s value there is equal, whether `j` was carried or evaluated again.
pub proof fn lemma_equal_value_keeps_reader(m: EngineModel, k: usize, v: u64, j: usize, val: Seq<u64>)
    requires
        model_wf(m),
        0 < v <= m.version,
        k < m.slots.len(),
        j < m.slots.len(),
        cell(m, k, v) is Empty,
        prior(m, k, v) is Done,
        prior(m, k, v)->Done_0 is Value,
        prior(m, k, v)->Done_1 == full_read(Key::Derived(j), val),
        cell(m, j, v) is Done,
        cell(m, j, v)->Done_0 == OutcomeModel::Value(val),
        val.len() <= usize::MAX,
    ensures
        spec_request(m, k, v) == (with_cell(m, k, v, prior(m, k, v)), FutureModel::Ready(
            Some(prior(m, k, v)->Done_0),
        )),
{
    let deps = prior(m, k, v)->Done_1;
    assert forall|i: int| 0 <= i < deps.len() implies dep_holds(m, v, #[trigger] deps[i]) by {
        assert(m.slots[j as int].len() == m.version + 1);
        assert(deps[i] == Dep { source: Key::Derived(j), field: i as usize, seen: val[i] });
        assert((i as usize) as int == i);
    }
}

/// After a commit the reads at an older version `v` are as before.
proof fn lemma_same_reads_at_grown(m: EngineModel, m2: EngineModel, v: u64, ni: Seq<Seq<u64>>)
    requires
        model_wf(m),
        v <= m.version,
        m2.inputs == m.inputs.push(ni),
        m2.retry_errors == m.retry_errors,
        m2.slots.len() == m.slots.len(),
        forall|x: int| 0 <= x < m.slots.len() ==> #[trigger] m2.slots[x] == m.slots[x].push(carried(m, x, ni)),
    ensures
        forall|deps: Seq<Dep>| #[trigger] deps_hold(m2, v, deps) == deps_hold(m, v, deps),
        forall|x: usize| x < m.slots.len() ==> #[trigger] cell(m2, x, v) == cell(m, x, v) && in_range(m2, x, v) == in_range(m, x, v),
{
    assert forall|d: Dep| #[trigger] dep_holds(m2, v, d) == dep_holds(m, v, d) by {
        if let Key::Derived(j) = d.source {
            if j < m.slots.len() {
                assert(m2.slots[j as int] == m.slots[j as int].push(carried(m, j as int, ni)));
            }
        }
    }
    assert forall|deps: Seq<Dep>| #[trigger] deps_hold(m2, v, deps) == deps_hold(m, v, deps) by {
        assert forall|i: int| 0 <= i < deps.len() implies dep_holds(m2, v, #[trigger] deps[i]) == dep_holds(m, v, deps[i]) by {}
    }
    assert forall|x: usize| x < m.slots.len() implies #[trigger] cell(m2, x, v) == cell(m, x, v) && in_range(m2, x, v) == in_range(m, x, v) by {
        assert(m2.slots[x as int] == m.slots[x as int].push(carried(m, x as int, ni)));
    }
}

/// A failed evaluation is shared like a value: both requests that wait on it receive the same
/// error, and a later request at that version is handed that error with no new evaluation,
/// unless the slot retries its errors, in which case that request evaluates again. Readers at
/// that version are handed the error either way.
pub proof fn lemma_error_replay(m: EngineModel, k: usize, v: u64, e: u64, d: Seq<Dep>)
    requires
        in_range(m, k, v),
        available(m, k, v) is None,
        !(cell(m, k, v) is InFlight),
        input_deps_hold(m.inputs[v as int], d),
    ensures
        ({
            let (m1, r1) = spec_request(m, k, v);
            let (m2, r2) = spec_request(m1, k, v);
            let m3 = spec_complete(m2, k, v, OutcomeModel::Failed(e), d);
            &&& r1 == FutureModel::Spawned(k, v)
            &&& r2 == FutureModel::Joining(k, v)
            &&& spec_poll(m3, r1).1 == Some(OutcomeModel::Failed(e))
            &&& spec_poll(m3, r2).1 == Some(OutcomeModel::Failed(e))
            &&& !retries_errors(m, k) ==> spec_request(m3, k, v) == (m3, FutureModel::Ready(
                Some(OutcomeModel::Failed(e)),
            ))
            &&& retries_errors(m, k) ==> spec_request(m3, k, v).1 == FutureModel::Spawned(k, v)
            &&& lookup(m3, v, Key::Derived(k)) == Ok::<(OutcomeModel, Seq<Dep>), ComputeError>(
                (OutcomeModel::Failed(e), d),
            )
        }),
{
    let (m1, r1) = spec_request(m, k, v);
    let (m2, r2) = spec_request(m1, k, v);
    let m3 = spec_complete(m2, k, v, OutcomeModel::Failed(e), d);
    assert forall|i: int| 0 <= i < d.len() implies dep_holds(m3, v, #[trigger] d[i]) by {
        assert(input_dep_holds(m.inputs[v as int], d[i]));
    }
}

} // verus!
