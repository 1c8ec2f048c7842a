use vstd::prelude::*;

use crate::data::DiceData;

verus! {

/// A point in the history of the inputs: strictly increasing per commit.
#[derive(Clone, Copy, Debug, PartialEq, Eq, Structural)]
pub struct VersionNumber {
    pub v: u64,
}

/// Names a computation: an input slot or a derived slot of an engine.
#[derive(Clone, Copy, Debug, PartialEq, Eq, Structural)]
pub enum Key {
    Input(usize),
    Derived(usize),
}

/// A read of one field of an input's record or of a derived value, with the value that was
/// seen.
#[derive(Clone, Copy, Debug, PartialEq, Eq, Structural)]
pub struct Dep {
    pub source: Key,
    pub field: usize,
    pub seen: u64,
}

/// One change of a pending transaction: field `field` of input `input` becomes `value`.
#[derive(Clone, Copy, Debug, PartialEq, Eq, Structural)]
pub struct Edit {
    pub input: usize,
    pub field: usize,
    pub value: u64,
}

/// What an evaluation produced: a record of fields, or an evaluation error code.
#[derive(Debug)]
pub enum Outcome {
    Value(Vec<u64>),
    Failed(u64),
}

/// The mathematical content of an `Outcome`.
pub enum OutcomeModel {
    Value(Seq<u64>),
    Failed(u64),
}

impl View for Outcome {
    type V = OutcomeModel;

    open spec fn view(&self) -> OutcomeModel {
        match self {
            Outcome::Value(v) => OutcomeModel::Value(v@),
            Outcome::Failed(e) => OutcomeModel::Failed(*e),
        }
    }
}

/// The cache cell of one derived key at one version.
#[derive(Debug)]
pub enum SlotState {
    /// Not computed, or its last evaluation was abandoned.
    Empty,
    /// An evaluation is running; `requesters` requests are interested in it.
    InFlight { requesters: u64 },
    /// A published result, with the input reads its evaluation made.
    Done { outcome: Outcome, deps: Vec<Dep> },
}

/// The mathematical content of a `SlotState`: the requesters of a running evaluation; the
/// outcome and reads of a published one.
pub enum SlotModel {
    Empty,
    InFlight(u64),
    Done(OutcomeModel, Seq<Dep>),
}

impl View for SlotState {
    type V = SlotModel;

    open spec fn view(&self) -> SlotModel {
        match self {
            SlotState::Empty => SlotModel::Empty,
            SlotState::InFlight { requesters } => SlotModel::InFlight(*requesters),
            SlotState::Done { outcome, deps } => SlotModel::Done(outcome@, deps@),
        }
    }
}

/// A request for a derived key, as handed out by `Engine::request`.
#[derive(Debug)]
pub enum DiceFuture {
    /// The value was cached; it is handed out once.
    Ready(Option<Outcome>),
    /// This request started the evaluation of the slot at the version.
    AsyncCancellableSpawned(usize, u64),
    /// This request joined the evaluation at the version that another request started.
    AsyncCancellableJoining(usize, u64),
}

/// The mathematical content of a `DiceFuture`.
pub enum FutureModel {
    Ready(Option<OutcomeModel>),
    Spawned(usize, u64),
    Joining(usize, u64),
}

impl View for DiceFuture {
    type V = FutureModel;

    open spec fn view(&self) -> FutureModel {
        match self {
            DiceFuture::Ready(None) => FutureModel::Ready(None),
            DiceFuture::Ready(Some(o)) => FutureModel::Ready(Some(o@)),
            DiceFuture::AsyncCancellableSpawned(k, v) => FutureModel::Spawned(*k, *v),
            DiceFuture::AsyncCancellableJoining(k, v) => FutureModel::Joining(*k, *v),
        }
    }
}

/// Slot `k` has a cell at version `v` in `m`.
pub open spec fn in_range(m: EngineModel, k: usize, v: u64) -> bool {
    k < m.slots.len() && v < m.slots[k as int].len() && v < m.inputs.len()
}

/// The cell of slot `k` at version `v` in `m`.
pub open spec fn cell(m: EngineModel, k: usize, v: u64) -> SlotModel {
    m.slots[k as int][v as int]
}

/// `m` with the cell of slot `k` at version `v` replaced by `s`.
pub open spec fn with_cell(m: EngineModel, k: usize, v: u64, s: SlotModel) -> EngineModel {
    EngineModel { slots: m.slots.update(k as int, m.slots[k as int].update(v as int, s)), ..m }
}

/// What polling request `f` yields against `m`: a cached value once, the result published
/// for the (slot, version) of the evaluation it is attached to, or nothing yet.
pub open spec fn spec_poll(m: EngineModel, f: FutureModel) -> (FutureModel, Option<OutcomeModel>) {
    match f {
        FutureModel::Ready(o) => (FutureModel::Ready(None), o),
        FutureModel::Spawned(k, v) | FutureModel::Joining(k, v) => {
            if in_range(m, k, v) && cell(m, k, v) is Done {
                (f, Some(cell(m, k, v)->Done_0))
            } else {
                (f, None)
            }
        },
    }
}

/// Polling `f` against `m` is allowed: a cached value is not taken twice, and the evaluation
/// that a live request waits on is still running or has published its result.
pub open spec fn can_poll(m: EngineModel, f: FutureModel) -> bool {
    match f {
        FutureModel::Ready(o) => o is Some,
        FutureModel::Spawned(k, v) | FutureModel::Joining(k, v) => in_range(m, k, v) && !(cell(m, k, v) is Empty),
    }
}

/// The state of an engine: the current version, the inputs committed at each version, the
/// cells of each derived slot per version, the process-wide data and the error policy.
pub struct EngineModel {
    pub version: u64,
    pub inputs: Seq<Seq<Seq<u64>>>,
    pub slots: Seq<Seq<SlotModel>>,
    pub global: Seq<u64>,
    /// Per slot: a failed evaluation is handed to its waiting requests but not reused.
    pub retry_errors: Seq<bool>,
}

/// Every version up to the current one has its inputs and a cell in each slot.
pub open spec fn model_wf(m: EngineModel) -> bool {
    &&& m.inputs.len() == m.version + 1
    &&& forall|k: int| 0 <= k < m.slots.len() ==> (#[trigger] m.slots[k]).len() == m.version + 1
    &&& m.retry_errors.len() == m.slots.len()
    &&& forall|k: int, v: int|
        0 <= k < m.slots.len() && 0 <= v < m.slots[k].len() && (#[trigger] m.slots[k][v]) is InFlight
            ==> m.slots[k][v]->InFlight_0 > 0
}

/// The dependency graph store: the inputs of every version and one cache slot per derived
/// key and version.
pub struct Engine {
    version: u64,
    inputs: Vec<Vec<Vec<u64>>>,
    slots: Vec<Vec<SlotState>>,
    global: DiceData,
    retry_errors: Vec<bool>,
}

impl View for Engine {
    type V = EngineModel;

    closed spec fn view(&self) -> EngineModel {
        EngineModel {
            version: self.version,
            inputs: self.inputs@.map_values(|h: Vec<Vec<u64>>| h@.map_values(|r: Vec<u64>| r@)),
            slots: self.slots@.map_values(|c: Vec<SlotState>| c@.map_values(|s: SlotState| s@)),
            global: self.global@,
            retry_errors: self.retry_errors@,
        }
    }
}

/// The read `d` of an input sees the same value in `inputs`.
pub open spec fn input_dep_holds(inputs: Seq<Seq<u64>>, d: Dep) -> bool {
    &&& d.source is Input
    &&& d.source->Input_0 < inputs.len()
    &&& d.field < inputs[d.source->Input_0 as int].len()
    &&& inputs[d.source->Input_0 as int][d.field as int] == d.seen
}

/// Every read in `deps` is of an input and sees the same value in `inputs`.
pub open spec fn input_deps_hold(inputs: Seq<Seq<u64>>, deps: Seq<Dep>) -> bool {
    forall|i: int| 0 <= i < deps.len() ==> input_dep_holds(inputs, #[trigger] deps[i])
}

/// The read `d` sees the same value at version `v` of `m`: in the inputs of `v`, or in the
/// value published for the derived slot at `v`.
pub open spec fn dep_holds(m: EngineModel, v: u64, d: Dep) -> bool {
    match d.source {
        Key::Input(_) => v < m.inputs.len() && input_dep_holds(m.inputs[v as int], d),
        Key::Derived(j) => {
            &&& in_range(m, j, v)
            &&& cell(m, j, v) is Done
            &&& cell(m, j, v)->Done_0 is Value
            &&& d.field < cell(m, j, v)->Done_0->Value_0.len()
            &&& cell(m, j, v)->Done_0->Value_0[d.field as int] == d.seen
        },
    }
}

/// Every read in `deps` sees the same value at version `v` of `m`.
pub open spec fn deps_hold(m: EngineModel, v: u64, deps: Seq<Dep>) -> bool {
    forall|i: int| 0 <= i < deps.len() ==> dep_holds(m, v, #[trigger] deps[i])
}

/// A failure of slot `k` is evaluated again rather than reused.
pub open spec fn retries_errors(m: EngineModel, k: usize) -> bool {
    k < m.retry_errors.len() && m.retry_errors[k as int]
}

/// A published cell of slot `k` may be reused at version `v`: every value it read is the same
/// there, and it is no failure that is retried.
pub open spec fn reusable(m: EngineModel, k: usize, v: u64, s: SlotModel) -> bool {
    &&& s is Done
    &&& deps_hold(m, v, s->Done_1)
    &&& !(s->Done_0 is Failed && retries_errors(m, k))
}

/// The cached result of slot `k` at version `v` is current and may be reused.
pub open spec fn is_fresh(m: EngineModel, k: usize, v: u64) -> bool {
    in_range(m, k, v) && reusable(m, k, v, cell(m, k, v))
}

/// The latest version before `v` where slot `k` holds a published result, with only empty
/// cells between it and `v`.
pub open spec fn published_before(m: EngineModel, k: usize, v: u64) -> Option<u64>
    decreases v,
{
    if v == 0 {
        None
    } else if cell(m, k, (v - 1) as u64) is Done {
        Some((v - 1) as u64)
    } else if cell(m, k, (v - 1) as u64) is Empty {
        published_before(m, k, (v - 1) as u64)
    } else {
        None
    }
}

/// The published cell that slot `k` may revalidate at version `v` from, if any.
pub open spec fn prior(m: EngineModel, k: usize, v: u64) -> SlotModel {
    match published_before(m, k, v) {
        Some(w) => cell(m, k, w),
        None => SlotModel::Empty,
    }
}

/// Slot `k` has nothing at version `v`, and its latest earlier result may be reused there:
/// this is how a result that read derived values survives commits.
pub open spec fn revalidates(m: EngineModel, k: usize, v: u64) -> bool {
    &&& in_range(m, k, v)
    &&& cell(m, k, v) is Empty
    &&& reusable(m, k, v, prior(m, k, v))
}

/// Slot `k` holds a published result at version `v` whose reads all hold there: a reader at
/// `v` is handed it, a failure too, whatever the error policy.
pub open spec fn readable(m: EngineModel, k: usize, v: u64) -> bool {
    &&& in_range(m, k, v)
    &&& cell(m, k, v) is Done
    &&& deps_hold(m, v, cell(m, k, v)->Done_1)
}

/// The result that a request for slot `k` at version `v` is handed with no evaluation, with
/// its reads.
pub open spec fn available(m: EngineModel, k: usize, v: u64) -> Option<(OutcomeModel, Seq<Dep>)> {
    if is_fresh(m, k, v) {
        Some((cell(m, k, v)->Done_0, cell(m, k, v)->Done_1))
    } else if revalidates(m, k, v) {
        Some((prior(m, k, v)->Done_0, prior(m, k, v)->Done_1))
    } else {
        None
    }
}

/// What a request for slot `k` at version `v` does: hand out a fresh cached result, or one
/// of the version before that still holds (keeping it for `v`), join the evaluation running
/// for that version, or start one for it.
pub open spec fn spec_request(m: EngineModel, k: usize, v: u64) -> (EngineModel, FutureModel) {
    if is_fresh(m, k, v) {
        (m, FutureModel::Ready(Some(cell(m, k, v)->Done_0)))
    } else if revalidates(m, k, v) {
        (with_cell(m, k, v, prior(m, k, v)), FutureModel::Ready(Some(prior(m, k, v)->Done_0)))
    } else if cell(m, k, v) is InFlight {
        let n = cell(m, k, v)->InFlight_0;
        (with_cell(m, k, v, SlotModel::InFlight((n + 1) as u64)), FutureModel::Joining(k, v))
    } else {
        (with_cell(m, k, v, SlotModel::InFlight(1)), FutureModel::Spawned(k, v))
    }
}

/// What dropping an interested request for the evaluation of slot `k` at version `v` does:
/// the evaluation is abandoned only when no request is left.
pub open spec fn spec_cancel(m: EngineModel, k: usize, v: u64) -> EngineModel {
    if in_range(m, k, v) && cell(m, k, v) is InFlight {
        let n = cell(m, k, v)->InFlight_0;
        if n <= 1 {
            with_cell(m, k, v, SlotModel::Empty)
        } else {
            with_cell(m, k, v, SlotModel::InFlight((n - 1) as u64))
        }
    } else {
        m
    }
}

/// What finishing the evaluation of slot `k` at version `v` does: publish the outcome with
/// its reads, unless the evaluation was abandoned meanwhile.
pub open spec fn spec_complete(m: EngineModel, k: usize, v: u64, o: OutcomeModel, deps: Seq<Dep>) -> EngineModel {
    if in_range(m, k, v) && cell(m, k, v) is InFlight {
        with_cell(m, k, v, SlotModel::Done(o, deps))
    } else {
        m
    }
}

/// The edit names an existing field.
pub open spec fn edit_in_range(inputs: Seq<Seq<u64>>, e: Edit) -> bool {
    e.input < inputs.len() && e.field < inputs[e.input as int].len()
}

pub open spec fn apply_edit(inputs: Seq<Seq<u64>>, e: Edit) -> Seq<Seq<u64>> {
    inputs.update(e.input as int, inputs[e.input as int].update(e.field as int, e.value))
}

/// The inputs after the edits, applied in order.
pub open spec fn apply_edits(inputs: Seq<Seq<u64>>, edits: Seq<Edit>) -> Seq<Seq<u64>>
    decreases edits.len(),
{
    if edits.len() == 0 {
        inputs
    } else {
        apply_edit(apply_edits(inputs, edits.drop_last()), edits.last())
    }
}

/// Why a commit was refused; a refused commit changes nothing.
#[derive(Clone, Copy, Debug, PartialEq, Eq, Structural)]
pub enum CommitError {
    /// Another commit happened since the updater was opened.
    Conflict,
    /// An edit names an input or a field that does not exist.
    InvalidEdit,
    /// No version number is left.
    VersionsExhausted,
}

/// A pending set of input changes against a base version.
pub struct DiceTransactionUpdater {
    pub base: u64,
    pub edits: Vec<Edit>,
}

impl DiceTransactionUpdater {
    /// Opens an updater against `base` with no edits.
    pub fn new(base: VersionNumber) -> (r: DiceTransactionUpdater)
        ensures
            r.base == base.v,
            r.edits@ == Seq::<Edit>::empty(),
    {
        DiceTransactionUpdater { base: base.v, edits: Vec::new() }
    }

    /// Records that field `field` of input `input` becomes `value`.
    pub fn set(&mut self, input: usize, field: usize, value: u64)
        ensures
            final(self).base == old(self).base,
            final(self).edits@ == old(self).edits@.push(Edit { input, field, value }),
    {
        self.edits.push(Edit { input, field, value });
    }
}

/// The inputs committed at the current version of `m`.
pub open spec fn current_inputs(m: EngineModel) -> Seq<Seq<u64>> {
    m.inputs[m.version as int]
}

/// What a commit does to an engine: on success the edits are applied to the current inputs
/// and the version is the next one; on failure nothing changes.
pub open spec fn commit_result(m: EngineModel, base: u64, edits: Seq<Edit>) -> Result<u64, CommitError> {
    if base != m.version {
        Err(CommitError::Conflict)
    } else if !(forall|i: int| 0 <= i < edits.len() ==> edit_in_range(current_inputs(m), #[trigger] edits[i])) {
        Err(CommitError::InvalidEdit)
    } else if m.version == u64::MAX {
        Err(CommitError::VersionsExhausted)
    } else {
        Ok((m.version + 1) as u64)
    }
}

/// The cell that slot `k` starts the new version with: the last one where it read inputs
/// alone and may be reused over the new inputs, else empty (a result that read derived values
/// is revalidated when requested).
pub open spec fn carried(m: EngineModel, k: int, inputs: Seq<Seq<u64>>) -> SlotModel {
    let s = m.slots[k].last();
    if s is Done && input_deps_hold(inputs, s->Done_1) && !(s->Done_0 is Failed && retries_errors(m, k as usize)) {
        s
    } else {
        SlotModel::Empty
    }
}

/// A successful commit keeps every older version as it was and appends the new one.
pub open spec fn spec_commit(m: EngineModel, base: u64, edits: Seq<Edit>) -> EngineModel {
    match commit_result(m, base, edits) {
        Ok(v) => {
            let ni = apply_edits(current_inputs(m), edits);
            EngineModel {
                version: v,
                inputs: m.inputs.push(ni),
                slots: Seq::new(m.slots.len(), |k: int| m.slots[k].push(carried(m, k, ni))),
                ..m
            }
        },
        Err(_) => m,
    }
}

/// Edits that name existing fields keep the number of inputs and of their fields.
pub(crate) proof fn lemma_apply_edits_shape(inputs: Seq<Seq<u64>>, edits: Seq<Edit>)
    requires
        forall|i: int| 0 <= i < edits.len() ==> edit_in_range(inputs, #[trigger] edits[i]),
    ensures
        apply_edits(inputs, edits).len() == inputs.len(),
        forall|j: int|
            0 <= j < inputs.len() ==> (#[trigger] apply_edits(inputs, edits)[j]).len()
                == inputs[j].len(),
    decreases edits.len(),
{
    if edits.len() > 0 {
        let p = edits.drop_last();
        assert forall|i: int| 0 <= i < p.len() implies edit_in_range(inputs, #[trigger] p[i]) by {
            assert(p[i] == edits[i]);
        }
        lemma_apply_edits_shape(inputs, p);
    }
}

/// A copy of `o`.
pub fn copy_outcome(o: &Outcome) -> (r: Outcome)
    ensures
        r@ == o@,
{
    match o {
        Outcome::Value(v) => Outcome::Value(v.clone()),
        Outcome::Failed(e) => Outcome::Failed(*e),
    }
}

/// A copy of `d`.
pub fn copy_deps(d: &Vec<Dep>) -> (r: Vec<Dep>)
    ensures
        r@ == d@,
{
    let mut r: Vec<Dep> = Vec::new();
    let mut i: usize = 0;
    while i < d.len()
        invariant
            i <= d.len(),
            r@ == d@.take(i as int),
        decreases d.len() - i,
    {
        r.push(d[i]);
        i = i + 1;
        assert(r@ == d@.take(i as int));
    }
    assert(d@.take(d.len() as int) == d@);
    r
}

/// A copy of `records`.
fn copy_records(records: &Vec<Vec<u64>>) -> (r: Vec<Vec<u64>>)
    ensures
        r@.map_values(|x: Vec<u64>| x@) == records@.map_values(|x: Vec<u64>| x@),
{
    let mut r: Vec<Vec<u64>> = Vec::new();
    let mut i: usize = 0;
    while i < records.len()
        invariant
            i <= records.len(),
            r@.len() == i,
            forall|j: int| 0 <= j < i ==> (#[trigger] r@[j])@ == records@[j]@,
        decreases records.len() - i,
    {
        r.push(records[i].clone());
        i = i + 1;
    }
    assert(r@.map_values(|x: Vec<u64>| x@) =~= records@.map_values(|x: Vec<u64>| x@));
    r
}

/// Replacing a cell with one that is not an unclaimed evaluation keeps a model well formed.
proof fn lemma_with_cell_wf(m: EngineModel, k: usize, v: u64, s: SlotModel)
    requires
        model_wf(m),
        in_range(m, k, v),
        s is InFlight ==> s->InFlight_0 > 0,
    ensures
        model_wf(with_cell(m, k, v, s)),
{
    let m2 = with_cell(m, k, v, s);
    assert forall|j: int| 0 <= j < m2.slots.len() implies (#[trigger] m2.slots[j]).len() == m2.version + 1 by {
        if j == k {
            assert(m2.slots[j] == m.slots[j].update(v as int, s));
        }
    }
    assert forall|j: int, w: int|
        0 <= j < m2.slots.len() && 0 <= w < m2.slots[j].len() && (#[trigger] m2.slots[j][w]) is InFlight
        implies m2.slots[j][w]->InFlight_0 > 0 by {
        if j == k {
            assert(m2.slots[j] == m.slots[j].update(v as int, s));
        }
    }
}

/// Whether the read `d` is of an input and sees the same value in `rows`.
fn input_dep_current(rows: &Vec<Vec<u64>>, d: Dep) -> (r: bool)
    ensures
        r == input_dep_holds(rows@.map_values(|x: Vec<u64>| x@), d),
{
    match d.source {
        Key::Input(i) => {
            proof {
                if i < rows@.len() {
                    assert(rows@.map_values(|x: Vec<u64>| x@)[i as int] == rows@[i as int]@);
                }
            }
            i < rows.len() && d.field < rows[i].len() && rows[i][d.field] == d.seen
        },
        Key::Derived(_) => false,
    }
}

/// Whether every read in `deps` is of an input and sees the same value in `rows`.
fn input_deps_current(rows: &Vec<Vec<u64>>, deps: &Vec<Dep>) -> (r: bool)
    ensures
        r == input_deps_hold(rows@.map_values(|x: Vec<u64>| x@), deps@),
{
    let mut i: usize = 0;
    while i < deps.len()
        invariant
            i <= deps.len(),
            forall|j: int| 0 <= j < i ==> input_dep_holds(rows@.map_values(|x: Vec<u64>| x@), #[trigger] deps@[j]),
        decreases deps.len() - i,
    {
        if !input_dep_current(rows, deps[i]) {
            return false;
        }
        i = i + 1;
    }
    true
}

/// A successful commit keeps a model well formed.
proof fn lemma_commit_wf(m: EngineModel, base: u64, edits: Seq<Edit>)
    requires
        model_wf(m),
        commit_result(m, base, edits) is Ok,
    ensures
        model_wf(spec_commit(m, base, edits)),
{
    let ni = apply_edits(current_inputs(m), edits);
    let m2 = spec_commit(m, base, edits);
    assert forall|j: int| 0 <= j < m2.slots.len() implies (#[trigger] m2.slots[j]).len() == m2.version + 1 by {
        assert(m2.slots[j] == m.slots[j].push(carried(m, j, ni)));
    }
    assert forall|j: int, w: int|
        0 <= j < m2.slots.len() && 0 <= w < m2.slots[j].len() && (#[trigger] m2.slots[j][w]) is InFlight
        implies m2.slots[j][w]->InFlight_0 > 0 by {
        assert(m2.slots[j] == m.slots[j].push(carried(m, j, ni)));
        if w < m.slots[j].len() {
            assert(m2.slots[j][w] == m.slots[j][w]);
        }
    }
}

impl Engine {
    /// Every version up to the current one has its inputs and a cell in each slot, and no
    /// running evaluation is unclaimed.
    pub closed spec fn wf(&self) -> bool {
        model_wf(self@)
    }

    /// The model of a well-formed engine is well formed.
    pub proof fn lemma_model_wf(&self)
        requires
            self.wf(),
        ensures
            model_wf(self@),
    {
    }

    /// An engine at version zero with the given inputs, `n_derived` empty slots and the
    /// process-wide data `global`.
    pub fn new(inputs: Vec<Vec<u64>>, n_derived: usize, global: DiceData) -> (r: Engine)
        ensures
            r.wf(),
            r@.version == 0,
            r@.global == global@,
            r@.inputs == seq![inputs@.map_values(|v: Vec<u64>| v@)],
            r@.slots == Seq::new(n_derived as nat, |i: int| seq![SlotModel::Empty]),
            r@.retry_errors == Seq::new(n_derived as nat, |i: int| false),
    {
        let mut slots: Vec<Vec<SlotState>> = Vec::new();
        let mut retry_errors: Vec<bool> = Vec::new();
        let mut i: usize = 0;
        while i < n_derived
            invariant
                i <= n_derived,
                slots@.len() == i,
                retry_errors@.len() == i,
                forall|j: int| 0 <= j < i ==> (#[trigger] slots@[j])@.len() == 1 && slots@[j]@[0] is Empty,
                forall|j: int| 0 <= j < i ==> !(#[trigger] retry_errors@[j]),
            decreases n_derived - i,
        {
            let mut c: Vec<SlotState> = Vec::new();
            c.push(SlotState::Empty);
            slots.push(c);
            retry_errors.push(false);
            i = i + 1;
        }
        let mut history: Vec<Vec<Vec<u64>>> = Vec::new();
        history.push(inputs);
        let r = Engine { version: 0, inputs: history, slots, global, retry_errors };
        assert forall|j: int| 0 <= j < n_derived implies #[trigger] r@.slots[j] =~= seq![SlotModel::Empty] by {
            assert(r@.slots[j] == r.slots@[j]@.map_values(|s: SlotState| s@));
        }
        assert(r@.slots =~= Seq::new(n_derived as nat, |i: int| seq![SlotModel::Empty]));
        assert(r@.inputs =~= seq![inputs@.map_values(|v: Vec<u64>| v@)]);
        assert(r@.retry_errors =~= Seq::new(n_derived as nat, |i: int| false));
        r
    }

    pub fn get_version(&self) -> (r: VersionNumber)
        ensures
            r.v == self@.version,
    {
        VersionNumber { v: self.version }
    }

    /// Sets whether a failed evaluation of slot `k` is evaluated again on the next request
    /// rather than reused; by default failures are reused like values.
    pub fn set_retry_errors(&mut self, k: usize, retry: bool)
        requires
            old(self).wf(),
        ensures
            final(self).wf(),
            final(self)@ == (if k < old(self)@.slots.len() {
                EngineModel { retry_errors: old(self)@.retry_errors.update(k as int, retry), ..old(self)@ }
            } else {
                old(self)@
            }),
    {
        if k < self.retry_errors.len() {
            let ghost m = self@;
            self.retry_errors.set(k, retry);
            assert(self@.retry_errors =~= m.retry_errors.update(k as int, retry));
        }
    }

    /// Data that is fixed for the whole lifetime of the engine.
    pub fn global_data(&self) -> (r: &DiceData)
        ensures
            r@ == self@.global,
    {
        &self.global
    }

    /// The number of versions committed so far, the first one included.
    pub fn num_versions(&self) -> (r: u64)
        ensures
            r == self@.inputs.len(),
    {
        self.inputs.len() as u64
    }

    pub fn num_slots(&self) -> (r: usize)
        ensures
            r == self@.slots.len(),
    {
        self.slots.len()
    }

    /// The record of input `input` committed at version `v`, if both exist.
    pub fn input_record_at(&self, v: u64, input: usize) -> (r: Option<Vec<u64>>)
        ensures
            match r {
                Some(x) => v < self@.inputs.len() && input < self@.inputs[v as int].len()
                    && x@ == self@.inputs[v as int][input as int],
                None => !(v < self@.inputs.len() && input < self@.inputs[v as int].len()),
            },
    {
        if v < self.inputs.len() as u64 {
            let vi = v as usize;
            if input < self.inputs[vi].len() {
                proof {
                    assert(self@.inputs[v as int] == self.inputs@[vi as int]@.map_values(|r: Vec<u64>| r@));
                }
                return Some(self.inputs[vi][input].clone());
            }
            proof {
                assert(self@.inputs[v as int] == self.inputs@[vi as int]@.map_values(|r: Vec<u64>| r@));
            }
        }
        None
    }

    /// The value of field `field` of input `input` at the current version, if both exist.
    pub fn input_field(&self, input: usize, field: usize) -> (r: Option<u64>)
        requires
            self.wf(),
        ensures
            r == (if input < current_inputs(self@).len() && field < current_inputs(self@)[input as int].len() {
                Some(current_inputs(self@)[input as int][field as int])
            } else {
                None
            }),
    {
        match self.input_record_at(self.version, input) {
            Some(x) => if field < x.len() {
                Some(x[field])
            } else {
                None
            },
            None => None,
        }
    }

    /// Whether the read `d` sees the same value at version `vi`.
    fn dep_current(&self, vi: usize, d: Dep) -> (r: bool)
        requires
            vi < self@.inputs.len(),
        ensures
            r == dep_holds(self@, vi as u64, d),
    {
        match d.source {
            Key::Input(_) => {
                proof {
                    assert(self@.inputs[vi as int] == self.inputs@[vi as int]@.map_values(|x: Vec<u64>| x@));
                }
                input_dep_current(&self.inputs[vi], d)
            },
            Key::Derived(j) => {
                proof {
                    assert(self@.slots.len() == self.slots@.len());
                    if j < self.slots@.len() {
                        assert(self@.slots[j as int].len() == self.slots@[j as int]@.len());
                    }
                }
                if j < self.slots.len() && vi < self.slots[j].len() {
                    proof {
                        assert(cell(self@, j, vi as u64) == self.slots@[j as int]@[vi as int]@);
                    }
                    match &self.slots[j][vi] {
                        SlotState::Done { outcome: Outcome::Value(val), .. } => d.field < val.len() && val[d.field] == d.seen,
                        _ => false,
                    }
                } else {
                    false
                }
            },
        }
    }

    /// Whether every read in `deps` sees the same value at version `vi`.
    fn deps_current_at(&self, vi: usize, deps: &Vec<Dep>) -> (r: bool)
        requires
            vi < self@.inputs.len(),
        ensures
            r == deps_hold(self@, vi as u64, deps@),
    {
        let mut i: usize = 0;
        while i < deps.len()
            invariant
                i <= deps.len(),
                vi < self@.inputs.len(),
                forall|j: int| 0 <= j < i ==> dep_holds(self@, vi as u64, #[trigger] deps@[j]),
            decreases deps.len() - i,
        {
            if !self.dep_current(vi, deps[i]) {
                assert(!dep_holds(self@, vi as u64, deps@[i as int]));
                return false;
            }
            i = i + 1;
        }
        true
    }

    /// A copy of the cell of slot `k` at version `vi` where it may be reused at version `wi`.
    fn reusable_cell(&self, k: usize, vi: usize, wi: usize) -> (r: Option<(Outcome, Vec<Dep>)>)
        requires
            k < self@.slots.len(),
            vi < self@.slots[k as int].len(),
            wi < self@.inputs.len(),
        ensures
            match r {
                Some((o, d)) => reusable(self@, k, wi as u64, cell(self@, k, vi as u64))
                    && o@ == cell(self@, k, vi as u64)->Done_0 && d@ == cell(self@, k, vi as u64)->Done_1,
                None => !reusable(self@, k, wi as u64, cell(self@, k, vi as u64)),
            },
    {
        proof {
            assert(cell(self@, k, vi as u64) == self.slots@[k as int]@[vi as int]@);
        }
        match &self.slots[k][vi] {
            SlotState::Done { outcome, deps } => {
                let retried = match outcome {
                    Outcome::Failed(_) => k < self.retry_errors.len() && self.retry_errors[k],
                    Outcome::Value(_) => false,
                };
                if !retried && self.deps_current_at(wi, deps) {
                    Some((copy_outcome(outcome), copy_deps(deps)))
                } else {
                    None
                }
            },
            _ => None,
        }
    }

    /// The cell that slot `k` starts version `wi` with, from its cell at version `vi`.
    fn carry_cell(&self, k: usize, vi: usize, wi: usize) -> (r: SlotState)
        requires
            k < self@.slots.len(),
            vi < self@.slots[k as int].len(),
            wi < self@.inputs.len(),
        ensures
            r@ == ({
                let s = cell(self@, k, vi as u64);
                if s is Done && input_deps_hold(self@.inputs[wi as int], s->Done_1) && !(s->Done_0 is Failed
                    && retries_errors(self@, k)) {
                    s
                } else {
                    SlotModel::Empty
                }
            }),
    {
        proof {
            assert(cell(self@, k, vi as u64) == self.slots@[k as int]@[vi as int]@);
            assert(self@.inputs[wi as int] == self.inputs@[wi as int]@.map_values(|x: Vec<u64>| x@));
        }
        match &self.slots[k][vi] {
            SlotState::Done { outcome, deps } => {
                let retried = match outcome {
                    Outcome::Failed(_) => k < self.retry_errors.len() && self.retry_errors[k],
                    Outcome::Value(_) => false,
                };
                if !retried && input_deps_current(&self.inputs[wi], deps) {
                    SlotState::Done { outcome: copy_outcome(outcome), deps: copy_deps(deps) }
                } else {
                    SlotState::Empty
                }
            },
            _ => SlotState::Empty,
        }
    }

    /// The latest version before `vi` where slot `k` holds a published result with only empty
    /// cells after it; `vi` itself where there is none.
    fn published_before(&self, k: usize, vi: usize) -> (r: usize)
        requires
            k < self@.slots.len(),
            vi < self@.slots[k as int].len(),
        ensures
            r <= vi,
            r < vi <==> published_before(self@, k, vi as u64) is Some,
            r < vi ==> published_before(self@, k, vi as u64) == Some(r as u64),
    {
        let mut j: usize = vi;
        while j > 0
            invariant
                j <= vi,
                vi < self@.slots[k as int].len(),
                k < self@.slots.len(),
                published_before(self@, k, vi as u64) == published_before(self@, k, j as u64),
            decreases j,
        {
            if !self.is_empty_cell(k, j - 1) {
                proof {
                    assert(cell(self@, k, (j - 1) as u64) == self.slots@[k as int]@[(j - 1) as int]@);
                }
                let done = match &self.slots[k][j - 1] {
                    SlotState::Done { .. } => true,
                    _ => false,
                };
                if done {
                    return j - 1;
                } else {
                    return vi;
                }
            }
            j = j - 1;
        }
        vi
    }

    /// Whether the cell of slot `k` at version `vi` is empty.
    fn is_empty_cell(&self, k: usize, vi: usize) -> (r: bool)
        requires
            k < self@.slots.len(),
            vi < self@.slots[k as int].len(),
        ensures
            r == (cell(self@, k, vi as u64) is Empty),
    {
        proof {
            assert(cell(self@, k, vi as u64) == self.slots@[k as int]@[vi as int]@);
        }
        match &self.slots[k][vi] {
            SlotState::Empty => true,
            _ => false,
        }
    }

    /// The published result of slot `k` at version `v` with its reads, where they all hold
    /// there.
    pub fn cached(&self, k: usize, v: u64) -> (r: Option<(Outcome, Vec<Dep>)>)
        ensures
            match r {
                Some((o, d)) => readable(self@, k, v) && o@ == cell(self@, k, v)->Done_0
                    && d@ == cell(self@, k, v)->Done_1,
                None => !readable(self@, k, v),
            },
    {
        if k < self.slots.len() && v < self.slots[k].len() as u64 && v < self.inputs.len() as u64 {
            let vi = self.cell_index(k, v);
            proof {
                assert(cell(self@, k, v) == self.slots@[k as int]@[vi as int]@);
            }
            match &self.slots[k][vi] {
                SlotState::Done { outcome, deps } => if self.deps_current_at(vi, deps) {
                    Some((copy_outcome(outcome), copy_deps(deps)))
                } else {
                    None
                },
                _ => None,
            }
        } else {
            None
        }
    }

    /// The position of version `v` in the cells of slot `k`.
    fn cell_index(&self, k: usize, v: u64) -> (r: usize)
        requires
            k < self@.slots.len(),
            v < self@.slots[k as int].len(),
        ensures
            r == v,
    {
        proof {
            assert(self@.slots[k as int].len() == self.slots@[k as int]@.len());
        }
        let n = self.slots[k].len();
        assert(v < n);
        v as usize
    }

    /// The position of the current version among the committed inputs.
    fn version_index(&self) -> (r: usize)
        requires
            self.wf(),
        ensures
            r == self@.version,
            r < self.inputs@.len(),
    {
        proof {
            assert(self@.inputs.len() == self.inputs@.len());
        }
        let n = self.inputs.len();
        assert(self.version < n);
        self.version as usize
    }

    /// Replaces the cell of slot `k` at version `vi` by `s`.
    fn set_cell(&mut self, k: usize, vi: usize, s: SlotState)
        requires
            k < old(self)@.slots.len(),
            vi < old(self)@.slots[k as int].len(),
        ensures
            final(self)@ == with_cell(old(self)@, k, vi as u64, s@),
    {
        let ghost m = self@;
        let ghost sv = s@;
        self.slots[k].set(vi, s);
        proof {
            assert(self@.slots[k as int] =~= m.slots[k as int].update(vi as int, sv));
            assert(self@.slots =~= m.slots.update(k as int, m.slots[k as int].update(vi as int, sv)));
        }
    }

    /// The requesters of the evaluation running in slot `k` at version `vi`, or zero.
    fn requesters(&self, k: usize, vi: usize) -> (r: u64)
        requires
            k < self@.slots.len(),
            vi < self@.slots[k as int].len(),
        ensures
            r == (if cell(self@, k, vi as u64) is InFlight { cell(self@, k, vi as u64)->InFlight_0 } else { 0 }),
    {
        proof {
            assert(cell(self@, k, vi as u64) == self.slots@[k as int]@[vi as int]@);
        }
        match &self.slots[k][vi] {
            SlotState::InFlight { requesters } => *requesters,
            _ => 0,
        }
    }

    /// The reads of the result that slot `k` may revalidate at version `v` from, where its
    /// cell there is empty: a driver brings the derived ones up to date before the request.
    pub fn prior_reads(&self, k: usize, v: u64) -> (r: Vec<Dep>)
        ensures
            r@ == (if in_range(self@, k, v) && cell(self@, k, v) is Empty && prior(self@, k, v) is Done {
                prior(self@, k, v)->Done_1
            } else {
                Seq::<Dep>::empty()
            }),
    {
        if k < self.slots.len() && v < self.slots[k].len() as u64 && v < self.inputs.len() as u64 {
            let vi = self.cell_index(k, v);
            if self.is_empty_cell(k, vi) {
                let w = self.published_before(k, vi);
                if w < vi {
                    proof {
                        assert(cell(self@, k, w as u64) == self.slots@[k as int]@[w as int]@);
                    }
                    match &self.slots[k][w] {
                        SlotState::Done { deps, .. } => {
                            return copy_deps(deps);
                        },
                        _ => {},
                    }
                }
            }
        }
        Vec::new()
    }

    /// Whether `request(k, v)` may be called: the cell exists and its running evaluation has
    /// room for one more requester.
    pub fn request_allowed(&self, k: usize, v: u64) -> (r: bool)
        ensures
            r == (in_range(self@, k, v) && !(cell(self@, k, v) is InFlight
                && cell(self@, k, v)->InFlight_0 == u64::MAX)),
    {
        if k < self.slots.len() && v < self.slots[k].len() as u64 && v < self.inputs.len() as u64 {
            let vi = self.cell_index(k, v);
            let n = self.requesters(k, vi);
            proof {
                assert(cell(self@, k, v) == self.slots@[k as int]@[vi as int]@);
            }
            !(n == u64::MAX)
        } else {
            false
        }
    }

    /// Asks for the value of slot `k` at version `v`: a fresh cached result is handed out with
    /// no evaluation; the evaluation running for that version is joined; otherwise this
    /// request starts one.
    pub fn request(&mut self, k: usize, v: u64) -> (r: DiceFuture)
        requires
            old(self).wf(),
            in_range(old(self)@, k, v),
            !(cell(old(self)@, k, v) is InFlight && cell(old(self)@, k, v)->InFlight_0 == u64::MAX),
        ensures
            final(self).wf(),
            (final(self)@, r@) == spec_request(old(self)@, k, v),
    {
        let vi = self.cell_index(k, v);
        if let Some((o, _)) = self.reusable_cell(k, vi, vi) {
            return DiceFuture::Ready(Some(o));
        }
        if self.is_empty_cell(k, vi) {
            let w = self.published_before(k, vi);
            if w < vi {
                if let Some((o, d)) = self.reusable_cell(k, w, vi) {
                    let handed = copy_outcome(&o);
                    proof {
                        lemma_with_cell_wf(self@, k, v, SlotModel::Done(o@, d@));
                    }
                    self.set_cell(k, vi, SlotState::Done { outcome: o, deps: d });
                    return DiceFuture::Ready(Some(handed));
                }
            }
        }
        let n = self.requesters(k, vi);
        proof {
            lemma_with_cell_wf(self@, k, v, SlotModel::InFlight((n + 1) as u64));
        }
        self.set_cell(k, vi, SlotState::InFlight { requesters: n + 1 });
        if n == 0 {
            DiceFuture::AsyncCancellableSpawned(k, v)
        } else {
            DiceFuture::AsyncCancellableJoining(k, v)
        }
    }

    /// Drops request `f`: a request attached to an evaluation withdraws its interest, and the
    /// cell returns to empty when none is left; a cached value is simply dropped.
    pub fn cancel(&mut self, f: DiceFuture)
        requires
            old(self).wf(),
        ensures
            final(self).wf(),
            final(self)@ == (match f@ {
                FutureModel::Spawned(k, v) | FutureModel::Joining(k, v) => spec_cancel(old(self)@, k, v),
                FutureModel::Ready(_) => old(self)@,
            }),
    {
        let (k, v): (usize, u64) = match f {
            DiceFuture::Ready(_) => {
                return;
            },
            DiceFuture::AsyncCancellableSpawned(k, v) => (k, v),
            DiceFuture::AsyncCancellableJoining(k, v) => (k, v),
        };
        if k < self.slots.len() && v < self.slots[k].len() as u64 && v < self.inputs.len() as u64 {
            let vi = self.cell_index(k, v);
            let n = self.requesters(k, vi);
            if n > 0 {
                if n == 1 {
                    proof {
                        lemma_with_cell_wf(self@, k, v, SlotModel::Empty);
                    }
                    self.set_cell(k, vi, SlotState::Empty);
                } else {
                    proof {
                        lemma_with_cell_wf(self@, k, v, SlotModel::InFlight((n - 1) as u64));
                    }
                    self.set_cell(k, vi, SlotState::InFlight { requesters: n - 1 });
                }
            }
        }
    }

    /// Publishes the result of the evaluation of slot `k` at version `v` with the reads it
    /// made; a result for an abandoned evaluation is dropped.
    pub fn complete(&mut self, k: usize, v: u64, outcome: Outcome, deps: Vec<Dep>)
        requires
            old(self).wf(),
        ensures
            final(self).wf(),
            final(self)@ == spec_complete(old(self)@, k, v, outcome@, deps@),
    {
        if k < self.slots.len() && v < self.slots[k].len() as u64 && v < self.inputs.len() as u64 {
            let vi = self.cell_index(k, v);
            if self.requesters(k, vi) > 0 {
                proof {
                    lemma_with_cell_wf(self@, k, v, SlotModel::Done(outcome@, deps@));
                }
                self.set_cell(k, vi, SlotState::Done { outcome, deps });
            }
        }
    }

    /// Whether `poll` may be called on `f`.
    pub fn pollable(&self, f: &DiceFuture) -> (r: bool)
        ensures
            r == can_poll(self@, f@),
    {
        let (k, v): (usize, u64) = match f {
            DiceFuture::Ready(o) => {
                return o.is_some();
            },
            DiceFuture::AsyncCancellableSpawned(k, v) => (*k, *v),
            DiceFuture::AsyncCancellableJoining(k, v) => (*k, *v),
        };
        if k < self.slots.len() && v < self.slots[k].len() as u64 && v < self.inputs.len() as u64 {
            let vi = self.cell_index(k, v);
            !self.is_empty_cell(k, vi)
        } else {
            false
        }
    }

    /// Polls request `f`; `None` means that its evaluation is still running.
    pub fn poll(&self, f: &mut DiceFuture) -> (r: Option<Outcome>)
        requires
            can_poll(self@, old(f)@),
        ensures
            (final(f)@, match r {
                Some(o) => Some(o@),
                None => None,
            }) == spec_poll(self@, old(f)@),
    {
        let (k, v): (usize, u64) = match f {
            DiceFuture::Ready(o) => {
                return o.take();
            },
            DiceFuture::AsyncCancellableSpawned(k, v) => (*k, *v),
            DiceFuture::AsyncCancellableJoining(k, v) => (*k, *v),
        };
        let vi = self.cell_index(k, v);
        proof {
            assert(cell(self@, k, v) == self.slots@[k as int]@[vi as int]@);
        }
        match &self.slots[k][vi] {
            SlotState::Done { outcome, .. } => Some(copy_outcome(outcome)),
            _ => None,
        }
    }

    /// Opens an updater against the current version.
    pub fn begin(&self) -> (r: DiceTransactionUpdater)
        ensures
            r.base == self@.version,
            r.edits@ == Seq::<Edit>::empty(),
    {
        DiceTransactionUpdater::new(self.get_version())
    }

    /// Applies all edits of `u` at once to the current inputs and publishes them as the next
    /// version, or changes nothing. Older versions stay readable as they were.
    pub fn commit(&mut self, u: DiceTransactionUpdater) -> (r: Result<VersionNumber, CommitError>)
        requires
            old(self).wf(),
        ensures
            final(self).wf(),
            r == (match commit_result(old(self)@, u.base, u.edits@) {
                Ok(v) => Ok(VersionNumber { v }),
                Err(e) => Err(e),
            }),
            final(self)@ == spec_commit(old(self)@, u.base, u.edits@),
    {
        if u.base != self.version {
            return Err(CommitError::Conflict);
        }
        let ghost m = self@;
        let vi = self.version_index();
        proof {
            assert(current_inputs(m) == self.inputs@[vi as int]@.map_values(|r: Vec<u64>| r@));
        }
        let mut cur = copy_records(&self.inputs[vi]);
        let mut i: usize = 0;
        while i < u.edits.len()
            invariant
                i <= u.edits.len(),
                self@ == m,
                self.wf(),
                u.base == m.version,
                current_inputs(m) == cur@.map_values(|r: Vec<u64>| r@),
                forall|j: int| 0 <= j < i ==> edit_in_range(current_inputs(m), #[trigger] u.edits@[j]),
            decreases u.edits.len() - i,
        {
            let e = u.edits[i];
            proof {
                if e.input < cur@.len() {
                    assert(current_inputs(m)[e.input as int] == cur@[e.input as int]@);
                }
            }
            if !(e.input < cur.len() && e.field < cur[e.input].len()) {
                assert(!edit_in_range(current_inputs(m), u.edits@[i as int]));
                return Err(CommitError::InvalidEdit);
            }
            i = i + 1;
        }
        if self.version == u64::MAX {
            return Err(CommitError::VersionsExhausted);
        }
        proof {
            lemma_apply_edits_shape(current_inputs(m), u.edits@);
        }
        let mut i: usize = 0;
        while i < u.edits.len()
            invariant
                i <= u.edits.len(),
                self@ == m,
                self.wf(),
                u.base == m.version,
                m.version < u64::MAX,
                vi == m.version,
                vi < self.inputs@.len(),
                cur@.len() == current_inputs(m).len(),
                cur@.map_values(|r: Vec<u64>| r@) == apply_edits(current_inputs(m), u.edits@.take(i as int)),
                forall|j: int| 0 <= j < u.edits@.len() ==> edit_in_range(current_inputs(m), #[trigger] u.edits@[j]),
            decreases u.edits.len() - i,
        {
            let e = u.edits[i];
            proof {
                let t = u.edits@.take(i as int);
                assert forall|j: int| 0 <= j < t.len() implies edit_in_range(current_inputs(m), #[trigger] t[j]) by {
                    assert(t[j] == u.edits@[j]);
                }
                lemma_apply_edits_shape(current_inputs(m), t);
            }
            let ghost before = cur@.map_values(|r: Vec<u64>| r@);
            proof {
                assert(edit_in_range(current_inputs(m), u.edits@[i as int]));
                assert(before[e.input as int] == cur@[e.input as int]@);
                assert(before[e.input as int].len() == current_inputs(m)[e.input as int].len());
            }
            let mut row = cur[e.input].clone();
            row.set(e.field, e.value);
            cur.set(e.input, row);
            proof {
                let t1 = u.edits@.take(i as int + 1);
                assert(t1.drop_last() == u.edits@.take(i as int));
                assert(t1.last() == e);
                assert(cur@.map_values(|r: Vec<u64>| r@) =~= apply_edit(before, e));
            }
            i = i + 1;
        }
        assert(u.edits@.take(u.edits@.len() as int) == u.edits@);
        let ghost ni = apply_edits(current_inputs(m), u.edits@);
        self.inputs.push(cur);
        assert(self@.inputs =~= m.inputs.push(ni));
        let wi = self.inputs.len() - 1;
        let mut k: usize = 0;
        while k < self.slots.len()
            invariant
                wi == vi + 1,
                u.base == m.version,
                m.version < u64::MAX,
                forall|j: int| 0 <= j < u.edits@.len() ==> edit_in_range(current_inputs(m), #[trigger] u.edits@[j]),
                k <= self.slots@.len(),
                self.slots@.len() == m.slots.len(),
                self.version == m.version,
                vi == m.version,
                self.inputs@.len() == vi + 2,
                self@.inputs == m.inputs.push(ni),
                self@.global == m.global,
                self@.retry_errors == m.retry_errors,
                model_wf(m),
                forall|j: int| 0 <= j < k ==> #[trigger] self@.slots[j] == m.slots[j].push(carried(m, j, ni)),
                forall|j: int| k <= j < m.slots.len() ==> #[trigger] self@.slots[j] == m.slots[j],
            decreases m.slots.len() - k,
        {
            proof {
                assert(self@.slots[k as int] == m.slots[k as int]);
                assert(m.slots[k as int].last() == cell(self@, k, vi as u64));
            }
            let s = self.carry_cell(k, vi, wi);
            let ghost sv = s@;
            let ghost before = self@.slots;
            let ghost bs = self.slots@;
            self.slots[k].push(s);
            proof {
                assert(sv == carried(m, k as int, ni));
                assert(self.slots@.len() == bs.len());
                assert forall|j: int| 0 <= j < bs.len() && j != k implies self.slots@[j] == bs[j] by {}
                assert(self@.slots[k as int] =~= before[k as int].push(sv));
                assert forall|j: int| 0 <= j < bs.len() && j != k implies #[trigger] self@.slots[j] == before[j] by {
                    assert(self.slots@[j] == bs[j]);
                }
            }
            k = k + 1;
        }
        let ghost m2 = spec_commit(m, u.base, u.edits@);
        proof {
            assert(commit_result(m, u.base, u.edits@) == Ok::<u64, CommitError>((m.version + 1) as u64));
            assert(m2.slots == Seq::new(m.slots.len(), |j: int| m.slots[j].push(carried(m, j, ni))));
            assert forall|j: int| 0 <= j < m.slots.len() implies #[trigger] self@.slots[j] == m2.slots[j] by {
                assert(self@.slots[j] == m.slots[j].push(carried(m, j, ni)));
            }
            assert(self@.slots =~= m2.slots);
        }
        self.version = self.version + 1;
        proof {
            lemma_commit_wf(m, u.base, u.edits@);
        }
        Ok(VersionNumber { v: self.version })
    }
}


} // verus!
