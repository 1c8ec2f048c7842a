use vstd::prelude::*;

use crate::data::DiceData;
use crate::data::UserComputationData;
use crate::graph::cell;
use crate::graph::readable;
use crate::graph::Dep;
use crate::graph::DiceTransactionUpdater;
use crate::graph::Engine;
use crate::graph::EngineModel;
use crate::graph::Key;
use crate::graph::Outcome;
use crate::graph::OutcomeModel;
use crate::graph::VersionNumber;

verus! {

/// Why a value could not be handed to a running evaluation.
#[derive(Clone, Copy, Debug, PartialEq, Eq, Structural)]
pub enum ComputeError {
    /// The context's version was never committed by this engine.
    UnknownVersion,
    /// The key names no slot of the engine.
    UnknownKey,
    /// The key has no current result at the context's version yet: it must be requested and
    /// evaluated first.
    NotReady,
    /// The key's evaluation failed with this error code.
    Eval(u64),
}

/// The reads that reading every field of `source`, holding `record`, makes.
pub open spec fn full_read(source: Key, record: Seq<u64>) -> Seq<Dep> {
    Seq::new(record.len(), |f: int| Dep { source, field: f as usize, seen: record[f] })
}

/// The reads that reading the outcome `o` of derived slot `d`, published with reads `deps`,
/// amounts to: each field of a value, or the reads that led to a failure.
pub open spec fn derived_read(d: usize, o: OutcomeModel, deps: Seq<Dep>) -> Seq<Dep> {
    match o {
        OutcomeModel::Value(val) => full_read(Key::Derived(d), val),
        OutcomeModel::Failed(_) => deps,
    }
}

/// What a context at `version` sees of `key` in `m`: the outcome at that version, with the
/// reads that depending on it amounts to. A derived value is read as a value, so that a reader
/// survives its re-evaluation to an equal value. Later commits do not change what it sees.
pub open spec fn lookup(m: EngineModel, version: u64, key: Key) -> Result<(OutcomeModel, Seq<Dep>), ComputeError> {
    if version >= m.inputs.len() {
        Err(ComputeError::UnknownVersion)
    } else {
        match key {
            Key::Input(i) => if i < m.inputs[version as int].len() {
                let rec = m.inputs[version as int][i as int];
                Ok((OutcomeModel::Value(rec), full_read(key, rec)))
            } else {
                Err(ComputeError::UnknownKey)
            },
            Key::Derived(d) => if d >= m.slots.len() {
                Err(ComputeError::UnknownKey)
            } else if readable(m, d, version) {
                let o = cell(m, d, version)->Done_0;
                Ok((o, derived_read(d, o, cell(m, d, version)->Done_1)))
            } else {
                Err(ComputeError::NotReady)
            },
        }
    }
}

/// The content of an opaque value: whose value it is, the value, and the reads that
/// depending on the whole value amounts to.
pub struct OpaqueModel {
    pub key: Key,
    pub value: Seq<u64>,
    pub reads: Seq<Dep>,
}

/// A computed value whose reading records nothing until a projection of it is read.
#[derive(Debug)]
pub struct OpaqueValue {
    key: Key,
    value: Vec<u64>,
    deps: Vec<Dep>,
}

impl View for OpaqueValue {
    type V = OpaqueModel;

    closed spec fn view(&self) -> OpaqueModel {
        OpaqueModel { key: self.key, value: self.value@, reads: self.deps@ }
    }
}

/// The read that reading field `field` of an opaque value `ov` records: that field of that
/// key alone, whether it is an input or a derived value.
pub open spec fn projection_deps(ov: OpaqueModel, field: usize) -> Seq<Dep> {
    seq![Dep { source: ov.key, field, seen: ov.value[field as int] }]
}

/// The content of a context: its version, the reads recorded so far, and its data.
pub struct CtxModel {
    pub version: u64,
    pub reads: Seq<Dep>,
    pub global: Seq<u64>,
    pub per_txn: Seq<u64>,
}

/// The context of one evaluation: its version, the reads it has made, and the data in scope.
#[derive(Debug)]
pub struct DiceComputationsImpl {
    version: u64,
    deps: Vec<Dep>,
    global: DiceData,
    per_txn: UserComputationData,
}

impl View for DiceComputationsImpl {
    type V = CtxModel;

    closed spec fn view(&self) -> CtxModel {
        CtxModel { version: self.version, reads: self.deps@, global: self.global@, per_txn: self.per_txn@ }
    }
}

fn append_deps(to: &mut Vec<Dep>, from: &Vec<Dep>)
    ensures
        final(to)@ == old(to)@ + from@,
{
    let mut i: usize = 0;
    while i < from.len()
        invariant
            i <= from.len(),
            to@ == old(to)@ + from@.take(i as int),
        decreases from.len() - i,
    {
        to.push(from[i]);
        i = i + 1;
        assert(to@ =~= old(to)@ + from@.take(i as int));
    }
    assert(from@.take(from.len() as int) == from@);
}

fn record_deps(source: Key, record: &Vec<u64>) -> (r: Vec<Dep>)
    ensures
        r@ == full_read(source, record@),
{
    let mut r: Vec<Dep> = Vec::new();
    let mut f: usize = 0;
    while f < record.len()
        invariant
            f <= record.len(),
            r@ == full_read(source, record@).take(f as int),
        decreases record.len() - f,
    {
        r.push(Dep { source, field: f, seen: record[f] });
        f = f + 1;
        assert(r@ =~= full_read(source, record@).take(f as int));
    }
    assert(r@ =~= full_read(source, record@));
    r
}

/// Looks `key` up as a context at `version` sees it.
pub fn read_key(engine: &Engine, version: u64, key: Key) -> (r: Result<(Outcome, Vec<Dep>), ComputeError>)
    ensures
        match r {
            Ok((o, d)) => lookup(engine@, version, key) == Ok::<(OutcomeModel, Seq<Dep>), ComputeError>((o@, d@)),
            Err(e) => lookup(engine@, version, key) == Err::<(OutcomeModel, Seq<Dep>), ComputeError>(e),
        },
{
    match key {
        Key::Input(i) => match engine.input_record_at(version, i) {
            Some(v) => {
                let d = record_deps(key, &v);
                Ok((Outcome::Value(v), d))
            },
            None => {
                if engine.num_versions() <= version {
                    Err(ComputeError::UnknownVersion)
                } else {
                    Err(ComputeError::UnknownKey)
                }
            },
        },
        Key::Derived(k) => {
            if engine.num_versions() <= version {
                Err(ComputeError::UnknownVersion)
            } else if k >= engine.num_slots() {
                Err(ComputeError::UnknownKey)
            } else {
                match engine.cached(k, version) {
                    Some((Outcome::Value(v), _)) => {
                        let d = record_deps(key, &v);
                        Ok((Outcome::Value(v), d))
                    },
                    Some((o, d)) => Ok((o, d)),
                    None => Err(ComputeError::NotReady),
                }
            }
        },
    }
}

impl DiceComputationsImpl {
    /// Opens a context at the engine's current version with no reads yet.
    pub fn open(engine: &Engine, per_txn: UserComputationData) -> (r: DiceComputationsImpl)
        ensures
            r@.version == engine@.version,
            r@.reads == Seq::<Dep>::empty(),
            r@.global == engine@.global,
            r@.per_txn == per_txn@,
    {
        DiceComputationsImpl {
            version: engine.get_version().v,
            deps: Vec::new(),
            global: engine.global_data().copy(),
            per_txn,
        }
    }

    /// Opens a context at version `v` with no reads yet, where the engine has committed `v`.
    pub fn open_at(engine: &Engine, v: u64, per_txn: UserComputationData) -> (r: Option<DiceComputationsImpl>)
        ensures
            r is Some <==> v < engine@.inputs.len(),
            r is Some ==> r->Some_0@ == (CtxModel {
                version: v,
                reads: Seq::<Dep>::empty(),
                global: engine@.global,
                per_txn: per_txn@,
            }),
    {
        if v < engine.num_versions() {
            Some(DiceComputationsImpl { version: v, deps: Vec::new(), global: engine.global_data().copy(), per_txn })
        } else {
            None
        }
    }

    /// The reads recorded so far.
    pub fn deps(&self) -> (r: &Vec<Dep>)
        ensures
            r@ == self@.reads,
    {
        &self.deps
    }

    /// The value of `key` at this context's version, whatever was committed since; reading
    /// it is recorded as a dependency of the evaluation that this context serves, a failed
    /// evaluation too.
    pub fn compute(&mut self, engine: &Engine, key: Key) -> (r: Result<Vec<u64>, ComputeError>)
        ensures
            final(self)@.version == old(self)@.version,
            final(self)@.global == old(self)@.global,
            final(self)@.per_txn == old(self)@.per_txn,
            match lookup(engine@, old(self)@.version, key) {
                Ok((o, d)) => final(self)@.reads == old(self)@.reads + d && match o {
                    OutcomeModel::Value(v) => r is Ok && r->Ok_0@ == v,
                    OutcomeModel::Failed(e) => r == Err::<Vec<u64>, ComputeError>(ComputeError::Eval(e)),
                },
                Err(e) => final(self)@.reads == old(self)@.reads && r == Err::<Vec<u64>, ComputeError>(e),
            },
    {
        match read_key(engine, self.version, key) {
            Ok((o, d)) => {
                append_deps(&mut self.deps, &d);
                match o {
                    Outcome::Value(v) => Ok(v),
                    Outcome::Failed(e) => Err(ComputeError::Eval(e)),
                }
            },
            Err(e) => Err(e),
        }
    }

    /// The value of `key` at this context's version as an opaque handle: nothing is recorded
    /// until a projection of it is read.
    pub fn compute_opaque(&self, engine: &Engine, key: Key) -> (r: Result<OpaqueValue, ComputeError>)
        ensures
            match lookup(engine@, self@.version, key) {
                Ok((o, d)) => match o {
                    OutcomeModel::Value(v) => r is Ok && r->Ok_0@ == (OpaqueModel { key, value: v, reads: d }),
                    OutcomeModel::Failed(e) => r is Err && r->Err_0 == ComputeError::Eval(e),
                },
                Err(e) => r is Err && r->Err_0 == e,
            },
    {
        match read_key(engine, self.version, key) {
            Ok((o, d)) => match o {
                Outcome::Value(v) => Ok(OpaqueValue { key, value: v, deps: d }),
                Outcome::Failed(e) => Err(ComputeError::Eval(e)),
            },
            Err(e) => Err(e),
        }
    }

    /// The context handed to work spawned from this one: the same version and data, and
    /// reads of its own.
    pub fn fork(&self) -> (r: DiceComputationsImpl)
        ensures
            r@.version == self@.version,
            r@.reads == Seq::<Dep>::empty(),
            r@.global == self@.global,
            r@.per_txn == self@.per_txn,
    {
        DiceComputationsImpl {
            version: self.version,
            deps: Vec::new(),
            global: self.global.copy(),
            per_txn: self.per_txn.copy(),
        }
    }

    /// Data that is fixed for the whole lifetime of the engine.
    pub fn global_data(&self) -> (r: &DiceData)
        ensures
            r@ == self@.global,
    {
        &self.global
    }

    /// Data that is fixed for the transaction that this context belongs to.
    pub fn per_transaction_data(&self) -> (r: &UserComputationData)
        ensures
            r@ == self@.per_txn,
    {
        &self.per_txn
    }

    /// Takes the reads recorded so far, leaving none.
    pub fn unstable_take(&mut self) -> (r: Vec<Dep>)
        ensures
            r@ == old(self)@.reads,
            final(self)@ == (CtxModel { reads: Seq::<Dep>::empty(), ..old(self)@ }),
    {
        let mut taken: Vec<Dep> = Vec::new();
        std::mem::swap(&mut taken, &mut self.deps);
        taken
    }

    pub fn get_version(&self) -> (r: VersionNumber)
        ensures
            r.v == self@.version,
    {
        VersionNumber { v: self.version }
    }

    /// Ends the context and opens an updater against its version.
    pub fn into_updater(self) -> (r: DiceTransactionUpdater)
        ensures
            r.base == self@.version,
            r.edits@.len() == 0,
    {
        DiceTransactionUpdater::new(self.get_version())
    }
}

impl OpaqueValue {
    /// Reads field `field` of the value; what is recorded is this read alone, so that only a
    /// change of this field invalidates the reader.
    pub fn project(&self, ctx: &mut DiceComputationsImpl, field: usize) -> (r: Option<u64>)
        ensures
            final(ctx)@.version == old(ctx)@.version,
            final(ctx)@.global == old(ctx)@.global,
            final(ctx)@.per_txn == old(ctx)@.per_txn,
            field < self@.value.len() ==> r == Some(self@.value[field as int])
                && final(ctx)@.reads == old(ctx)@.reads + projection_deps(self@, field),
            field >= self@.value.len() ==> r is None && final(ctx)@.reads == old(ctx)@.reads,
    {
        if field >= self.value.len() {
            return None;
        }
        let seen = self.value[field];
        ctx.deps.push(Dep { source: self.key, field, seen });
        proof {
            assert(ctx@.reads =~= old(ctx)@.reads + projection_deps(self@, field));
        }
        Some(seen)
    }

    /// Reads the whole value; what is recorded is a dependency on all of it.
    pub fn into_value(self, ctx: &mut DiceComputationsImpl) -> (r: Vec<u64>)
        ensures
            r@ == self@.value,
            final(ctx)@ == (CtxModel { reads: old(ctx)@.reads + self@.reads, ..old(ctx)@ }),
    {
        append_deps(&mut ctx.deps, &self.deps);
        self.value
    }
}

} // verus!
