use vstd::prelude::*;

verus! {

/// Process-wide data, fixed when the engine is built.
#[derive(Debug)]
pub struct DiceData {
    entries: Vec<u64>,
}

impl View for DiceData {
    type V = Seq<u64>;

    closed spec fn view(&self) -> Seq<u64> {
        self.entries@
    }
}

impl DiceData {
    pub fn new(entries: Vec<u64>) -> (r: DiceData)
        ensures
            r@ == entries@,
    {
        DiceData { entries }
    }

    /// The entry in slot `i`, if there is one.
    pub fn get(&self, i: usize) -> (r: Option<u64>)
        ensures
            r == (if i < self@.len() { Some(self@[i as int]) } else { None }),
    {
        if i < self.entries.len() {
            Some(self.entries[i])
        } else {
            None
        }
    }

    pub fn copy(&self) -> (r: DiceData)
        ensures
            r@ == self@,
    {
        DiceData { entries: self.entries.clone() }
    }
}

/// Data of one transaction, fixed when its computation context is opened.
#[derive(Debug)]
pub struct UserComputationData {
    entries: Vec<u64>,
}

impl View for UserComputationData {
    type V = Seq<u64>;

    closed spec fn view(&self) -> Seq<u64> {
        self.entries@
    }
}

impl UserComputationData {
    pub fn new(entries: Vec<u64>) -> (r: UserComputationData)
        ensures
            r@ == entries@,
    {
        UserComputationData { entries }
    }

    pub fn copy(&self) -> (r: UserComputationData)
        ensures
            r@ == self@,
    {
        UserComputationData { entries: self.entries.clone() }
    }

    /// The entry in slot `i`, if there is one.
    pub fn get(&self, i: usize) -> (r: Option<u64>)
        ensures
            r == (if i < self@.len() { Some(self@[i as int]) } else { None }),
    {
        if i < self.entries.len() {
            Some(self.entries[i])
        } else {
            None
        }
    }
}

} // verus!
