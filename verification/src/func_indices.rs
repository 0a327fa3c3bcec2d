//! A growing map from the functions that a body has imported to their positions in the module.
use vstd::prelude::*;

use crate::entities::{FuncRef, FunctionIndex};

verus! {

/// What is recorded for `func`; zero where nothing is.
pub open spec fn index_at(indices: Seq<FunctionIndex>, func: FuncRef) -> FunctionIndex {
    if (func.0 as int) < indices.len() {
        indices[func.0 as int]
    } else {
        0
    }
}

/// `indices` with `index` recorded for `func`; places that come into being hold zero.
pub open spec fn recorded(
    indices: Seq<FunctionIndex>,
    func: FuncRef,
    index: FunctionIndex,
) -> Seq<FunctionIndex> {
    let len = if (func.0 as nat) < indices.len() {
        indices.len()
    } else {
        func.0 as nat + 1
    };
    Seq::new(
        len,
        |k: int|
            if k == func.0 {
                index
            } else if k < indices.len() {
                indices[k]
            } else {
                0
            },
    )
}

/// Looking up a function gives what was recorded last for it, and recording one function leaves
/// every other one as it was.
pub proof fn lookup_after_recording(
    indices: Seq<FunctionIndex>,
    func: FuncRef,
    index: FunctionIndex,
    other: FuncRef,
)
    ensures
        index_at(recorded(indices, func, index), func) == index,
        other != func ==> index_at(recorded(indices, func, index), other) == index_at(
            indices,
            other,
        ),
{
}

/// Positions in the module, by the number of the imported function.
#[derive(Debug)]
pub struct FuncIndices {
    indices: Vec<FunctionIndex>,
}

impl View for FuncIndices {
    type V = Seq<FunctionIndex>;

    closed spec fn view(&self) -> Seq<FunctionIndex> {
        self.indices@
    }
}

impl FuncIndices {
    /// Nothing is recorded.
    pub fn new() -> (out: FuncIndices)
        ensures
            out@ == Seq::<FunctionIndex>::empty(),
    {
        FuncIndices { indices: Vec::new() }
    }

    /// Forgets everything.
    pub fn clear(&mut self)
        ensures
            final(self)@ == Seq::<FunctionIndex>::empty(),
    {
        self.indices.clear();
    }

    /// What is recorded for `func`; zero where nothing is.
    pub fn get(&self, func: FuncRef) -> (index: FunctionIndex)
        ensures
            index == index_at(self@, func),
            func.0 < self@.len() ==> index == self@[func.0 as int],
            func.0 >= self@.len() ==> index == 0,
    {
        let k: usize = func.0 as usize;
        if k < self.indices.len() {
            self.indices[k]
        } else {
            0
        }
    }

    /// Records `index` for `func`. The largest number is reserved and stands for no function.
    pub fn set(&mut self, func: FuncRef, index: FunctionIndex)
        requires
            func.0 < u32::MAX,
        ensures
            final(self)@ == recorded(old(self)@, func, index),
    {
        let k: usize = func.0 as usize;
        if k >= self.indices.len() {
            self.indices.resize(k + 1, 0);
            assert(forall|i: int|
                0 <= i < old(self)@.len() ==> self.indices@[i] == self.indices@.subrange(
                    0,
                    old(self)@.len() as int,
                )[i]);
        }
        self.indices.set(k, index);
        assert(self.indices@ =~= recorded(old(self)@, func, index));
    }
}

/// Recording makes room for the function where there is none, puts the position there and nowhere
/// else, and where nothing was recorded zero is found.
pub proof fn recording_changes_one_place(
    indices: Seq<FunctionIndex>,
    func: FuncRef,
    index: FunctionIndex,
    k: int,
)
    ensures
        indices.len() <= recorded(indices, func, index).len(),
        func.0 < recorded(indices, func, index).len(),
        recorded(indices, func, index)[func.0 as int] == index,
        0 <= k < indices.len() && k != func.0 ==> recorded(indices, func, index)[k] == indices[k],
        indices.len() <= k < recorded(indices, func, index).len() && k != func.0 ==> recorded(
            indices,
            func,
            index,
        )[k] == 0,
        index_at(Seq::empty(), func) == 0,
        func.0 < indices.len() ==> index_at(indices, func) == indices[func.0 as int],
        func.0 >= indices.len() ==> index_at(indices, func) == 0,
{
}

} // verus!
