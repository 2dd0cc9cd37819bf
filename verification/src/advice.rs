//! The advice provider: the read-only tape and the indexed authenticated
//! sets that supply non-deterministic inputs, and the input envelope handed
//! to an execution.

use vstd::prelude::*;

use crate::field::Felt;
use crate::field::Word;

verus! {

/// Why an advice-set access failed.
#[derive(Clone, Copy, Debug)]
pub enum AdviceSetError {
    LeafOutOfBounds,
}

/// An indexed authenticated set: a 32-byte root identifying a list of leaf
/// words. What ties the root cryptographically to the leaves is the hasher,
/// an external collaborator; here the root is an opaque identity.
pub struct AdviceSet {
    root: [u8; 32],
    leaves: Vec<Word>,
}

impl AdviceSet {
    /// The identifying root.
    pub closed spec fn root_view(self) -> Seq<u8> {
        self.root@
    }

    /// The leaf words.
    pub closed spec fn leaves_view(self) -> Seq<Word> {
        self.leaves@
    }

    /// A set with the given root and leaves.
    pub fn new(root: [u8; 32], leaves: Vec<Word>) -> (r: AdviceSet)
        ensures
            r.root_view() == root@,
            r.leaves_view() == leaves@,
    {
        AdviceSet { root, leaves }
    }

    /// The stored root.
    pub fn root(&self) -> (r: [u8; 32])
        ensures
            r@ == self.root_view(),
    {
        self.root
    }

    /// The leaf at `index`, when it exists.
    pub fn get_leaf(&self, index: u64) -> (r: Result<Word, AdviceSetError>)
        ensures
            index < self.leaves_view().len() ==> r == Ok::<Word, AdviceSetError>(
                self.leaves_view()[index as int],
            ),
            index >= self.leaves_view().len() ==> r == Err::<Word, AdviceSetError>(
                AdviceSetError::LeafOutOfBounds,
            ),
    {
        if index < self.leaves.len() as u64 {
            Ok(self.leaves[index as usize])
        } else {
            Err(AdviceSetError::LeafOutOfBounds)
        }
    }
}

/// Whether two roots hold the same bytes.
pub fn roots_equal(a: &[u8; 32], b: &[u8; 32]) -> (r: bool)
    ensures
        r == (a@ == b@),
{
    let mut i: usize = 0;
    while i < 32
        invariant
            i <= 32,
            forall|j: int| 0 <= j < i ==> a@[j] == b@[j],
        decreases 32 - i,
    {
        if a[i] != b[i] {
            return false;
        }
        i = i + 1;
    }
    proof {
        assert(a@ =~= b@);
    }
    true
}

/// The input envelope of one execution: initial stack values, the advice
/// tape, and the advice sets.
pub struct ProgramInputs {
    stack_init: Vec<Felt>,
    advice_tape: Vec<Felt>,
    advice_sets: Vec<AdviceSet>,
}

impl ProgramInputs {
    /// The values pushed onto the stack before execution, first one deepest.
    pub closed spec fn stack_init_view(self) -> Seq<Felt> {
        self.stack_init@
    }

    /// The advice tape, consumed front to back.
    pub closed spec fn tape_view(self) -> Seq<Felt> {
        self.advice_tape@
    }

    /// The advice sets.
    pub closed spec fn sets_view(self) -> Seq<AdviceSet> {
        self.advice_sets@
    }

    /// An envelope from its three parts.
    pub fn new(stack_init: Vec<Felt>, advice_tape: Vec<Felt>, advice_sets: Vec<AdviceSet>) -> (
        r: ProgramInputs)
        ensures
            r.stack_init_view() == stack_init@,
            r.tape_view() == advice_tape@,
            r.sets_view() == advice_sets@,
    {
        ProgramInputs { stack_init, advice_tape, advice_sets }
    }

    /// An envelope with only initial stack values.
    pub fn from_public(stack_init: Vec<Felt>) -> (r: ProgramInputs)
        ensures
            r.stack_init_view() == stack_init@,
            r.tape_view() == Seq::<Felt>::empty(),
            r.sets_view() == Seq::<AdviceSet>::empty(),
    {
        ProgramInputs { stack_init, advice_tape: Vec::new(), advice_sets: Vec::new() }
    }

    /// The initial stack values.
    pub fn stack_init(&self) -> (r: &Vec<Felt>)
        ensures
            r@ == self.stack_init_view(),
    {
        &self.stack_init
    }
}

/// The advice provider: the tape with its read position, and the sets.
pub struct AdviceProvider {
    tape: Vec<Felt>,
    pos: usize,
    sets: Vec<AdviceSet>,
}

impl AdviceProvider {
    /// The tape.
    pub closed spec fn tape_view(self) -> Seq<Felt> {
        self.tape@
    }

    /// How many tape values were consumed.
    pub closed spec fn pos_view(self) -> int {
        self.pos as int
    }

    /// The sets.
    pub closed spec fn sets_view(self) -> Seq<AdviceSet> {
        self.sets@
    }

    /// The provider's invariant.
    pub open spec fn wf(self) -> bool {
        self.pos_view() <= self.tape_view().len()
    }

    /// A provider over the envelope's tape and sets.
    pub fn new(inputs: ProgramInputs) -> (r: AdviceProvider)
        ensures
            r.wf(),
            r.tape_view() == inputs.tape_view(),
            r.pos_view() == 0,
            r.sets_view() == inputs.sets_view(),
    {
        AdviceProvider { tape: inputs.advice_tape, pos: 0, sets: inputs.advice_sets }
    }

    /// Whether a tape value remains to be read.
    pub fn has_next(&self) -> (r: bool)
        ensures
            r == (self.pos_view() < self.tape_view().len()),
    {
        self.pos < self.tape.len()
    }

    /// Reads the next tape value; `None` past the end of the tape.
    pub fn read_tape(&mut self) -> (r: Option<Felt>)
        requires
            old(self).wf(),
        ensures
            final(self).wf(),
            final(self).tape_view() == old(self).tape_view(),
            final(self).sets_view() == old(self).sets_view(),
            old(self).pos_view() < old(self).tape_view().len() ==> {
                &&& r == Some(old(self).tape_view()[old(self).pos_view()])
                &&& final(self).pos_view() == old(self).pos_view() + 1
            },
            old(self).pos_view() == old(self).tape_view().len() ==> {
                &&& r is None
                &&& final(self).pos_view() == old(self).pos_view()
            },
    {
        if self.pos < self.tape.len() {
            let v = self.tape[self.pos];
            self.pos = self.pos + 1;
            Some(v)
        } else {
            None
        }
    }

    /// The position of the first set with the given root, when one is
    /// present.
    pub fn find_set(&self, root: &[u8; 32]) -> (r: Option<usize>)
        ensures
            match r {
                Some(i) => i < self.sets_view().len() && self.sets_view()[
                    i as int].root_view() == root@ && forall|j: int|
                    0 <= j < i ==> (#[trigger] self.sets_view()[j]).root_view() != root@,
                None => forall|i: int|
                    0 <= i < self.sets_view().len() ==> (
                    #[trigger] self.sets_view()[i]).root_view() != root@,
            },
    {
        let mut i: usize = 0;
        while i < self.sets.len()
            invariant
                i <= self.sets@.len(),
                forall|j: int| 0 <= j < i ==> (#[trigger] self.sets@[j]).root_view() != root@,
            decreases self.sets@.len() - i,
        {
            let sr = self.sets[i].root();
            if roots_equal(&sr, root) {
                return Some(i);
            }
            i = i + 1;
        }
        None
    }

    /// The leaf at `index` of the set with the given root.
    pub fn get_leaf(&self, set_index: usize, index: u64) -> (r: Result<Word, AdviceSetError>)
        requires
            set_index < self.sets_view().len(),
        ensures
            index < self.sets_view()[set_index as int].leaves_view().len() ==> r == Ok::<
                Word,
                AdviceSetError,
            >(self.sets_view()[set_index as int].leaves_view()[index as int]),
            index >= self.sets_view()[set_index as int].leaves_view().len() ==> r == Err::<
                Word,
                AdviceSetError,
            >(AdviceSetError::LeafOutOfBounds),
    {
        self.sets[set_index].get_leaf(index)
    }
}

} // verus!
