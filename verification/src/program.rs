//! The program representation: micro-operations, batches, the code-block
//! tree and the script wrapper.

use vstd::prelude::*;

use crate::field::Felt;

verus! {

/// A user micro-operation. Each one advances the clock by exactly one cycle.
#[derive(Clone, Copy, Debug)]
pub enum Operation {
    /// Does nothing.
    Noop,
    /// Removes the top element.
    Drop,
    /// Duplicates the top element.
    Dup,
    /// Exchanges the top two elements.
    Swap,
    /// Replaces the top two elements with their field sum.
    Add,
    /// Replaces the top two elements with their field product.
    Mul,
    /// Negates the top element in the field.
    Neg,
    /// Replaces the top element with its field inverse; fails on zero.
    Inv,
    /// Removes the top element, which must be one; fails otherwise.
    Assert,
    /// Pushes an immediate value.
    Push(Felt),
    /// Pushes the next advice-tape value; fails past the end of the tape.
    Read,
    /// Writes the top four elements as the word at the given address.
    StoreW(u64),
    /// Overwrites the top four elements with the word at the given address.
    LoadW(u64),
    /// Adds the free-memory pointer to the top element.
    FmpAdd,
    /// Removes the top element and advances the free-memory pointer by it;
    /// fails when the pointer leaves its valid range.
    FmpUpdate,
    /// Checks that the top element fits in 32 bits; fails otherwise.
    U32Assert,
    /// Overwrites the top four elements with the leaf of the advice set
    /// identified by the root, at the given index.
    MTreeGet([u8; 32], u64),
}

/// A batch of user micro-operations inside a span block.
pub struct OpBatch {
    ops: Vec<Operation>,
}

impl OpBatch {
    /// The batch's operations, in execution order.
    pub closed spec fn ops_view(self) -> Seq<Operation> {
        self.ops@
    }

    /// A batch from its operations.
    pub fn new(ops: Vec<Operation>) -> (r: OpBatch)
        ensures
            r.ops_view() == ops@,
    {
        OpBatch { ops }
    }

    /// The operations.
    pub fn ops(&self) -> (r: &Vec<Operation>)
        ensures
            r@ == self.ops_view(),
    {
        &self.ops
    }
}

/// A node of the program tree.
pub enum CodeBlock {
    /// A straight-line sequence of user operations, grouped into batches.
    Span { op_batches: Vec<OpBatch> },
    /// Sequential composition.
    Join { first: Box<CodeBlock>, second: Box<CodeBlock> },
    /// A conditional on the top of the stack.
    Split { on_true: Box<CodeBlock>, on_false: Box<CodeBlock> },
    /// A while-top-of-stack-is-one loop.
    Loop { body: Box<CodeBlock> },
    /// A referenced-but-not-inlined block, identified by its hash; it cannot
    /// be executed.
    Proxy { hash: [u8; 32] },
}

/// The height of a block tree; at least one for every block.
pub open spec fn block_height(b: CodeBlock) -> nat
    decreases b,
{
    match b {
        CodeBlock::Span { .. } => 1,
        CodeBlock::Proxy { .. } => 1,
        CodeBlock::Join { first, second } => 1 + block_height(*first) + block_height(*second),
        CodeBlock::Split { on_true, on_false } => 1 + block_height(*on_true) + block_height(
            *on_false,
        ),
        CodeBlock::Loop { body } => 1 + block_height(*body),
    }
}

/// A well-formed block tree: every span holds at least one operation batch.
pub open spec fn block_wf(b: CodeBlock) -> bool
    decreases b,
{
    match b {
        CodeBlock::Span { op_batches } => op_batches@.len() >= 1,
        CodeBlock::Proxy { .. } => true,
        CodeBlock::Join { first, second } => block_wf(*first) && block_wf(*second),
        CodeBlock::Split { on_true, on_false } => block_wf(*on_true) && block_wf(*on_false),
        CodeBlock::Loop { body } => block_wf(*body),
    }
}

/// The program wrapper: a root code block.
///
/// The original carries a deterministic program hash beside the root; the
/// hash is computed by the cryptographic hasher, an external collaborator
/// this library does not model, so no hash is held here. A caller that
/// needs the identity computes it outside and keys its own table with it.
pub struct Script {
    root: CodeBlock,
}

impl Script {
    /// The root block.
    pub closed spec fn root_view(self) -> CodeBlock {
        self.root
    }

    /// A script from its root block.
    pub fn new(root: CodeBlock) -> (r: Script)
        ensures
            r.root_view() == root,
    {
        Script { root }
    }

    /// The root block.
    pub fn root(&self) -> (r: &CodeBlock)
        ensures
            r == self.root_view(),
    {
        &self.root
    }
}

} // verus!
