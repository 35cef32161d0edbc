//! Feature encoding and decoding for proof-state records: vocabularies,
//! tokenization, symbolic tactic-argument indices, and batch tensor assembly.

pub mod arg_codec;
pub mod batch;
pub mod features;
pub mod indexer;
pub mod select;
pub mod similarity;
pub mod text;
pub mod tokenizer;
pub mod vocab;

use vstd::prelude::*;

verus! {

/// Errors of the encoding and decoding pipeline. An out-of-range lookup is
/// recoverable and descriptive; the two argument errors mark records that
/// the upstream filter promised to exclude, and callers treat them as
/// fatal.
#[derive(Clone, Copy, Debug, PartialEq, Eq, Structural)]
pub enum FpaError {
    /// A reverse lookup asked for an id that was never allocated.
    OutOfRange { index: i64, size: usize },
    /// A tactic argument held more than one token.
    MultiTokenArgument,
    /// An argument token matched neither a goal token nor a hypothesis name.
    UnrecognizedArgument,
    /// A computed id or count cannot be represented as a signed tensor
    /// label.
    LabelOverflow,
}

/// One proof state handed in at query time: the relevant lemmas, the tactic
/// history, the focused hypotheses, and the goal.
pub struct TacticContext {
    pub relevant_lemmas: Vec<String>,
    pub prev_tactics: Vec<String>,
    pub hypotheses: Vec<String>,
    pub goal: String,
}

/// One proof-state record with the tactic that was applied to it: the goal,
/// the focused hypotheses (each of the form `names : type`), the relevant
/// lemmas usable as premises, the tactic history, and the literal tactic
/// text (stem plus argument). Immutable once read from the corpus.
pub struct TacticRecord {
    pub relevant_lemmas: Vec<String>,
    pub prev_tactics: Vec<String>,
    pub hypotheses: Vec<String>,
    pub goal: String,
    pub tactic: String,
}

/// Configuration shared by the encoding and decoding passes.
pub struct DataloaderArgs {
    /// Number of goal tokens kept per record; goal sequences are padded or
    /// truncated to exactly this length.
    pub max_length: usize,
    /// Upper bound on the number of premises kept per record during training.
    pub max_premises: usize,
    /// Size cap for each of the three closed vocabularies.
    pub num_keywords: usize,
}

impl DataloaderArgs {
    /// The whole flat argument-index space fits both the machine word and a
    /// signed tensor label.
    pub open spec fn wf(&self) -> bool {
        self.max_length + self.max_premises + 1 <= i64::MAX && self.max_length + self.max_premises
            + 1 <= usize::MAX
    }
}

/// Size of the flat argument-index space: one slot for "no argument",
/// `max_length` goal-token slots, and `max_premises` premise slots.
pub fn fpa_get_num_possible_args(args: &DataloaderArgs) -> (r: usize)
    requires
        args.max_length + args.max_premises + 1 <= usize::MAX,
    ensures
        r == args.max_length + args.max_premises + 1,
{
    args.max_length + args.max_premises + 1
}

} // verus!
