//! Settings that route values to the stages of a parse.

use vstd::prelude::*;

use crate::tokenizer::Options;
use crate::tree_builder::TreeBuilderOptions;

verus! {

/// The settings of each stage of a parse.
#[derive(Clone, Default)]
pub struct ParseOptions {
    /// Settings of the tokenizer.
    pub tokenizer: Options,
    /// Settings of the tree builder.
    pub tree_builder: TreeBuilderOptions,
}

} // verus!
