//! The command line of the first proof-of-concept bench, and the part of it
//! the blocking inference task takes along.

use vstd::prelude::*;

verus! {

/// The proof-of-concept bench's options.
pub struct PocArgs {
    /// Path to the model file.
    pub model: String,
    /// Path to the prompt template.
    pub prompt: String,
    /// Path to the sample transcript.
    pub transcript: String,
    /// Path to the sample party data.
    pub party: String,
    pub max_tokens: i32,
    pub n_ctx: u32,
    pub gpu_layers: u32,
    /// Ask a local Ollama instead of running the model in process.
    pub ollama: bool,
    pub ollama_base: String,
    pub ollama_model: String,
}

/// What in-process inference needs, owned so it can move to a blocking
/// task.
pub struct LocalArgs {
    pub model: String,
    pub n_ctx: u32,
    pub gpu_layers: u32,
    pub max_tokens: i32,
}

/// Copy out the options in-process inference uses.
pub fn args_for_blocking(a: &PocArgs) -> (r: LocalArgs)
    ensures
        r.model@ == a.model@,
        r.n_ctx == a.n_ctx,
        r.gpu_layers == a.gpu_layers,
        r.max_tokens == a.max_tokens,
{
    LocalArgs {
        model: a.model.clone(),
        n_ctx: a.n_ctx,
        gpu_layers: a.gpu_layers,
        max_tokens: a.max_tokens,
    }
}

} // verus!
