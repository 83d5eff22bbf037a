//! Bookkeeping of in-process inference: how the prompt is put together, how
//! large the token batch is, when greedy generation stops, and how many
//! threads transcription uses.
//!
//! The model calls themselves (tokenising, decoding, sampling, whisper) are
//! made by the program around this library; each step of the generation loop
//! asks `Generation` what to do next.

use vstd::prelude::*;
use crate::text::{to_string};

verus! {

/// The backend name for the GPU features a build has.
pub fn cfg_backend(cuda: bool, vulkan: bool, metal: bool) -> (r: &'static str)
    ensures
        r@ == (if cuda {
            "cuda"@
        } else if vulkan {
            "vulkan"@
        } else if metal {
            "metal"@
        } else {
            "cpu"@
        }),
{
    if cuda {
        "cuda"
    } else if vulkan {
        "vulkan"
    } else if metal {
        "metal"
    } else {
        "cpu"
    }
}

/// The text the model is given: the system prompt, a blank line, then the
/// prompt; just the prompt when there is no system prompt.
pub open spec fn full_prompt_text(system: Seq<char>, prompt: Seq<char>) -> Seq<char> {
    if system.len() == 0 {
        prompt
    } else {
        system + "\n\n"@ + prompt
    }
}

/// Put the system prompt in front of the prompt.
pub fn full_prompt(system: &str, prompt: &str) -> (r: String)
    ensures
        r@ == full_prompt_text(system@, prompt@),
{
    if system.is_empty() {
        to_string(prompt)
    } else {
        let mut r = to_string(system);
        r.append("\n\n");
        r.append(prompt);
        r
    }
}

/// Sizes of one generation: the last position that may be generated, the
/// batch capacity, and the index of the last prompt token (the one whose
/// logits are wanted).
pub struct GenerationPlan {
    pub n_len: i32,
    pub batch_size: usize,
    pub last_index: i32,
}

/// Plan a generation of at most `max_tokens` new tokens after a prompt of
/// `n_prompt` tokens: the batch holds the whole prompt and at least 512.
pub fn plan_generation(n_prompt: usize, max_tokens: i32) -> (r: GenerationPlan)
    requires
        1 <= n_prompt,
        0 <= max_tokens,
        n_prompt + max_tokens <= i32::MAX,
    ensures
        r.n_len == n_prompt + max_tokens,
        r.batch_size == (if n_prompt + max_tokens < 512 {
            512
        } else {
            n_prompt + max_tokens
        }),
        r.last_index == n_prompt - 1,
{
    let total: usize = n_prompt + max_tokens as usize;
    let batch_size: usize = if total < 512 {
        512
    } else {
        total
    };
    GenerationPlan {
        n_len: n_prompt as i32 + max_tokens,
        batch_size,
        last_index: (n_prompt - 1) as i32,
    }
}

/// Greedy generation in progress: the next position, the text so far and
/// the number of tokens taken, with the pieces handed out one by one.
pub struct Generation {
    start: i32,
    n_cur: i32,
    n_len: i32,
    generated: usize,
    stopped: bool,
    output: String,
    streamed: Ghost<Seq<Seq<char>>>,
}

impl Generation {
    /// The counters agree: every position past the prompt holds one taken
    /// token, and the position never passes the limit.
    pub closed spec fn wf(&self) -> bool {
        &&& self.start <= self.n_cur
        &&& self.n_cur <= self.n_len || self.n_cur == self.start
        &&& self.generated == self.n_cur - self.start
        &&& self.streamed@.len() == self.generated
        &&& self.output@ == self.streamed@.flatten_alt()
    }

    /// The text of each taken token, in the order a streaming caller is
    /// handed them.
    pub closed spec fn streamed(&self) -> Seq<Seq<char>> {
        self.streamed@
    }

    pub closed spec fn output(&self) -> Seq<char> {
        self.output@
    }

    pub closed spec fn generated(&self) -> nat {
        self.generated as nat
    }

    /// The position the next token goes to.
    pub closed spec fn position(&self) -> int {
        self.n_cur as int
    }

    pub closed spec fn limit(&self) -> int {
        self.n_len as int
    }

    pub closed spec fn first(&self) -> int {
        self.start as int
    }

    /// Whether an end-of-generation token has been seen.
    pub closed spec fn stopped(&self) -> bool {
        self.stopped
    }

    /// Start after a prompt batch of `n_tokens` tokens, generating up to
    /// position `n_len`.
    pub fn start(n_tokens: i32, n_len: i32) -> (g: Self)
        ensures
            g.wf(),
            g.output().len() == 0,
            g.generated() == 0,
            g.streamed().len() == 0,
            g.position() == n_tokens,
            g.first() == n_tokens,
            g.limit() == n_len,
            !g.stopped(),
    {
        Generation {
            start: n_tokens,
            n_cur: n_tokens,
            n_len,
            generated: 0,
            stopped: false,
            output: String::new(),
            streamed: Ghost(Seq::empty()),
        }
    }

    /// Whether another token is to be sampled: not after an end token, and
    /// only while the position is below the limit, so that at most `limit`
    /// minus the prompt length tokens are generated.
    pub fn wants_more(&self) -> (r: bool)
        ensures
            r == (!self.stopped() && self.position() < self.limit()),
    {
        !self.stopped && self.n_cur < self.n_len
    }

    /// Take the sampled token: an end-of-generation token stops (`None`);
    /// any other token's text is appended, and the position it is decoded
    /// at is returned.
    pub fn accept(&mut self, is_eog: bool, piece: &str) -> (r: Option<i32>)
        requires
            old(self).wf(),
            !old(self).stopped(),
            old(self).position() < old(self).limit(),
        ensures
            final(self).wf(),
            final(self).first() == old(self).first(),
            final(self).limit() == old(self).limit(),
            is_eog ==> r is None && final(self).stopped(),
            is_eog ==> final(self).output() == old(self).output(),
            is_eog ==> final(self).generated() == old(self).generated(),
            is_eog ==> final(self).position() == old(self).position(),
            is_eog ==> final(self).streamed() == old(self).streamed(),
            !is_eog ==> r == Some(old(self).position() as i32) && !final(self).stopped(),
            !is_eog ==> final(self).output() == old(self).output() + piece@,
            !is_eog ==> final(self).generated() == old(self).generated() + 1,
            !is_eog ==> final(self).position() == old(self).position() + 1,
            !is_eog ==> final(self).streamed() == old(self).streamed().push(piece@),
    {
        if is_eog {
            self.stopped = true;
            None
        } else {
            let pos = self.n_cur;
            self.output.append(piece);
            self.n_cur = self.n_cur + 1;
            self.generated = self.generated + 1;
            proof {
                let old_streamed = self.streamed@;
                self.streamed@ = old_streamed.push(piece@);
                assert(self.streamed@.drop_last() =~= old_streamed);
            }
            Some(pos)
        }
    }

    /// The generated text and the number of tokens taken.
    pub fn finish(self) -> (r: (String, usize))
        ensures
            r.0@ == self.output(),
            r.1 == self.generated(),
    {
        (self.output, self.generated)
    }
}

/// A generation never takes more tokens than the positions from its start
/// to its limit: with the limit set to prompt length plus `max_tokens`, at
/// most `max_tokens` tokens are generated.
pub proof fn law_generation_bounded(g: Generation)
    requires
        g.wf(),
    ensures
        g.generated() <= (if g.limit() - g.first() > 0 {
            g.limit() - g.first()
        } else {
            0
        }),
{
}

/// The streaming and the plain entry points agree: the pieces a streaming
/// caller is handed, one per taken token and in order, join to exactly the
/// text the generation returns.
pub proof fn law_streamed_pieces_make_the_output(g: Generation)
    requires
        g.wf(),
    ensures
        g.streamed().flatten() == g.output(),
        g.streamed().len() == g.generated(),
{
    g.streamed().lemma_flatten_and_flatten_alt_are_equivalent();
}

/// Transcription threads: what the machine offers (8 when it cannot say),
/// taken as an `i32`, at most 16.
pub open spec fn threads_for(available: Option<usize>) -> i32 {
    let n: i32 = match available {
        Some(k) => k as i32,
        None => 8,
    };
    if n < 16 {
        n
    } else {
        16
    }
}

/// The default number of transcription threads, given the parallelism the
/// machine reports (`None` when it reports none).
pub fn default_threads(available: Option<usize>) -> (r: i32)
    ensures
        r == threads_for(available),
{
    let n: i32 = match available {
        Some(k) => k as i32,
        None => 8,
    };
    if n < 16 {
        n
    } else {
        16
    }
}

} // verus!
