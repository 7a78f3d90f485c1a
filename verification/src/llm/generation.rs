//! The decisions of autoregressive generation: what context the model
//! sees at each step, when generation stops, and what is returned.  The
//! model's forward pass and the sampling of a token (floating point and
//! chance) are the caller's: each step, the caller asks for the context,
//! runs the model on it, samples a token and hands it back.
use vstd::prelude::*;

verus! {

/// State of one generation.
pub struct Generation {
    tokens: Vec<usize>,
    prompt_len: usize,
    steps: usize,
    max_new_tokens: usize,
    max_seq_len: usize,
    stop_token: usize,
    stopped: bool,
}

impl Generation {
    /// The tokens so far (prompt and generated, possibly cut to the window).
    pub closed spec fn tokens_view(&self) -> Seq<usize> {
        self.tokens@
    }

    /// Length of the prompt.
    pub closed spec fn prompt_len_view(&self) -> nat {
        self.prompt_len as nat
    }

    /// Steps taken.
    pub closed spec fn steps_view(&self) -> nat {
        self.steps as nat
    }

    /// Most steps allowed.
    pub closed spec fn max_steps(&self) -> nat {
        self.max_new_tokens as nat
    }

    /// Context window of the model.
    pub closed spec fn window(&self) -> nat {
        self.max_seq_len as nat
    }

    /// The token that ends generation: the last id of the vocabulary.
    pub closed spec fn stop_view(&self) -> usize {
        self.stop_token
    }

    /// Whether the stop token was sampled.
    pub closed spec fn stopped_view(&self) -> bool {
        self.stopped
    }

    /// Whether another step is due.
    pub open spec fn wants_more_spec(&self) -> bool {
        !self.stopped_view() && self.steps_view() < self.max_steps()
    }

    /// Starts generating after `prompt`, for at most `max_new_tokens`
    /// steps, with a model of context `max_seq_len` and vocabulary
    /// `vocab_size` (whose last id ends generation).
    pub fn new(prompt: &[usize], max_new_tokens: usize, max_seq_len: usize, vocab_size: usize) -> (r: Self)
        requires
            vocab_size >= 1,
        ensures
            r.tokens_view() == prompt@,
            r.prompt_len_view() == prompt@.len(),
            r.steps_view() == 0,
            r.max_steps() == max_new_tokens,
            r.window() == max_seq_len,
            r.stop_view() == vocab_size - 1,
            !r.stopped_view(),
    {
        let mut tokens: Vec<usize> = Vec::new();
        let mut i: usize = 0;
        while i < prompt.len()
            invariant
                i <= prompt@.len(),
                tokens@ == prompt@.take(i as int),
            decreases prompt.len() - i,
        {
            tokens.push(prompt[i]);
            assert(tokens@ =~= prompt@.take(i + 1));
            i += 1;
        }
        assert(prompt@.take(prompt@.len() as int) =~= prompt@);
        Generation {
            tokens,
            prompt_len: prompt.len(),
            steps: 0,
            max_new_tokens,
            max_seq_len,
            stop_token: vocab_size - 1,
            stopped: false,
        }
    }

    /// Whether another step is due: the stop token has not come and fewer
    /// than the allowed steps were taken.
    pub fn wants_more(&self) -> (r: bool)
        ensures
            r == self.wants_more_spec(),
    {
        !self.stopped && self.steps < self.max_new_tokens
    }

    /// Prepares a step: when the tokens exceed the window, keeps only the
    /// last window's worth.  Returns whether it cut them (the model's
    /// cache is then stale and must be cleared).
    pub fn prepare(&mut self) -> (cut: bool)
        ensures
            cut == (old(self).tokens_view().len() > old(self).window()),
            final(self).tokens_view() == if cut {
                old(self).tokens_view().skip(old(self).tokens_view().len() - old(self).window())
            } else {
                old(self).tokens_view()
            },
            final(self).prompt_len_view() == old(self).prompt_len_view(),
            final(self).steps_view() == old(self).steps_view(),
            final(self).max_steps() == old(self).max_steps(),
            final(self).window() == old(self).window(),
            final(self).stop_view() == old(self).stop_view(),
            final(self).stopped_view() == old(self).stopped_view(),
            final(self).tokens_view().len() <= final(self).window() || !cut && final(self).tokens_view()
                == old(self).tokens_view(),
    {
        let n = self.tokens.len();
        if n > self.max_seq_len {
            let start = n - self.max_seq_len;
            let mut kept: Vec<usize> = Vec::new();
            let mut i: usize = start;
            while i < n
                invariant
                    start <= i <= n,
                    n == self.tokens@.len(),
                    kept@ == self.tokens@.subrange(start as int, i as int),
                decreases n - i,
            {
                kept.push(self.tokens[i]);
                assert(kept@ =~= self.tokens@.subrange(start as int, i + 1));
                i += 1;
            }
            assert(kept@ =~= self.tokens@.skip(start as int));
            self.tokens = kept;
            true
        } else {
            false
        }
    }

    /// The context the model is run on.
    pub fn context(&self) -> (r: &[usize])
        ensures
            r@ == self.tokens_view(),
    {
        self.tokens.as_slice()
    }

    /// Takes the sampled token: the stop token ends generation, any other
    /// is appended.  Either way a step is counted.
    pub fn accept(&mut self, token: usize)
        requires
            old(self).wants_more_spec(),
        ensures
            final(self).steps_view() == old(self).steps_view() + 1,
            final(self).stopped_view() == (token == old(self).stop_view()),
            final(self).tokens_view() == if token == old(self).stop_view() {
                old(self).tokens_view()
            } else {
                old(self).tokens_view().push(token)
            },
            final(self).prompt_len_view() == old(self).prompt_len_view(),
            final(self).max_steps() == old(self).max_steps(),
            final(self).window() == old(self).window(),
            final(self).stop_view() == old(self).stop_view(),
    {
        self.steps = self.steps + 1;
        if token == self.stop_token {
            self.stopped = true;
        } else {
            self.tokens.push(token);
        }
    }

    /// The generated tokens: those after the prompt's length.
    pub fn finish(&self) -> (r: Vec<usize>)
        requires
            self.prompt_len_view() <= self.tokens_view().len(),
        ensures
            r@ == self.tokens_view().skip(self.prompt_len_view() as int),
    {
        let n = self.tokens.len();
        let mut out: Vec<usize> = Vec::new();
        let mut i: usize = self.prompt_len;
        while i < n
            invariant
                self.prompt_len <= i <= n,
                n == self.tokens@.len(),
                out@ == self.tokens@.subrange(self.prompt_len as int, i as int),
            decreases n - i,
        {
            out.push(self.tokens[i]);
            assert(out@ =~= self.tokens@.subrange(self.prompt_len as int, i + 1));
            i += 1;
        }
        assert(out@ =~= self.tokens@.skip(self.prompt_len as int));
        out
    }
}

/// Without cutting, the generated tokens are exactly the accepted ones,
/// none of them the stop token, at most one per step.
pub proof fn lemma_generated_tokens(prompt: Seq<usize>, accepted: Seq<usize>, stop: usize)
    requires
        forall|i: int| 0 <= i < accepted.len() ==> #[trigger] accepted[i] != stop,
    ensures
        (prompt + accepted).skip(prompt.len() as int) == accepted,
        forall|i: int|
            0 <= i < (prompt + accepted).skip(prompt.len() as int).len() ==> #[trigger] (prompt
                + accepted).skip(prompt.len() as int)[i] != stop,
{
    assert((prompt + accepted).skip(prompt.len() as int) =~= accepted);
}

} // verus!
