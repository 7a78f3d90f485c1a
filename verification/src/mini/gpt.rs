//! Size of a GPT model (the model itself computes in floating point and
//! lives outside the verified library).
use vstd::prelude::*;

verus! {

/// Parameters of one transformer layer: four attention projections of
/// `dim` x `dim` and the two feed-forward matrices.
pub open spec fn layer_params(dim: int, ff: int) -> int {
    dim * dim * 4 + dim * ff + ff * dim
}

/// Parameters of a GPT model: token and position embeddings, the layers,
/// and the output head (as large as the token embedding).
pub open spec fn gpt_param_count(vocab: int, dim: int, seq_len: int, ff: int, layers: int) -> int {
    vocab * dim + seq_len * dim + layers * layer_params(dim, ff) + vocab * dim
}

/// Number of parameters of a GPT model with the given sizes.
pub fn gpt_num_parameters(
    vocab_size: usize,
    embedding_dim: usize,
    max_seq_len: usize,
    ff_dim: usize,
    num_layers: usize,
) -> (r: usize)
    requires
        gpt_param_count(
            vocab_size as int,
            embedding_dim as int,
            max_seq_len as int,
            ff_dim as int,
            num_layers as int,
        ) <= usize::MAX,
    ensures
        r == gpt_param_count(
            vocab_size as int,
            embedding_dim as int,
            max_seq_len as int,
            ff_dim as int,
            num_layers as int,
        ),
{
    let ghost v = vocab_size as int;
    let ghost e = embedding_dim as int;
    let ghost s = max_seq_len as int;
    let ghost f = ff_dim as int;
    let ghost l = num_layers as int;
    let ghost total = gpt_param_count(v, e, s, f, l);
    proof {
        assert(0 <= v * e && 0 <= s * e && 0 <= layer_params(e, f) && 0 <= l * layer_params(e, f))
            by (nonlinear_arith)
            requires
                0 <= v,
                0 <= e,
                0 <= s,
                0 <= f,
                0 <= l,
        ;
        assert(e * e * 4 <= layer_params(e, f) && e * f <= layer_params(e, f)) by (nonlinear_arith)
            requires
                0 <= e,
                0 <= f,
        ;
    }
    let mut params: usize = vocab_size * embedding_dim;
    params = params + max_seq_len * embedding_dim;
    let mut i: usize = 0;
    while i < num_layers
        invariant
            i <= num_layers,
            v == vocab_size,
            e == embedding_dim,
            s == max_seq_len,
            f == ff_dim,
            l == num_layers,
            total == gpt_param_count(v, e, s, f, l),
            total <= usize::MAX,
            0 <= v * e,
            0 <= layer_params(e, f),
            e * e * 4 <= layer_params(e, f),
            e * f <= layer_params(e, f),
            params == v * e + s * e + i * layer_params(e, f),
        decreases num_layers - i,
    {
        proof {
            assert((i + 1) * layer_params(e, f) <= l * layer_params(e, f)) by (nonlinear_arith)
                requires
                    i + 1 <= l,
                    0 <= layer_params(e, f),
            ;
            assert((i + 1) * layer_params(e, f) == i * layer_params(e, f) + layer_params(e, f))
                by (nonlinear_arith);
        }
        params = params + embedding_dim * embedding_dim * 4;
        params = params + embedding_dim * ff_dim;
        params = params + ff_dim * embedding_dim;
        proof {
            assert(f * e == e * f) by (nonlinear_arith);
        }
        i += 1;
    }
    params + vocab_size * embedding_dim
}

} // verus!
