//! Model architectures and their configuration.
use vstd::prelude::*;
use crate::strmap::StrMap;

verus! {

/// Model architecture.
#[derive(Debug, Clone, Copy, PartialEq, Eq, Structural)]
pub enum ModelType {
    GPT2,
    GPTJ,
    GPTNeoX,
    LLaMA,
    Falcon,
}

/// Model hyper-parameters.
#[derive(Debug, Clone, Copy)]
pub struct ModelConfig {
    pub model_type: ModelType,
    pub vocab_size: usize,
    pub embedding_dim: usize,
    pub num_heads: usize,
    pub num_kv_heads: usize,
    pub num_layers: usize,
    pub ff_dim: usize,
    pub max_seq_len: usize,
    pub head_dim: usize,
    pub rope_dim: Option<usize>,
    pub extra_ids: usize,
}

/// The parameter `k`, or `d` when it is absent.
pub open spec fn param_or(p: Map<Seq<char>, usize>, k: Seq<char>, d: usize) -> usize {
    if p.contains_key(k) {
        p[k]
    } else {
        d
    }
}

/// The parameter `k`, if present.
pub open spec fn param(p: Map<Seq<char>, usize>, k: Seq<char>) -> Option<usize> {
    if p.contains_key(k) {
        Some(p[k])
    } else {
        None
    }
}

/// Architectures that `from_params` knows.
pub open spec fn has_known_defaults(t: ModelType) -> bool {
    t == ModelType::GPT2 || t == ModelType::LLaMA || t == ModelType::GPTJ
}

/// The configuration `from_params` gives: each hyper-parameter read from
/// `params` under the architecture's own key, with the architecture's
/// default when absent.
pub open spec fn config_from_params(t: ModelType, p: Map<Seq<char>, usize>) -> ModelConfig {
    match t {
        ModelType::LLaMA => ModelConfig {
            model_type: t,
            vocab_size: param_or(p, "vocab_size"@, 32000),
            embedding_dim: param_or(p, "hidden_size"@, 4096),
            num_heads: param_or(p, "num_attention_heads"@, 32),
            num_kv_heads: param_or(p, "num_key_value_heads"@, 32),
            num_layers: param_or(p, "num_hidden_layers"@, 32),
            ff_dim: param_or(p, "intermediate_size"@, 11008),
            max_seq_len: param_or(p, "max_position_embeddings"@, 2048),
            head_dim: (param_or(p, "hidden_size"@, 4096) / param_or(p, "num_attention_heads"@, 32)) as usize,
            rope_dim: if p.contains_key("rope_theta"@) {
                Some(p["rope_theta"@])
            } else {
                param(p, "hidden_size"@)
            },
            extra_ids: param_or(p, "extra_ids"@, 0),
        },
        ModelType::GPTJ => ModelConfig {
            model_type: t,
            vocab_size: param_or(p, "vocab_size"@, 50400),
            embedding_dim: param_or(p, "n_embd"@, 4096),
            num_heads: param_or(p, "n_head"@, 16),
            num_kv_heads: param_or(p, "n_head"@, 16),
            num_layers: param_or(p, "n_layer"@, 28),
            ff_dim: param_or(p, "n_inner"@, 16384),
            max_seq_len: param_or(p, "n_positions"@, 2048),
            head_dim: 256,
            rope_dim: None,
            extra_ids: 0,
        },
        _ => ModelConfig {
            model_type: t,
            vocab_size: param_or(p, "vocab_size"@, 50257),
            embedding_dim: param_or(p, "n_embd"@, 768),
            num_heads: param_or(p, "n_head"@, 12),
            num_kv_heads: param_or(p, "n_head"@, 12),
            num_layers: param_or(p, "n_layer"@, 12),
            ff_dim: param_or(p, "n_inner"@, 3072),
            max_seq_len: param_or(p, "n_positions"@, 1024),
            head_dim: (param_or(p, "n_embd"@, 768) / param_or(p, "n_head"@, 12)) as usize,
            rope_dim: None,
            extra_ids: 0,
        },
    }
}

/// The head count that `from_params` divides by (GPT-2 and LLaMA).
pub open spec fn head_divisor(t: ModelType, p: Map<Seq<char>, usize>) -> usize {
    match t {
        ModelType::LLaMA => param_or(p, "num_attention_heads"@, 32),
        ModelType::GPTJ => 1,
        _ => param_or(p, "n_head"@, 12),
    }
}

fn get_or(params: &StrMap, key: &str, default: usize) -> (r: usize)
    requires
        params.wf(),
    ensures
        r == param_or(params@, key@, default),
{
    match params.get(key) {
        Some(v) => v,
        None => default,
    }
}

impl ModelConfig {
    /// Configuration of an architecture from named hyper-parameters.
    /// GPT-NeoX and Falcon have no defaults here, and a zero head count
    /// cannot divide the embedding size: those inputs are left out.
    pub fn from_params(model_type: ModelType, params: &StrMap) -> (r: Self)
        requires
            params.wf(),
            has_known_defaults(model_type),
            head_divisor(model_type, params@) != 0,
        ensures
            r == config_from_params(model_type, params@),
    {
        match model_type {
            ModelType::GPT2 => {
                let n_embd = get_or(params, "n_embd", 768);
                let n_head = get_or(params, "n_head", 12);
                ModelConfig {
                    model_type,
                    vocab_size: get_or(params, "vocab_size", 50257),
                    embedding_dim: n_embd,
                    num_heads: n_head,
                    num_kv_heads: n_head,
                    num_layers: get_or(params, "n_layer", 12),
                    ff_dim: get_or(params, "n_inner", 3072),
                    max_seq_len: get_or(params, "n_positions", 1024),
                    head_dim: n_embd / n_head,
                    rope_dim: None,
                    extra_ids: 0,
                }
            },
            ModelType::LLaMA => {
                let hidden = get_or(params, "hidden_size", 4096);
                let heads = get_or(params, "num_attention_heads", 32);
                let rope_dim = match params.get("rope_theta") {
                    Some(v) => Some(v),
                    None => params.get("hidden_size"),
                };
                ModelConfig {
                    model_type,
                    vocab_size: get_or(params, "vocab_size", 32000),
                    embedding_dim: hidden,
                    num_heads: heads,
                    num_kv_heads: get_or(params, "num_key_value_heads", 32),
                    num_layers: get_or(params, "num_hidden_layers", 32),
                    ff_dim: get_or(params, "intermediate_size", 11008),
                    max_seq_len: get_or(params, "max_position_embeddings", 2048),
                    head_dim: hidden / heads,
                    rope_dim,
                    extra_ids: get_or(params, "extra_ids", 0),
                }
            },
            _ => {
                let n_head = get_or(params, "n_head", 16);
                ModelConfig {
                    model_type,
                    vocab_size: get_or(params, "vocab_size", 50400),
                    embedding_dim: get_or(params, "n_embd", 4096),
                    num_heads: n_head,
                    num_kv_heads: n_head,
                    num_layers: get_or(params, "n_layer", 28),
                    ff_dim: get_or(params, "n_inner", 16384),
                    max_seq_len: get_or(params, "n_positions", 2048),
                    head_dim: 256,
                    rope_dim: None,
                    extra_ids: 0,
                }
            },
        }
    }
}

} // verus!
