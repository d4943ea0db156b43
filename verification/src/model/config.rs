//! Model hyper-parameters and how they are read from GGUF metadata.
use vstd::prelude::*;

use crate::model::gguf::{
    lookup_tensor, lookup_value, GgufFile, GgufValue, MetadataModel, TensorInfoModel, ValueModel,
};
use crate::text::{chars_of, push_str, string_from_chars};

verus! {

/// Hyper-parameters of a decoder-only transformer. The two floating-point
/// parameters are kept as their IEEE-754 `f32` bit patterns.
#[derive(Debug, Clone)]
pub struct ModelConfig {
    pub architecture: String,
    pub vocab_size: usize,
    pub hidden_dim: usize,
    pub intermediate_dim: usize,
    pub num_layers: usize,
    pub num_heads: usize,
    pub num_kv_heads: usize,
    pub max_seq_len: usize,
    pub rms_norm_eps_bits: u32,
    pub rope_theta_bits: u32,
}

/// `1e-5` as an `f32` bit pattern.
pub const DEFAULT_RMS_NORM_EPS_BITS: u32 = 0x3727c5ac;

/// `10000.0` as an `f32` bit pattern.
pub const DEFAULT_ROPE_THETA_BITS: u32 = 0x461c4000;

/// The architecture a file declares under `general.architecture`, else
/// `"llama"`.
pub open spec fn config_arch(md: MetadataModel) -> Seq<char> {
    match lookup_value(md, "general.architecture"@) {
        Some(ValueModel::Str(s)) => s,
        _ => "llama"@,
    }
}

/// The key `<arch>.<suffix>`.
pub open spec fn arch_key(arch: Seq<char>, suffix: Seq<char>) -> Seq<char> {
    arch + seq!['.'] + suffix
}

/// An integer parameter: the `u32` or `u64` entry under `<arch>.<suffix>`
/// (converted to `usize`), else the default.
pub open spec fn meta_usize(md: MetadataModel, arch: Seq<char>, suffix: Seq<char>, default: u32) -> usize {
    match lookup_value(md, arch_key(arch, suffix)) {
        Some(ValueModel::Uint32(v)) => v as usize,
        Some(ValueModel::Uint64(v)) => v as usize,
        _ => default as usize,
    }
}

/// A floating-point parameter: the bits of the `f32` entry under
/// `<arch>.<suffix>`, else the default bits.
pub open spec fn meta_f32_bits(md: MetadataModel, arch: Seq<char>, suffix: Seq<char>, default: u32) -> u32 {
    match lookup_value(md, arch_key(arch, suffix)) {
        Some(ValueModel::Float32(v)) => v,
        _ => default,
    }
}

pub open spec fn config_hidden(md: MetadataModel) -> usize {
    meta_usize(md, config_arch(md), "embedding_length"@, 288)
}

pub open spec fn config_heads(md: MetadataModel) -> usize {
    meta_usize(md, config_arch(md), "attention.head_count"@, 6)
}

/// The vocabulary size: rows of `token_embd.weight`, else 32000.
pub open spec fn config_vocab(ts: Seq<TensorInfoModel>) -> usize {
    match lookup_tensor(ts, "token_embd.weight"@) {
        Some(t) => t.shape[0],
        None => 32000,
    }
}

/// What `ModelConfig::from_gguf` reads: each parameter under
/// `<arch>.<suffix>` with its default; the key-value head count defaults to
/// the head count and the feed-forward width to `8/3` of the hidden width
/// (both truncated to `u32`).
pub open spec fn config_matches(c: ModelConfig, md: MetadataModel, ts: Seq<TensorInfoModel>) -> bool {
    let arch = config_arch(md);
    let hidden = config_hidden(md);
    let heads = config_heads(md);
    &&& c.architecture@ == arch
    &&& c.vocab_size == config_vocab(ts)
    &&& c.hidden_dim == hidden
    &&& c.num_layers == meta_usize(md, arch, "block_count"@, 4)
    &&& c.num_heads == heads
    &&& c.num_kv_heads == meta_usize(md, arch, "attention.head_count_kv"@, heads as u32)
    &&& c.intermediate_dim == meta_usize(md, arch, "feed_forward_length"@, (hidden * 8 / 3) as u32)
    &&& c.max_seq_len == meta_usize(md, arch, "context_length"@, 512)
    &&& c.rms_norm_eps_bits == meta_f32_bits(
        md,
        arch,
        "attention.layer_norm_rms_epsilon"@,
        DEFAULT_RMS_NORM_EPS_BITS,
    )
    &&& c.rope_theta_bits == meta_f32_bits(md, arch, "rope.freq_base"@, DEFAULT_ROPE_THETA_BITS)
}

/// The metadata entry under `<arch>.<suffix>`.
fn arch_entry<'a>(gguf: &'a GgufFile, arch: &str, suffix: &str) -> (r: Option<&'a GgufValue>)
    ensures
        match lookup_value(gguf.metadata.model(), arch_key(arch@, suffix@)) {
            Some(m) => r matches Some(v) && v.model() == m,
            None => r is None,
        },
{
    let mut key = chars_of(arch);
    key.push('.');
    push_str(&mut key, suffix);
    let key = string_from_chars(key.as_slice());
    proof {
        assert(key@ =~= arch_key(arch@, suffix@));
    }
    gguf.metadata.get(key.as_str())
}

fn read_usize(gguf: &GgufFile, arch: &str, suffix: &str, default: u32) -> (r: usize)
    ensures
        r == meta_usize(gguf.metadata.model(), arch@, suffix@, default),
{
    match arch_entry(gguf, arch, suffix) {
        Some(GgufValue::Uint32(v)) => *v as usize,
        Some(GgufValue::Uint64(v)) => *v as usize,
        _ => default as usize,
    }
}

fn read_f32_bits(gguf: &GgufFile, arch: &str, suffix: &str, default: u32) -> (r: u32)
    ensures
        r == meta_f32_bits(gguf.metadata.model(), arch@, suffix@, default),
{
    match arch_entry(gguf, arch, suffix) {
        Some(GgufValue::Float32(v)) => *v,
        _ => default,
    }
}

impl ModelConfig {
    /// The small configuration used when no file is given.
    pub fn default_compact() -> (r: Self)
        ensures
            r.architecture@ == "llama"@,
            r.vocab_size == 32000,
            r.hidden_dim == 288,
            r.intermediate_dim == 768,
            r.num_layers == 4,
            r.num_heads == 6,
            r.num_kv_heads == 6,
            r.max_seq_len == 512,
            r.rms_norm_eps_bits == DEFAULT_RMS_NORM_EPS_BITS,
            r.rope_theta_bits == DEFAULT_ROPE_THETA_BITS,
    {
        ModelConfig {
            architecture: "llama".to_string(),
            vocab_size: 32000,
            hidden_dim: 288,
            intermediate_dim: 768,
            num_layers: 4,
            num_heads: 6,
            num_kv_heads: 6,
            max_seq_len: 512,
            rms_norm_eps_bits: DEFAULT_RMS_NORM_EPS_BITS,
            rope_theta_bits: DEFAULT_ROPE_THETA_BITS,
        }
    }

    /// Reads the configuration from a file's metadata (see
    /// `config_matches`); it never fails.
    pub fn from_gguf(gguf: &GgufFile) -> (r: Result<Self, String>)
        requires
            config_hidden(gguf.metadata.model()) * 8 <= usize::MAX,
            lookup_tensor(gguf.tensors.model(), "token_embd.weight"@) matches Some(t) ==> t.shape.len() > 0,
        ensures
            r matches Ok(c) && config_matches(c, gguf.metadata.model(), gguf.tensors.model()),
    {
        let ghost md = gguf.metadata.model();
        let arch_str: &str = match gguf.architecture() {
            Some(a) => a,
            None => "llama",
        };
        let arch = arch_str.to_string();
        assert(arch@ == config_arch(md));
        let hidden_dim = read_usize(gguf, arch.as_str(), "embedding_length", 288);
        let num_layers = read_usize(gguf, arch.as_str(), "block_count", 4);
        let num_heads = read_usize(gguf, arch.as_str(), "attention.head_count", 6);
        let num_kv_heads = read_usize(gguf, arch.as_str(), "attention.head_count_kv", num_heads as u32);
        let intermediate_dim = read_usize(
            gguf,
            arch.as_str(),
            "feed_forward_length",
            (hidden_dim * 8 / 3) as u32,
        );
        let max_seq_len = read_usize(gguf, arch.as_str(), "context_length", 512);
        let rms_norm_eps_bits = read_f32_bits(
            gguf,
            arch.as_str(),
            "attention.layer_norm_rms_epsilon",
            DEFAULT_RMS_NORM_EPS_BITS,
        );
        let rope_theta_bits = read_f32_bits(gguf, arch.as_str(), "rope.freq_base", DEFAULT_ROPE_THETA_BITS);
        let vocab_size = match gguf.tensors.get("token_embd.weight") {
            Some(t) => t.shape[0],
            None => 32000,
        };
        Ok(
            ModelConfig {
                architecture: arch,
                vocab_size,
                hidden_dim,
                intermediate_dim,
                num_layers,
                num_heads,
                num_kv_heads,
                max_seq_len,
                rms_norm_eps_bits,
                rope_theta_bits,
            },
        )
    }

    /// Width of one attention head.
    pub fn head_dim(&self) -> (r: usize)
        requires
            self.num_heads > 0,
        ensures
            r == self.hidden_dim / self.num_heads,
    {
        self.hidden_dim / self.num_heads
    }
}

/// What the configuration takes from the metadata. With the architecture
/// `a` named under `general.architecture` (`"llama"` when no string stands
/// there), each integer parameter is the `u32` or `u64` value under
/// `a.<key>` (`embedding_length`, `attention.head_count`, `block_count`,
/// `context_length`, `attention.head_count_kv`, `feed_forward_length`) and
/// falls back to its default when the key is absent (288, 6, 4 and 512 for
/// the first four; the head count for the key/value heads and 8/3 of the
/// hidden width for the feed-forward width, both cut to `u32`); the two
/// floating-point parameters are the `f32` bits under their keys, and the
/// vocabulary size is the row count of `token_embd.weight` (else 32000).
pub proof fn config_reads_metadata(c: ModelConfig, md: MetadataModel, ts: Seq<TensorInfoModel>, a: Seq<char>)
    requires
        config_matches(c, md, ts),
        lookup_value(md, "general.architecture"@) == Some(ValueModel::Str(a)) || (a == "llama"@
            && !(lookup_value(md, "general.architecture"@) matches Some(ValueModel::Str(_)))),
    ensures
        c.architecture@ == a,
        lookup_value(md, a + ".embedding_length"@) matches Some(ValueModel::Uint32(v)) ==> c.hidden_dim == v,
        lookup_value(md, a + ".embedding_length"@) matches Some(ValueModel::Uint64(v)) ==> c.hidden_dim == v as usize,
        lookup_value(md, a + ".embedding_length"@) is None ==> c.hidden_dim == 288,
        lookup_value(md, a + ".attention.head_count"@) matches Some(ValueModel::Uint32(v)) ==> c.num_heads == v,
        lookup_value(md, a + ".attention.head_count"@) matches Some(ValueModel::Uint64(v)) ==> c.num_heads == v as usize,
        lookup_value(md, a + ".attention.head_count"@) is None ==> c.num_heads == 6,
        lookup_value(md, a + ".block_count"@) matches Some(ValueModel::Uint32(v)) ==> c.num_layers == v,
        lookup_value(md, a + ".block_count"@) matches Some(ValueModel::Uint64(v)) ==> c.num_layers == v as usize,
        lookup_value(md, a + ".block_count"@) is None ==> c.num_layers == 4,
        lookup_value(md, a + ".context_length"@) matches Some(ValueModel::Uint32(v)) ==> c.max_seq_len == v,
        lookup_value(md, a + ".context_length"@) matches Some(ValueModel::Uint64(v)) ==> c.max_seq_len == v as usize,
        lookup_value(md, a + ".context_length"@) is None ==> c.max_seq_len == 512,
        lookup_value(md, a + ".attention.head_count_kv"@) matches Some(ValueModel::Uint32(v)) ==> c.num_kv_heads == v,
        lookup_value(md, a + ".attention.head_count_kv"@) matches Some(ValueModel::Uint64(v)) ==> c.num_kv_heads == v as usize,
        lookup_value(md, a + ".feed_forward_length"@) matches Some(ValueModel::Uint32(v)) ==> c.intermediate_dim == v,
        lookup_value(md, a + ".feed_forward_length"@) matches Some(ValueModel::Uint64(v)) ==> c.intermediate_dim == v as usize,
        lookup_value(md, a + ".attention.head_count_kv"@) is None ==> c.num_kv_heads == (
        c.num_heads as u32) as usize,
        lookup_value(md, a + ".feed_forward_length"@) is None ==> c.intermediate_dim == ((
        c.hidden_dim * 8 / 3) as u32) as usize,
        lookup_value(md, a + ".attention.layer_norm_rms_epsilon"@) matches Some(ValueModel::Float32(v)) ==> c.rms_norm_eps_bits == v,
        lookup_value(md, a + ".attention.layer_norm_rms_epsilon"@) is None ==> c.rms_norm_eps_bits == DEFAULT_RMS_NORM_EPS_BITS,
        lookup_value(md, a + ".rope.freq_base"@) matches Some(ValueModel::Float32(v)) ==> c.rope_theta_bits == v,
        lookup_value(md, a + ".rope.freq_base"@) is None ==> c.rope_theta_bits == DEFAULT_ROPE_THETA_BITS,
        lookup_tensor(ts, "token_embd.weight"@) matches Some(t) ==> c.vocab_size == t.shape[0],
        lookup_tensor(ts, "token_embd.weight"@) is None ==> c.vocab_size == 32000,
{
    reveal_strlit("llama");
    reveal_strlit("embedding_length");
    reveal_strlit(".embedding_length");
    assert(arch_key(a, "embedding_length"@) =~= a + ".embedding_length"@);
    reveal_strlit("attention.head_count");
    reveal_strlit(".attention.head_count");
    assert(arch_key(a, "attention.head_count"@) =~= a + ".attention.head_count"@);
    reveal_strlit("block_count");
    reveal_strlit(".block_count");
    assert(arch_key(a, "block_count"@) =~= a + ".block_count"@);
    reveal_strlit("context_length");
    reveal_strlit(".context_length");
    assert(arch_key(a, "context_length"@) =~= a + ".context_length"@);
    reveal_strlit("attention.head_count_kv");
    reveal_strlit(".attention.head_count_kv");
    assert(arch_key(a, "attention.head_count_kv"@) =~= a + ".attention.head_count_kv"@);
    reveal_strlit("feed_forward_length");
    reveal_strlit(".feed_forward_length");
    assert(arch_key(a, "feed_forward_length"@) =~= a + ".feed_forward_length"@);
    reveal_strlit("attention.layer_norm_rms_epsilon");
    reveal_strlit(".attention.layer_norm_rms_epsilon");
    assert(arch_key(a, "attention.layer_norm_rms_epsilon"@) =~= a + ".attention.layer_norm_rms_epsilon"@);
    reveal_strlit("rope.freq_base");
    reveal_strlit(".rope.freq_base");
    assert(arch_key(a, "rope.freq_base"@) =~= a + ".rope.freq_base"@);
}

} // verus!
