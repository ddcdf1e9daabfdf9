//! Model shapes: the llama2.c header, the layout of its flat weight array,
//! and the integer part of the Gemma 4 configuration (layer pattern and
//! head dimensions).

use vstd::prelude::*;

use crate::gguf::{gvalue_as_str, gvalue_as_u32, lookup, GGUFFile};
use crate::text::{ascii_bytes, lit, push_all, to_vec};

verus! {

/// Model configuration from the llama2.c binary header.
#[derive(Debug, Clone, Copy, PartialEq, Eq, Structural)]
pub struct ModelConfig {
    pub dim: usize,
    pub hidden_dim: usize,
    pub n_layers: usize,
    pub n_heads: usize,
    pub n_kv_heads: usize,
    pub vocab_size: usize,
    pub seq_len: usize,
    /// True if classifier weights are shared with token embeddings.
    pub shared_weights: bool,
}

/// The little-endian `i32` at `i`.
pub open spec fn le_i32(b: Seq<u8>, i: int) -> i32 {
    let u = b[i] as nat + 256 * (b[i + 1] as nat) + 65536 * (b[i + 2] as nat) + 16777216 * (b[i
        + 3] as nat);
    if u >= 0x8000_0000 {
        (u - 0x1_0000_0000) as i32
    } else {
        u as i32
    }
}

/// `|x|` of an `i32`, as `i32::unsigned_abs`.
pub open spec fn abs_i32(x: i32) -> nat {
    if x < 0 {
        (-x) as nat
    } else {
        x as nat
    }
}

/// The configuration in a 28-byte header: seven `i32`s (dim, hidden dim,
/// layers, heads, KV heads, vocabulary, sequence length) cast to `usize`;
/// a negative vocabulary size means separate classifier weights. A short
/// buffer, or a zero dim, layer count, head count, vocabulary or sequence
/// length, gives none.
pub open spec fn spec_model_config(b: Seq<u8>) -> Option<ModelConfig> {
    if b.len() < 28 {
        None
    } else {
        let raw_vocab = le_i32(b, 20);
        let c = ModelConfig {
            dim: le_i32(b, 0) as usize,
            hidden_dim: le_i32(b, 4) as usize,
            n_layers: le_i32(b, 8) as usize,
            n_heads: le_i32(b, 12) as usize,
            n_kv_heads: le_i32(b, 16) as usize,
            vocab_size: abs_i32(raw_vocab) as usize,
            seq_len: le_i32(b, 24) as usize,
            shared_weights: raw_vocab > 0,
        };
        if c.dim == 0 || c.n_layers == 0 || c.n_heads == 0 || c.vocab_size == 0 || c.seq_len == 0 {
            None
        } else {
            Some(c)
        }
    }
}

/// The little-endian `i32` at `offset`.
fn read_i32(data: &[u8], offset: usize) -> (r: i32)
    requires
        offset + 4 <= data@.len(),
    ensures
        r == le_i32(data@, offset as int),
{
    let u: u32 = (data[offset] as u32) + (data[offset + 1] as u32) * 256 + (data[offset + 2] as u32)
        * 65536 + (data[offset + 3] as u32) * 16777216;
    if u >= 0x8000_0000 {
        (u as i64 - 0x1_0000_0000) as i32
    } else {
        u as i32
    }
}

impl ModelConfig {
    /// Parses the configuration from the first 28 bytes of a model file.
    pub fn from_bytes(data: &[u8]) -> (r: Option<Self>)
        ensures
            r == spec_model_config(data@),
    {
        if data.len() < 28 {
            return None;
        }
        let dim = read_i32(data, 0) as usize;
        let hidden_dim = read_i32(data, 4) as usize;
        let n_layers = read_i32(data, 8) as usize;
        let n_heads = read_i32(data, 12) as usize;
        let n_kv_heads = read_i32(data, 16) as usize;
        let raw_vocab_size = read_i32(data, 20);
        let seq_len = read_i32(data, 24) as usize;
        let shared_weights = raw_vocab_size > 0;
        let abs: u32 = if raw_vocab_size < 0 {
            (-(raw_vocab_size as i64)) as u32
        } else {
            raw_vocab_size as u32
        };
        let vocab_size = abs as usize;
        if dim == 0 || n_layers == 0 || n_heads == 0 || vocab_size == 0 || seq_len == 0 {
            return None;
        }
        Some(
            ModelConfig {
                dim,
                hidden_dim,
                n_layers,
                n_heads,
                n_kv_heads,
                vocab_size,
                seq_len,
                shared_weights,
            },
        )
    }

    /// Head size (dim / n_heads).
    pub fn head_size(&self) -> (r: usize)
        requires
            self.n_heads > 0,
        ensures
            r == self.dim / self.n_heads,
    {
        self.dim / self.n_heads
    }

    /// KV dimension (head size × KV heads).
    pub fn kv_dim(&self) -> (r: usize)
        requires
            self.n_heads > 0,
            (self.dim / self.n_heads) * self.n_kv_heads <= usize::MAX,
        ensures
            r == (self.dim / self.n_heads) * self.n_kv_heads,
    {
        self.head_size() * self.n_kv_heads
    }

    /// Query heads per KV head.
    pub fn kv_mul(&self) -> (r: usize)
        requires
            self.n_kv_heads > 0,
        ensures
            r == self.n_heads / self.n_kv_heads,
    {
        self.n_heads / self.n_kv_heads
    }
}

/// Offsets into the flat llama2.c weight array, in elements.
#[derive(Debug, Clone, Copy, PartialEq, Eq, Structural)]
pub struct WeightOffsets {
    pub token_embedding: usize,
    pub rms_att_weight: usize,
    pub wq: usize,
    pub wk: usize,
    pub wv: usize,
    pub wo: usize,
    pub rms_ffn_weight: usize,
    pub w1: usize,
    pub w2: usize,
    pub w3: usize,
    pub rms_final_weight: usize,
    pub freq_cis_real: usize,
    pub freq_cis_imag: usize,
    pub wcls: usize,
}

/// The sizes of the consecutive weight blocks, in layout order.
pub open spec fn block_sizes(c: ModelConfig) -> Seq<nat> {
    let hs = c.dim / c.n_heads;
    let kv = hs * c.n_kv_heads;
    let q = c.n_heads * hs;
    seq![
        (c.vocab_size * c.dim) as nat,
        (c.n_layers * c.dim) as nat,
        (c.n_layers * c.dim * q) as nat,
        (c.n_layers * c.dim * kv) as nat,
        (c.n_layers * c.dim * kv) as nat,
        (c.n_layers * q * c.dim) as nat,
        (c.n_layers * c.dim) as nat,
        (c.n_layers * c.dim * c.hidden_dim) as nat,
        (c.n_layers * c.hidden_dim * c.dim) as nat,
        (c.n_layers * c.dim * c.hidden_dim) as nat,
        c.dim as nat,
        (c.seq_len * hs / 2) as nat,
        (c.seq_len * hs / 2) as nat
    ]
}

/// Where block `k` starts: the sum of the sizes before it.
pub open spec fn block_start(sizes: Seq<nat>, k: nat) -> nat
    decreases k,
{
    if k == 0 || k > sizes.len() {
        0
    } else {
        block_start(sizes, (k - 1) as nat) + sizes[k - 1]
    }
}

/// The whole layout fits in `usize` arithmetic: every product and the end
/// of the last block.
pub open spec fn layout_fits(c: ModelConfig) -> bool {
    &&& c.n_heads > 0
    &&& c.vocab_size * c.dim <= usize::MAX
    &&& c.n_heads * (c.dim / c.n_heads) <= usize::MAX
    &&& (c.dim / c.n_heads) * c.n_kv_heads <= usize::MAX
    &&& c.n_layers * c.dim * (c.n_heads * (c.dim / c.n_heads)) <= usize::MAX
    &&& c.n_layers * c.dim * ((c.dim / c.n_heads) * c.n_kv_heads) <= usize::MAX
    &&& c.n_layers * (c.n_heads * (c.dim / c.n_heads)) <= usize::MAX
    &&& c.n_layers * (c.n_heads * (c.dim / c.n_heads)) * c.dim <= usize::MAX
    &&& c.n_layers * c.dim <= usize::MAX
    &&& c.n_layers * c.dim * c.hidden_dim <= usize::MAX
    &&& c.n_layers * c.hidden_dim <= usize::MAX
    &&& c.n_layers * c.hidden_dim * c.dim <= usize::MAX
    &&& c.seq_len * (c.dim / c.n_heads) <= usize::MAX
    &&& block_start(block_sizes(c), 13) <= usize::MAX
}

/// The offsets of the llama2.c layout: blocks follow one another; the
/// classifier shares the token embedding when weights are shared, and
/// follows the last block otherwise.
pub open spec fn spec_offsets(c: ModelConfig) -> WeightOffsets {
    let s = block_sizes(c);
    WeightOffsets {
        token_embedding: block_start(s, 0) as usize,
        rms_att_weight: block_start(s, 1) as usize,
        wq: block_start(s, 2) as usize,
        wk: block_start(s, 3) as usize,
        wv: block_start(s, 4) as usize,
        wo: block_start(s, 5) as usize,
        rms_ffn_weight: block_start(s, 6) as usize,
        w1: block_start(s, 7) as usize,
        w2: block_start(s, 8) as usize,
        w3: block_start(s, 9) as usize,
        rms_final_weight: block_start(s, 10) as usize,
        freq_cis_real: block_start(s, 11) as usize,
        freq_cis_imag: block_start(s, 12) as usize,
        wcls: if c.shared_weights {
            0
        } else {
            block_start(s, 13) as usize
        },
    }
}

proof fn lemma_block_start_monotone(s: Seq<nat>, a: nat, b: nat)
    requires
        a <= b <= s.len(),
    ensures
        block_start(s, a) <= block_start(s, b),
    decreases b,
{
    if a < b {
        lemma_block_start_monotone(s, a, (b - 1) as nat);
    }
}

impl WeightOffsets {
    /// Computes the offsets for the llama2.c weight layout.
    pub fn new(config: &ModelConfig) -> (r: Self)
        requires
            layout_fits(*config),
        ensures
            r == spec_offsets(*config),
    {
        let ghost s = block_sizes(*config);
        proof {
            reveal_with_fuel(block_start, 14);
            lemma_block_start_monotone(s, 1, 13);
            lemma_block_start_monotone(s, 2, 13);
            lemma_block_start_monotone(s, 3, 13);
            lemma_block_start_monotone(s, 4, 13);
            lemma_block_start_monotone(s, 5, 13);
            lemma_block_start_monotone(s, 6, 13);
            lemma_block_start_monotone(s, 7, 13);
            lemma_block_start_monotone(s, 8, 13);
            lemma_block_start_monotone(s, 9, 13);
            lemma_block_start_monotone(s, 10, 13);
            lemma_block_start_monotone(s, 11, 13);
            lemma_block_start_monotone(s, 12, 13);
        }
        let head_size = config.head_size();
        let n_layers = config.n_layers;
        let dim = config.dim;
        let kv_dim = config.kv_dim();
        let hidden_dim = config.hidden_dim;
        let q_dim = config.n_heads * head_size;
        let mut offset: usize = 0;
        let token_embedding = offset;
        offset = offset + config.vocab_size * dim;
        let rms_att_weight = offset;
        offset = offset + n_layers * dim;
        let wq = offset;
        offset = offset + n_layers * dim * q_dim;
        let wk = offset;
        offset = offset + n_layers * dim * kv_dim;
        let wv = offset;
        offset = offset + n_layers * dim * kv_dim;
        let wo = offset;
        offset = offset + n_layers * q_dim * dim;
        let rms_ffn_weight = offset;
        offset = offset + n_layers * dim;
        let w1 = offset;
        offset = offset + n_layers * dim * hidden_dim;
        let w2 = offset;
        offset = offset + n_layers * hidden_dim * dim;
        let w3 = offset;
        offset = offset + n_layers * dim * hidden_dim;
        let rms_final_weight = offset;
        offset = offset + dim;
        let freq_cis_real = offset;
        offset = offset + config.seq_len * head_size / 2;
        let freq_cis_imag = offset;
        offset = offset + config.seq_len * head_size / 2;
        let wcls = if config.shared_weights {
            token_embedding
        } else {
            offset
        };
        WeightOffsets {
            token_embedding,
            rms_att_weight,
            wq,
            wk,
            wv,
            wo,
            rms_ffn_weight,
            w1,
            w2,
            w3,
            rms_final_weight,
            freq_cis_real,
            freq_cis_imag,
            wcls,
        }
    }
}

/// Attention type of a layer.
#[derive(Debug, Clone, Copy, PartialEq, Eq, Structural)]
pub enum LayerType {
    Sliding,
    Full,
}

/// The layer pattern: every fifth layer attends fully, the others use the
/// sliding window.
pub open spec fn layer_type_at(i: nat) -> LayerType {
    if (i + 1) % 5 == 0 {
        LayerType::Full
    } else {
        LayerType::Sliding
    }
}

/// Builds the layer types of a model with `n_layers` layers: four sliding
/// layers then one full layer, repeating.
pub fn build_layer_types(n_layers: usize) -> (r: Vec<LayerType>)
    ensures
        r@.len() == n_layers,
        forall|i: int| 0 <= i < n_layers ==> #[trigger] r@[i] == layer_type_at(i as nat),
{
    let mut types: Vec<LayerType> = Vec::new();
    let mut i: usize = 0;
    while i < n_layers
        invariant
            0 <= i <= n_layers,
            types@.len() == i,
            forall|k: int| 0 <= k < i ==> #[trigger] types@[k] == layer_type_at(k as nat),
        decreases n_layers - i,
    {
        if (i + 1) % 5 == 0 {
            types.push(LayerType::Full);
        } else {
            types.push(LayerType::Sliding);
        }
        i = i + 1;
    }
    types
}

/// The integer shape of a Gemma 4 model.
#[derive(Debug, Clone)]
pub struct Gemma4Config {
    pub hidden_size: usize,
    pub num_layers: usize,
    pub num_attention_heads: usize,
    pub num_kv_heads: usize,
    pub head_dim: usize,
    pub global_head_dim: usize,
    pub intermediate_size: usize,
    pub vocab_size: usize,
    pub max_position_embeddings: usize,
    pub sliding_window: usize,
    pub ple_dim: usize,
    pub tie_word_embeddings: bool,
    pub layer_types: Vec<LayerType>,
}

/// The head dimension of a layer type.
pub open spec fn spec_layer_head_dim(c: Gemma4Config, layer: int) -> nat {
    match c.layer_types@[layer] {
        LayerType::Sliding => c.head_dim as nat,
        LayerType::Full => c.global_head_dim as nat,
    }
}

/// `prefix.suffix`.
pub open spec fn spec_fmt_key(prefix: Seq<u8>, suffix: Seq<u8>) -> Seq<u8> {
    prefix + seq![46u8] + suffix
}

/// A metadata key such as `gemma4.embedding_length`.
pub fn fmt_key(prefix: &[u8], suffix: &[u8]) -> (r: Vec<u8>)
    ensures
        r@ == spec_fmt_key(prefix@, suffix@),
{
    let mut s = to_vec(prefix);
    s.push(46);
    push_all(&mut s, suffix);
    s
}

/// A `u32` metadata entry read as `usize`, or the fallback.
pub open spec fn meta_or(md: Seq<(Seq<u8>, crate::gguf::GValue)>, key: Seq<u8>, fallback: nat) -> nat {
    match lookup(md, key) {
        Some(v) => match gvalue_as_u32(v) {
            Some(x) => x as nat,
            None => fallback,
        },
        None => fallback,
    }
}

/// The metadata key prefix: the architecture name, `gemma4` when it is
/// absent, not a string, or empty.
pub open spec fn arch_prefix(md: Seq<(Seq<u8>, crate::gguf::GValue)>) -> Seq<u8> {
    match lookup(md, lit("general.architecture")) {
        Some(v) => match gvalue_as_str(v) {
            Some(s) => if s.len() == 0 {
                lit("gemma4")
            } else {
                s
            },
            None => lit("gemma4"),
        },
        None => lit("gemma4"),
    }
}

impl Gemma4Config {
    /// The configuration of google/gemma-4-E2B-it.
    pub fn default_e2b() -> (r: Self)
        ensures
            r.hidden_size == 1536 && r.num_layers == 35 && r.num_attention_heads == 8
                && r.num_kv_heads == 1 && r.head_dim == 256 && r.global_head_dim == 512
                && r.intermediate_size == 6144 && r.vocab_size == 262144
                && r.max_position_embeddings == 131072 && r.sliding_window == 512 && r.ple_dim
                == 256 && r.tie_word_embeddings,
            r.layer_types@.len() == 35,
            forall|i: int| 0 <= i < 35 ==> #[trigger] r.layer_types@[i] == layer_type_at(i as nat),
    {
        Gemma4Config {
            hidden_size: 1536,
            num_layers: 35,
            num_attention_heads: 8,
            num_kv_heads: 1,
            head_dim: 256,
            global_head_dim: 512,
            intermediate_size: 6144,
            vocab_size: 262144,
            max_position_embeddings: 131072,
            sliding_window: 512,
            ple_dim: 256,
            tie_word_embeddings: true,
            layer_types: build_layer_types(35),
        }
    }

    /// Reads the shape from GGUF metadata (`<arch>.<key>` entries), with the
    /// E2B values as fallbacks.
    pub fn from_gguf(gguf: &GGUFFile) -> (r: Self)
        ensures
            ({
                let md = gguf@.metadata;
                let p = arch_prefix(md);
                &&& r.hidden_size == meta_or(md, spec_fmt_key(p, lit("embedding_length")), 1536)
                &&& r.num_layers == meta_or(md, spec_fmt_key(p, lit("block_count")), 35)
                &&& r.num_attention_heads == meta_or(
                    md,
                    spec_fmt_key(p, lit("attention.head_count")),
                    8,
                )
                &&& r.num_kv_heads == meta_or(md, spec_fmt_key(p, lit("attention.head_count_kv")), 1)
                &&& r.vocab_size == meta_or(md, spec_fmt_key(p, lit("vocab_size")), 262144)
                &&& r.intermediate_size == meta_or(
                    md,
                    spec_fmt_key(p, lit("feed_forward_length")),
                    6144,
                )
                &&& r.max_position_embeddings == meta_or(
                    md,
                    spec_fmt_key(p, lit("context_length")),
                    131072,
                )
                &&& r.head_dim == meta_or(md, spec_fmt_key(p, lit("attention.head_dim")), 256)
                &&& r.global_head_dim == meta_or(
                    md,
                    spec_fmt_key(p, lit("attention.global_head_dim")),
                    512,
                )
                &&& r.sliding_window == meta_or(
                    md,
                    spec_fmt_key(p, lit("attention.sliding_window")),
                    512,
                )
                &&& r.ple_dim == meta_or(md, spec_fmt_key(p, lit("ple_dim")), 256)
                &&& r.tie_word_embeddings
                &&& r.layer_types@.len() == r.num_layers
                &&& forall|i: int|
                    0 <= i < r.num_layers ==> #[trigger] r.layer_types@[i] == layer_type_at(
                        i as nat,
                    )
            }),
    {
        proof {
            reveal_strlit("general.architecture");
            reveal_strlit("gemma4");
        }
        let arch_key = ascii_bytes("general.architecture");
        let fallback = ascii_bytes("gemma4");
        let prefix: Vec<u8> = match gguf.get_str(arch_key.as_slice()) {
            Some(s) => if s.len() == 0 {
                fallback
            } else {
                to_vec(s)
            },
            None => fallback,
        };
        let p = prefix.as_slice();
        proof { reveal_strlit("embedding_length"); }
        let hidden_size = get_or(gguf, fmt_key(p, ascii_bytes("embedding_length").as_slice()).as_slice(), 1536);
        proof { reveal_strlit("block_count"); }
        let num_layers = get_or(gguf, fmt_key(p, ascii_bytes("block_count").as_slice()).as_slice(), 35);
        proof { reveal_strlit("attention.head_count"); }
        let num_attention_heads = get_or(gguf, fmt_key(p, ascii_bytes("attention.head_count").as_slice()).as_slice(), 8);
        proof { reveal_strlit("attention.head_count_kv"); }
        let num_kv_heads = get_or(gguf, fmt_key(p, ascii_bytes("attention.head_count_kv").as_slice()).as_slice(), 1);
        proof { reveal_strlit("vocab_size"); }
        let vocab_size = get_or(gguf, fmt_key(p, ascii_bytes("vocab_size").as_slice()).as_slice(), 262144);
        proof { reveal_strlit("feed_forward_length"); }
        let intermediate_size = get_or(gguf, fmt_key(p, ascii_bytes("feed_forward_length").as_slice()).as_slice(), 6144);
        proof { reveal_strlit("context_length"); }
        let max_position_embeddings = get_or(gguf, fmt_key(p, ascii_bytes("context_length").as_slice()).as_slice(), 131072);
        proof { reveal_strlit("attention.head_dim"); }
        let head_dim = get_or(gguf, fmt_key(p, ascii_bytes("attention.head_dim").as_slice()).as_slice(), 256);
        proof { reveal_strlit("attention.global_head_dim"); }
        let global_head_dim = get_or(gguf, fmt_key(p, ascii_bytes("attention.global_head_dim").as_slice()).as_slice(), 512);
        proof { reveal_strlit("attention.sliding_window"); }
        let sliding_window = get_or(gguf, fmt_key(p, ascii_bytes("attention.sliding_window").as_slice()).as_slice(), 512);
        proof { reveal_strlit("ple_dim"); }
        let ple_dim = get_or(gguf, fmt_key(p, ascii_bytes("ple_dim").as_slice()).as_slice(), 256);
        Gemma4Config {
            hidden_size,
            num_layers,
            num_attention_heads,
            num_kv_heads,
            head_dim,
            global_head_dim,
            intermediate_size,
            vocab_size,
            max_position_embeddings,
            sliding_window,
            ple_dim,
            tie_word_embeddings: true,
            layer_types: build_layer_types(num_layers),
        }
    }

    /// Head dimension of a layer.
    pub fn layer_head_dim(&self, layer: usize) -> (r: usize)
        requires
            layer < self.layer_types@.len(),
        ensures
            r == spec_layer_head_dim(*self, layer as int),
    {
        match self.layer_types[layer] {
            LayerType::Sliding => self.head_dim,
            LayerType::Full => self.global_head_dim,
        }
    }

    /// Query width of a layer (heads × head dimension).
    pub fn q_dim(&self, layer: usize) -> (r: usize)
        requires
            layer < self.layer_types@.len(),
            self.num_attention_heads * spec_layer_head_dim(*self, layer as int) <= usize::MAX,
        ensures
            r == self.num_attention_heads * spec_layer_head_dim(*self, layer as int),
    {
        self.num_attention_heads * self.layer_head_dim(layer)
    }

    /// KV width of a layer (KV heads × head dimension).
    pub fn kv_dim(&self, layer: usize) -> (r: usize)
        requires
            layer < self.layer_types@.len(),
            self.num_kv_heads * spec_layer_head_dim(*self, layer as int) <= usize::MAX,
        ensures
            r == self.num_kv_heads * spec_layer_head_dim(*self, layer as int),
    {
        self.num_kv_heads * self.layer_head_dim(layer)
    }

    /// Query heads per KV head.
    pub fn kv_mul(&self) -> (r: usize)
        requires
            self.num_kv_heads > 0,
        ensures
            r == self.num_attention_heads / self.num_kv_heads,
    {
        self.num_attention_heads / self.num_kv_heads
    }
}

/// A `u32` metadata value as `usize`, or the fallback.
fn get_or(gguf: &GGUFFile, key: &[u8], fallback: usize) -> (r: usize)
    requires
        fallback <= u32::MAX,
    ensures
        r == meta_or(gguf@.metadata, key@, fallback as nat),
{
    match gguf.get_u32(key) {
        Some(v) => v as usize,
        None => fallback,
    }
}

} // verus!
