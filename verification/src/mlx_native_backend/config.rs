//! What is known of a model before it is loaded, and what the environment says.

use crate::json::{
    field, field_of, integer_in, member, parsed, string_in, text_in, trees, trees_index, Json,
    JsonTree,
};
use crate::modelscope::{cache_dir_of, model_cache_dir};
use crate::paths::{join_path, path_join};
use crate::text::{
    char_from, char_position, chars_of, contains, copy, find, from, has, has_prefix, number_upto,
    parse_upto, position, same, split, split_on, starts_with, substr, trim, trim_str, views,
};
use vstd::prelude::*;

verus! {

/// The token that ends a turn where a configuration names none.
pub const QWEN3_EOS: u32 = 151_645;

/// The context window where a configuration names none.
pub const DEFAULT_N_CTX: u32 = 32_768;

/// Tokens that a request may get where it does not say.
pub const DEFAULT_MAX_TOKENS: usize = 4096;

/// Tokens that no request gets more of, unless the environment says otherwise.
pub const DEFAULT_OUTPUT_CEILING: usize = 8192;

/// Conversations whose cache is kept.
pub const DEFAULT_PREFIX_SLOTS: usize = 4;

/// Bytes of an element of the cache.
pub const KV_DTYPE_BYTES: u64 = 2;

// ---------------------------------------------------------------------------
// Architectures
// ---------------------------------------------------------------------------

/// The architecture of a model that is loaded.
#[derive(Clone, Copy, Debug, PartialEq, Eq, Structural)]
pub enum Arch {
    Qwen3,
    Qwen3Moe,
    Qwen35,
    Qwen35Moe,
    Llama,
    Qwen2,
    Gemma3,
    GptOss,
}

/// How a model is loaded.
#[derive(Clone, Copy, Debug, PartialEq, Eq, Structural)]
pub enum Loader {
    Qwen3,
    Qwen3Moe,
    GptOss,
    Qwen35,
    Qwen35Moe,
    Llama,
    /// The Llama architecture with fused projections.
    Phi3,
    Gemma3,
    Qwen2,
}

pub open spec fn loader_of(t: Seq<char>) -> Option<Loader> {
    if t == "qwen3"@ {
        Some(Loader::Qwen3)
    } else if t == "qwen3_moe"@ {
        Some(Loader::Qwen3Moe)
    } else if t == "gpt_oss"@ {
        Some(Loader::GptOss)
    } else if t == "qwen3_5"@ || t == "qwen3_5_text"@ {
        Some(Loader::Qwen35)
    } else if t == "qwen3_5_moe"@ || t == "qwen3_5_moe_text"@ {
        Some(Loader::Qwen35Moe)
    } else if t == "llama"@ || t == "mistral"@ {
        Some(Loader::Llama)
    } else if t == "phi3"@ {
        Some(Loader::Phi3)
    } else if t == "gemma3_text"@ || t == "gemma3"@ {
        Some(Loader::Gemma3)
    } else if t == "qwen2"@ {
        Some(Loader::Qwen2)
    } else {
        None
    }
}

impl Loader {
    /// How a model of this type is loaded; an error for a type that cannot be.
    pub fn of(model_type: &str) -> (r: Result<Loader, String>)
        ensures
            match r {
                Ok(l) => loader_of(model_type@) == Some(l),
                Err(e) => loader_of(model_type@) is None && e@ == "mlx: unsupported model_type '"@
                    + model_type@ + "'"@,
            },
    {
        if same(model_type, "qwen3") {
            Ok(Loader::Qwen3)
        } else if same(model_type, "qwen3_moe") {
            Ok(Loader::Qwen3Moe)
        } else if same(model_type, "gpt_oss") {
            Ok(Loader::GptOss)
        } else if same(model_type, "qwen3_5") || same(model_type, "qwen3_5_text") {
            Ok(Loader::Qwen35)
        } else if same(model_type, "qwen3_5_moe") || same(model_type, "qwen3_5_moe_text") {
            Ok(Loader::Qwen35Moe)
        } else if same(model_type, "llama") || same(model_type, "mistral") {
            Ok(Loader::Llama)
        } else if same(model_type, "phi3") {
            Ok(Loader::Phi3)
        } else if same(model_type, "gemma3_text") || same(model_type, "gemma3") {
            Ok(Loader::Gemma3)
        } else if same(model_type, "qwen2") {
            Ok(Loader::Qwen2)
        } else {
            Err(copy("mlx: unsupported model_type '").concat(model_type).concat("'"))
        }
    }

    pub open spec fn loads(self) -> Arch {
        match self {
            Loader::Qwen3 => Arch::Qwen3,
            Loader::Qwen3Moe => Arch::Qwen3Moe,
            Loader::GptOss => Arch::GptOss,
            Loader::Qwen35 => Arch::Qwen35,
            Loader::Qwen35Moe => Arch::Qwen35Moe,
            Loader::Llama => Arch::Llama,
            Loader::Phi3 => Arch::Llama,
            Loader::Gemma3 => Arch::Gemma3,
            Loader::Qwen2 => Arch::Qwen2,
        }
    }

    /// The architecture that a loaded model has.
    pub fn arch(self) -> (r: Arch)
        ensures
            r == self.loads(),
    {
        match self {
            Loader::Qwen3 => Arch::Qwen3,
            Loader::Qwen3Moe => Arch::Qwen3Moe,
            Loader::GptOss => Arch::GptOss,
            Loader::Qwen35 => Arch::Qwen35,
            Loader::Qwen35Moe => Arch::Qwen35Moe,
            Loader::Llama => Arch::Llama,
            Loader::Phi3 => Arch::Llama,
            Loader::Gemma3 => Arch::Gemma3,
            Loader::Qwen2 => Arch::Qwen2,
        }
    }

    pub open spec fn named(self) -> Seq<char> {
        match self {
            Loader::Qwen3 => "qwen3"@,
            Loader::Qwen3Moe => "qwen3_moe"@,
            Loader::GptOss => "gpt_oss"@,
            Loader::Qwen35 => "qwen3_5"@,
            Loader::Qwen35Moe => "qwen3_5_moe"@,
            Loader::Llama => "llama/mistral"@,
            Loader::Phi3 => "phi3"@,
            Loader::Gemma3 => "gemma3"@,
            Loader::Qwen2 => "qwen2"@,
        }
    }

    /// What is said of a model that could not be loaded.
    pub fn failure(self, dir: &str, e: &str) -> (r: String)
        ensures
            r@ == "mlx: load "@ + self.named() + " "@ + dir@ + ": "@ + e@,
    {
        let name = match self {
            Loader::Qwen3 => "qwen3",
            Loader::Qwen3Moe => "qwen3_moe",
            Loader::GptOss => "gpt_oss",
            Loader::Qwen35 => "qwen3_5",
            Loader::Qwen35Moe => "qwen3_5_moe",
            Loader::Llama => "llama/mistral",
            Loader::Phi3 => "phi3",
            Loader::Gemma3 => "gemma3",
            Loader::Qwen2 => "qwen2",
        };
        copy("mlx: load ").concat(name).concat(" ").concat(dir).concat(": ").concat(e)
    }
}

pub open spec fn hybrid_type(t: Seq<char>) -> bool {
    t == "qwen3_5"@ || t == "qwen3_5_text"@ || t == "qwen3_5_moe"@ || t == "qwen3_5_moe_text"@
}

pub open spec fn dense_type(t: Seq<char>) -> bool {
    ||| t == "qwen3"@
    ||| t == "qwen3_moe"@
    ||| t == "llama"@
    ||| t == "mistral"@
    ||| t == "phi3"@
    ||| t == "gemma3_text"@
    ||| t == "gemma3"@
    ||| t == "qwen2"@
}

/// Types whose layers keep a recurrent state. Their command buffers must retain
/// what they refer to.
pub fn is_hybrid_model(model_type: &str) -> (r: bool)
    ensures
        r == hybrid_type(model_type@),
{
    same(model_type, "qwen3_5") || same(model_type, "qwen3_5_text") || same(
        model_type,
        "qwen3_5_moe",
    ) || same(model_type, "qwen3_5_moe_text")
}

/// Types whose cache can be cut back freely, as speculative decoding needs.
pub fn model_type_is_dense(model_type: &str) -> (r: bool)
    ensures
        r == dense_type(model_type@),
{
    same(model_type, "qwen3") || same(model_type, "qwen3_moe") || same(model_type, "llama")
        || same(model_type, "mistral") || same(model_type, "phi3") || same(
        model_type,
        "gemma3_text",
    ) || same(model_type, "gemma3") || same(model_type, "qwen2")
}

/// Types that can be loaded.
pub fn supported_model_type(model_type: &str) -> (r: bool)
    ensures
        r == (loader_of(model_type@) is Some),
{
    Loader::of(model_type).is_ok()
}

impl Arch {
    pub open spec fn hybrid(self) -> bool {
        self is Qwen35 || self is Qwen35Moe
    }

    /// The architecture has layers with a recurrent state.
    pub fn is_hybrid(self) -> (r: bool)
        ensures
            r == self.hybrid(),
    {
        match self {
            Arch::Qwen35 | Arch::Qwen35Moe => true,
            _ => false,
        }
    }

    pub open spec fn dense(self) -> bool {
        self is Qwen3 || self is Qwen3Moe || self is Llama || self is Qwen2
    }

    /// The architecture has only attention layers, and its calls are written in
    /// `<tool_call>` envelopes.
    pub fn is_dense(self) -> (r: bool)
        ensures
            r == self.dense(),
    {
        match self {
            Arch::Qwen3 | Arch::Qwen3Moe | Arch::Llama | Arch::Qwen2 => true,
            _ => false,
        }
    }

    pub open spec fn batchable(self) -> bool {
        !(self is GptOss)
    }

    /// Several requests can be decoded together.
    pub fn is_batchable(self) -> (r: bool)
        ensures
            r == self.batchable(),
    {
        match self {
            Arch::GptOss => false,
            _ => true,
        }
    }

    pub open spec fn speculates(self) -> bool {
        self.dense() || self is Gemma3
    }

    /// The cache can be cut back to any length, and the output is plain text.
    pub fn can_speculate(self) -> (r: bool)
        ensures
            r == self.speculates(),
    {
        match self {
            Arch::Gemma3 => true,
            _ => self.is_dense(),
        }
    }

    pub open spec fn reuses_dense(self) -> bool {
        self.dense() || self is GptOss
    }

    /// The cache of a conversation is reused by cutting it back.
    pub fn has_dense_prefix(self) -> (r: bool)
        ensures
            r == self.reuses_dense(),
    {
        match self {
            Arch::GptOss => true,
            _ => self.is_dense(),
        }
    }
}

// ---------------------------------------------------------------------------
// config.json
// ---------------------------------------------------------------------------

/// The part of a configuration that describes the text model.
pub open spec fn text_part(cfg: JsonTree) -> JsonTree {
    match member(cfg, "text_config"@) {
        Some(t) => t,
        None => cfg,
    }
}

/// The layers that keep a cache: every `interval`-th of a hybrid model, else all.
pub open spec fn caching_layers(c: JsonTree) -> Option<int> {
    match integer_in(member(c, "num_hidden_layers"@)) {
        Some(n) => match integer_in(member(c, "full_attention_interval"@)) {
            Some(i) => if i > 1 {
                Some(n as int / i as int)
            } else {
                Some(n as int)
            },
            None => Some(n as int),
        },
        None => None,
    }
}

/// The size of a head: stated, else the share of a head in the hidden size.
pub open spec fn head_size(c: JsonTree) -> Option<int> {
    match integer_in(member(c, "head_dim"@)) {
        Some(d) => Some(d as int),
        None => match (
            integer_in(member(c, "hidden_size"@)),
            integer_in(member(c, "num_attention_heads"@)),
        ) {
            (Some(h), Some(n)) => if n > 0 {
                Some(h as int / n as int)
            } else {
                None
            },
            _ => None,
        },
    }
}

/// Bytes that the cache grows by with each position: keys and values of the
/// layers that keep them.
pub open spec fn kv_bytes(cfg: JsonTree) -> Option<int> {
    let c = text_part(cfg);
    match (caching_layers(c), integer_in(member(c, "num_key_value_heads"@)), head_size(c)) {
        (Some(layers), Some(heads), Some(size)) => Some(
            2 * layers * heads as int * size * KV_DTYPE_BYTES as int,
        ),
        _ => None,
    }
}

/// A number of bytes, where it fits a machine integer.
pub open spec fn in_u64(n: Option<int>) -> Option<u64> {
    match n {
        Some(n) => if 0 <= n <= u64::MAX {
            Some(n as u64)
        } else {
            None
        },
        None => None,
    }
}

fn product(a: u64, b: u64) -> (r: Option<u64>)
    ensures
        r == in_u64(Some(a as int * b as int)),
{
    a.checked_mul(b)
}

/// Bytes that the cache grows by with each position; nothing where the
/// configuration lacks a field or the number does not fit.
pub fn kv_bytes_per_position(cfg: &Json) -> (r: Option<u64>)
    ensures
        r == in_u64(kv_bytes(cfg@)),
{
    let c = match cfg.get("text_config") {
        Some(t) => t,
        None => cfg,
    };
    let n_layers = match c.get_u64("num_hidden_layers") {
        Some(n) => n,
        None => {
            return None;
        },
    };
    let layers = match c.get_u64("full_attention_interval") {
        Some(i) => if i > 1 {
            n_layers / i
        } else {
            n_layers
        },
        None => n_layers,
    };
    let n_kv = match c.get_u64("num_key_value_heads") {
        Some(n) => n,
        None => {
            return None;
        },
    };
    let head_dim = match c.get_u64("head_dim") {
        Some(d) => d,
        None => {
            let hidden = match c.get_u64("hidden_size") {
                Some(h) => h,
                None => {
                    return None;
                },
            };
            match c.get_u64("num_attention_heads") {
                Some(n) => if n > 0 {
                    hidden / n
                } else {
                    return None;
                },
                None => {
                    return None;
                },
            }
        },
    };
    let ghost total = 2 * layers as int * n_kv as int * head_dim as int * 2;
    proof {
        assert(total == 4 * (layers as int * n_kv as int * head_dim as int)) by (nonlinear_arith)
            requires
                total == 2 * layers as int * n_kv as int * head_dim as int * 2,
        ;
    }
    product_of_three(layers, n_kv, head_dim)
}

/// Four times a product of three factors, where it fits.
fn product_of_three(a: u64, b: u64, c: u64) -> (r: Option<u64>)
    ensures
        r == in_u64(Some(4 * (a as int * b as int * c as int))),
{
    if a == 0 || b == 0 || c == 0 {
        assert(a as int * b as int * c as int == 0) by (nonlinear_arith)
            requires
                a == 0 || b == 0 || c == 0,
        ;
        return Some(0);
    }
    match product(a, b) {
        Some(ab) => match product(ab, c) {
            Some(abc) => match product(4, abc) {
                Some(r) => Some(r),
                None => None,
            },
            None => {
                assert(4 * (ab as int * c as int) > u64::MAX) by (nonlinear_arith)
                    requires
                        ab as int * c as int > u64::MAX,
                ;
                None
            },
        },
        None => {
            assert(4 * (a as int * b as int * c as int) > u64::MAX) by (nonlinear_arith)
                requires
                    a as int * b as int > u64::MAX,
                    c >= 1,
            ;
            None
        },
    }
}

/// The low 32 bits of a number.
pub open spec fn low_bits(n: u64) -> u32 {
    (n % 0x1_0000_0000) as u32
}

fn to_low_bits(n: u64) -> (r: u32)
    ensures
        r == low_bits(n),
{
    (n % 0x1_0000_0000) as u32
}

/// What a configuration says of a model.
pub struct ModelConfig {
    pub n_ctx: u32,
    pub eos: Vec<u32>,
    pub model_type: String,
    pub kv_per_pos: Option<u64>,
}

/// The numbers among the items of a list.
pub open spec fn listed_ids(items: Seq<JsonTree>) -> Seq<u32>
    decreases items.len(),
{
    if items.len() == 0 {
        Seq::empty()
    } else {
        let rest = listed_ids(items.drop_last());
        match integer_in(Some(items.last())) {
            Some(n) => rest.push(low_bits(n)),
            None => rest,
        }
    }
}

/// The tokens that `eos_token_id` names, a number or a list.
pub open spec fn named_eos(cfg: JsonTree) -> Seq<u32> {
    match member(cfg, "eos_token_id"@) {
        Some(t) => match t {
            JsonTree::Array(items) => listed_ids(items),
            _ => match integer_in(Some(t)) {
                Some(n) => seq![low_bits(n)],
                None => Seq::empty(),
            },
        },
        None => Seq::empty(),
    }
}

/// A list with one more item, unless it is there.
pub open spec fn with_token(eos: Seq<u32>, id: u32) -> Seq<u32> {
    if eos.contains(id) {
        eos
    } else {
        eos.push(id)
    }
}

/// The tokens that end a turn. The harmony format also ends on a call and at the
/// end of the text.
pub open spec fn eos_tokens(cfg: Option<JsonTree>) -> Seq<u32> {
    let listed = match cfg {
        Some(c) => named_eos(c),
        None => Seq::empty(),
    };
    let base = if listed.len() == 0 {
        seq![QWEN3_EOS]
    } else {
        listed
    };
    if type_named(cfg) == "gpt_oss"@ {
        with_token(with_token(base, 199999), 200012)
    } else {
        base
    }
}

pub open spec fn type_named(cfg: Option<JsonTree>) -> Seq<char> {
    match string_in(field_of(cfg, "model_type"@)) {
        Some(t) => t,
        None => "qwen3"@,
    }
}

pub open spec fn context_named(cfg: Option<JsonTree>) -> u32 {
    match integer_in(field_of(cfg, "max_position_embeddings"@)) {
        Some(n) => low_bits(n),
        None => DEFAULT_N_CTX,
    }
}

/// What is read of a configuration's text, which may be missing.
pub open spec fn config_tree(text: Option<&str>) -> Option<JsonTree> {
    match text {
        Some(t) => parsed(t@),
        None => None,
    }
}

/// A token is in a list.
pub fn has_token(v: &Vec<u32>, id: u32) -> (r: bool)
    ensures
        r == v@.contains(id),
{
    let mut i: usize = 0;
    while i < v.len()
        invariant
            i <= v.len(),
            forall|k: int| 0 <= k < i ==> v@[k] != id,
        decreases v.len() - i,
    {
        if v[i] == id {
            assert(v@[i as int] == id);
            return true;
        }
        i = i + 1;
    }
    false
}

/// Adds a token to a list, unless it is there.
pub fn add_token(v: &mut Vec<u32>, id: u32)
    ensures
        final(v)@ == with_token(old(v)@, id),
{
    if !has_token(v, id) {
        v.push(id);
    }
}

fn ids_in(items: &Vec<Json>) -> (r: Vec<u32>)
    ensures
        r@ == listed_ids(trees(items@)),
{
    proof {
        trees_index(items@);
    }
    let ghost all = trees(items@);
    let mut out: Vec<u32> = Vec::new();
    let mut i: usize = 0;
    while i < items.len()
        invariant
            i <= items.len(),
            all.len() == items@.len(),
            forall|k: int| 0 <= k < items@.len() ==> #[trigger] all[k] == items@[k]@,
            out@ == listed_ids(all.subrange(0, i as int)),
        decreases items.len() - i,
    {
        let ghost part = all.subrange(0, i + 1);
        assert(part.drop_last() =~= all.subrange(0, i as int));
        assert(part.last() == items@[i as int]@);
        match items[i].as_u64() {
            Some(n) => {
                out.push(to_low_bits(n));
            },
            None => {},
        }
        i = i + 1;
    }
    assert(all.subrange(0, i as int) =~= all);
    out
}

/// Reads a configuration's text; a configuration that is missing or is no JSON
/// says nothing.
pub fn read_config(text: Option<&str>) -> (r: ModelConfig)
    ensures
        r.n_ctx == context_named(config_tree(text)),
        r.eos@ == eos_tokens(config_tree(text)),
        r.model_type@ == type_named(config_tree(text)),
        r.kv_per_pos == (match config_tree(text) {
            Some(c) => in_u64(kv_bytes(c)),
            None => None,
        }),
{
    let cfg = match text {
        Some(t) => crate::json::parse_json(t),
        None => None,
    };
    let mut n_ctx = DEFAULT_N_CTX;
    let mut eos: Vec<u32> = Vec::new();
    let mut model_type = copy("qwen3");
    let mut kv_per_pos: Option<u64> = None;
    if let Some(v) = &cfg {
        match v.get_u64("max_position_embeddings") {
            Some(n) => {
                n_ctx = to_low_bits(n);
            },
            None => {},
        }
        match v.get_str("model_type") {
            Some(t) => {
                model_type = t.clone();
            },
            None => {},
        }
        match v.get("eos_token_id") {
            Some(t) => match t {
                Json::Array(items) => {
                    eos = ids_in(items);
                },
                _ => match t.as_u64() {
                    Some(n) => {
                        eos.push(to_low_bits(n));
                        assert(eos@ =~= seq![low_bits(n)]);
                    },
                    None => {},
                },
            },
            None => {},
        }
        assert(eos@ =~= named_eos(v@));
        kv_per_pos = kv_bytes_per_position(v);
    }
    if eos.len() == 0 {
        eos.push(QWEN3_EOS);
        assert(eos@ =~= seq![QWEN3_EOS]);
    }
    if same(model_type.as_str(), "gpt_oss") {
        add_token(&mut eos, 199999);
        add_token(&mut eos, 200012);
    }
    ModelConfig { n_ctx, eos, model_type, kv_per_pos }
}

/// The window of a model, no wider than the caller wants it.
pub fn context_window(n_ctx: u32, max_ctx: Option<u32>) -> (r: u32)
    ensures
        r == (match max_ctx {
            Some(cap) => if cap < n_ctx {
                cap
            } else {
                n_ctx
            },
            None => n_ctx,
        }),
{
    match max_ctx {
        Some(cap) => if cap < n_ctx {
            cap
        } else {
            n_ctx
        },
        None => n_ctx,
    }
}

/// The type of a model: stated at the top, else in the text model's part.
pub open spec fn effective_type(cfg: JsonTree) -> Option<Seq<char>> {
    match string_in(member(cfg, "model_type"@)) {
        Some(t) => Some(t),
        None => string_in(field_of(field_of(Some(cfg), "text_config"@), "model_type"@)),
    }
}

/// The type of a model: stated at the top, else in the text model's part.
pub fn config_model_type(cfg: &Json) -> (r: Option<&String>)
    ensures
        match r {
            Some(t) => effective_type(cfg@) == Some(t@),
            None => effective_type(cfg@) is None,
        },
{
    match cfg.get_str("model_type") {
        Some(t) => Some(t),
        None => text_in(field(field(Some(cfg), "text_config"), "model_type")),
    }
}

/// A repository is downloaded only where its configuration names a type that can
/// be loaded.
pub fn model_type_gate(cfg: &Json) -> (r: Result<(), String>)
    ensures
        match effective_type(cfg@) {
            Some(t) => if loader_of(t) is Some {
                r is Ok
            } else {
                r matches Err(e) && e@ == "native MLX does not support model_type '"@ + t
                    + "' (Qwen2/Qwen3/Qwen3.6/Llama)"@
            },
            None => r matches Err(e) && e@ == "config.json has no model_type"@,
        },
{
    match config_model_type(cfg) {
        Some(t) => if supported_model_type(t.as_str()) {
            Ok(())
        } else {
            Err(
                copy("native MLX does not support model_type '").concat(t.as_str()).concat(
                    "' (Qwen2/Qwen3/Qwen3.6/Llama)",
                ),
            )
        },
        None => Err(copy("config.json has no model_type")),
    }
}

/// A pair of models can decode speculatively only where both can be cut back.
pub fn spec_pair_gate(target_type: &str, draft_type: &str) -> (r: Result<(), String>)
    ensures
        r is Ok <==> dense_type(target_type@) && dense_type(draft_type@),
        !dense_type(target_type@) ==> (r matches Err(e) && e@ == "spec-decode: target arch '"@
            + target_type@
            + "' is not a supported dense MLX arch (hybrid Qwen3.6 / gpt-oss not supported yet)"@),
        dense_type(target_type@) && !dense_type(draft_type@) ==> (r matches Err(e) && e@
            == "spec-decode: draft arch '"@ + draft_type@ + "' is not a supported dense MLX arch"@),
{
    if !model_type_is_dense(target_type) {
        return Err(
            copy("spec-decode: target arch '").concat(target_type).concat(
                "' is not a supported dense MLX arch (hybrid Qwen3.6 / gpt-oss not supported yet)",
            ),
        );
    }
    if !model_type_is_dense(draft_type) {
        return Err(
            copy("spec-decode: draft arch '").concat(draft_type).concat(
                "' is not a supported dense MLX arch",
            ),
        );
    }
    Ok(())
}

// ---------------------------------------------------------------------------
// Where models are
// ---------------------------------------------------------------------------

/// The repository that a spec names, with the prefixes spelt out.
pub open spec fn hub_repo(spec: Seq<char>) -> Seq<char> {
    if starts_with(spec, "mlx-community:"@) {
        "mlx-community/"@ + from(spec, 14)
    } else if starts_with(spec, "hf:"@) {
        from(spec, 3)
    } else {
        spec
    }
}

/// The spec names a repository: by a prefix, or as a bare `owner/name`.
pub open spec fn names_repo(spec: Seq<char>) -> bool {
    ||| starts_with(spec, "mlx-community:"@)
    ||| starts_with(spec, "hf:"@)
    ||| (contains(spec, "/"@) && !starts_with(spec, "/"@) && !contains(spec, ":"@))
}

fn hub_repo_of(spec: &str) -> (r: String)
    ensures
        r@ == hub_repo(spec@),
{
    proof {
        reveal_strlit("mlx-community:");
        reveal_strlit("hf:");
    }
    let v = chars_of(spec);
    if has_prefix(spec, "mlx-community:") {
        copy("mlx-community/").concat(substr(&v, 14, v.len()).as_str())
    } else if has_prefix(spec, "hf:") {
        substr(&v, 3, v.len())
    } else {
        copy(spec)
    }
}

/// The repository on the hub that a spec names. `on_disk` tells that the spec is a
/// path to something; then it names none.
pub fn spec_to_hf_repo(spec: &str, on_disk: bool) -> (r: Option<String>)
    ensures
        r is Some <==> !on_disk && names_repo(spec@),
        r matches Some(repo) ==> repo@ == hub_repo(spec@),
{
    if on_disk {
        return None;
    }
    let colon = has(spec, ":");
    if has_prefix(spec, "mlx-community:") || has_prefix(spec, "hf:") || (has(spec, "/")
        && !has_prefix(spec, "/") && !colon) {
        Some(hub_repo_of(spec))
    } else {
        None
    }
}

/// Where a model is downloaded from.
pub enum Hub {
    ModelScope(String),
    HuggingFace(String),
}

/// Where a model that is not here is downloaded from; nothing where the spec names
/// no repository.
pub fn hub_of(spec: &str, on_disk: bool) -> (r: Option<Hub>)
    ensures
        starts_with(spec@, "modelscope:"@) ==> (r matches Some(Hub::ModelScope(repo)) && repo@
            == from(spec@, 11)),
        !starts_with(spec@, "modelscope:"@) ==> match r {
            Some(h) => !on_disk && names_repo(spec@) && (h matches Hub::HuggingFace(repo) && repo@
                == hub_repo(spec@)),
            None => on_disk || !names_repo(spec@),
        },
{
    proof {
        reveal_strlit("modelscope:");
    }
    if has_prefix(spec, "modelscope:") {
        let v = chars_of(spec);
        Some(Hub::ModelScope(substr(&v, 11, v.len())))
    } else {
        match spec_to_hf_repo(spec, on_disk) {
            Some(repo) => Some(Hub::HuggingFace(repo)),
            None => None,
        }
    }
}

/// The two halves of `owner/name`.
pub open spec fn halves(s: Seq<char>) -> Option<(Seq<char>, Seq<char>)> {
    match char_from(s, '/', 0) {
        Some(i) => Some((s.subrange(0, i), from(s, i + 1))),
        None => None,
    }
}

fn halves_of(s: &str) -> (r: Option<(String, String)>)
    ensures
        match r {
            Some((a, b)) => halves(s@) == Some((a@, b@)),
            None => halves(s@) is None,
        },
{
    let v = chars_of(s);
    match char_position(&v, '/', 0) {
        Some(i) => Some((substr(&v, 0, i), substr(&v, i + 1, v.len()))),
        None => None,
    }
}

/// The directory of ModelScope's cache that a spec of that hub stands for.
pub open spec fn modelscope_place(
    spec: Seq<char>,
    cache: Option<&str>,
    home: Option<&str>,
) -> Option<Seq<char>> {
    match halves(from(spec, 11)) {
        Some((owner, name)) => cache_dir_of(cache, home, owner, name),
        None => None,
    }
}

/// The directory of ModelScope's cache that a spec of that hub stands for.
pub fn modelscope_dir(spec: &str, cache: Option<&str>, home: Option<&str>) -> (r: Option<String>)
    requires
        starts_with(spec@, "modelscope:"@),
    ensures
        match r {
            Some(d) => modelscope_place(spec@, cache, home) == Some(d@),
            None => modelscope_place(spec@, cache, home) is None,
        },
{
    proof {
        reveal_strlit("modelscope:");
    }
    let v = chars_of(spec);
    let rest = substr(&v, 11, v.len());
    match halves_of(rest.as_str()) {
        Some((owner, name)) => model_cache_dir(cache, home, owner.as_str(), name.as_str()),
        None => None,
    }
}

/// The directory with the downloaded snapshots of a repository.
pub open spec fn snapshots_place(spec: Seq<char>, home: Option<&str>) -> Option<Seq<char>> {
    match (halves(hub_repo(spec)), home) {
        (Some((org, name)), Some(h)) => Some(
            path_join(
                path_join(
                    path_join(h@, ".cache/huggingface/hub"@),
                    "models--"@ + org + "--"@ + name,
                ),
                "snapshots"@,
            ),
        ),
        _ => None,
    }
}

/// The directory with the downloaded snapshots of a repository.
pub fn snapshots_dir(spec: &str, home: Option<&str>) -> (r: Option<String>)
    ensures
        match r {
            Some(d) => snapshots_place(spec@, home) == Some(d@),
            None => snapshots_place(spec@, home) is None,
        },
{
    let repo = hub_repo_of(spec);
    match halves_of(repo.as_str()) {
        Some((org, name)) => match home {
            Some(h) => {
                let hub = join_path(h, ".cache/huggingface/hub");
                let model = copy("models--").concat(org.as_str()).concat("--").concat(
                    name.as_str(),
                );
                Some(join_path(join_path(hub.as_str(), model.as_str()).as_str(), "snapshots"))
            },
            None => None,
        },
        None => None,
    }
}

/// What is found on disk for a spec.
pub struct Found {
    /// The spec is a directory that holds a `config.json`.
    pub direct: bool,
    /// ModelScope's directory for the spec holds a `config.json`.
    pub modelscope: bool,
    /// The snapshots of the repository, and which of them hold a `config.json`.
    pub snapshots: Vec<(String, bool)>,
}

/// The first snapshot, from `i` on, that holds a configuration.
pub open spec fn complete_snapshot(s: Seq<(String, bool)>, i: int) -> Option<Seq<char>>
    decreases s.len() - i,
{
    if i < 0 || i >= s.len() {
        None
    } else if s[i].1 {
        Some(s[i].0@)
    } else {
        complete_snapshot(s, i + 1)
    }
}

/// Where the model of a spec is: the spec itself, its place in the cache of the
/// hub it names, or nowhere.
pub open spec fn model_place(
    spec: Seq<char>,
    cache: Option<&str>,
    home: Option<&str>,
    found: Found,
) -> Option<Seq<char>> {
    if found.direct {
        Some(spec)
    } else if starts_with(spec, "modelscope:"@) {
        if found.modelscope {
            modelscope_place(spec, cache, home)
        } else {
            None
        }
    } else if snapshots_place(spec, home) is Some {
        complete_snapshot(found.snapshots@, 0)
    } else {
        None
    }
}

/// Where the model of a spec is; nothing where it is not here.
pub fn resolve_model_dir(
    spec: &str,
    cache: Option<&str>,
    home: Option<&str>,
    found: &Found,
) -> (r: Option<String>)
    ensures
        match r {
            Some(d) => model_place(spec@, cache, home, *found) == Some(d@),
            None => model_place(spec@, cache, home, *found) is None,
        },
{
    if found.direct {
        return Some(copy(spec));
    }
    if has_prefix(spec, "modelscope:") {
        if found.modelscope {
            return modelscope_dir(spec, cache, home);
        }
        return None;
    }
    if snapshots_dir(spec, home).is_none() {
        return None;
    }
    complete_snapshot_in(&found.snapshots)
}

fn complete_snapshot_in(snapshots: &Vec<(String, bool)>) -> (r: Option<String>)
    ensures
        match r {
            Some(d) => complete_snapshot(snapshots@, 0) == Some(d@),
            None => complete_snapshot(snapshots@, 0) is None,
        },
{
    let mut i: usize = 0;
    while i < snapshots.len()
        invariant
            i <= snapshots.len(),
            complete_snapshot(snapshots@, 0) == complete_snapshot(snapshots@, i as int),
        decreases snapshots.len() - i,
    {
        if snapshots[i].1 {
            return Some(snapshots[i].0.clone());
        }
        i = i + 1;
    }
    None
}

// ---------------------------------------------------------------------------
// Memory
// ---------------------------------------------------------------------------

/// The first line of a text.
pub open spec fn first_line(s: Seq<char>) -> Seq<char> {
    match char_from(s, '\n', 0) {
        Some(i) => if i > 0 && s[i - 1] == '\r' {
            s.subrange(0, i - 1)
        } else {
            s.subrange(0, i)
        },
        None => s,
    }
}

/// What stands before a part of a text, or all of it.
pub open spec fn before(s: Seq<char>, p: Seq<char>) -> Seq<char> {
    match find(s, p) {
        Some(i) => s.subrange(0, i),
        None => s,
    }
}

/// The size of a page, as the first line says.
pub open spec fn page_size(s: Seq<char>) -> int {
    let line = first_line(s);
    match find(line, "page size of "@) {
        Some(i) => match number_upto(
            before(before(from(line, i + 13), "page size of "@), " "@),
            u64::MAX as int,
        ) {
            Some(n) => n,
            None => 16384,
        },
        None => 16384,
    }
}

/// `s` without the dots at its end.
pub open spec fn without_dots(s: Seq<char>) -> Seq<char>
    decreases s.len(),
{
    if s.len() > 0 && s.last() == '.' {
        without_dots(s.drop_last())
    } else {
        s
    }
}

/// The number behind a label at the start of a line.
pub open spec fn labelled(line: Seq<char>, label: Seq<char>) -> int {
    if starts_with(line, label) {
        match number_upto(
            without_dots(trim(from(line, label.len() as int))),
            u64::MAX as int,
        ) {
            Some(n) => n,
            None => 0,
        }
    } else {
        0
    }
}

/// The pages of a line that can be had at once.
pub open spec fn free_pages(line: Seq<char>) -> int {
    labelled(line, "Pages free:"@) + labelled(line, "Pages inactive:"@) + labelled(
        line,
        "Pages speculative:"@,
    ) + labelled(line, "Pages purgeable:"@)
}

pub open spec fn all_free_pages(lines: Seq<Seq<char>>) -> int
    decreases lines.len(),
{
    if lines.len() == 0 {
        0
    } else {
        all_free_pages(lines.drop_last()) + free_pages(lines.last())
    }
}

/// The memory that a `vm_stat` report shows to be available; nothing where it
/// shows no page, or more than can be counted.
pub open spec fn available_in(s: Seq<char>) -> Option<u64> {
    let pages = all_free_pages(split_on(s, '\n'));
    if 0 < pages <= u64::MAX {
        in_u64(Some(pages * page_size(s)))
    } else {
        None
    }
}

fn before_in(s: &str, p: &str) -> (r: String)
    ensures
        r@ == before(s@, p@),
{
    let v = chars_of(s);
    match position(&v, p, 0) {
        Some(i) => substr(&v, 0, i),
        None => copy(s),
    }
}

fn page_size_in(s: &str) -> (r: u64)
    ensures
        r == page_size(s@),
{
    proof {
        reveal_strlit("page size of ");
    }
    let v = chars_of(s);
    let line = match char_position(&v, '\n', 0) {
        Some(i) => if i > 0 && v[i - 1] == '\r' {
            substr(&v, 0, i - 1)
        } else {
            substr(&v, 0, i)
        },
        None => copy(s),
    };
    let w = chars_of(line.as_str());
    match position(&w, "page size of ", 0) {
        Some(i) => {
            let rest = substr(&w, i + 13, w.len());
            let field = before_in(rest.as_str(), "page size of ");
            let word = before_in(field.as_str(), " ");
            match parse_upto(word.as_str(), u64::MAX) {
                Some(n) => n,
                None => 16384,
            }
        },
        None => 16384,
    }
}

fn labelled_in(line: &str, label: &str) -> (r: u64)
    ensures
        r == labelled(line@, label@),
{
    if has_prefix(line, label) {
        let v = chars_of(line);
        let rest = trim_str(substr(&v, chars_of(label).len(), v.len()).as_str());
        let w = chars_of(rest.as_str());
        let mut n: usize = w.len();
        assert(w@.subrange(0, n as int) =~= w@);
        while n > 0 && w[n - 1] == '.'
            invariant
                n <= w.len(),
                without_dots(w@) == without_dots(w@.subrange(0, n as int)),
            decreases n,
        {
            assert(w@.subrange(0, n as int).drop_last() =~= w@.subrange(0, n - 1));
            n = n - 1;
        }
        match parse_upto(substr(&w, 0, n).as_str(), u64::MAX) {
            Some(n) => n,
            None => 0,
        }
    } else {
        0
    }
}

proof fn pages_grow(lines: Seq<Seq<char>>, i: int)
    requires
        0 <= i <= lines.len(),
    ensures
        0 <= all_free_pages(lines.subrange(0, i)) <= all_free_pages(lines),
    decreases lines.len(),
{
    if lines.len() == 0 {
        assert(lines.subrange(0, i) =~= lines);
    } else {
        labels_count(lines.last());
        if i == lines.len() {
            pages_grow(lines.drop_last(), i - 1);
            assert(lines.subrange(0, i) =~= lines);
        } else {
            pages_grow(lines.drop_last(), i);
            assert(lines.drop_last().subrange(0, i) =~= lines.subrange(0, i));
        }
    }
}

proof fn labels_count(line: Seq<char>)
    ensures
        free_pages(line) >= 0,
        labelled(line, "Pages free:"@) >= 0,
        labelled(line, "Pages inactive:"@) >= 0,
        labelled(line, "Pages speculative:"@) >= 0,
        labelled(line, "Pages purgeable:"@) >= 0,
{
    label_counts(line, "Pages free:"@);
    label_counts(line, "Pages inactive:"@);
    label_counts(line, "Pages speculative:"@);
    label_counts(line, "Pages purgeable:"@);
}

proof fn label_counts(line: Seq<char>, label: Seq<char>)
    ensures
        labelled(line, label) >= 0,
{
    crate::text::number_is_natural(
        without_dots(trim(from(line, label.len() as int))),
        u64::MAX as int,
    );
}

fn free_pages_in(line: &str) -> (r: Option<u64>)
    ensures
        r == in_u64(Some(free_pages(line@))),
{
    proof {
        labels_count(line@);
    }
    let a = labelled_in(line, "Pages free:");
    let b = labelled_in(line, "Pages inactive:");
    let c = labelled_in(line, "Pages speculative:");
    let d = labelled_in(line, "Pages purgeable:");
    let total: u128 = a as u128 + b as u128 + c as u128 + d as u128;
    if total <= u64::MAX as u128 {
        Some(total as u64)
    } else {
        None
    }
}

/// The memory that a `vm_stat` report shows to be available.
pub fn available_ram_bytes(report: &str) -> (r: Option<u64>)
    ensures
        r == available_in(report@),
{
    let lines = split(report, '\n');
    let ghost all = views(lines@);
    let size = page_size_in(report);
    let mut pages: u64 = 0;
    let mut i: usize = 0;
    while i < lines.len()
        invariant
            i <= lines.len(),
            all == views(lines@),
            all == split_on(report@, '\n'),
            size == page_size(report@),
            pages == all_free_pages(all.subrange(0, i as int)),
        decreases lines.len() - i,
    {
        let ghost part = all.subrange(0, i + 1);
        proof {
            assert(part.drop_last() =~= all.subrange(0, i as int));
            assert(part.last() == lines@[i as int]@);
            pages_grow(all, i + 1);
            labels_count(part.last());
        }
        let more = match free_pages_in(lines[i].as_str()) {
            Some(n) => n,
            None => {
                return None;
            },
        };
        if more > u64::MAX - pages {
            return None;
        }
        pages = pages + more;
        i = i + 1;
    }
    assert(all.subrange(0, i as int) =~= all);
    if pages > 0 {
        product(pages, size)
    } else {
        None
    }
}

/// How much memory the runtime may use, and how much of it may stay cached, in
/// bytes; nothing for no limit.
pub struct MemoryCaps {
    pub memory: Option<u64>,
    pub cache: Option<u64>,
}

/// What the environment says, as a number of at most `max`; else a default.
pub open spec fn setting(value: Option<&str>, max: int, default: int) -> int {
    match value {
        Some(s) => match number_upto(trim(s@), max) {
            Some(n) => n,
            None => default,
        },
        None => default,
    }
}

/// What the environment says, as a number; else a default.
pub fn setting_of(value: Option<&str>, max: u64, default: u64) -> (r: u64)
    ensures
        r == setting(value, max as int, default as int),
        r <= max || r == default,
{
    match value {
        Some(s) => match parse_upto(trim_str(s).as_str(), max) {
            Some(n) => n,
            None => default,
        },
        None => default,
    }
}

/// A size of the machine's own integers, from the environment.
fn size_setting(value: Option<&str>, default: usize) -> (r: usize)
    ensures
        r == setting(value, usize::MAX as int, default as int),
{
    setting_of(value, usize::MAX as u64, default as u64) as usize
}

/// A number of gibibytes in bytes; the largest number where it does not fit.
pub open spec fn gib(n: int) -> int {
    if n * 0x4000_0000 <= u64::MAX {
        n * 0x4000_0000
    } else {
        u64::MAX as int
    }
}

/// A limit in gibibytes; none for zero.
pub open spec fn limit_of(n: int) -> Option<u64> {
    if n > 0 {
        Some(gib(n) as u64)
    } else {
        None
    }
}

/// Memory that the runtime may use by default: all but eight gibibytes, and at
/// least eight.
pub open spec fn default_memory(total_ram: Option<u64>) -> int {
    let total = match total_ram {
        Some(t) => t as int / 0x4000_0000,
        None => 16,
    };
    if total - 8 > 8 {
        total - 8
    } else {
        8
    }
}

fn limit_in(n: u64) -> (r: Option<u64>)
    ensures
        r == limit_of(n as int),
{
    if n == 0 {
        None
    } else if n <= u64::MAX / 0x4000_0000 {
        Some(n * 0x4000_0000)
    } else {
        Some(u64::MAX)
    }
}

/// How much memory the runtime may use, given what the machine has and what the
/// environment says of the cache and of the whole.
pub fn cap_mlx_memory(total_ram: Option<u64>, cache_gb: Option<&str>, mem_gb: Option<&str>) -> (r:
    MemoryCaps)
    ensures
        r.memory == limit_of(setting(mem_gb, u64::MAX as int, default_memory(total_ram))),
        r.cache == limit_of(setting(cache_gb, u64::MAX as int, 4)),
{
    let total: u64 = match total_ram {
        Some(t) => t / 0x4000_0000,
        None => 16,
    };
    let default: u64 = if total > 16 {
        total - 8
    } else {
        8
    };
    let mem = setting_of(mem_gb, u64::MAX, default);
    let cache = setting_of(cache_gb, u64::MAX, 4);
    MemoryCaps { memory: limit_in(mem), cache: limit_in(cache) }
}

// ---------------------------------------------------------------------------
// Environment
// ---------------------------------------------------------------------------

/// How many requests are decoded together at most.
pub fn batch_cap(value: Option<&str>) -> (r: usize)
    ensures
        r == (if setting(value, usize::MAX as int, 1) > 1 {
            setting(value, usize::MAX as int, 1)
        } else {
            1
        }),
{
    let n = size_setting(value, 1);
    if n > 1 {
        n
    } else {
        1
    }
}

/// How long to wait for requests that come at nearly the same time.
pub fn batch_window_ms(value: Option<&str>) -> (r: u64)
    ensures
        r == setting(value, u64::MAX as int, 10),
{
    setting_of(value, u64::MAX, 10)
}

/// How many tokens a draft proposes at a time.
pub fn spec_lookahead_k(value: Option<&str>) -> (r: usize)
    ensures
        r == (if setting(value, usize::MAX as int, 4) >= 1 {
            setting(value, usize::MAX as int, 4)
        } else {
            4
        }),
{
    let n = size_setting(value, 4);
    if n >= 1 {
        n
    } else {
        4
    }
}

/// The most tokens that a request gets; no limit for zero.
pub fn output_ceiling(value: Option<&str>) -> (r: usize)
    ensures
        r == setting(value, usize::MAX as int, DEFAULT_OUTPUT_CEILING as int),
{
    size_setting(value, DEFAULT_OUTPUT_CEILING)
}

/// How many conversations keep their cache.
pub fn prefix_slots(value: Option<&str>) -> (r: usize)
    ensures
        r == (if setting(value, usize::MAX as int, DEFAULT_PREFIX_SLOTS as int) > 1 {
            setting(value, usize::MAX as int, DEFAULT_PREFIX_SLOTS as int)
        } else {
            1
        }),
{
    let n = size_setting(value, DEFAULT_PREFIX_SLOTS);
    if n > 1 {
        n
    } else {
        1
    }
}

/// Constrained decoding is on unless it is turned off.
pub open spec fn constraining(value: Option<&str>) -> bool {
    match value {
        Some(s) => s@ != "0"@ && s@ != "false"@ && s@ != "off"@,
        None => true,
    }
}

/// Constrained decoding is on unless it is turned off.
pub fn constrain_enabled(value: Option<&str>) -> (r: bool)
    ensures
        r == constraining(value),
{
    match value {
        Some(s) => !(same(s, "0") || same(s, "false") || same(s, "off")),
        None => true,
    }
}

/// Something that is on unless it is set to `0`: the reuse of caches, the guard
/// against repetition.
pub fn on_unless_zero(value: Option<&str>) -> (r: bool)
    ensures
        r == (match value {
            Some(s) => s@ != "0"@,
            None => true,
        }),
{
    match value {
        Some(s) => !same(s, "0"),
        None => true,
    }
}

// ---------------------------------------------------------------------------
// Laws
// ---------------------------------------------------------------------------

/// The names of types differ from one another.
proof fn type_names_differ()
    ensures
        "qwen3"@ != "qwen3_moe"@,
        "qwen3"@ != "gpt_oss"@,
        "qwen3"@ != "qwen3_5"@,
        "qwen3"@ != "qwen3_5_text"@,
        "qwen3"@ != "qwen3_5_moe"@,
        "qwen3"@ != "qwen3_5_moe_text"@,
        "qwen3_moe"@ != "gpt_oss"@,
        "qwen3_moe"@ != "qwen3_5"@,
        "qwen3_moe"@ != "qwen3_5_text"@,
        "qwen3_moe"@ != "qwen3_5_moe"@,
        "qwen3_moe"@ != "qwen3_5_moe_text"@,
        "gpt_oss"@ != "qwen3_5"@,
        "gpt_oss"@ != "qwen3_5_text"@,
        "gpt_oss"@ != "qwen3_5_moe"@,
        "gpt_oss"@ != "qwen3_5_moe_text"@,
        forall|t: Seq<char>|
            #![trigger dense_type(t)]
            dense_type(t) ==> t != "gpt_oss"@ && t != "qwen3_5"@ && t != "qwen3_5_text"@ && t
                != "qwen3_5_moe"@ && t != "qwen3_5_moe_text"@,
{
    reveal_strlit("qwen3");
    reveal_strlit("qwen3_moe");
    reveal_strlit("gpt_oss");
    reveal_strlit("qwen3_5");
    reveal_strlit("qwen3_5_text");
    reveal_strlit("qwen3_5_moe");
    reveal_strlit("qwen3_5_moe_text");
    reveal_strlit("llama");
    reveal_strlit("mistral");
    reveal_strlit("phi3");
    reveal_strlit("gemma3_text");
    reveal_strlit("gemma3");
    reveal_strlit("qwen2");
    assert("qwen3"@.len() == 5 && "qwen3_moe"@.len() == 9 && "gpt_oss"@.len() == 7);
    assert("qwen3_5"@.len() == 7 && "qwen3_5_text"@.len() == 12 && "qwen3_5_moe"@.len() == 11);
    assert("qwen3_5_moe_text"@.len() == 16 && "llama"@.len() == 5 && "mistral"@.len() == 7);
    assert("phi3"@.len() == 4 && "gemma3_text"@.len() == 11 && "gemma3"@.len() == 6);
    assert("qwen2"@.len() == 5);
    assert("gpt_oss"@[0] == 'g');
    assert("qwen3_5"@[0] == 'q' && "qwen3_5_text"@[0] == 'q');
    assert("qwen3_5_moe"@[0] == 'q' && "qwen3_5_moe_text"@[0] == 'q');
    assert("qwen3_5_text"@[6] == '5' && "qwen3_5_moe"@[6] == '5' && "qwen3_5_moe_text"@[6] == '5');
    assert("mistral"@[0] == 'm');
    assert("gemma3_text"@[0] == 'g');
    assert("llama"@[0] == 'l');
}

/// The types that are hybrid are exactly those that load as a hybrid architecture.
pub proof fn hybrid_types_load_as_hybrid(t: Seq<char>)
    ensures
        hybrid_type(t) <==> (loader_of(t) matches Some(l) && l.loads().hybrid()),
{
    type_names_differ();
}

/// The types that may take part in speculative decoding are exactly those whose
/// architecture can.
pub proof fn dense_types_speculate(t: Seq<char>)
    ensures
        dense_type(t) <==> (loader_of(t) matches Some(l) && l.loads().speculates()),
{
    type_names_differ();
}

/// No model is both hybrid and dense; only the harmony models are neither and
/// still reuse a cache by cutting it back.
pub proof fn architectures_are_told_apart(a: Arch)
    ensures
        !(a.hybrid() && a.dense()),
        !(a.hybrid() && a.reuses_dense()),
        a.reuses_dense() && !a.dense() <==> a is GptOss,
{
}

/// A turn always has a token that ends it; the harmony format has both of its own
/// besides.
pub proof fn a_turn_can_end(cfg: Option<JsonTree>)
    ensures
        eos_tokens(cfg).len() > 0,
        type_named(cfg) == "gpt_oss"@ ==> eos_tokens(cfg).contains(199999) && eos_tokens(
            cfg,
        ).contains(200012),
{
    if type_named(cfg) == "gpt_oss"@ {
        let listed = match cfg {
            Some(c) => named_eos(c),
            None => Seq::empty(),
        };
        let base = if listed.len() == 0 {
            seq![QWEN3_EOS]
        } else {
            listed
        };
        let one = with_token(base, 199999);
        let two = with_token(one, 200012);
        assert(one.contains(199999)) by {
            if !base.contains(199999) {
                assert(one[base.len() as int] == 199999);
            }
        }
        assert(two.contains(200012)) by {
            if !one.contains(200012) {
                assert(two[one.len() as int] == 200012);
            }
        }
        assert(two.contains(199999)) by {
            let i = choose|i: int| 0 <= i < one.len() && one[i] == 199999;
            assert(two[i] == 199999);
        }
    }
}

/// The numbers of a list of tokens are read in order, and nothing else is.
pub proof fn token_lists_are_read_in_order(a: Seq<JsonTree>, b: Seq<JsonTree>, x: JsonTree)
    ensures
        listed_ids(a + b) == listed_ids(a) + listed_ids(b),
        integer_in(Some(x)) is None ==> listed_ids(seq![x]).len() == 0,
        integer_in(Some(x)) is Some && integer_in(Some(x))->0 <= u32::MAX ==> listed_ids(seq![x]) == seq![integer_in(Some(x))->0 as u32],
    decreases b.len(),
{
    let none = Seq::<JsonTree>::empty();
    assert(seq![x].drop_last() =~= none);
    assert(seq![x].last() == x);
    assert(listed_ids(none) =~= Seq::empty());
    if integer_in(Some(x)) is None {
        assert(listed_ids(seq![x]) =~= Seq::empty());
    }
    if integer_in(Some(x)) is Some && integer_in(Some(x))->0 <= u32::MAX {
        assert(listed_ids(seq![x]) =~= seq![integer_in(Some(x))->0 as u32]);
    }
    if b.len() == 0 {
        assert(a + b =~= a);
        assert(listed_ids(a) + listed_ids(b) =~= listed_ids(a));
    } else {
        token_lists_are_read_in_order(a, b.drop_last(), x);
        assert((a + b).drop_last() =~= a + b.drop_last());
        assert((a + b).last() == b.last());
        assert(listed_ids(a + b) =~= listed_ids(a) + listed_ids(b));
    }
}


/// The free pages of a report are those of its lines together.
pub proof fn free_pages_add_up(a: Seq<Seq<char>>, b: Seq<Seq<char>>, x: Seq<char>)
    ensures
        all_free_pages(a + b) == all_free_pages(a) + all_free_pages(b),
        all_free_pages(seq![x]) == free_pages(x),
    decreases b.len(),
{
    let none = Seq::<Seq<char>>::empty();
    assert(seq![x].drop_last() =~= none);
    assert(seq![x].last() == x);
    assert(all_free_pages(none) == 0);
    if b.len() == 0 {
        assert(a + b =~= a);
    } else {
        free_pages_add_up(a, b.drop_last(), x);
        assert((a + b).drop_last() =~= a + b.drop_last());
        assert((a + b).last() == b.last());
    }
}


/// A type is loaded by the loader of its architecture, and no other type is.
pub proof fn types_are_loaded_by_their_loaders()
    ensures
        loader_of("qwen3"@) == Some(Loader::Qwen3),
        loader_of("qwen3_moe"@) == Some(Loader::Qwen3Moe),
        loader_of("gpt_oss"@) == Some(Loader::GptOss),
        loader_of("qwen3_5"@) == Some(Loader::Qwen35),
        loader_of("qwen3_5_text"@) == Some(Loader::Qwen35),
        loader_of("qwen3_5_moe"@) == Some(Loader::Qwen35Moe),
        loader_of("qwen3_5_moe_text"@) == Some(Loader::Qwen35Moe),
        loader_of("llama"@) == Some(Loader::Llama),
        loader_of("mistral"@) == Some(Loader::Llama),
        loader_of("phi3"@) == Some(Loader::Phi3),
        loader_of("gemma3"@) == Some(Loader::Gemma3),
        loader_of("gemma3_text"@) == Some(Loader::Gemma3),
        loader_of("qwen2"@) == Some(Loader::Qwen2),
        Loader::Phi3.loads() == Arch::Llama && Loader::Llama.loads() == Arch::Llama,
        Loader::GptOss.loads() == Arch::GptOss && Loader::Gemma3.loads() == Arch::Gemma3,
        Loader::Qwen35.loads() == Arch::Qwen35 && Loader::Qwen35Moe.loads() == Arch::Qwen35Moe,
        Loader::Qwen3.loads() == Arch::Qwen3 && Loader::Qwen3Moe.loads() == Arch::Qwen3Moe,
        Loader::Qwen2.loads() == Arch::Qwen2,
{
    loader_names_differ();
}

/// No two names of types are the same.
proof fn loader_names_differ()
    ensures
        "qwen3"@ != "qwen3_moe"@,
        "qwen3"@ != "gpt_oss"@,
        "qwen3"@ != "qwen3_5"@,
        "qwen3"@ != "qwen3_5_text"@,
        "qwen3"@ != "qwen3_5_moe"@,
        "qwen3"@ != "qwen3_5_moe_text"@,
        "qwen3"@ != "llama"@,
        "qwen3"@ != "mistral"@,
        "qwen3"@ != "phi3"@,
        "qwen3"@ != "gemma3_text"@,
        "qwen3"@ != "gemma3"@,
        "qwen3"@ != "qwen2"@,
        "qwen3_moe"@ != "gpt_oss"@,
        "qwen3_moe"@ != "qwen3_5"@,
        "qwen3_moe"@ != "qwen3_5_text"@,
        "qwen3_moe"@ != "qwen3_5_moe"@,
        "qwen3_moe"@ != "qwen3_5_moe_text"@,
        "qwen3_moe"@ != "llama"@,
        "qwen3_moe"@ != "mistral"@,
        "qwen3_moe"@ != "phi3"@,
        "qwen3_moe"@ != "gemma3_text"@,
        "qwen3_moe"@ != "gemma3"@,
        "qwen3_moe"@ != "qwen2"@,
        "gpt_oss"@ != "qwen3_5"@,
        "gpt_oss"@ != "qwen3_5_text"@,
        "gpt_oss"@ != "qwen3_5_moe"@,
        "gpt_oss"@ != "qwen3_5_moe_text"@,
        "gpt_oss"@ != "llama"@,
        "gpt_oss"@ != "mistral"@,
        "gpt_oss"@ != "phi3"@,
        "gpt_oss"@ != "gemma3_text"@,
        "gpt_oss"@ != "gemma3"@,
        "gpt_oss"@ != "qwen2"@,
        "qwen3_5"@ != "qwen3_5_text"@,
        "qwen3_5"@ != "qwen3_5_moe"@,
        "qwen3_5"@ != "qwen3_5_moe_text"@,
        "qwen3_5"@ != "llama"@,
        "qwen3_5"@ != "mistral"@,
        "qwen3_5"@ != "phi3"@,
        "qwen3_5"@ != "gemma3_text"@,
        "qwen3_5"@ != "gemma3"@,
        "qwen3_5"@ != "qwen2"@,
        "qwen3_5_text"@ != "qwen3_5_moe"@,
        "qwen3_5_text"@ != "qwen3_5_moe_text"@,
        "qwen3_5_text"@ != "llama"@,
        "qwen3_5_text"@ != "mistral"@,
        "qwen3_5_text"@ != "phi3"@,
        "qwen3_5_text"@ != "gemma3_text"@,
        "qwen3_5_text"@ != "gemma3"@,
        "qwen3_5_text"@ != "qwen2"@,
        "qwen3_5_moe"@ != "qwen3_5_moe_text"@,
        "qwen3_5_moe"@ != "llama"@,
        "qwen3_5_moe"@ != "mistral"@,
        "qwen3_5_moe"@ != "phi3"@,
        "qwen3_5_moe"@ != "gemma3_text"@,
        "qwen3_5_moe"@ != "gemma3"@,
        "qwen3_5_moe"@ != "qwen2"@,
        "qwen3_5_moe_text"@ != "llama"@,
        "qwen3_5_moe_text"@ != "mistral"@,
        "qwen3_5_moe_text"@ != "phi3"@,
        "qwen3_5_moe_text"@ != "gemma3_text"@,
        "qwen3_5_moe_text"@ != "gemma3"@,
        "qwen3_5_moe_text"@ != "qwen2"@,
        "llama"@ != "mistral"@,
        "llama"@ != "phi3"@,
        "llama"@ != "gemma3_text"@,
        "llama"@ != "gemma3"@,
        "llama"@ != "qwen2"@,
        "mistral"@ != "phi3"@,
        "mistral"@ != "gemma3_text"@,
        "mistral"@ != "gemma3"@,
        "mistral"@ != "qwen2"@,
        "phi3"@ != "gemma3_text"@,
        "phi3"@ != "gemma3"@,
        "phi3"@ != "qwen2"@,
        "gemma3_text"@ != "gemma3"@,
        "gemma3_text"@ != "qwen2"@,
        "gemma3"@ != "qwen2"@,
{
    reveal_strlit("qwen3");
    reveal_strlit("qwen3_moe");
    reveal_strlit("gpt_oss");
    reveal_strlit("qwen3_5");
    reveal_strlit("qwen3_5_text");
    reveal_strlit("qwen3_5_moe");
    reveal_strlit("qwen3_5_moe_text");
    reveal_strlit("llama");
    reveal_strlit("mistral");
    reveal_strlit("phi3");
    reveal_strlit("gemma3_text");
    reveal_strlit("gemma3");
    reveal_strlit("qwen2");
    assert("qwen3"@.len() != "qwen3_moe"@.len());
    assert("qwen3"@.len() != "gpt_oss"@.len());
    assert("qwen3"@.len() != "qwen3_5"@.len());
    assert("qwen3"@.len() != "qwen3_5_text"@.len());
    assert("qwen3"@.len() != "qwen3_5_moe"@.len());
    assert("qwen3"@.len() != "qwen3_5_moe_text"@.len());
    assert("qwen3"@[0] != "llama"@[0]);
    assert("qwen3"@.len() != "mistral"@.len());
    assert("qwen3"@.len() != "phi3"@.len());
    assert("qwen3"@.len() != "gemma3_text"@.len());
    assert("qwen3"@.len() != "gemma3"@.len());
    assert("qwen3"@[4] != "qwen2"@[4]);
    assert("qwen3_moe"@.len() != "gpt_oss"@.len());
    assert("qwen3_moe"@.len() != "qwen3_5"@.len());
    assert("qwen3_moe"@.len() != "qwen3_5_text"@.len());
    assert("qwen3_moe"@.len() != "qwen3_5_moe"@.len());
    assert("qwen3_moe"@.len() != "qwen3_5_moe_text"@.len());
    assert("qwen3_moe"@.len() != "llama"@.len());
    assert("qwen3_moe"@.len() != "mistral"@.len());
    assert("qwen3_moe"@.len() != "phi3"@.len());
    assert("qwen3_moe"@.len() != "gemma3_text"@.len());
    assert("qwen3_moe"@.len() != "gemma3"@.len());
    assert("qwen3_moe"@.len() != "qwen2"@.len());
    assert("gpt_oss"@[0] != "qwen3_5"@[0]);
    assert("gpt_oss"@.len() != "qwen3_5_text"@.len());
    assert("gpt_oss"@.len() != "qwen3_5_moe"@.len());
    assert("gpt_oss"@.len() != "qwen3_5_moe_text"@.len());
    assert("gpt_oss"@.len() != "llama"@.len());
    assert("gpt_oss"@[0] != "mistral"@[0]);
    assert("gpt_oss"@.len() != "phi3"@.len());
    assert("gpt_oss"@.len() != "gemma3_text"@.len());
    assert("gpt_oss"@.len() != "gemma3"@.len());
    assert("gpt_oss"@.len() != "qwen2"@.len());
    assert("qwen3_5"@.len() != "qwen3_5_text"@.len());
    assert("qwen3_5"@.len() != "qwen3_5_moe"@.len());
    assert("qwen3_5"@.len() != "qwen3_5_moe_text"@.len());
    assert("qwen3_5"@.len() != "llama"@.len());
    assert("qwen3_5"@[0] != "mistral"@[0]);
    assert("qwen3_5"@.len() != "phi3"@.len());
    assert("qwen3_5"@.len() != "gemma3_text"@.len());
    assert("qwen3_5"@.len() != "gemma3"@.len());
    assert("qwen3_5"@.len() != "qwen2"@.len());
    assert("qwen3_5_text"@.len() != "qwen3_5_moe"@.len());
    assert("qwen3_5_text"@.len() != "qwen3_5_moe_text"@.len());
    assert("qwen3_5_text"@.len() != "llama"@.len());
    assert("qwen3_5_text"@.len() != "mistral"@.len());
    assert("qwen3_5_text"@.len() != "phi3"@.len());
    assert("qwen3_5_text"@.len() != "gemma3_text"@.len());
    assert("qwen3_5_text"@.len() != "gemma3"@.len());
    assert("qwen3_5_text"@.len() != "qwen2"@.len());
    assert("qwen3_5_moe"@.len() != "qwen3_5_moe_text"@.len());
    assert("qwen3_5_moe"@.len() != "llama"@.len());
    assert("qwen3_5_moe"@.len() != "mistral"@.len());
    assert("qwen3_5_moe"@.len() != "phi3"@.len());
    assert("qwen3_5_moe"@[0] != "gemma3_text"@[0]);
    assert("qwen3_5_moe"@.len() != "gemma3"@.len());
    assert("qwen3_5_moe"@.len() != "qwen2"@.len());
    assert("qwen3_5_moe_text"@.len() != "llama"@.len());
    assert("qwen3_5_moe_text"@.len() != "mistral"@.len());
    assert("qwen3_5_moe_text"@.len() != "phi3"@.len());
    assert("qwen3_5_moe_text"@.len() != "gemma3_text"@.len());
    assert("qwen3_5_moe_text"@.len() != "gemma3"@.len());
    assert("qwen3_5_moe_text"@.len() != "qwen2"@.len());
    assert("llama"@.len() != "mistral"@.len());
    assert("llama"@.len() != "phi3"@.len());
    assert("llama"@.len() != "gemma3_text"@.len());
    assert("llama"@.len() != "gemma3"@.len());
    assert("llama"@[0] != "qwen2"@[0]);
    assert("mistral"@.len() != "phi3"@.len());
    assert("mistral"@.len() != "gemma3_text"@.len());
    assert("mistral"@.len() != "gemma3"@.len());
    assert("mistral"@.len() != "qwen2"@.len());
    assert("phi3"@.len() != "gemma3_text"@.len());
    assert("phi3"@.len() != "gemma3"@.len());
    assert("phi3"@.len() != "qwen2"@.len());
    assert("gemma3_text"@.len() != "gemma3"@.len());
    assert("gemma3_text"@.len() != "qwen2"@.len());
    assert("gemma3"@.len() != "qwen2"@.len());
}

/// A model that is not a harmony model can be batched; hybrid models are those of two
/// architectures, and the dense ones of four.
pub proof fn architectures_are_what_they_are(a: Arch)
    ensures
        a.batchable() <==> a != Arch::GptOss,
        a.hybrid() <==> a == Arch::Qwen35 || a == Arch::Qwen35Moe,
        a.dense() <==> a == Arch::Qwen3 || a == Arch::Qwen3Moe || a == Arch::Llama || a
            == Arch::Qwen2,
        a.speculates() <==> a.dense() || a == Arch::Gemma3,
{
}

/// The cache grows, at each position, by the keys and the values of every layer that
/// keeps them: of all layers, or of every so manieth of a hybrid model.
pub proof fn the_cache_grows_by_keys_and_values(
    cfg: JsonTree,
    layers: u64,
    heads: u64,
    size: u64,
)
    requires
        member(cfg, "text_config"@) is None,
        integer_in(member(cfg, "num_hidden_layers"@)) == Some(layers),
        integer_in(member(cfg, "num_key_value_heads"@)) == Some(heads),
        integer_in(member(cfg, "head_dim"@)) == Some(size),
    ensures
        integer_in(member(cfg, "full_attention_interval"@)) is None ==> kv_bytes(cfg) == Some(
            2 * layers * heads * size * 2,
        ),
        integer_in(member(cfg, "full_attention_interval"@)) matches Some(n) ==> {
            &&& n > 1 ==> kv_bytes(cfg) == Some(2 * (layers as int / n as int) * heads * size * 2)
            &&& n <= 1 ==> kv_bytes(cfg) == Some(2 * layers * heads * size * 2)
        },
{
}

/// The text model's own part of a configuration counts, where there is one; without
/// the size of a head it is the share of a head in the hidden size; what is missing
/// leaves the growth unknown.
pub proof fn the_growth_is_known_where_it_is_stated(cfg: JsonTree, part: JsonTree)
    ensures
        member(cfg, "text_config"@) == Some(part) && member(part, "text_config"@) is None
            ==> kv_bytes(cfg) == kv_bytes(part),
        member(cfg, "text_config"@) is None && integer_in(
            member(cfg, "num_hidden_layers"@),
        ) is None ==> kv_bytes(cfg) is None,
        member(cfg, "text_config"@) is None && integer_in(
            member(cfg, "num_key_value_heads"@),
        ) is None ==> kv_bytes(cfg) is None,
        integer_in(member(part, "head_dim"@)) is None ==> {
            &&& integer_in(member(part, "hidden_size"@)) is None ==> head_size(part) is None
            &&& integer_in(member(part, "hidden_size"@)) matches Some(h) ==> (integer_in(
                member(part, "num_attention_heads"@),
            ) matches Some(n) ==> (n > 0 ==> head_size(part) == Some(h as int / n as int)))
        },
{
}

/// The tokens that a configuration names end a turn, one or several; where it names
/// none a default does. The harmony format's own come on top.
pub proof fn the_named_tokens_end_a_turn(cfg: JsonTree, n: u64, items: Seq<JsonTree>)
    requires
        type_named(Some(cfg)) != "gpt_oss"@,
        n <= u32::MAX,
    ensures
        member(cfg, "eos_token_id"@) is None ==> eos_tokens(Some(cfg)) == seq![151_645u32],
        integer_in(member(cfg, "eos_token_id"@)) == Some(n) ==> eos_tokens(Some(cfg)) == seq![
            n as u32,
        ],
        member(cfg, "eos_token_id"@) == Some(JsonTree::Array(items)) && listed_ids(items).len() > 0
            ==> eos_tokens(Some(cfg)) == listed_ids(items),
{
}

/// A token is added to those that end a turn once.
pub proof fn a_token_is_added_once(eos: Seq<u32>, id: u32)
    ensures
        with_token(eos, id).contains(id),
        eos.contains(id) ==> with_token(eos, id) == eos,
        !eos.contains(id) ==> with_token(eos, id) == eos.push(id),
        with_token(with_token(eos, id), id) == with_token(eos, id),
{
    if !eos.contains(id) {
        assert(eos.push(id)[eos.len() as int] == id);
    }
}

/// A model is of the type that its configuration states, at the top or in the text
/// model's part; its window is what is stated or a default.
pub proof fn a_model_is_what_it_states(cfg: JsonTree, t: Seq<char>, n: u64)
    ensures
        string_in(member(cfg, "model_type"@)) == Some(t) ==> type_named(Some(cfg)) == t
            && effective_type(cfg) == Some(t),
        string_in(member(cfg, "model_type"@)) is None ==> type_named(Some(cfg)) == "qwen3"@
            && effective_type(cfg) == string_in(
            field_of(member(cfg, "text_config"@), "model_type"@),
        ),
        integer_in(member(cfg, "max_position_embeddings"@)) == Some(n) && n <= u32::MAX
            ==> context_named(Some(cfg)) == n,
        integer_in(member(cfg, "max_position_embeddings"@)) is None ==> context_named(Some(cfg))
            == 32_768,
        type_named(None) == "qwen3"@ && context_named(None) == 32_768,
{
}

/// A spec names a repository of the hub by its prefix; one without is itself.
pub proof fn a_spec_names_a_repository(repo: Seq<char>, other: Seq<char>)
    ensures
        hub_repo("mlx-community:"@ + repo) == "mlx-community/"@ + repo,
        names_repo("mlx-community:"@ + repo),
        hub_repo("hf:"@ + repo) == repo,
        names_repo("hf:"@ + repo),
        !starts_with(other, "mlx-community:"@) && !starts_with(other, "hf:"@) ==> hub_repo(other)
            == other && (names_repo(other) <==> contains(other, "/"@) && !starts_with(
            other,
            "/"@,
        ) && !contains(other, ":"@)),
{
    reveal_strlit("mlx-community:");
    reveal_strlit("hf:");
    let a = "mlx-community:"@ + repo;
    let b = "hf:"@ + repo;
    assert(a.subrange(0, 14) =~= "mlx-community:"@);
    assert(from(a, 14) =~= repo);
    assert(b.subrange(0, 3) =~= "hf:"@);
    assert(from(b, 3) =~= repo);
    if starts_with(b, "mlx-community:"@) {
        assert(b.subrange(0, 14)[0] == 'm');
        assert(b[0] == 'h');
    }
}

/// An owner and a name are parted at the first slash.
pub proof fn halves_are_parted_at_the_slash(owner: Seq<char>, name: Seq<char>)
    requires
        !owner.contains('/'),
    ensures
        halves(owner + seq!['/'] + name) == Some((owner, name)),
        halves(owner) is None,
{
    let s = owner + seq!['/'] + name;
    let n = owner.len() as int;
    crate::text::char_from_is_least(s, '/', 0);
    crate::text::char_from_is_least(owner, '/', 0);
    assert(s[n] == '/');
    assert forall|i: int| 0 <= i < n implies s[i] != '/' by {
        assert(s[i] == owner[i]);
        if owner[i] == '/' {
            assert(owner.contains('/'));
        }
    }
    assert(s.subrange(0, n) =~= owner);
    assert(from(s, n + 1) =~= name);
}

/// The first snapshot that is complete is taken.
pub proof fn the_first_complete_snapshot_is_taken(s: Seq<(String, bool)>, i: int, k: int)
    requires
        0 <= i <= k < s.len(),
        s[k].1,
        forall|j: int| i <= j < k ==> !(#[trigger] s[j]).1,
    ensures
        complete_snapshot(s, i) == Some(s[k].0@),
    decreases k - i,
{
    if i < k {
        the_first_complete_snapshot_is_taken(s, i + 1, k);
    }
}

/// A model that is where its spec says is there; else it is where its hub keeps it,
/// if it was found there, and else nowhere.
pub proof fn a_model_is_where_it_was_found(
    spec: Seq<char>,
    cache: Option<&str>,
    home: Option<&str>,
    found: Found,
)
    ensures
        found.direct ==> model_place(spec, cache, home, found) == Some(spec),
        !found.direct && starts_with(spec, "modelscope:"@) && !found.modelscope ==> model_place(
            spec,
            cache,
            home,
            found,
        ) is None,
        !found.direct && starts_with(spec, "modelscope:"@) && found.modelscope ==> model_place(
            spec,
            cache,
            home,
            found,
        ) == modelscope_place(spec, cache, home),
        !found.direct && !starts_with(spec, "modelscope:"@) && home is None ==> model_place(
            spec,
            cache,
            home,
            found,
        ) is None,
{
}

/// A setting is the number that the environment names, within its bound and without
/// white space around it; else it is the default.
pub proof fn settings_are_numbers(n: nat, text: &str, max: int, default: int)
    requires
        trim(text@) == crate::text::dec_text(n),
    ensures
        n <= max ==> setting(Some(text), max, default) == n,
        n > max ==> setting(Some(text), max, default) == default,
        setting(None, max, default) == default,
{
    crate::text::numbers_read_back(n, max, Seq::empty());
}

/// A limit in gibibytes is that many, none for zero; by default all of the memory but
/// eight is used, and at least eight.
pub proof fn limits_are_in_gibibytes(n: int, total: u64)
    requires
        0 <= n,
    ensures
        n * 1_073_741_824 <= u64::MAX ==> gib(n) == n * 1_073_741_824,
        n * 1_073_741_824 > u64::MAX ==> gib(n) == u64::MAX,
        limit_of(0) is None,
        0 < n && n * 1_073_741_824 <= u64::MAX ==> limit_of(n) == Some(
            (n * 1_073_741_824) as u64,
        ),
        default_memory(Some(total)) >= 8,
        total / 1_073_741_824 >= 16 ==> default_memory(Some(total)) == total / 1_073_741_824 - 8,
        default_memory(None) == 8,
{
}

/// Constrained decoding is off for three words, and on for anything else.
pub proof fn constraints_are_on_unless_turned_off(s: &str)
    ensures
        constraining(None),
        constraining(Some(s)) <==> s@ != "0"@ && s@ != "false"@ && s@ != "off"@,
{
}

/// A line of a memory report counts the pages behind its label, without the dot at
/// the end; a line with another label counts none.
pub proof fn a_line_counts_its_pages(label: Seq<char>, n: nat, other: Seq<char>)
    requires
        n <= u64::MAX,
    ensures
        labelled(label + " "@ + crate::text::dec_text(n) + "."@, label) == n,
        !starts_with(other, label) ==> labelled(other, label) == 0,
{
    reveal_strlit(" ");
    reveal_strlit(".");
    let d = crate::text::dec_text(n);
    let s = label + " "@ + d + "."@;
    crate::text::numbers_read_back(n, u64::MAX as int, Seq::empty());
    crate::text::decimals_read_back(n);
    assert(s.subrange(0, label.len() as int) =~= label);
    let body = d + "."@;
    assert(from(s, label.len() as int) =~= " "@ + body + Seq::<char>::empty());
    assert(crate::text::is_ascii_digit(d[0]));
    assert(body[0] == d[0]);
    assert(body.last() == '.');
    crate::text::trimming_takes_white_space_only(" "@, body, Seq::empty());
    assert(body.drop_last() =~= d);
    assert(crate::text::is_ascii_digit(d[d.len() - 1]));
    assert(without_dots(d) == d);
}

/// The first line of a memory report says how large a page is; one that does not say
/// so means the usual size.
pub proof fn the_first_line_says_the_page_size(gap: Seq<char>, n: nat, rest: Seq<char>)
    requires
        n <= u64::MAX,
        forall|i: int| 0 <= i < gap.len() ==> (#[trigger] gap[i]) != '\n' && gap[i] != 'p',
    ensures
        page_size(gap + "page size of "@ + crate::text::dec_text(n) + " bytes)\n"@ + rest) == n,
        page_size(gap + "\n"@ + rest) == 16384,
{
    reveal_strlit("page size of ");
    reveal_strlit(" bytes)\n");
    reveal_strlit("\n");
    reveal_strlit(" ");
    let p = "page size of "@;
    let d = crate::text::dec_text(n);
    crate::text::numbers_read_back(n, u64::MAX as int, Seq::empty());
    crate::text::decimals_read_back(n);
    assert forall|i: int| 0 <= i < d.len() implies '0' <= #[trigger] d[i] <= '9' by {
        assert(crate::text::is_ascii_digit(d[i]));
    }
    let s = gap + p + d + " bytes)\n"@ + rest;
    let g = gap.len() as int;
    let e = g + 13 + d.len() as int;
    line_ends_at(s, e + 7);
    let line = gap + p + d + " bytes)"@;
    reveal_strlit(" bytes)");
    assert(s.subrange(0, e + 7) =~= line);
    assert(s[e + 6] == ')');
    assert(line.subrange(g, g + 13) =~= p);
    letter_mark_is_at(line, p, 0, g);
    let after = d + " bytes)"@;
    assert(from(line, g + 13) =~= after);
    crate::text::find_from_is_least(after, p, 0);
    if let Some(i) = find(after, p) {
        assert(after.subrange(i, i + 13)[0] == 'p');
        assert(after[i] == 'p');
    }
    assert(after.subrange(d.len() as int, (d.len() + 1) as int) =~= " "@);
    letter_mark_is_at(after, " "@, 0, d.len() as int);
    assert(after.subrange(0, d.len() as int) =~= d);
    let t = gap + "\n"@ + rest;
    line_ends_at(t, g);
    let first = first_line(t);
    crate::text::find_from_is_least(first, p, 0);
    if let Some(i) = find(first, p) {
        assert(first.subrange(i, i + 13)[0] == 'p');
        assert(first[i] == t[i]);
        assert(t[i] == gap[i]);
    }
}

proof fn line_ends_at(s: Seq<char>, n: int)
    requires
        0 <= n < s.len(),
        s[n] == '\n',
        forall|i: int| 0 <= i < n ==> (#[trigger] s[i]) != '\n',
    ensures
        char_from(s, '\n', 0) == Some(n),
        n == 0 || s[n - 1] != '\r' ==> first_line(s) == s.subrange(0, n),
        first_line(s).len() <= n,
        forall|i: int| 0 <= i < first_line(s).len() ==> #[trigger] first_line(s)[i] == s[i],
{
    crate::text::char_from_is_least(s, '\n', 0);
}

proof fn letter_mark_is_at(s: Seq<char>, p: Seq<char>, at: int, n: int)
    requires
        0 <= at <= n,
        p.len() > 0,
        n + p.len() <= s.len(),
        s.subrange(n, n + p.len()) == p,
        forall|i: int| at <= i < n ==> (#[trigger] s[i]) != p[0],
    ensures
        crate::text::find_from(s, p, at) == Some(n),
{
    crate::text::find_from_is_least(s, p, at);
    assert(crate::text::occurs_at(s, p, n));
    assert forall|j: int| at <= j < n implies !crate::text::occurs_at(s, p, j) by {
        if crate::text::occurs_at(s, p, j) {
            assert(s.subrange(j, j + p.len())[0] == p[0]);
            assert(s[j] == p[0]);
        }
    }
}

/// The memory of a report is its free pages times the size of a page; none where it
/// shows no page.
pub proof fn memory_is_pages_times_their_size(s: Seq<char>)
    ensures
        ({
            let pages = all_free_pages(split_on(s, '\n'));
            &&& pages <= 0 ==> available_in(s) is None
            &&& 0 < pages && 0 <= pages * page_size(s) <= u64::MAX && pages <= u64::MAX
                ==> available_in(s) == Some((pages * page_size(s)) as u64)
            &&& pages * page_size(s) > u64::MAX && pages > 0 ==> available_in(s) is None
        }),
        forall|line: Seq<char>|
            #[trigger] free_pages(line) == labelled(line, "Pages free:"@) + labelled(
                line,
                "Pages inactive:"@,
            ) + labelled(line, "Pages speculative:"@) + labelled(line, "Pages purgeable:"@),
{
}

/// The snapshots of a repository lie below the home directory, by its owner and its
/// name.
pub proof fn snapshots_lie_by_owner_and_name(org: Seq<char>, name: Seq<char>, h: &str)
    requires
        !org.contains('/'),
        !starts_with(org + seq!['/'] + name, "mlx-community:"@),
        !starts_with(org + seq!['/'] + name, "hf:"@),
    ensures
        snapshots_place(org + seq!['/'] + name, Some(h)) == Some(
            path_join(
                path_join(
                    path_join(h@, ".cache/huggingface/hub"@),
                    "models--"@ + org + "--"@ + name,
                ),
                "snapshots"@,
            ),
        ),
        snapshots_place(org, None) is None,
{
    halves_are_parted_at_the_slash(org, name);
}

/// What fits a machine integer is kept, and nothing else is.
pub proof fn what_fits_is_kept(n: int)
    ensures
        0 <= n <= u64::MAX ==> in_u64(Some(n)) == Some(n as u64),
        n < 0 || n > u64::MAX ==> in_u64(Some(n)) is None,
        in_u64(None) is None,
{
}

/// All layers keep keys and values, unless only some attend to everything: then one
/// in so many does.
pub proof fn layers_keep_keys_and_values(c: JsonTree, n: u64, every: u64)
    requires
        integer_in(member(c, "num_hidden_layers"@)) == Some(n),
    ensures
        integer_in(member(c, "full_attention_interval"@)) is None ==> caching_layers(c) == Some(
            n as int,
        ),
        integer_in(member(c, "full_attention_interval"@)) == Some(every) ==> {
            &&& caching_layers(c) is Some
            &&& every <= 1 ==> caching_layers(c) == Some(n as int)
            &&& every > 1 ==> {
                let layers = caching_layers(c)->0;
                0 <= layers && layers * every <= n < layers * every + every
            }
        },
{
    if every > 1 {
        let q = n as int / every as int;
        assert(q * every <= n < q * every + every && 0 <= q) by (nonlinear_arith)
            requires
                q == n as int / every as int,
                every > 1,
        ;
    }
}

} // verus!
