//! Model discovery and inspection: which models are installed, which are worth
//! installing, and what a hub says of one.

use crate::json::{
    field, field_of, integer_in, items_in, member, parse_json, parsed, string_in, text_in, trees,
    trees_index, Json, JsonTree,
};
use crate::paths::{join_path, path_join};
use crate::rounding::{round_quotient, scaled_quotient};
use crate::text::{
    chars_of, comes_before, contains, copy, dec, dec_text, find_from, has, has_prefix, lex_less,
    lex_less_is_a_strict_order, position, same, starts_with, substr, views,
};
use vstd::prelude::*;

verus! {

// ---------------------------------------------------------------------------
// Models
// ---------------------------------------------------------------------------

/// Where a model was found.
#[derive(Clone, Copy, Debug, PartialEq, Eq, Structural)]
pub enum ModelSource {
    HuggingFace,
    Ollama,
    LMStudio,
}

pub open spec fn source_label(s: ModelSource) -> &'static str {
    match s {
        ModelSource::HuggingFace => "hf",
        ModelSource::Ollama => "ollama",
        ModelSource::LMStudio => "lmstudio",
    }
}

impl ModelSource {
    pub fn label(self) -> (r: &'static str)
        ensures
            r == source_label(self),
    {
        match self {
            ModelSource::HuggingFace => "hf",
            ModelSource::Ollama => "ollama",
            ModelSource::LMStudio => "lmstudio",
        }
    }
}

/// A model on disk.
pub struct InstalledModel {
    pub source: ModelSource,
    /// What a user would ask for it by.
    pub spec: String,
    /// Path of the weights, or of their directory.
    pub path: String,
    pub size_bytes: u64,
}

/// A model worth installing.
#[derive(Clone, Copy, Debug)]
pub struct RecommendedModel {
    pub spec: &'static str,
    pub display_name: &'static str,
    /// Approximate size in tenths of a gigabyte.
    pub approx_size_tenths_gb: u32,
    pub notes: &'static str,
}

/// A hosted model.
#[derive(Clone, Copy, Debug)]
pub struct RemoteModel {
    pub spec: &'static str,
    pub provider: &'static str,
    pub display_name: &'static str,
}

pub open spec fn recommended(
    spec: &'static str,
    display_name: &'static str,
    approx_size_tenths_gb: u32,
    notes: &'static str,
) -> RecommendedModel {
    RecommendedModel { spec, display_name, approx_size_tenths_gb, notes }
}

/// The models to recommend, those for agentic coding first.
pub open spec fn recommended_list() -> Seq<RecommendedModel> {
    seq![
        recommended(
            "mlx-community:Qwen3-30B-A3B-4bit",
            "Qwen3 30B-A3B (MoE)",
            160,
            "BEST for local agentic coding. MoE ~3B active/token → ~100 t/s + strong; completes tasks cleanly. The speed/capability/memory sweet spot.",
        ),
        recommended(
            "mlx-community:Qwen3.6-27B-4bit",
            "Qwen3.6 27B (dense)",
            150,
            "Most capable for agentic coding (5/5 in the matrix) and fits agentic use on a 36 GB Mac. DENSE → slower (~15 t/s) than the MoEs; prefer the 30B-A3B MoE for interactive speed, this when you want the strongest single-shot result.",
        ),
        recommended(
            "mlx-community:Qwen3.6-35B-A3B-4bit",
            "Qwen3.6 35B-A3B (MoE)",
            170,
            "Strongest/fastest MoE, but HEAVY for agentic on 36 GB: peaks ~25 GB and the gateway can OOM on a big agent prompt (the single-shot prefill spike hits the MLX memory cap) → the worker dies mid-run. Use for chat / on ≥48 GB, or wait for chunked prefill. Lower `ROZUM_MLX_CACHE_GB` to free headroom.",
        ),
        recommended(
            "mlx-community:Qwen3.6-35B-A3B-4bit-DWQ",
            "Qwen3.6 35B-A3B DWQ",
            170,
            "Distillation-Weighted Quant — same MoE, slightly better quality. Same ~25 GB / OOM caveat as the 35B above on a 36 GB Mac.",
        ),
        recommended(
            "mlx-community:Qwen2.5-Coder-32B-Instruct-4bit",
            "Qwen2.5-Coder 32B",
            190,
            "Strong dense coder, native tool-use. Heavy (needs ~24 GB); dense → slower.",
        ),
        recommended(
            "mlx-community:Qwen2.5-Coder-7B-Instruct-4bit",
            "Qwen2.5-Coder 7B",
            43,
            "Smallest model that does agentic coding (4/5 build/fix/test/debug) — but only with the gateway's loose-JSON repair; fits 16 GB. Below this, agentic fails.",
        ),
        recommended(
            "mlx-community:Qwen3-4B-4bit",
            "Qwen3 4B",
            25,
            "Punches above its weight for agentic coding (4/5 in the matrix, native <tool_call> + the gateway's loop-breaker/termination fixes) at a ~360 MB agent footprint. Great fast cascade start-tier / chat. Fits anywhere.",
        ),
    ]
}

/// The models to recommend, those for agentic coding first.
pub fn recommended_models() -> (r: Vec<RecommendedModel>)
    ensures
        r@ == recommended_list(),
{
    let mut v: Vec<RecommendedModel> = Vec::new();
    v.push(
        RecommendedModel {
            spec: "mlx-community:Qwen3-30B-A3B-4bit",
            display_name: "Qwen3 30B-A3B (MoE)",
            approx_size_tenths_gb: 160,
            notes: "BEST for local agentic coding. MoE ~3B active/token → ~100 t/s + strong; completes tasks cleanly. The speed/capability/memory sweet spot.",
        },
    );
    v.push(
        RecommendedModel {
            spec: "mlx-community:Qwen3.6-27B-4bit",
            display_name: "Qwen3.6 27B (dense)",
            approx_size_tenths_gb: 150,
            notes: "Most capable for agentic coding (5/5 in the matrix) and fits agentic use on a 36 GB Mac. DENSE → slower (~15 t/s) than the MoEs; prefer the 30B-A3B MoE for interactive speed, this when you want the strongest single-shot result.",
        },
    );
    v.push(
        RecommendedModel {
            spec: "mlx-community:Qwen3.6-35B-A3B-4bit",
            display_name: "Qwen3.6 35B-A3B (MoE)",
            approx_size_tenths_gb: 170,
            notes: "Strongest/fastest MoE, but HEAVY for agentic on 36 GB: peaks ~25 GB and the gateway can OOM on a big agent prompt (the single-shot prefill spike hits the MLX memory cap) → the worker dies mid-run. Use for chat / on ≥48 GB, or wait for chunked prefill. Lower `ROZUM_MLX_CACHE_GB` to free headroom.",
        },
    );
    v.push(
        RecommendedModel {
            spec: "mlx-community:Qwen3.6-35B-A3B-4bit-DWQ",
            display_name: "Qwen3.6 35B-A3B DWQ",
            approx_size_tenths_gb: 170,
            notes: "Distillation-Weighted Quant — same MoE, slightly better quality. Same ~25 GB / OOM caveat as the 35B above on a 36 GB Mac.",
        },
    );
    v.push(
        RecommendedModel {
            spec: "mlx-community:Qwen2.5-Coder-32B-Instruct-4bit",
            display_name: "Qwen2.5-Coder 32B",
            approx_size_tenths_gb: 190,
            notes: "Strong dense coder, native tool-use. Heavy (needs ~24 GB); dense → slower.",
        },
    );
    v.push(
        RecommendedModel {
            spec: "mlx-community:Qwen2.5-Coder-7B-Instruct-4bit",
            display_name: "Qwen2.5-Coder 7B",
            approx_size_tenths_gb: 43,
            notes: "Smallest model that does agentic coding (4/5 build/fix/test/debug) — but only with the gateway's loose-JSON repair; fits 16 GB. Below this, agentic fails.",
        },
    );
    v.push(
        RecommendedModel {
            spec: "mlx-community:Qwen3-4B-4bit",
            display_name: "Qwen3 4B",
            approx_size_tenths_gb: 25,
            notes: "Punches above its weight for agentic coding (4/5 in the matrix, native <tool_call> + the gateway's loop-breaker/termination fixes) at a ~360 MB agent footprint. Great fast cascade start-tier / chat. Fits anywhere.",
        },
    );
    assert(v@ =~= recommended_list());
    v
}

/// Common hosted models, the cheapest of each provider first.
pub open spec fn remote_list() -> Seq<RemoteModel> {
    seq![
        RemoteModel {
            spec: "gpt-4o-mini",
            provider: "OpenAI",
            display_name: "GPT-4o mini — fast, cheap",
        },
        RemoteModel {
            spec: "gpt-4o",
            provider: "OpenAI",
            display_name: "GPT-4o — balanced",
        },
        RemoteModel {
            spec: "o3-mini",
            provider: "OpenAI",
            display_name: "o3-mini — reasoning, economical",
        },
        RemoteModel {
            spec: "o1",
            provider: "OpenAI",
            display_name: "o1 — deep reasoning",
        },
    ]
}

/// Common hosted models: `first`, and then those of the list.
pub fn recommended_remote(first: Vec<RemoteModel>) -> (r: Vec<RemoteModel>)
    ensures
        r@ == first@ + remote_list(),
{
    let mut v = first;
    v.push(
        RemoteModel {
            spec: "gpt-4o-mini",
            provider: "OpenAI",
            display_name: "GPT-4o mini — fast, cheap",
        },
    );
    v.push(
        RemoteModel {
            spec: "gpt-4o",
            provider: "OpenAI",
            display_name: "GPT-4o — balanced",
        },
    );
    v.push(
        RemoteModel {
            spec: "o3-mini",
            provider: "OpenAI",
            display_name: "o3-mini — reasoning, economical",
        },
    );
    v.push(
        RemoteModel {
            spec: "o1",
            provider: "OpenAI",
            display_name: "o1 — deep reasoning",
        },
    );
    assert(v@ =~= first@ + remote_list());
    v
}

// ---------------------------------------------------------------------------
// Installed models
// ---------------------------------------------------------------------------

/// `s`, which is sorted by spec, with `x` behind all that do not come after it.
pub open spec fn model_inserted(s: Seq<InstalledModel>, x: InstalledModel) -> Seq<InstalledModel>
    decreases s.len(),
{
    if s.len() > 0 && lex_less(x.spec@, s.last().spec@) {
        model_inserted(s.drop_last(), x).push(s.last())
    } else {
        s.push(x)
    }
}

/// The models in the order of their specs; of equal ones the first stays first.
pub open spec fn models_sorted(s: Seq<InstalledModel>) -> Seq<InstalledModel>
    decreases s.len(),
{
    if s.len() == 0 {
        Seq::empty()
    } else {
        model_inserted(models_sorted(s.drop_last()), s.last())
    }
}

proof fn model_inserted_at(s: Seq<InstalledModel>, x: InstalledModel, k: int)
    requires
        0 <= k <= s.len(),
        forall|j: int| k <= j < s.len() ==> lex_less(x.spec@, (#[trigger] s[j]).spec@),
        k > 0 ==> !lex_less(x.spec@, s[k - 1].spec@),
    ensures
        model_inserted(s, x) == s.insert(k, x),
    decreases s.len(),
{
    if k == s.len() {
        assert(s.push(x) =~= s.insert(k, x));
    } else {
        assert(lex_less(x.spec@, s[s.len() - 1].spec@));
        let t = s.drop_last();
        assert forall|j: int| k <= j < t.len() implies lex_less(x.spec@, (#[trigger] t[j]).spec@) by {
            assert(t[j] == s[j]);
        }
        model_inserted_at(t, x, k);
        assert(t.insert(k, x).push(s.last()) =~= s.insert(k, x));
    }
}

/// Everything that was found, in the order of the specs.
pub fn scan_all_installed(
    huggingface: Vec<InstalledModel>,
    ollama: Vec<InstalledModel>,
    lmstudio: Vec<InstalledModel>,
) -> (r: Vec<InstalledModel>)
    ensures
        r@ == models_sorted(huggingface@ + ollama@ + lmstudio@),
{
    let ghost all = huggingface@ + ollama@ + lmstudio@;
    let mut found = huggingface;
    let mut b = ollama;
    let mut c = lmstudio;
    found.append(&mut b);
    found.append(&mut c);
    assert(found@ =~= all);
    let mut out: Vec<InstalledModel> = Vec::new();
    for m in it: found
        invariant
            it.seq() == all,
            out@ == models_sorted(all.subrange(0, it.index() as int)),
    {
        let ghost i = it.index() as int;
        let ghost part = all.subrange(0, i + 1);
        assert(part.drop_last() =~= all.subrange(0, i));
        assert(part.last() == m);
        let mut k: usize = out.len();
        while k > 0 && comes_before(m.spec.as_str(), out[k - 1].spec.as_str())
            invariant
                k <= out.len(),
                forall|j: int|
                    k <= j < out@.len() ==> lex_less(m.spec@, (#[trigger] out@[j]).spec@),
            decreases k,
        {
            k = k - 1;
        }
        proof {
            model_inserted_at(out@, m, k as int);
        }
        out.insert(k, m);
    }
    assert(all.subrange(0, all.len() as int) =~= all);
    out
}

/// What stands in a directory, as far as its size goes.
pub enum EntryKind {
    /// A directory, with the size of what is in it.
    Directory(u64),
    File(u64),
    /// A symbolic link, with the size of the file it leads to, if it leads to
    /// one.
    Link(Option<u64>),
    Other,
}

pub open spec fn entry_bytes(e: EntryKind) -> u64 {
    match e {
        EntryKind::Directory(n) => n,
        EntryKind::File(n) => n,
        EntryKind::Link(Some(n)) => n,
        _ => 0,
    }
}

pub open spec fn dir_bytes(v: Seq<EntryKind>) -> int
    decreases v.len(),
{
    if v.len() == 0 {
        0
    } else {
        dir_bytes(v.drop_last()) + entry_bytes(v.last())
    }
}

proof fn dir_bytes_grow(v: Seq<EntryKind>, i: int)
    requires
        0 <= i <= v.len(),
    ensures
        0 <= dir_bytes(v.subrange(0, i)) <= dir_bytes(v),
    decreases v.len(),
{
    if i == v.len() {
        assert(v.subrange(0, i) =~= v);
        if i > 0 {
            dir_bytes_grow(v.drop_last(), i - 1);
        }
    } else {
        assert(v.drop_last().subrange(0, i) =~= v.subrange(0, i));
        dir_bytes_grow(v.drop_last(), i);
    }
}

/// The size of a directory, a link to a file counting as the file.
pub fn dir_size(entries: &Vec<EntryKind>) -> (r: u64)
    requires
        dir_bytes(entries@) <= u64::MAX,
    ensures
        r == dir_bytes(entries@),
{
    let mut total: u64 = 0;
    let mut i: usize = 0;
    while i < entries.len()
        invariant
            i <= entries.len(),
            total == dir_bytes(entries@.subrange(0, i as int)),
            dir_bytes(entries@) <= u64::MAX,
        decreases entries.len() - i,
    {
        let ghost part = entries@.subrange(0, i + 1);
        assert(part.drop_last() =~= entries@.subrange(0, i as int));
        proof {
            dir_bytes_grow(entries@, i + 1);
        }
        let n: u64 = match &entries[i] {
            EntryKind::Directory(n) => *n,
            EntryKind::File(n) => *n,
            EntryKind::Link(Some(n)) => *n,
            _ => 0,
        };
        total = total + n;
        i = i + 1;
    }
    assert(entries@.subrange(0, i as int) =~= entries@);
    total
}

pub open spec fn home_or_here(home: Option<&str>) -> Seq<char> {
    match home {
        Some(h) => h@,
        None => "."@,
    }
}

fn home_dir(home: Option<&str>) -> (r: String)
    ensures
        r@ == home_or_here(home),
{
    match home {
        Some(h) => copy(h),
        None => copy("."),
    }
}

/// The hub's cache directory.
pub fn huggingface_hub_dir(
    hub_cache: Option<&str>,
    hf_home: Option<&str>,
    home: Option<&str>,
) -> (r: String)
    ensures
        r@ == (match hub_cache {
            Some(c) => c@,
            None => match hf_home {
                Some(h) => path_join(h@, "hub"@),
                None => path_join(
                    path_join(path_join(home_or_here(home), ".cache"@), "huggingface"@),
                    "hub"@,
                ),
            },
        }),
{
    match hub_cache {
        Some(c) => copy(c),
        None => match hf_home {
            Some(h) => join_path(h, "hub"),
            None => {
                let a = join_path(home_dir(home).as_str(), ".cache");
                let b = join_path(a.as_str(), "huggingface");
                join_path(b.as_str(), "hub")
            },
        },
    }
}

/// The spec of a model in the hub's cache, from the name of its directory,
/// `models--<owner>--<name>`.
pub open spec fn hub_spec(dir: Seq<char>) -> Option<Seq<char>> {
    let prefix = "models--"@;
    if !starts_with(dir, prefix) {
        None
    } else {
        match find_from(dir, "--"@, prefix.len() as int) {
            Some(i) => {
                let owner = dir.subrange(prefix.len() as int, i);
                let name = dir.subrange(i + 2, dir.len() as int);
                if owner == "mlx-community"@ {
                    Some("mlx-community:"@ + name)
                } else {
                    Some("hf:"@ + owner + "/"@ + name)
                }
            },
            None => None,
        }
    }
}

/// The spec of a model in the hub's cache, from the name of its directory.
pub fn huggingface_spec(dir: &str) -> (r: Option<String>)
    ensures
        match r {
            Some(s) => hub_spec(dir@) == Some(s@),
            None => hub_spec(dir@) is None,
        },
{
    proof {
        reveal_strlit("models--");
        reveal_strlit("--");
    }
    if !has_prefix(dir, "models--") {
        return None;
    }
    let v = chars_of(dir);
    match position(&v, "--", 8) {
        Some(i) => {
            let owner = substr(&v, 8, i);
            let name = substr(&v, i + 2, v.len());
            if same(owner.as_str(), "mlx-community") {
                return Some(copy("mlx-community:").concat(name.as_str()));
            }
            let mut out = copy("hf:");
            out.append(owner.as_str());
            out.append("/");
            out.append(name.as_str());
            Some(out)
        },
        None => None,
    }
}

/// A model in the hub's cache.
pub fn scan_huggingface(dir: &str, path: &str, blob_bytes: u64) -> (r: Option<InstalledModel>)
    ensures
        match r {
            Some(m) => {
                &&& m.source == ModelSource::HuggingFace
                &&& hub_spec(dir@) == Some(m.spec@)
                &&& m.path@ == path@
                &&& m.size_bytes == blob_bytes
            },
            None => hub_spec(dir@) is None,
        },
{
    match huggingface_spec(dir) {
        Some(spec) => Some(
            InstalledModel {
                source: ModelSource::HuggingFace,
                spec,
                path: copy(path),
                size_bytes: blob_bytes,
            },
        ),
        None => None,
    }
}

/// Ollama's model directory.
pub fn ollama_models_dir(ollama_home: Option<&str>, home: Option<&str>) -> (r: String)
    ensures
        r@ == path_join(
            match ollama_home {
                Some(o) => o@,
                None => path_join(home_or_here(home), ".ollama"@),
            },
            "models"@,
        ),
{
    let base = match ollama_home {
        Some(o) => copy(o),
        None => join_path(home_dir(home).as_str(), ".ollama"),
    };
    join_path(base.as_str(), "models")
}

/// Where the manifests lie below Ollama's model directory.
pub fn ollama_manifest_dir(models_dir: &str) -> (r: String)
    ensures
        r@ == path_join(
            path_join(path_join(models_dir@, "manifests"@), "registry.ollama.ai"@),
            "library"@,
        ),
{
    let a = join_path(models_dir, "manifests");
    let b = join_path(a.as_str(), "registry.ollama.ai");
    join_path(b.as_str(), "library")
}

/// A manifest's layer of a kind.
pub open spec fn is_layer(l: JsonTree, kind: Seq<char>) -> bool {
    string_in(field_of(Some(l), "mediaType"@)) == Some(kind)
}

/// The digest of the first layer from `i` on that is a whole model and has one.
pub open spec fn model_digest(layers: Seq<JsonTree>, i: int) -> Option<Seq<char>>
    decreases layers.len() - i,
{
    if i < 0 || i >= layers.len() {
        None
    } else {
        let d = string_in(field_of(Some(layers[i]), "digest"@));
        if is_layer(layers[i], "application/vnd.ollama.image.model"@) && d is Some {
            d
        } else {
            model_digest(layers, i + 1)
        }
    }
}

/// The size of all tensor layers.
pub open spec fn tensor_bytes(layers: Seq<JsonTree>) -> int
    decreases layers.len(),
{
    if layers.len() == 0 {
        0
    } else {
        let rest = tensor_bytes(layers.drop_last());
        let l = layers.last();
        if is_layer(l, "application/vnd.ollama.image.tensor"@) {
            match integer_in(field_of(Some(l), "size"@)) {
                Some(n) => rest + n,
                None => rest,
            }
        } else {
            rest
        }
    }
}

/// The layers of a manifest; none where it lists none.
pub open spec fn layers_of(manifest: JsonTree) -> Seq<JsonTree> {
    match items_in(field_of(Some(manifest), "layers"@)) {
        Some(l) => l,
        None => Seq::empty(),
    }
}

/// `s` with every `:` as `-`.
pub open spec fn dashed(s: Seq<char>) -> Seq<char> {
    Seq::new(
        s.len(),
        |i: int|
            if s[i] == ':' {
                '-'
            } else {
                s[i]
            },
    )
}

/// What a manifest describes.
pub enum OllamaModel {
    /// One file of weights, by its name among the blobs.
    Blob(String),
    /// Tensors of this size, scattered over the blobs.
    Tensors(u64),
    /// Tensors whose sizes do not add up to a 64-bit number.
    Oversized,
    /// No model.
    Nothing,
}

fn dash(s: &str) -> (r: String)
    ensures
        r@ == dashed(s@),
{
    let v = chars_of(s);
    let mut out = String::new();
    let mut i: usize = 0;
    while i < v.len()
        invariant
            i <= v.len(),
            v@ == s@,
            out@ == dashed(s@).subrange(0, i as int),
        decreases v.len() - i,
    {
        if v[i] == ':' {
            out.push('-');
        } else {
            out.push(v[i]);
        }
        i = i + 1;
        assert(dashed(s@).subrange(0, i as int) =~= dashed(s@).subrange(0, i - 1).push(
            dashed(s@)[i - 1],
        ));
    }
    assert(dashed(s@).subrange(0, i as int) =~= dashed(s@));
    out
}

fn layer_is(l: &Json, kind: &str) -> (r: bool)
    ensures
        r == is_layer(l@, kind@),
{
    match l.get_str("mediaType") {
        Some(k) => same(k.as_str(), kind),
        None => false,
    }
}

fn tensor_total(layers: &Vec<Json>) -> (r: Option<u64>)
    ensures
        match r {
            Some(n) => n == tensor_bytes(trees(layers@)),
            None => tensor_bytes(trees(layers@)) > u64::MAX,
        },
{
    proof {
        trees_index(layers@);
    }
    let ghost all = trees(layers@);
    let mut total: u64 = 0;
    let mut i: usize = 0;
    while i < layers.len()
        invariant
            i <= layers.len(),
            all == trees(layers@),
            all.len() == layers@.len(),
            forall|k: int| 0 <= k < layers@.len() ==> #[trigger] all[k] == layers@[k]@,
            total == tensor_bytes(all.subrange(0, i as int)),
        decreases layers.len() - i,
    {
        let ghost part = all.subrange(0, i + 1);
        assert(part.drop_last() =~= all.subrange(0, i as int));
        assert(part.last() == layers@[i as int]@);
        if layer_is(&layers[i], "application/vnd.ollama.image.tensor") {
            match layers[i].get_u64("size") {
                Some(n) => {
                    if n > u64::MAX - total {
                        proof {
                            tensor_bytes_grow(all, i + 1);
                        }
                        return None;
                    }
                    total = total + n;
                },
                None => {},
            }
        }
        i = i + 1;
    }
    assert(all.subrange(0, i as int) =~= all);
    Some(total)
}

proof fn tensor_bytes_grow(layers: Seq<JsonTree>, i: int)
    requires
        0 <= i <= layers.len(),
    ensures
        tensor_bytes(layers.subrange(0, i)) <= tensor_bytes(layers),
    decreases layers.len(),
{
    if i == layers.len() {
        assert(layers.subrange(0, i) =~= layers);
    } else {
        assert(layers.drop_last().subrange(0, i) =~= layers.subrange(0, i));
        tensor_bytes_grow(layers.drop_last(), i);
    }
}

fn first_digest(layers: &Vec<Json>) -> (r: Option<String>)
    ensures
        match r {
            Some(d) => model_digest(trees(layers@), 0) == Some(d@),
            None => model_digest(trees(layers@), 0) is None,
        },
{
    proof {
        trees_index(layers@);
    }
    let ghost all = trees(layers@);
    let mut i: usize = 0;
    while i < layers.len()
        invariant
            i <= layers.len(),
            all == trees(layers@),
            all.len() == layers@.len(),
            forall|k: int| 0 <= k < layers@.len() ==> #[trigger] all[k] == layers@[k]@,
            model_digest(all, 0) == model_digest(all, i as int),
        decreases layers.len() - i,
    {
        assert(all[i as int] == layers@[i as int]@);
        if layer_is(&layers[i], "application/vnd.ollama.image.model") {
            match layers[i].get_str("digest") {
                Some(d) => {
                    return Some(d.clone());
                },
                None => {},
            }
        }
        i = i + 1;
    }
    None
}

/// What a manifest describes: one file of weights where a layer is a whole
/// model, else tensors where they have a size.
pub fn ollama_model(manifest: &Json) -> (r: OllamaModel)
    ensures
        ({
            let layers = layers_of(manifest@);
            match model_digest(layers, 0) {
                Some(d) => r matches OllamaModel::Blob(name) && name@ == dashed(d),
                None => if tensor_bytes(layers) > u64::MAX {
                    r is Oversized
                } else if tensor_bytes(layers) > 0 {
                    r matches OllamaModel::Tensors(n) && n == tensor_bytes(layers)
                } else {
                    r is Nothing
                },
            }
        }),
{
    let layers = match manifest.get_array("layers") {
        Some(l) => l,
        None => {
            return OllamaModel::Nothing;
        },
    };
    match first_digest(layers) {
        Some(d) => {
            return OllamaModel::Blob(dash(d.as_str()));
        },
        None => {},
    }
    match tensor_total(layers) {
        Some(n) => if n > 0 {
            OllamaModel::Tensors(n)
        } else {
            OllamaModel::Nothing
        },
        None => OllamaModel::Oversized,
    }
}

/// What the text of a manifest describes; nothing where it is not JSON.
pub fn scan_ollama(text: &str) -> (r: OllamaModel)
    ensures
        match parsed(text@) {
            Some(t) => match model_digest(layers_of(t), 0) {
                Some(d) => r matches OllamaModel::Blob(name) && name@ == dashed(d),
                None => if tensor_bytes(layers_of(t)) > u64::MAX {
                    r is Oversized
                } else if tensor_bytes(layers_of(t)) > 0 {
                    r matches OllamaModel::Tensors(n) && n == tensor_bytes(layers_of(t))
                } else {
                    r is Nothing
                },
            },
            None => r is Nothing,
        },
{
    match parse_json(text) {
        Some(v) => ollama_model(&v),
        None => OllamaModel::Nothing,
    }
}

/// The spec of an Ollama model.
pub fn ollama_spec(name: &str, tag: &str) -> (r: String)
    ensures
        r@ == "ollama:"@ + name@ + ":"@ + tag@,
{
    let mut out = copy("ollama:");
    out.append(name);
    out.append(":");
    out.append(tag);
    out
}

/// LM Studio's model directory.
pub fn lmstudio_models_dir(lmstudio_home: Option<&str>, home: Option<&str>) -> (r: String)
    ensures
        r@ == path_join(
            match lmstudio_home {
                Some(l) => l@,
                None => path_join(path_join(home_or_here(home), ".cache"@), "lm-studio"@),
            },
            "models"@,
        ),
{
    let base = match lmstudio_home {
        Some(l) => copy(l),
        None => {
            let a = join_path(home_dir(home).as_str(), ".cache");
            join_path(a.as_str(), "lm-studio")
        },
    };
    join_path(base.as_str(), "models")
}

/// A file name with the extension `gguf`: it ends in it, and something stands
/// before.
pub open spec fn is_gguf_name(name: Seq<char>) -> bool {
    name.len() > 5 && name.subrange(name.len() - 5, name.len() as int) == ".gguf"@
}

/// A GGUF file below LM Studio's model directory, `repo` being the directory it
/// stands in, relative to that.
pub fn scan_lmstudio(file_name: &str, repo: &str, path: &str, size_bytes: u64) -> (r: Option<
    InstalledModel,
>)
    ensures
        match r {
            Some(m) => {
                &&& is_gguf_name(file_name@)
                &&& m.source == ModelSource::LMStudio
                &&& m.spec@ == "lmstudio:"@ + repo@
                &&& m.path@ == path@
                &&& m.size_bytes == size_bytes
            },
            None => !is_gguf_name(file_name@),
        },
{
    proof {
        reveal_strlit(".gguf");
    }
    let v = chars_of(file_name);
    if v.len() <= 5 || !crate::text::stands_at(&v, &chars_of(".gguf"), v.len() - 5) {
        return None;
    }
    Some(
        InstalledModel {
            source: ModelSource::LMStudio,
            spec: copy("lmstudio:").concat(repo),
            path: copy(path),
            size_bytes,
        },
    )
}

// ---------------------------------------------------------------------------
// Hub metadata
// ---------------------------------------------------------------------------

/// A file of a repository.
#[derive(Debug, PartialEq, Eq)]
pub struct HfFile {
    pub name: String,
    pub size: u64,
}

/// What the hub says of a model.
pub struct HfModelInfo {
    pub id: String,
    pub author: Option<String>,
    pub downloads: Option<u64>,
    pub likes: Option<u64>,
    pub pipeline_tag: Option<String>,
    pub tags: Vec<String>,
    pub license: Option<String>,
    pub files: Vec<HfFile>,
    pub total_bytes: u64,
}

/// The repository id that a spec stands for.
pub open spec fn hf_id_of(spec: Seq<char>) -> Option<Seq<char>> {
    let hf = "hf:"@;
    let mlx = "mlx-community:"@;
    if starts_with(spec, hf) {
        Some(spec.subrange(hf.len() as int, spec.len() as int))
    } else if starts_with(spec, mlx) {
        Some("mlx-community/"@ + spec.subrange(mlx.len() as int, spec.len() as int))
    } else if contains(spec, "/"@) && !starts_with(spec, "/"@) {
        Some(spec)
    } else {
        None
    }
}

/// Resolves a model spec to a repository id: `hf:<owner>/<repo>`,
/// `mlx-community:<repo>`, or a bare `<owner>/<repo>`.
pub fn spec_to_hf_id(spec: &str) -> (r: Option<String>)
    ensures
        match r {
            Some(s) => hf_id_of(spec@) == Some(s@),
            None => hf_id_of(spec@) is None,
        },
{
    proof {
        reveal_strlit("hf:");
        reveal_strlit("mlx-community:");
    }
    let v = chars_of(spec);
    if has_prefix(spec, "hf:") {
        Some(substr(&v, 3, v.len()))
    } else if has_prefix(spec, "mlx-community:") {
        let rest = substr(&v, 14, v.len());
        Some(copy("mlx-community/").concat(rest.as_str()))
    } else if has(spec, "/") && !has_prefix(spec, "/") {
        Some(copy(spec))
    } else {
        None
    }
}

/// Where the hub describes a repository.
pub fn hf_info_url(repo: &str) -> (r: String)
    ensures
        r@ == "https://huggingface.co/api/models/"@ + repo@,
{
    copy("https://huggingface.co/api/models/").concat(repo)
}

/// Where the hub lists the files of a repository.
pub fn hf_tree_url(repo: &str) -> (r: String)
    ensures
        r@ == "https://huggingface.co/api/models/"@ + repo@ + "/tree/main"@,
{
    copy("https://huggingface.co/api/models/").concat(repo).concat("/tree/main")
}

/// A file as plain values.
pub struct FileView {
    pub name: Seq<char>,
    pub size: u64,
}

impl View for HfFile {
    type V = FileView;

    open spec fn view(&self) -> FileView {
        FileView { name: self.name@, size: self.size }
    }
}

pub open spec fn file_views(v: Seq<HfFile>) -> Seq<FileView> {
    Seq::new(v.len(), |i: int| v[i]@)
}

/// A file of a listing, its name under `key`.
pub open spec fn listed_file(t: JsonTree, key: Seq<char>) -> FileView {
    FileView {
        name: match string_in(field_of(Some(t), key)) {
            Some(n) => n,
            None => Seq::empty(),
        },
        size: match integer_in(field_of(Some(t), "size"@)) {
            Some(n) => n,
            None => 0,
        },
    }
}

pub open spec fn listed_files(t: Seq<JsonTree>, key: Seq<char>) -> Seq<FileView> {
    Seq::new(t.len(), |i: int| listed_file(t[i], key))
}

pub open spec fn files_bytes(f: Seq<FileView>) -> int
    decreases f.len(),
{
    if f.len() == 0 {
        0
    } else {
        files_bytes(f.drop_last()) + f.last().size
    }
}

/// The strings of a list, in order.
pub open spec fn strings_in(t: Seq<JsonTree>) -> Seq<Seq<char>>
    decreases t.len(),
{
    if t.len() == 0 {
        Seq::empty()
    } else {
        let rest = strings_in(t.drop_last());
        match string_in(Some(t.last())) {
            Some(s) => rest.push(s),
            None => rest,
        }
    }
}

pub open spec fn maybe_text(s: Option<String>) -> Option<Seq<char>> {
    match s {
        Some(s) => Some(s@),
        None => None,
    }
}

/// The items of a list that may be missing.
pub open spec fn items_or_none(t: Option<JsonTree>) -> Seq<JsonTree> {
    match items_in(t) {
        Some(s) => s,
        None => Seq::empty(),
    }
}

/// What the hub's description says but for the files.
pub open spec fn describes(i: HfModelInfo, t: JsonTree, repo: Seq<char>) -> bool {
    let v = Some(t);
    &&& i.id@ == (match string_in(field_of(v, "id"@)) {
        Some(s) => s,
        None => repo,
    })
    &&& maybe_text(i.author) == string_in(field_of(v, "author"@))
    &&& i.downloads == integer_in(field_of(v, "downloads"@))
    &&& i.likes == integer_in(field_of(v, "likes"@))
    &&& maybe_text(i.pipeline_tag) == string_in(field_of(v, "pipeline_tag"@))
    &&& views(i.tags@) == strings_in(items_or_none(field_of(v, "tags"@)))
    &&& maybe_text(i.license) == (match string_in(field_of(field_of(v, "cardData"@), "license"@)) {
        Some(s) => Some(s),
        None => string_in(field_of(v, "license"@)),
    })
}

/// The files that the hub's description lists.
pub open spec fn siblings_of(t: JsonTree) -> Seq<FileView> {
    listed_files(items_or_none(field_of(Some(t), "siblings"@)), "rfilename"@)
}

fn cloned(s: Option<&String>) -> (r: Option<String>)
    ensures
        maybe_text(r) == (match s {
            Some(s) => Some(s@),
            None => None,
        }),
{
    match s {
        Some(s) => Some(s.clone()),
        None => None,
    }
}

fn tags_in(items: &Vec<Json>) -> (r: Vec<String>)
    ensures
        views(r@) == strings_in(trees(items@)),
{
    proof {
        trees_index(items@);
    }
    let ghost all = trees(items@);
    let mut out: Vec<String> = Vec::new();
    let mut i: usize = 0;
    assert(views(out@) =~= Seq::empty());
    while i < items.len()
        invariant
            i <= items.len(),
            all.len() == items@.len(),
            forall|k: int| 0 <= k < items@.len() ==> #[trigger] all[k] == items@[k]@,
            views(out@) == strings_in(all.subrange(0, i as int)),
        decreases items.len() - i,
    {
        let ghost part = all.subrange(0, i + 1);
        assert(part.drop_last() =~= all.subrange(0, i as int));
        assert(part.last() == items@[i as int]@);
        let ghost before = out@;
        match items[i].as_str() {
            Some(s) => {
                out.push(s.clone());
                assert(views(out@) =~= views(before).push(s@));
            },
            None => {},
        }
        i = i + 1;
    }
    assert(all.subrange(0, i as int) =~= all);
    out
}

proof fn files_bytes_grow(f: Seq<FileView>, i: int)
    requires
        0 <= i <= f.len(),
    ensures
        files_bytes(f.subrange(0, i)) <= files_bytes(f),
    decreases f.len(),
{
    if i == f.len() {
        assert(f.subrange(0, i) =~= f);
    } else {
        assert(f.drop_last().subrange(0, i) =~= f.subrange(0, i));
        files_bytes_grow(f.drop_last(), i);
    }
}

/// The files of a listing and their size; `None` where the sizes do not add up
/// to a 64-bit number.
fn files_in(items: &Vec<Json>, key: &str) -> (r: Option<(Vec<HfFile>, u64)>)
    ensures
        match r {
            Some((v, total)) => {
                &&& file_views(v@) == listed_files(trees(items@), key@)
                &&& total == files_bytes(listed_files(trees(items@), key@))
            },
            None => files_bytes(listed_files(trees(items@), key@)) > u64::MAX,
        },
{
    proof {
        trees_index(items@);
    }
    let ghost all = listed_files(trees(items@), key@);
    let mut out: Vec<HfFile> = Vec::new();
    let mut total: u64 = 0;
    let mut i: usize = 0;
    while i < items.len()
        invariant
            i <= items.len(),
            all == listed_files(trees(items@), key@),
            all.len() == items@.len(),
            forall|k: int|
                0 <= k < items@.len() ==> #[trigger] all[k] == listed_file(items@[k]@, key@),
            out@.len() == i,
            forall|k: int| 0 <= k < i ==> (#[trigger] out@[k])@ == all[k],
            total == files_bytes(all.subrange(0, i as int)),
        decreases items.len() - i,
    {
        let ghost part = all.subrange(0, i + 1);
        assert(part.drop_last() =~= all.subrange(0, i as int));
        assert(part.last() == all[i as int]);
        let name = match items[i].get_str(key) {
            Some(n) => n.clone(),
            None => String::new(),
        };
        let size: u64 = match items[i].get_u64("size") {
            Some(n) => n,
            None => 0,
        };
        assert(name@ =~= all[i as int].name);
        if size > u64::MAX - total {
            proof {
                files_bytes_grow(all, i + 1);
            }
            return None;
        }
        total = total + size;
        out.push(HfFile { name, size });
        i = i + 1;
    }
    assert(all.subrange(0, i as int) =~= all);
    assert(file_views(out@) =~= all);
    Some((out, total))
}

/// What the hub's description says of a repository; `None` where the sizes of its
/// files do not add up to a 64-bit number.
pub fn hf_info_from(v: &Json, repo: &str) -> (r: Option<HfModelInfo>)
    ensures
        match r {
            Some(i) => {
                &&& describes(i, v@, repo@)
                &&& file_views(i.files@) == siblings_of(v@)
                &&& i.total_bytes == files_bytes(siblings_of(v@))
            },
            None => files_bytes(siblings_of(v@)) > u64::MAX,
        },
{
    let id = match v.get_str("id") {
        Some(s) => s.clone(),
        None => copy(repo),
    };
    let tags = match v.get_array("tags") {
        Some(a) => tags_in(a),
        None => {
            let t: Vec<String> = Vec::new();
            assert(views(t@) =~= strings_in(Seq::empty()));
            t
        },
    };
    let license = match text_in(field(field(Some(v), "cardData"), "license")) {
        Some(s) => Some(s.clone()),
        None => cloned(v.get_str("license")),
    };
    let (files, total_bytes) = match v.get_array("siblings") {
        Some(a) => match files_in(a, "rfilename") {
            Some(x) => x,
            None => {
                return None;
            },
        },
        None => {
            let f: Vec<HfFile> = Vec::new();
            assert(file_views(f@) =~= siblings_of(v@));
            (f, 0)
        },
    };
    Some(
        HfModelInfo {
            id,
            author: cloned(v.get_str("author")),
            downloads: v.get_u64("downloads"),
            likes: v.get_u64("likes"),
            pipeline_tag: cloned(v.get_str("pipeline_tag")),
            tags,
            license,
            files,
            total_bytes,
        },
    )
}

/// Whether the listing of the files must be asked for: the description gave no
/// sizes.
pub fn needs_tree(info: &HfModelInfo) -> (r: bool)
    ensures
        r == (info.total_bytes == 0),
{
    info.total_bytes == 0
}

/// The files that the listing of a repository names.
pub open spec fn tree_files(tree: JsonTree) -> Seq<FileView> {
    listed_files(items_or_none(Some(tree)), "path"@)
}

/// Takes the files over from the listing, where it is one. `false`, and nothing
/// taken over, where the sizes do not add up to a 64-bit number.
pub fn apply_tree(info: &mut HfModelInfo, tree: &Json) -> (done: bool)
    requires
        old(info).total_bytes == 0,
    ensures
        done <==> files_bytes(tree_files(tree@)) <= u64::MAX,
        done && tree@ is Array ==> {
            &&& file_views(final(info).files@) == tree_files(tree@)
            &&& final(info).total_bytes == files_bytes(tree_files(tree@))
        },
        !done || !(tree@ is Array) ==> *final(info) == *old(info),
        final(info).id@ == old(info).id@,
        maybe_text(final(info).author) == maybe_text(old(info).author),
        final(info).downloads == old(info).downloads,
        final(info).likes == old(info).likes,
        maybe_text(final(info).pipeline_tag) == maybe_text(old(info).pipeline_tag),
        views(final(info).tags@) == views(old(info).tags@),
        maybe_text(final(info).license) == maybe_text(old(info).license),
{
    match tree.as_array() {
        Some(entries) => match files_in(entries, "path") {
            Some((files, total)) => {
                info.files = files;
                info.total_bytes = total;
                true
            },
            None => false,
        },
        None => {
            assert(tree_files(tree@) =~= Seq::empty());
            true
        },
    }
}

/// What the hub's description, as text, says of a repository: `Err` where it is
/// not JSON, `Ok(None)` where the sizes of its files do not add up to a 64-bit
/// number.
pub fn fetch_hf_info(text: &str, repo: &str) -> (r: Result<Option<HfModelInfo>, ()>)
    ensures
        match parsed(text@) {
            Some(t) => match r {
                Ok(Some(i)) => {
                    &&& describes(i, t, repo@)
                    &&& file_views(i.files@) == siblings_of(t)
                    &&& i.total_bytes == files_bytes(siblings_of(t))
                },
                Ok(None) => files_bytes(siblings_of(t)) > u64::MAX,
                Err(_) => false,
            },
            None => r is Err,
        },
{
    match parse_json(text) {
        Some(v) => Ok(hf_info_from(&v, repo)),
        None => Err(()),
    }
}

/// Takes the files over from the hub's listing, as text. A text that is not a JSON
/// array changes nothing. `false`, and nothing taken over, where the sizes do not
/// add up to a 64-bit number.
pub fn apply_tree_text(info: &mut HfModelInfo, text: &str) -> (done: bool)
    requires
        old(info).total_bytes == 0,
    ensures
        match parsed(text@) {
            Some(t) => {
                &&& done <==> files_bytes(tree_files(t)) <= u64::MAX
                &&& done && t is Array ==> {
                    &&& file_views(final(info).files@) == tree_files(t)
                    &&& final(info).total_bytes == files_bytes(tree_files(t))
                }
                &&& !done || !(t is Array) ==> *final(info) == *old(info)
            },
            None => done && *final(info) == *old(info),
        },
        final(info).id@ == old(info).id@,
        maybe_text(final(info).author) == maybe_text(old(info).author),
        final(info).downloads == old(info).downloads,
        final(info).likes == old(info).likes,
        maybe_text(final(info).pipeline_tag) == maybe_text(old(info).pipeline_tag),
        views(final(info).tags@) == views(old(info).tags@),
        maybe_text(final(info).license) == maybe_text(old(info).license),
{
    match parse_json(text) {
        Some(tree) => apply_tree(info, &tree),
        None => true,
    }
}

// ---------------------------------------------------------------------------
// Formatting
// ---------------------------------------------------------------------------

pub const KB: u64 = 1_000;

pub const MB: u64 = 1_000_000;

pub const GB: u64 = 1_000_000_000;

/// A number of hundredths as a decimal.
pub open spec fn hundredths_text(n: nat) -> Seq<char> {
    dec_text(n / 100) + "."@ + dec_text((n % 100) / 10) + dec_text(n % 10)
}

/// A number of tenths as a decimal.
pub open spec fn tenths_text(n: nat) -> Seq<char> {
    dec_text(n / 10) + "."@ + dec_text(n % 10)
}

/// A size for people: in gigabytes to two places, megabytes to one, kilobytes to
/// none, or bytes. The quotient is a double, and prints as the decimal nearest to
/// it.
pub open spec fn size_text(bytes: u64) -> Seq<char> {
    if bytes >= GB {
        hundredths_text(scaled_quotient(bytes as nat, GB as nat, 100)) + " GB"@
    } else if bytes >= MB {
        tenths_text(scaled_quotient(bytes as nat, MB as nat, 10)) + " MB"@
    } else if bytes >= KB {
        dec_text(scaled_quotient(bytes as nat, KB as nat, 1)) + " KB"@
    } else {
        dec_text(bytes as nat) + " B"@
    }
}

/// A size for people.
pub fn format_size(bytes: u64) -> (r: String)
    ensures
        r@ == size_text(bytes),
{
    if bytes >= GB {
        let n = round_quotient(bytes, GB, 100);
        let mut out = dec(n / 100);
        out.append(".");
        out.append(dec((n % 100) / 10).as_str());
        out.append(dec(n % 10).as_str());
        out.append(" GB");
        assert(out@ =~= size_text(bytes));
        out
    } else if bytes >= MB {
        let n = round_quotient(bytes, MB, 10);
        let mut out = dec(n / 10);
        out.append(".");
        out.append(dec(n % 10).as_str());
        out.append(" MB");
        out
    } else if bytes >= KB {
        let n = round_quotient(bytes, KB, 1);
        dec(n).concat(" KB")
    } else {
        dec(bytes).concat(" B")
    }
}

// ---------------------------------------------------------------------------
// Laws
// ---------------------------------------------------------------------------

pub open spec fn models_in_order(s: Seq<InstalledModel>) -> bool {
    forall|i: int, j: int|
        0 <= i < j < s.len() ==> !lex_less((#[trigger] s[j]).spec@, (#[trigger] s[i]).spec@)
}

proof fn model_inserted_in_order(s: Seq<InstalledModel>, x: InstalledModel)
    requires
        models_in_order(s),
    ensures
        models_in_order(model_inserted(s, x)),
        model_inserted(s, x).to_multiset() == s.to_multiset().insert(x),
        forall|k: int|
            0 <= k < model_inserted(s, x).len() ==> #[trigger] model_inserted(s, x)[k] == x
                || s.contains(model_inserted(s, x)[k]),
    decreases s.len(),
{
    broadcast use vstd::seq_lib::group_to_multiset_ensures;

    let t = model_inserted(s, x);
    if s.len() > 0 && lex_less(x.spec@, s.last().spec@) {
        let init = s.drop_last();
        let last = s.last();
        let u = model_inserted(init, x);
        assert forall|i: int, j: int| 0 <= i < j < init.len() implies !lex_less(
            (#[trigger] init[j]).spec@,
            (#[trigger] init[i]).spec@,
        ) by {
            assert(init[j] == s[j] && init[i] == s[i]);
        }
        model_inserted_in_order(init, x);
        assert forall|k: int| 0 <= k < u.len() implies !lex_less(
            last.spec@,
            (#[trigger] u[k]).spec@,
        ) by {
            if u[k] == x {
                lex_less_is_a_strict_order(x.spec@, last.spec@, x.spec@);
            } else {
                let m = choose|m: int| 0 <= m < init.len() && init[m] == u[k];
                assert(s[m] == u[k]);
                assert(!lex_less(s[s.len() - 1].spec@, s[m].spec@));
            }
        }
        assert forall|i: int, j: int| 0 <= i < j < t.len() implies !lex_less(
            (#[trigger] t[j]).spec@,
            (#[trigger] t[i]).spec@,
        ) by {
            assert(t[i] == u[i]);
            if j < u.len() {
                assert(t[j] == u[j]);
            }
        }
        assert forall|k: int| 0 <= k < t.len() implies #[trigger] t[k] == x || s.contains(
            t[k],
        ) by {
            if k < u.len() {
                assert(t[k] == u[k]);
                if u[k] != x {
                    let m = choose|m: int| 0 <= m < init.len() && init[m] == u[k];
                    assert(s[m] == t[k]);
                }
            } else {
                assert(s[s.len() - 1] == t[k]);
            }
        }
        assert(s =~= init.push(last));
        assert(t.to_multiset() =~= u.to_multiset().insert(last));
        assert(s.to_multiset() =~= init.to_multiset().insert(last));
        assert(t.to_multiset() =~= s.to_multiset().insert(x));
    } else {
        assert forall|i: int, j: int| 0 <= i < j < t.len() implies !lex_less(
            (#[trigger] t[j]).spec@,
            (#[trigger] t[i]).spec@,
        ) by {
            if j < s.len() {
                assert(t[j] == s[j] && t[i] == s[i]);
            } else {
                assert(t[i] == s[i]);
                let last = s.last();
                if i < s.len() - 1 {
                    assert(!lex_less(s[s.len() - 1].spec@, s[i].spec@));
                    lex_less_is_a_strict_order(x.spec@, s[i].spec@, last.spec@);
                    lex_less_is_a_strict_order(s[i].spec@, last.spec@, x.spec@);
                }
            }
        }
        assert forall|k: int| 0 <= k < t.len() implies #[trigger] t[k] == x || s.contains(
            t[k],
        ) by {
            if k < s.len() {
                assert(s[k] == t[k]);
            }
        }
    }
}

/// A scan lists everything that was found, nothing else, and in the order of the
/// specs.
pub proof fn a_scan_is_complete_and_sorted(s: Seq<InstalledModel>)
    ensures
        models_in_order(models_sorted(s)),
        models_sorted(s).to_multiset() == s.to_multiset(),
    decreases s.len(),
{
    broadcast use vstd::seq_lib::group_to_multiset_ensures;

    if s.len() > 0 {
        a_scan_is_complete_and_sorted(s.drop_last());
        model_inserted_in_order(models_sorted(s.drop_last()), s.last());
        assert(s =~= s.drop_last().push(s.last()));
    } else {
        assert(s.to_multiset() =~= models_sorted(s).to_multiset());
    }
}

/// The size of a directory is that of its entries together: of a file its own, of
/// a directory its own, of a link that of what it leads to, where it leads anywhere.
pub proof fn sizes_add_up(a: Seq<EntryKind>, b: Seq<EntryKind>, x: EntryKind)
    ensures
        dir_bytes(a + b) == dir_bytes(a) + dir_bytes(b),
        x is Directory ==> dir_bytes(seq![x]) == x->Directory_0,
        x is File ==> dir_bytes(seq![x]) == x->File_0,
        x == EntryKind::Link(None) ==> dir_bytes(seq![x]) == 0,
    decreases b.len(),
{
    let none = Seq::<EntryKind>::empty();
    assert(seq![x].drop_last() =~= none);
    assert(seq![x].last() == x);
    assert(dir_bytes(none) == 0);
    if b.len() == 0 {
        assert(a + b =~= a);
    } else {
        sizes_add_up(a, b.drop_last(), x);
        assert((a + b).drop_last() =~= a + b.drop_last());
        assert((a + b).last() == b.last());
    }
}


/// The size of a model in tensors is that of its tensor layers together; a layer of
/// another kind, or of unknown size, adds nothing.
pub proof fn tensors_add_up(a: Seq<JsonTree>, b: Seq<JsonTree>, x: JsonTree)
    ensures
        tensor_bytes(a + b) == tensor_bytes(a) + tensor_bytes(b),
        string_in(field_of(Some(x), "mediaType"@)) != Some("application/vnd.ollama.image.tensor"@) ==> tensor_bytes(seq![x]) == 0,
        integer_in(field_of(Some(x), "size"@)) is None ==> tensor_bytes(seq![x]) == 0,
        string_in(field_of(Some(x), "mediaType"@)) == Some("application/vnd.ollama.image.tensor"@) && integer_in(field_of(Some(x), "size"@)) is Some ==> tensor_bytes(seq![x]) == integer_in(field_of(Some(x), "size"@))->0,
    decreases b.len(),
{
    let none = Seq::<JsonTree>::empty();
    assert(seq![x].drop_last() =~= none);
    assert(seq![x].last() == x);
    assert(tensor_bytes(none) == 0);
    if b.len() == 0 {
        assert(a + b =~= a);
    } else {
        tensors_add_up(a, b.drop_last(), x);
        assert((a + b).drop_last() =~= a + b.drop_last());
        assert((a + b).last() == b.last());
    }
}


/// The size of a repository is that of its files together.
pub proof fn files_add_up(a: Seq<FileView>, b: Seq<FileView>, x: FileView)
    ensures
        files_bytes(a + b) == files_bytes(a) + files_bytes(b),
        files_bytes(seq![x]) == x.size,
    decreases b.len(),
{
    let none = Seq::<FileView>::empty();
    assert(seq![x].drop_last() =~= none);
    assert(seq![x].last() == x);
    assert(files_bytes(none) == 0);
    if b.len() == 0 {
        assert(a + b =~= a);
    } else {
        files_add_up(a, b.drop_last(), x);
        assert((a + b).drop_last() =~= a + b.drop_last());
        assert((a + b).last() == b.last());
    }
}


/// The strings of a list are listed in order, and nothing else is.
pub proof fn tags_are_listed(a: Seq<JsonTree>, b: Seq<JsonTree>, x: JsonTree)
    ensures
        strings_in(a + b) == strings_in(a) + strings_in(b),
        x is Str ==> strings_in(seq![x]) == seq![x->Str_0],
        !(x is Str) ==> strings_in(seq![x]).len() == 0,
    decreases b.len(),
{
    let none = Seq::<JsonTree>::empty();
    assert(seq![x].drop_last() =~= none);
    assert(seq![x].last() == x);
    assert(strings_in(none) =~= Seq::empty());
    if x is Str {
        assert(strings_in(seq![x]) =~= seq![x->Str_0]);
    }
    if !(x is Str) {
        assert(strings_in(seq![x]) =~= Seq::empty());
    }
    if b.len() == 0 {
        assert(a + b =~= a);
        assert(strings_in(a) + strings_in(b) =~= strings_in(a));
    } else {
        tags_are_listed(a, b.drop_last(), x);
        assert((a + b).drop_last() =~= a + b.drop_last());
        assert((a + b).last() == b.last());
        assert(strings_in(a + b) =~= strings_in(a) + strings_in(b));
    }
}


/// A model is the first layer of a manifest that is a whole model and has a digest.
pub proof fn the_first_model_layer_counts(layers: Seq<JsonTree>, k: int)
    requires
        0 <= k < layers.len(),
        string_in(field_of(Some(layers[k]), "mediaType"@)) == Some(
            "application/vnd.ollama.image.model"@,
        ),
        string_in(field_of(Some(layers[k]), "digest"@)) is Some,
        forall|j: int|
            0 <= j < k ==> string_in(field_of(Some(#[trigger] layers[j]), "mediaType"@)) != Some(
                "application/vnd.ollama.image.model"@,
            ),
    ensures
        model_digest(layers, 0) == string_in(field_of(Some(layers[k]), "digest"@)),
{
    model_layer_is(layers, 0, k);
}

proof fn model_layer_is(layers: Seq<JsonTree>, i: int, k: int)
    requires
        0 <= i <= k < layers.len(),
        is_layer(layers[k], "application/vnd.ollama.image.model"@),
        string_in(field_of(Some(layers[k]), "digest"@)) is Some,
        forall|j: int|
            0 <= j < k ==> string_in(field_of(Some(#[trigger] layers[j]), "mediaType"@)) != Some(
                "application/vnd.ollama.image.model"@,
            ),
    ensures
        model_digest(layers, i) == string_in(field_of(Some(layers[k]), "digest"@)),
    decreases k - i,
{
    if i < k {
        assert(!is_layer(layers[i], "application/vnd.ollama.image.model"@));
        model_layer_is(layers, i + 1, k);
    }
}

/// A directory of the hub's cache names the model of its owner: under the prefix of
/// the community, else with its owner.
pub proof fn a_cache_directory_names_its_model(owner: Seq<char>, name: Seq<char>)
    requires
        forall|i: int| 0 <= i < owner.len() ==> (#[trigger] owner[i]) != '-',
    ensures
        hub_spec("models--mlx-community--"@ + name) == Some("mlx-community:"@ + name),
        hub_spec("models--"@ + owner + "--"@ + name) == Some("hf:"@ + owner + "/"@ + name),
{
    reveal_strlit("models--");
    reveal_strlit("--");
    reveal_strlit("mlx-community");
    reveal_strlit("models--mlx-community--");
    let p = "models--"@;
    let d = "--"@;
    let m = "mlx-community"@;
    let a = "models--mlx-community--"@ + name;
    let b = p + owner + d + name;
    let n = owner.len() as int;
    assert(a.subrange(0, 8) =~= p);
    assert(b.subrange(0, 8) =~= p);
    dashes_are_at(a, 8, 21);
    dashes_are_at(b, 8, 8 + n);
    assert(a.subrange(8, 21) =~= m);
    assert(a.subrange(23, a.len() as int) =~= name);
    assert(b.subrange(8, 8 + n) =~= owner);
    assert(b.subrange(10 + n, b.len() as int) =~= name);
    if owner == m {
        assert(owner[3] == '-');
    }
}

proof fn dashes_are_at(s: Seq<char>, at: int, i: int)
    requires
        0 <= at <= i,
        i + 2 <= s.len(),
        s[i] == '-' && s[i + 1] == '-',
        forall|j: int| at <= j < i ==> !(#[trigger] s[j] == '-' && s[j + 1] == '-'),
    ensures
        find_from(s, "--"@, at) == Some(i),
{
    reveal_strlit("--");
    let d = "--"@;
    crate::text::find_from_is_least(s, d, at);
    assert(s.subrange(i, i + 2) =~= d);
    assert(crate::text::occurs_at(s, d, i));
    assert forall|j: int| at <= j < i implies !crate::text::occurs_at(s, d, j) by {
        if crate::text::occurs_at(s, d, j) {
            assert(s.subrange(j, j + 2)[0] == '-' && s.subrange(j, j + 2)[1] == '-');
            assert(s[j] == '-' && s[j + 1] == '-');
        }
    }
}

/// A spec names a repository of the hub by its prefix, or as it is where it has an
/// owner; a path and a bare name do not.
pub proof fn a_spec_names_a_repository(repo: Seq<char>, other: Seq<char>)
    ensures
        hf_id_of("hf:"@ + repo) == Some(repo),
        hf_id_of("mlx-community:"@ + repo) == Some("mlx-community/"@ + repo),
        !starts_with(other, "hf:"@) && !starts_with(other, "mlx-community:"@) ==> {
            &&& !contains(other, "/"@) || starts_with(other, "/"@) ==> hf_id_of(other) is None
            &&& contains(other, "/"@) && !starts_with(other, "/"@) ==> hf_id_of(other) == Some(other)
        },
{
    reveal_strlit("hf:");
    reveal_strlit("mlx-community:");
    let a = "hf:"@ + repo;
    let b = "mlx-community:"@ + repo;
    assert(a.subrange(0, 3) =~= "hf:"@);
    assert(a.subrange(3, a.len() as int) =~= repo);
    assert(b.subrange(0, 14) =~= "mlx-community:"@);
    assert(b.subrange(14, b.len() as int) =~= repo);
    if starts_with(b, "hf:"@) {
        assert(b.subrange(0, 3)[0] == 'm');
    }
}

/// A file of a listing has the name and the size that are listed; what is missing is
/// empty or nothing.
pub proof fn a_listed_file_is_what_is_listed(t: JsonTree, key: Seq<char>)
    ensures
        string_in(field_of(Some(t), key)) matches Some(n) ==> listed_file(t, key).name == n,
        string_in(field_of(Some(t), key)) is None ==> listed_file(t, key).name.len() == 0,
        integer_in(field_of(Some(t), "size"@)) matches Some(n) ==> listed_file(t, key).size == n,
        integer_in(field_of(Some(t), "size"@)) is None ==> listed_file(t, key).size == 0,
{
}

/// Only a name that something stands before is a file of that kind.
pub proof fn a_weights_file_has_a_name(stem: Seq<char>)
    ensures
        stem.len() > 0 ==> is_gguf_name(stem + ".gguf"@),
        !is_gguf_name(".gguf"@),
        dashed(stem).len() == stem.len(),
        forall|i: int| 0 <= i < stem.len() && stem[i] == ':' ==> #[trigger] dashed(stem)[i] == '-',
        forall|i: int| 0 <= i < stem.len() && stem[i] != ':' ==> #[trigger] dashed(stem)[i] == stem[i],
{
    reveal_strlit(".gguf");
    let s = stem + ".gguf"@;
    assert(s.subrange(s.len() - 5, s.len() as int) =~= ".gguf"@);
}

/// A size is told in the largest unit that it reaches.
pub proof fn a_size_is_told_in_its_unit(bytes: u64)
    ensures
        bytes < 1_000 ==> size_text(bytes) == dec_text(bytes as nat) + " B"@,
        1_000 <= bytes < 1_000_000 ==> size_text(bytes).subrange(
            size_text(bytes).len() - 3,
            size_text(bytes).len() as int,
        ) == " KB"@,
        1_000_000 <= bytes < 1_000_000_000 ==> size_text(bytes).subrange(
            size_text(bytes).len() - 3,
            size_text(bytes).len() as int,
        ) == " MB"@,
        1_000_000_000 <= bytes ==> size_text(bytes).subrange(
            size_text(bytes).len() - 3,
            size_text(bytes).len() as int,
        ) == " GB"@,
{
    reveal_strlit(" KB");
    reveal_strlit(" MB");
    reveal_strlit(" GB");
    let s = size_text(bytes);
    if 1_000 <= bytes < 1_000_000 {
        assert(s.subrange(s.len() - 3, s.len() as int) =~= " KB"@);
    } else if 1_000_000 <= bytes < 1_000_000_000 {
        assert(s.subrange(s.len() - 3, s.len() as int) =~= " MB"@);
    } else if 1_000_000_000 <= bytes {
        assert(s.subrange(s.len() - 3, s.len() as int) =~= " GB"@);
    }
}

/// A number of tenths, or of hundredths, is told with its point.
pub proof fn fractions_are_told_with_a_point(whole: nat, part: nat, last: nat)
    requires
        part < 10,
        last < 10,
    ensures
        tenths_text((10 * whole + part) as nat) == dec_text(whole) + "."@ + dec_text(part),
        hundredths_text((100 * whole + 10 * part + last) as nat) == dec_text(whole) + "."@
            + dec_text(part) + dec_text(last),
{
    let n = 100 * whole + 10 * part + last;
    assert(n / 100 == whole && n % 100 == 10 * part + last && n % 10 == last);
    assert((n % 100) / 10 == part);
}

/// A description says of a repository what the hub says: its id, or the one that was
/// asked for, its author, its numbers, its tags, and its licence, that of the card
/// first.
pub proof fn a_description_says_what_the_hub_says(i: HfModelInfo, t: JsonTree, repo: Seq<char>)
    requires
        describes(i, t, repo),
    ensures
        string_in(member(t, "id"@)) is None ==> i.id@ == repo,
        string_in(member(t, "id"@)) matches Some(s) ==> i.id@ == s,
        maybe_text(i.author) == string_in(member(t, "author"@)),
        i.downloads == integer_in(member(t, "downloads"@)),
        i.likes == integer_in(member(t, "likes"@)),
        maybe_text(i.pipeline_tag) == string_in(member(t, "pipeline_tag"@)),
        items_in(member(t, "tags"@)) matches Some(l) ==> views(i.tags@) == strings_in(l),
        string_in(field_of(member(t, "cardData"@), "license"@)) matches Some(s) ==> maybe_text(
            i.license,
        ) == Some(s),
        string_in(field_of(member(t, "cardData"@), "license"@)) is None ==> maybe_text(i.license)
            == string_in(member(t, "license"@)),
{
}

/// The files of a repository are listed one for one: in a description under their
/// names, in a listing under their paths.
pub proof fn files_are_listed_one_for_one(t: JsonTree, l: Seq<JsonTree>, i: int)
    requires
        0 <= i < l.len(),
    ensures
        member(t, "siblings"@) == Some(JsonTree::Array(l)) ==> siblings_of(t).len() == l.len()
            && siblings_of(t)[i] == listed_file(l[i], "rfilename"@),
        t == JsonTree::Array(l) ==> tree_files(t).len() == l.len() && tree_files(t)[i]
            == listed_file(l[i], "path"@),
        !(t is Array) ==> tree_files(t).len() == 0,
{
}

/// The layers of a manifest are those that it lists.
pub proof fn a_manifest_lists_its_layers(t: JsonTree, l: Seq<JsonTree>)
    ensures
        member(t, "layers"@) == Some(JsonTree::Array(l)) ==> layers_of(t) == l,
        member(t, "layers"@) is None ==> layers_of(t).len() == 0,
{
}

/// A directory, a file, and a link to a file count with their bytes; nothing else
/// counts.
pub proof fn entries_count_with_their_bytes(n: u64)
    ensures
        entry_bytes(EntryKind::Directory(n)) == n,
        entry_bytes(EntryKind::File(n)) == n,
        entry_bytes(EntryKind::Link(Some(n))) == n,
        entry_bytes(EntryKind::Link(None)) == 0,
        entry_bytes(EntryKind::Other) == 0,
{
}

} // verus!
