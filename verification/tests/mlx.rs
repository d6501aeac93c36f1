use rozum::chat::{ChatEvent, ContentBlock, Message, Role, StopReason, ToolDef};
use rozum::engine::is_runaway_loop;
use rozum::json::{parse_json, Json};
use rozum::mlx_native_backend::batch::{batch_stats, mlx_memory_mb, BatchRun, BatchStats, Rows};
use rozum::mlx_native_backend::config::{
    available_ram_bytes, batch_cap, batch_window_ms, cap_mlx_memory, config_model_type,
    constrain_enabled, context_window, hub_of, is_hybrid_model, kv_bytes_per_position,
    model_type_gate, model_type_is_dense, modelscope_dir, on_unless_zero, output_ceiling,
    prefix_slots, read_config, resolve_model_dir, snapshots_dir, spec_lookahead_k, spec_pair_gate,
    spec_to_hf_repo, supported_model_type, Arch, Found, Hub, Loader,
};
use rozum::mlx_native_backend::constraint::{
    allowed_mask, candidate_width, Form, ResponseConstraint, ToolConstraint,
};
use rozum::mlx_native_backend::decode::{BatchSeq, Offer};
use rozum::mlx_native_backend::jobs::{
    finish_job, is_batchable, is_greedy_request, kv_preflight, larger, output_budget, plan_job,
    route, sampling_of, should_constrain, spec_job_eligible, Job, JobSettings, Route, Sampling,
};
use rozum::mlx_native_backend::markup::{
    conversation, extract_tool_name, find_loose_tool_json, harmony_conversation, message_text,
    read_bos_token, role_str, tool_markup_at, tools_json,
};
use rozum::mlx_native_backend::pipeline::{PipelinedIds, Pulled, Step};
use rozum::mlx_native_backend::prefix::PrefixStore;
use rozum::mlx_native_backend::speculation::{common_prefix_len, verify, Draft, DraftStep, Target};
use rozum::mlx_native_backend::worker::{
    chat_template, draft_failure, gather, gathered, plan_wave, runs_serially, same_family,
    turn_ends, Gather,
};
use rozum::serving::parse_tool_calls;

fn found(direct: bool, modelscope: bool, snapshots: &[(&str, bool)]) -> Found {
    Found {
        direct,
        modelscope,
        snapshots: snapshots.iter().map(|(s, b)| (s.to_string(), *b)).collect(),
    }
}

#[test]
fn resolve_missing_spec_is_none() {
    let nothing = found(false, false, &[]);
    assert!(resolve_model_dir("definitely/not-a-real-model-xyzzy", None, Some("/h"), &nothing).is_none());
}

#[test]
fn mistral_is_a_supported_model_type() {
    assert!(supported_model_type("mistral"));
    assert!(supported_model_type("llama"));
    assert!(supported_model_type("phi3"), "Phi-3 routes via the fused-split llama loader");
    assert!(!supported_model_type("mixtral"), "sparse MoE Mistral is another matter");
}

#[test]
fn hybrid_models_need_retain() {
    for t in ["qwen3_5", "qwen3_5_text", "qwen3_5_moe", "qwen3_5_moe_text"] {
        assert!(is_hybrid_model(t), "{t} must be hybrid");
    }
    for t in ["qwen3", "qwen3_moe", "llama", "mistral", "phi3", "gemma3_text", "qwen2", "qwen2_5"] {
        assert!(!is_hybrid_model(t), "{t} is dense (unretained path)");
    }
}

fn json(text: &str) -> Json {
    parse_json(text).unwrap()
}

#[test]
fn kv_bytes_per_position_estimate() {
    let hybrid = json(
        "{\"text_config\":{\"num_hidden_layers\":64,\"full_attention_interval\":4,\"num_key_value_heads\":4,\"head_dim\":256}}",
    );
    assert_eq!(kv_bytes_per_position(&hybrid), Some(65_536));
    let dense = json(
        "{\"num_hidden_layers\":28,\"num_key_value_heads\":8,\"hidden_size\":4096,\"num_attention_heads\":32}",
    );
    assert_eq!(kv_bytes_per_position(&dense), Some(114_688));
    assert_eq!(kv_bytes_per_position(&json("{}")), None);
    // More than can be counted.
    let huge = json(
        "{\"num_hidden_layers\":4294967296,\"num_key_value_heads\":4294967296,\"head_dim\":256}",
    );
    assert_eq!(kv_bytes_per_position(&huge), None);
}

fn call_message(name: &str, input: &str) -> Message {
    Message {
        role: Role::Assistant,
        content: vec![ContentBlock::ToolUse {
            id: "call_1".to_string(),
            name: name.to_string(),
            input: json(input),
        }],
    }
}

#[test]
fn tool_use_round_trips_into_history() {
    let rendered = message_text(&call_message("get_weather", "{\"city\":\"Paris\"}"));
    assert!(rendered.contains("<tool_call>"), "rendered: {rendered}");
    let calls = parse_tool_calls(&rendered);
    assert_eq!(calls.len(), 1);
    assert_eq!(calls[0].0, "get_weather");
    assert!(calls[0].1.contains("Paris"), "args: {}", calls[0].1);
    // What was written is what is read, character for character.
    let input = "{\"n\":[1,-2,{\"s\":\"a\\\"b\\n\"}],\"t\":true}";
    let again = parse_tool_calls(&message_text(&call_message("f", input)));
    assert_eq!(again, vec![("f".to_string(), input.to_string())]);
    // So are several calls with text around them.
    let mixed = Message {
        role: Role::Assistant,
        content: vec![
            ContentBlock::Text { text: "first </tool_call> {\"name\":1}".to_string() },
            ContentBlock::ToolUse { id: "a".to_string(), name: "f".to_string(), input: json("{\"x\":1}") },
            ContentBlock::ToolUse { id: "b".to_string(), name: "g".to_string(), input: json("[]") },
            ContentBlock::ToolResult { tool_use_id: "a".to_string(), content: "<tool".to_string() },
        ],
    };
    assert_eq!(
        parse_tool_calls(&message_text(&mixed)),
        vec![("f".to_string(), "{\"x\":1}".to_string()), ("g".to_string(), "[]".to_string())]
    );
    // A value that closes the envelope itself does not come back.
    let closing = message_text(&call_message("f", "{\"s\":\"</tool_call>\"}"));
    assert!(parse_tool_calls(&closing).is_empty());
}

#[test]
fn find_loose_tool_json_locates_envelope() {
    assert_eq!(find_loose_tool_json(r#"{"name":"Write","arguments":{}}"#), Some(0));
    let fenced = "I'll write it.\n```json\n{\n  \"name\": \"Write\"\n}\n```";
    let off = find_loose_tool_json(fenced).unwrap();
    assert_eq!(&fenced[off..off + 1], "{");
    assert_eq!(find_loose_tool_json("the struct is { x: 1 }"), None);
    assert_eq!(find_loose_tool_json(r#"{"file_path":"a","content":"b"}"#), None);
    // The offset counts bytes.
    assert_eq!(find_loose_tool_json("é {\"name\":1}"), Some(3));
}

#[test]
fn tool_markup_suppression_points() {
    assert_eq!(tool_markup_at("hi <tool_call>{}", false), Some(3));
    let fenced = "I'll write it.\n```json\n{\"name\":\"Write\"}";
    assert_eq!(tool_markup_at(fenced, true), fenced.find("```"));
    assert_eq!(tool_markup_at("ok {\"name\":\"x\"}", true), Some(3));
    assert_eq!(tool_markup_at("```json\n{\"name\":\"x\"}", false), None);
    assert_eq!(tool_markup_at("returns { x: 1 }", true), None);
    // A fence that holds more than the name of a language stays.
    assert_eq!(tool_markup_at("```a+b\n{\"name\":\"x\"}", true), Some(7));
    assert_eq!(tool_markup_at("é```json\n{\"name\":\"x\"}", true), Some(2));
}

#[test]
fn extract_tool_name_from_partial_envelope() {
    assert_eq!(
        extract_tool_name(r#"{"name": "get_weather", "arguments": {"#).as_deref(),
        Some("get_weather")
    );
    assert_eq!(extract_tool_name(r#"{"name": "get_wea"#), None);
    assert_eq!(extract_tool_name(r#"{"#), None);
    assert_eq!(extract_tool_name(r#"{"name":"x","arguments":{}}"#).as_deref(), Some("x"));
}

#[test]
fn runaway_loop_detection() {
    assert!(!is_runaway_loop(&vec![7u32; 10]));
    assert!(is_runaway_loop(&vec![7u32; 80]));
    let cycle: Vec<u32> = (0..80).map(|i| [11u32, 22, 33][i % 3]).collect();
    assert!(is_runaway_loop(&cycle));
    let p16: Vec<u32> = (0..80).map(|i| (i % 16) as u32).collect();
    assert!(is_runaway_loop(&p16));
    let varied: Vec<u32> = (0..200).map(|i| (i * 2654435761u64 % 5003) as u32).collect();
    assert!(!is_runaway_loop(&varied));
    let mut tail = varied.clone();
    tail.extend([9u32; 20]);
    assert!(!is_runaway_loop(&tail));
}

#[test]
fn prefix_store_best_match() {
    let m = |entries: &Vec<Vec<u32>>, ids: &[u32]| {
        PrefixStore::<u8, u8>::best_match(entries, &ids.to_vec())
    };
    let entries: Vec<Vec<u32>> = vec![vec![1, 2, 3], vec![1, 9]];
    assert_eq!(m(&entries, &[1, 2, 3, 4, 5]), Some(0));
    assert_eq!(m(&entries, &[1, 9, 8, 7]), Some(1));
    assert_eq!(m(&entries, &[1, 0, 0]), None);
    let nested: Vec<Vec<u32>> = vec![vec![1], vec![1, 2], vec![1, 2, 3]];
    assert_eq!(m(&nested, &[1, 2, 3, 4]), Some(2));
    assert_eq!(m(&entries, &[1, 2, 3]), None);
    // Of equal conversations the last.
    assert_eq!(m(&vec![vec![1], vec![1]], &[1, 2]), Some(1));
}

#[test]
fn conversations_are_kept_and_found_again() {
    let mut s: PrefixStore<&str, &str> = PrefixStore::new(2);
    s.put_dense(vec![1, 2], "a");
    s.put_dense(vec![3], "b");
    s.put_dense(vec![4], "c");
    assert_eq!(s.dense, vec!["c", "b"], "the one used longest ago fell out");
    assert_eq!(s.take_dense(&vec![3, 9]), Some((1, "b")));
    assert_eq!(s.take_dense(&vec![3, 9]), None);
    s.put_hybrid(vec![5], "h");
    assert_eq!(s.take_hybrid(&vec![5, 6, 7]), Some((1, "h")));
}

fn sampling() -> Sampling {
    Sampling {
        max_tokens: None,
        temperature: None,
        top_p: None,
        top_k: None,
        repeat_penalty: None,
        seed: None,
        response_schema: false,
    }
}

fn bits(x: f32) -> Option<u32> {
    Some(x.to_bits())
}

#[test]
fn requests_are_told_apart_as_floating_point_tells_them() {
    let floats = [0.0f32, -0.0, 0.5, 1.0, 1.0000001, 0.9999999, 2.0, -1.0, f32::INFINITY, f32::NAN, f32::MIN_POSITIVE];
    for t in floats {
        let mut s = sampling();
        s.temperature = bits(t);
        assert_eq!(is_greedy_request(&s), t == 0.0, "{t}");
        s = sampling();
        s.top_p = bits(t);
        assert_eq!(is_greedy_request(&s), t >= 1.0, "{t}");
        s = sampling();
        s.repeat_penalty = bits(t);
        assert_eq!(is_greedy_request(&s), t == 1.0, "{t}");
        assert_eq!(is_batchable(&Job { tools: false, sampling: s }, true), t == 1.0, "{t}");
        for u in floats {
            let m = f32::from_bits(larger(t.to_bits(), u.to_bits()));
            assert!(m == t.max(u) || (m.is_nan() && t.max(u).is_nan()), "{t} {u}");
        }
    }
    let mut s = sampling();
    s.top_k = Some(u32::MAX);
    assert_eq!(sampling_of(&s).top_k, -1);
    assert_eq!(sampling_of(&sampling()).top_p, 1.0f32.to_bits());
    s = sampling();
    s.seed = Some(1);
    assert!(!is_greedy_request(&s));
}

#[test]
fn requests_take_their_way() {
    let mut j = Job { tools: true, sampling: sampling() };
    assert_eq!(route(&j, true, Arch::Qwen3), Route::ToolConstraint);
    assert_eq!(route(&j, false, Arch::Qwen3), Route::Plain);
    assert_eq!(route(&j, true, Arch::GptOss), Route::Plain);
    assert!(should_constrain(&j, true, Arch::Qwen35));
    assert!(!is_batchable(&j, true));
    assert!(is_batchable(&j, false));
    j = Job { tools: false, sampling: sampling() };
    assert!(spec_job_eligible(&j, true, Arch::Llama, Arch::Gemma3));
    assert!(!spec_job_eligible(&j, true, Arch::Qwen35, Arch::Qwen3));
    j.sampling.response_schema = true;
    assert_eq!(route(&j, true, Arch::Qwen35Moe), Route::ResponseConstraint);
    assert!(!is_batchable(&j, true));
    assert!(!spec_job_eligible(&j, true, Arch::Qwen3, Arch::Qwen3));
}

fn settings() -> JobSettings {
    JobSettings {
        ceiling: 8192,
        reuse: true,
        temperature_floor: 1.0f32.to_bits(),
        kv_per_pos: None,
        available: None,
    }
}

#[test]
fn jobs_are_planned_and_their_caches_kept() {
    assert_eq!(output_budget(None, 8192), 4096);
    assert_eq!(output_budget(Some(100_000), 8192), 8192);
    assert_eq!(output_budget(Some(100_000), 0), 100_000);
    let mut store: PrefixStore<&str, &str> = PrefixStore::new(4);
    let plan = plan_job(&mut store, Arch::Qwen3, &sampling(), &settings(), vec![1, 2, 3, 4], Some(3))
        .unwrap_or_else(|e| panic!("{e}"));
    assert_eq!(plan.reuse.reuse_len, 0);
    assert_eq!((plan.conv_len, plan.gen_prompt_len()), (3, 1));
    finish_job(&mut store, Arch::Qwen3, &settings(), &plan, Some("kv"), None);
    let next = plan_job(&mut store, Arch::Qwen3, &sampling(), &settings(), vec![1, 2, 3, 9, 9], None)
        .unwrap_or_else(|e| panic!("{e}"));
    assert_eq!(next.reuse.reuse_len, 3);
    assert_eq!(next.reuse.dense, Some("kv"));
    assert_eq!(next.suffix(), vec![9, 9]);
    // A harmony model is never sampled cold.
    let h = plan_job(&mut store, Arch::GptOss, &sampling(), &settings(), vec![7], None)
        .unwrap_or_else(|e| panic!("{e}"));
    assert_eq!(h.temperature, 1.0f32.to_bits());
    assert!(h.harmony);
}

#[test]
fn caches_that_do_not_fit_are_refused() {
    const GB: u64 = 1 << 30;
    assert_eq!(kv_preflight(None, Some(GB), 10, 10), Ok(()));
    assert_eq!(kv_preflight(Some(1), None, 10, 10), Ok(()));
    assert_eq!(kv_preflight(Some(1024), Some(GB), 10, 10), Ok(()));
    let e = kv_preflight(Some(1 << 20), Some(GB), 1000, 4096).unwrap_err();
    let needed = (1u64 << 20) * 5096;
    let gb = |b: u64| b as f64 / (1024.0 * 1024.0 * 1024.0);
    let expected = format!(
        "mlx: context too large for available memory: {} prompt + {} gen tokens need ~{:.1} GB of KV cache but only ~{:.1} GB is free. Lower --n-ctx / max_tokens or shorten the prompt (fits ~{} tokens now).",
        1000,
        4096,
        gb(needed),
        gb(GB * 3 / 4),
        (GB * 3 / 4) / (1 << 20),
    );
    assert_eq!(e, expected);
}

#[test]
fn configurations_are_read() {
    let c = read_config(None);
    assert_eq!((c.n_ctx, c.eos, c.model_type.as_str(), c.kv_per_pos), (32_768, vec![151_645], "qwen3", None));
    let c = read_config(Some("{\"model_type\":\"gpt_oss\",\"eos_token_id\":200002,\"max_position_embeddings\":131072}"));
    assert_eq!(c.eos, vec![200_002, 199_999, 200_012]);
    assert_eq!(c.n_ctx, 131_072);
    let c = read_config(Some("{\"eos_token_id\":[1,\"x\",2]}"));
    assert_eq!(c.eos, vec![1, 2]);
    assert_eq!(context_window(100, Some(7)), 7);
    assert_eq!(context_window(100, None), 100);
    let wrapped = json("{\"text_config\":{\"model_type\":\"qwen3_5_text\"}}");
    assert_eq!(config_model_type(&wrapped).map(|s| s.as_str()), Some("qwen3_5_text"));
    assert!(model_type_gate(&wrapped).is_ok());
    assert_eq!(model_type_gate(&json("{}")).unwrap_err(), "config.json has no model_type");
    assert!(model_type_gate(&json("{\"model_type\":\"bert\"}")).unwrap_err().contains("'bert'"));
    assert!(spec_pair_gate("qwen3", "qwen3").is_ok());
    assert!(spec_pair_gate("qwen3_5", "qwen3").unwrap_err().contains("target arch 'qwen3_5'"));
    assert!(spec_pair_gate("qwen3", "gpt_oss").unwrap_err().contains("draft arch 'gpt_oss'"));
    assert_eq!(Loader::of("phi3").map(|l| l.arch()), Ok(Arch::Llama));
    assert_eq!(Loader::of("bert").unwrap_err(), "mlx: unsupported model_type 'bert'");
    assert_eq!(Loader::Llama.failure("/d", "e"), "mlx: load llama/mistral /d: e");
    assert!(model_type_is_dense("gemma3"));
}

#[test]
fn models_are_found_where_they_are() {
    assert_eq!(spec_to_hf_repo("mlx-community:X", false).as_deref(), Some("mlx-community/X"));
    assert_eq!(spec_to_hf_repo("hf:a/b", false).as_deref(), Some("a/b"));
    assert_eq!(spec_to_hf_repo("a/b", false).as_deref(), Some("a/b"));
    assert_eq!(spec_to_hf_repo("a/b", true), None);
    assert_eq!(spec_to_hf_repo("/a/b", false), None);
    assert_eq!(spec_to_hf_repo("ollama:a/b", false), None);
    assert!(matches!(hub_of("modelscope:a/b", false), Some(Hub::ModelScope(r)) if r == "a/b"));
    assert!(matches!(hub_of("hf:a/b", false), Some(Hub::HuggingFace(r)) if r == "a/b"));
    assert!(hub_of("plain", false).is_none());
    assert_eq!(modelscope_dir("modelscope:a/b", Some("/c"), None).as_deref(), Some("/c/hub/a/b"));
    assert_eq!(
        snapshots_dir("mlx-community:X", Some("/h")).as_deref(),
        Some("/h/.cache/huggingface/hub/models--mlx-community--X/snapshots")
    );
    assert_eq!(snapshots_dir("no-slash", Some("/h")), None);
    let some = found(false, false, &[("/s/1", false), ("/s/2", true)]);
    assert_eq!(resolve_model_dir("a/b", None, Some("/h"), &some).as_deref(), Some("/s/2"));
    assert_eq!(resolve_model_dir("/m", None, None, &found(true, false, &[])).as_deref(), Some("/m"));
    let ms = found(false, true, &[]);
    assert_eq!(resolve_model_dir("modelscope:a/b", Some("/c"), None, &ms).as_deref(), Some("/c/hub/a/b"));
}

#[test]
fn memory_is_read_and_capped() {
    let report = "Mach Virtual Memory Statistics: (page size of 4096 bytes)\nPages free:    10.\nPages active: 99.\nPages inactive:  5.\nPages speculative: 1.\nPages purgeable: 2.\n";
    assert_eq!(available_ram_bytes(report), Some(18 * 4096));
    assert_eq!(available_ram_bytes("Pages free: 1."), Some(16384));
    assert_eq!(available_ram_bytes("nothing"), None);
    const GB: u64 = 1 << 30;
    let c = cap_mlx_memory(Some(36 * GB), None, None);
    assert_eq!((c.memory, c.cache), (Some(28 * GB), Some(4 * GB)));
    let c = cap_mlx_memory(None, Some("0"), Some(" 3 "));
    assert_eq!((c.memory, c.cache), (Some(3 * GB), None));
    assert_eq!(cap_mlx_memory(Some(8 * GB), None, None).memory, Some(8 * GB));
    assert_eq!(mlx_memory_mb(None), None);
    assert_eq!(mlx_memory_mb(Some((3 << 20, 2 << 20, 1))), Some((3, 2, 0)));
}

#[test]
fn settings_have_defaults() {
    assert_eq!((batch_cap(None), batch_cap(Some("0")), batch_cap(Some(" 4 "))), (1, 1, 4));
    assert_eq!((batch_window_ms(None), batch_window_ms(Some("7"))), (10, 7));
    assert_eq!((spec_lookahead_k(None), spec_lookahead_k(Some("0")), spec_lookahead_k(Some("2"))), (4, 4, 2));
    assert_eq!((output_ceiling(None), output_ceiling(Some("0"))), (8192, 0));
    assert_eq!((prefix_slots(None), prefix_slots(Some("0"))), (4, 1));
    assert!(constrain_enabled(None) && !constrain_enabled(Some("off")) && constrain_enabled(Some("1")));
    assert!(on_unless_zero(None) && !on_unless_zero(Some("0")));
}

fn taken(o: Offer) -> Option<String> {
    match o {
        Offer::Taken { delta, .. } => delta,
        Offer::Finished => panic!("finished"),
    }
}

#[test]
fn text_is_streamed_once_and_calls_are_not() {
    let eos = vec![99];
    let mut s = BatchSeq::new(true, 5, 100);
    assert_eq!(taken(s.offer(1, &eos, false, Some("Hi\u{FFFD}"))).as_deref(), Some("Hi"));
    assert!(!s.settle(false, true));
    assert_eq!(taken(s.offer(2, &eos, false, Some("Hi there ```"))).as_deref(), Some(" there "));
    assert!(!s.settle(false, true));
    let full = "Hi there ```json\n{\"name\":\"f\",\"arguments\":{}}\n```";
    assert_eq!(taken(s.offer(3, &eos, false, Some(full))), None);
    assert!(!s.settle(false, true));
    assert!(matches!(s.offer(99, &eos, false, None), Offer::Finished));
    assert_eq!(s.count_calls(), 1);
    assert!(s.finish(&vec![]).is_none(), "there is no id for the call");
    let e = s.finish(&vec!["c1".to_string()]).unwrap();
    assert_eq!(
        e,
        vec![
            ChatEvent::ToolUseStart { id: "c1".to_string(), name: "f".to_string() },
            ChatEvent::ToolUseDelta { id: "c1".to_string(), input_json_delta: "{}".to_string() },
            ChatEvent::ToolUseEnd { id: "c1".to_string() },
            ChatEvent::Done { input_tokens: 5, output_tokens: 3, stop_reason: StopReason::ToolUse },
        ]
    );
}

#[test]
fn held_back_text_is_shown_in_the_end() {
    let eos = vec![99];
    let mut s = BatchSeq::new(true, 1, 2);
    assert_eq!(taken(s.offer(1, &eos, false, Some("a ```"))).as_deref(), Some("a "));
    assert!(!s.settle(false, true));
    assert_eq!(taken(s.offer(2, &eos, false, Some("a ```rust"))), None);
    assert!(s.settle(false, true), "the limit is reached");
    let e = s.finish(&vec![]).unwrap();
    assert_eq!(
        e,
        vec![
            ChatEvent::TextDelta { text: "```rust".to_string() },
            ChatEvent::Done { input_tokens: 1, output_tokens: 2, stop_reason: StopReason::MaxTokens },
        ]
    );
}

#[test]
fn a_stream_ends_where_nothing_is_left_to_tell() {
    let mut s = BatchSeq::new(false, 1, 2);
    s.full_text = "a".to_string();
    s.emitted = "ab".to_string();
    let done = ChatEvent::Done { input_tokens: 1, output_tokens: 0, stop_reason: StopReason::EndTurn };
    assert_eq!(s.finish(&vec![]).unwrap(), vec![done]);
    s.full_text = "aé".to_string();
    assert!(s.finish(&vec![]).is_none(), "the rest would start inside a character");
    s.full_text = "<tool_call>{\"name\":\"f\"}</tool_call>é".to_string();
    s.emitted = "é".to_string();
    assert_eq!(s.finish(&vec!["c1".to_string()]).unwrap().len(), 4, "calls need no rest");
}

#[test]
fn streams_end_for_their_readers_and_loops() {
    let mut s = BatchSeq::new(false, 1, 1000);
    taken(s.offer(1, &vec![], false, Some("x")));
    assert!(s.settle(true, true));
    assert_eq!(s.stop, StopReason::Cancelled);
    let mut s = BatchSeq::new(false, 1, 1000);
    assert!(matches!(s.offer(1, &vec![], true, None), Offer::Finished));
    assert_eq!(s.stop, StopReason::Cancelled);
    let mut s = BatchSeq::new(false, 1, 1000);
    let mut finished = false;
    for _ in 0..64 {
        taken(s.offer(7, &vec![], false, None));
        finished = s.settle(false, true);
    }
    assert!(finished);
    assert_eq!(s.stop, StopReason::EndTurn);
    assert!(!s.settle(false, false), "loops are not watched for");
}

#[test]
fn rows_are_aligned_at_the_end() {
    let mut r = Rows::assemble(&vec![3, 5, 1]);
    assert_eq!((r.width, r.pads.clone()), (5, vec![2, 0, 4]));
    r.advance();
    assert_eq!(r.width, 6);
    let keep = r.retire(&vec![false, true, false]);
    assert_eq!(keep, vec![0, 2]);
    assert_eq!((r.seq_of.clone(), r.pads.clone()), (vec![0, 2], vec![2, 4]));
    let i = r.insert(3, 8);
    assert_eq!((i.extra, i.pad, r.width), (2, 0, 8));
    assert_eq!(r.pads, vec![4, 6, 0]);
    let i = r.insert(4, 2);
    assert_eq!((i.extra, i.pad), (0, 6));
    assert!(r.sees(0, 4) && !r.sees(0, 3));
}

#[test]
fn a_batch_runs_its_rows() {
    let eos = vec![99];
    assert!(BatchRun::start(vec![], 2).is_none());
    let seqs = vec![BatchSeq::new(false, 2, 10), BatchSeq::new(false, 3, 10)];
    let mut b = BatchRun::start(seqs, 2).unwrap();
    assert!(!b.has_room());
    taken(b.offer(0, 5, &eos, false, Some("a")));
    assert!(!b.settle(0, false));
    assert!(matches!(b.offer(1, 99, &eos, false, None), Offer::Finished));
    assert_eq!(b.count_calls(1), 0);
    assert_eq!(b.finish(1, &vec![]).unwrap().len(), 1);
    assert_eq!((b.seqs[1].full_text.as_str(), b.seqs[1].stop), ("", StopReason::EndTurn));
    b.retire(&vec![false, true], &vec![5, 99]);
    assert_eq!(b.next, vec![5]);
    assert!(b.has_room());
    let i = b.join(BatchSeq::new(false, 7, 10), 6);
    assert_eq!((i.extra, i.pad), (4, 0));
    assert_eq!(b.next, vec![5, 6]);
    assert_eq!(b.rows.pads, vec![5, 0]);
    b.advance();
    assert_eq!(b.rows.width, 8);
    assert!(!b.is_over());
    b.retire(&vec![true, true], &vec![0, 0]);
    assert!(b.is_over());
}

#[test]
fn batches_are_counted() {
    let mut s = BatchStats::default();
    assert_eq!(batch_stats(&s), None);
    s.note_run();
    s.note_batch_rows(2, 2);
    s.note_join(3);
    assert_eq!(batch_stats(&s), Some(BatchStats { runs: 1, rows: 3, admits: 1, max: 3 }));
}

/// A model that counts up.
fn next_token(ctx: &[u32]) -> u32 {
    (ctx.iter().sum::<u32>() * 7 + ctx.len() as u32) % 23
}

#[test]
fn speculation_writes_what_the_target_writes() {
    assert_eq!(common_prefix_len(&vec![1, 2, 3], &vec![1, 2, 9]), 2);
    let eos = vec![22];
    let prompt = vec![3u32, 4, 5];
    // Plain decoding.
    let mut plain = prompt.clone();
    for _ in 0..40 {
        let t = next_token(&plain);
        plain.push(t);
        if eos.contains(&t) {
            break;
        }
    }
    for wrong_every in [1usize, 2, 3, 100] {
        let mut ctx = prompt.clone();
        let mut target = Target::new();
        let mut draft = Draft::new();
        let mut calls = 0;
        while ctx.len() < plain.len() {
            draft.begin(&ctx);
            while let DraftStep::Read(t) = draft.next(4, &eos) {
                let mut seen = draft.fed.clone();
                seen.extend(t);
                calls += 1;
                let guess = next_token(&seen) + u32::from(calls % wrong_every == 0);
                draft.chose(guess);
            }
            let feed = target.feed(&ctx, &draft.proposed);
            let base = target.kv_len;
            let mut all = ctx[..base].to_vec();
            let predictions: Vec<u32> = feed
                .iter()
                .map(|t| {
                    all.push(*t);
                    next_token(&all)
                })
                .collect();
            let v = target.verify(&ctx, &draft.proposed.clone(), &predictions, &eos);
            assert!(!v.emit.is_empty());
            ctx.extend(&v.emit);
            if v.eos {
                break;
            }
        }
        assert_eq!(&ctx[..plain.len().min(ctx.len())], &plain[..plain.len().min(ctx.len())]);
        assert!(ctx.len() >= plain.len());
    }
    let v = verify(&vec![1, 2], &vec![1, 9, 7], &vec![]);
    assert_eq!((v.emit, v.accepted, v.eos), (vec![1, 9], 1, false));
    let v = verify(&vec![1, 2], &vec![1, 2, 7], &vec![1]);
    assert_eq!((v.emit, v.accepted, v.eos), (vec![1], 1, true));
    let v = verify(&vec![], &vec![8], &vec![8]);
    assert_eq!((v.emit, v.accepted, v.eos), (vec![8], 0, true));
}

#[test]
fn calls_are_constrained_from_their_first_character() {
    let names = vec!["get_weather".to_string(), "search".to_string()];
    assert!(ToolConstraint::from_job(vec![]).is_none());
    let mut c = ToolConstraint::from_job(names.clone()).unwrap();
    assert_eq!(c.json_region("thinking…"), None);
    assert_eq!(c.json_region("é<tool_call>\n "), None);
    assert_eq!(c.json_region("é<tool_call>\n {").as_deref(), Some("{"));
    assert_eq!(c.form, Some(Form::Json { tool: None }));
    assert!(c.settle(false));
    let text = "é<tool_call>\n {\"name\":\"search\"";
    assert!(c.continues(text));
    assert_eq!(c.json_region(text).as_deref(), Some("{\"name\":\"search\""));
    assert_eq!(c.form, Some(Form::Json { tool: Some(1) }));
    assert!(!c.settle(true));
    assert_eq!(c.json_region(text), None);
    assert!(c.continues("é"));
    assert_eq!(c.json_region("é"), None);
    let mut x = ToolConstraint::from_job(names.clone()).unwrap();
    assert_eq!(x.json_region("<tool_call><function=").as_deref(), Some("<function="));
    assert_eq!(x.form, Some(Form::Xml));
    let mut loose = ToolConstraint::from_job(names).unwrap();
    assert_eq!(loose.json_region("so {\"name\"").as_deref(), Some("{\"name\""));
    let mut r = ResponseConstraint::from_job(true).unwrap_or_else(|| panic!("schema"));
    assert!(r.region(false));
    assert!(!r.region(true));
    assert!(!r.region(false));
    assert!(ResponseConstraint::from_job(false).is_none());
}

#[test]
fn candidates_are_widened_and_masked() {
    assert_eq!(
        (0..4).map(|s| candidate_width(s, 10_000)).collect::<Vec<_>>(),
        vec![Some(256), Some(4096), Some(10_000), None]
    );
    assert_eq!(candidate_width(0, 100), Some(100));
    assert_eq!(allowed_mask(&vec![2, 0, 2], 4), vec![true, false, true, false]);
}

#[test]
fn tokens_are_read_ahead_or_one_by_one() {
    let mut p = PipelinedIds::new(Pulled::Token(1u32), true);
    assert!(matches!(p.next(), Step::PullAndRead(1)));
    assert!(p.read_ahead(Pulled::Token(2), true).is_ok());
    assert!(matches!(p.next(), Step::PullAndRead(2)));
    assert!(p.read_ahead(Pulled::Failed("x".to_string()), true).is_ok());
    assert!(matches!(p.next(), Step::Fail(e) if e == "mlx: x"));
    assert!(matches!(p.next(), Step::End));
    let mut s = PipelinedIds::new(Pulled::Token(1u32), false);
    assert!(matches!(s.next(), Step::Read(1)));
    assert!(s.read(true).is_ok());
    assert!(matches!(s.next(), Step::Pull));
    s.fetched(Pulled::Token(2));
    assert!(matches!(s.next(), Step::Read(2)));
    assert_eq!(s.read(false).unwrap_err(), "mlx: eval failed");
    let mut f: PipelinedIds<u32> = PipelinedIds::new(Pulled::Failed("y".to_string()), true);
    assert!(matches!(f.next(), Step::Fail(e) if e == "mlx: y"));
}

#[test]
fn waves_are_planned() {
    let w = plan_wave(&vec![true, false, true], Arch::Qwen35);
    assert_eq!((w.batch, w.serial, w.hybrid), (vec![0, 2], vec![1], true));
    let w = plan_wave(&vec![true, false], Arch::Qwen3);
    assert_eq!((w.batch, w.serial, w.hybrid), (vec![], vec![1, 0], false));
    assert!(runs_serially(1, Arch::Qwen3));
    assert!(runs_serially(4, Arch::GptOss));
    assert!(!runs_serially(4, Arch::Llama));
    assert_eq!(gather(1, 2), Gather::Look);
    assert_eq!(gather(2, 2), Gather::Start);
    assert_eq!(gathered(true, true), Gather::Take);
    assert_eq!(gathered(false, false), Gather::Wait);
    assert_eq!(gathered(false, true), Gather::Start);
    let mut eos = vec![1];
    turn_ends(&mut eos, Some(106));
    turn_ends(&mut eos, Some(1));
    turn_ends(&mut eos, None);
    assert_eq!(eos, vec![1, 106]);
    assert_eq!(chat_template(None, Some("f".to_string()), false), Ok("f".to_string()));
    assert_eq!(chat_template(Some("c".to_string()), None, false), Ok("c".to_string()));
    assert_eq!(chat_template(None, None, true).unwrap_err(), "mlx: no chat template");
    assert!(chat_template(None, None, false).unwrap_err().contains("chat_template.jinja"));
    assert!(same_family(&vec![(Some(1), Some(1)), (None, Some(2))]).is_ok());
    assert!(same_family(&vec![(Some(1), Some(2))]).is_err());
    assert_eq!(draft_failure("e"), "spec-decode draft: e");
}

fn value(j: &Json) -> serde_json::Value {
    serde_json::from_str(&j.to_text()).unwrap()
}

#[test]
fn messages_are_rendered_for_templates() {
    let msg = Message {
        role: Role::Assistant,
        content: vec![
            ContentBlock::Text { text: "ok".to_string() },
            ContentBlock::ToolUse { id: "c".to_string(), name: "f".to_string(), input: json("{\"a\":1}") },
        ],
    };
    assert_eq!(
        message_text(&msg),
        "ok\n<tool_call>\n{\"arguments\":{\"a\":1},\"name\":\"f\"}\n</tool_call>"
    );
    let h = harmony_conversation(&msg);
    assert_eq!((h.role, h.content.as_str()), ("assistant", "ok"));
    assert_eq!(value(&h.tool_calls.unwrap())[0]["function"]["arguments"]["a"], 1);
    let c = conversation("plain", &msg);
    assert!(c.tool_calls.is_none() && c.content.contains("<tool_call>"));
    assert_eq!(conversation("x <|channel|> y", &msg).content, "ok");
    assert_eq!(role_str(&Role::Tool), "tool");
    assert_eq!(tools_json(&vec![]).to_text(), "[]");
    let t = tools_json(&vec![ToolDef {
        name: "f".to_string(),
        description: "d".to_string(),
        input_schema: json("{\"type\":\"object\"}"),
    }]);
    assert_eq!(value(&t)[0]["function"]["parameters"]["type"], "object");
    assert_eq!(read_bos_token("{\"bos_token\":\"<s>\"}").as_deref(), Some("<s>"));
    assert_eq!(read_bos_token("{\"bos_token\":{\"content\":\"<bos>\"}}").as_deref(), Some("<bos>"));
    assert_eq!(read_bos_token("{\"bos_token\":null}"), None);
    assert_eq!(read_bos_token("{"), None);
}
