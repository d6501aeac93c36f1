use rozum::chat::{ChatEvent, ContentBlock, Message, Role, StopReason, ToolCall, ToolDef};
use rozum::json::parse_json;
use rozum::mistralrs_admission::AdmitError;
use rozum::mistralrs_backend::{
    budgeted_max_num_seqs, build_request, estimate_cost, normalize_spec, per_seq_prefill_peak,
    reduced_context, start_turn, ChunkChoice, ConcurrencyBudget, EngineMessage, MistralrsOptions,
    Turn, TurnStart, DEFAULT_SEQS_CEILING,
};

#[test]
fn normalize_mlx_community_prefix() {
    assert_eq!(
        normalize_spec("mlx-community:Qwen2.5-Coder-32B-Instruct-4bit"),
        "mlx-community/Qwen2.5-Coder-32B-Instruct-4bit"
    );
}

#[test]
fn normalize_hf_prefix() {
    assert_eq!(normalize_spec("hf:Qwen/Qwen3-4B"), "Qwen/Qwen3-4B");
}

#[test]
fn normalize_bare_passthrough() {
    assert_eq!(normalize_spec("Qwen/Qwen3-4B"), "Qwen/Qwen3-4B");
    assert_eq!(normalize_spec("/abs/path"), "/abs/path");
}

const GB: u64 = 1 << 30;

fn budget(available_gb: u64) -> ConcurrencyBudget {
    ConcurrencyBudget {
        available_ram: Some(available_gb * GB),
        weights: Some(20 * GB),
        kv_pool: Some(4 * GB),
        per_seq_peak: per_seq_prefill_peak(4096),
        ceiling: DEFAULT_SEQS_CEILING,
    }
}

#[test]
fn budget_serialises_when_no_headroom_for_a_second_prefill() {
    assert_eq!(budgeted_max_num_seqs(&budget(32)), 1);
    assert_eq!(budgeted_max_num_seqs(&budget(36)), 2);
}

#[test]
fn budget_scales_with_memory_up_to_the_ceiling() {
    assert_eq!(budgeted_max_num_seqs(&budget(48)), 7);
    assert_eq!(budgeted_max_num_seqs(&budget(64)), DEFAULT_SEQS_CEILING);
}

#[test]
fn budget_floors_to_one_on_unknown_or_overcommitted_memory() {
    let mut b = budget(64);
    b.weights = None;
    assert_eq!(budgeted_max_num_seqs(&b), 1);
    assert_eq!(budgeted_max_num_seqs(&budget(16)), 1);
}

fn text(role: Role, t: &str) -> Message {
    Message { role, content: vec![ContentBlock::Text { text: t.to_string() }] }
}

#[test]
fn options_and_costs() {
    assert_eq!(MistralrsOptions::with_n_ctx(Some(4096)).n_ctx, 4096);
    assert_eq!(MistralrsOptions::with_n_ctx(None).n_ctx, MistralrsOptions::default().n_ctx);
    assert_eq!(per_seq_prefill_peak(2), 2 * 465 * 1024);
    let c = estimate_cost(&vec![text(Role::User, "12345678")], Some(10));
    assert_eq!(c.max_tokens, 10);
    assert!(c.prompt_tokens >= 1);
}

#[test]
fn a_smaller_context_is_tried_for_lack_of_memory_only() {
    assert!(reduced_context("everything is fine", 32768).is_none());
}

#[test]
fn requests_carry_calls_and_results() {
    let msgs = vec![
        text(Role::System, "s"),
        Message {
            role: Role::Assistant,
            content: vec![ContentBlock::ToolUse {
                id: "c1".to_string(),
                name: "f".to_string(),
                input: parse_json("{\"a\":1}").unwrap(),
            }],
        },
        Message {
            role: Role::Tool,
            content: vec![ContentBlock::ToolResult {
                tool_use_id: "c1".to_string(),
                content: "done".to_string(),
            }],
        },
    ];
    let tools = vec![ToolDef {
        name: "f".to_string(),
        description: "d".to_string(),
        input_schema: parse_json("{\"type\":\"object\"}").unwrap(),
    }];
    let r = build_request(&msgs, &tools, Some(5), Some(3));
    assert_eq!(r.max_len, 5);
    assert_eq!(r.top_k, Some(3));
    assert!(r.tool_choice_auto);
    assert_eq!(r.tools.len(), 1);
    assert!(r.messages.iter().any(|m| matches!(m, EngineMessage::WithToolCalls(_, c) if c.len() == 1 && c[0].arguments == "{\"a\":1}")));
    assert!(r.messages.iter().any(|m| matches!(m, EngineMessage::ToolResult(t, id) if t == "done" && id == "c1")));
    let bare = build_request(&msgs, &vec![], None, None);
    assert!(!bare.tool_choice_auto);
    assert_eq!(bare.max_len, 4096);
}

#[test]
fn turns_start_run_and_end() {
    assert!(matches!(start_turn(true, None), TurnStart::Cancelled(ChatEvent::Done { stop_reason: StopReason::Cancelled, .. })));
    assert!(matches!(start_turn(false, Some(AdmitError::Overloaded)), TurnStart::Shed(_)));
    assert!(matches!(start_turn(false, None), TurnStart::Run));

    let mut t = Turn::new();
    let piece = ChunkChoice {
        reasoning: None,
        content: Some("hi".to_string()),
        tool_calls: vec![],
        finish_reason: None,
    };
    let e = t.on_chunk(&Some(piece));
    assert_eq!(e, vec![ChatEvent::TextDelta { text: "hi".to_string() }]);
    assert_eq!(t.output_tokens, 1);
    let last = ChunkChoice {
        reasoning: None,
        content: None,
        tool_calls: vec![ToolCall {
            id: "c".to_string(),
            name: "f".to_string(),
            arguments: "{}".to_string(),
        }],
        finish_reason: Some("tool_calls".to_string()),
    };
    let e = t.on_chunk(&Some(last));
    assert!(matches!(e.last(), Some(ChatEvent::Done { stop_reason: StopReason::ToolUse, .. })));
    assert!(t.done);
    assert!(t.on_end().is_none());
    let mut cut = Turn::new();
    assert!(cut.on_end().is_some());
    assert!(matches!(cut.on_cancel(), ChatEvent::Done { stop_reason: StopReason::Cancelled, .. }));
}
