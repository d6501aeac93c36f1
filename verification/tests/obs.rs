use rozum::chat::{ChatEvent, StopReason};
use rozum::json::{json_u64, parse_json};
use rozum::obs::{done_event, stamp_event, start_event, Meter, Observer, ReqMeta, RECENT_CAP};

fn meta() -> ReqMeta {
    ReqMeta {
        endpoint: "/v1/messages",
        model: "m".to_string(),
        n_messages: 2,
        n_tools: 1,
        est_prompt_tokens: 9,
    }
}

fn value(j: &rozum::json::Json) -> serde_json::Value {
    serde_json::from_str(&j.to_text()).unwrap()
}

#[test]
fn a_request_is_metered() {
    let mut o = Observer::new();
    o.set_backend_label("mlx");
    let id = o.request_start(&meta(), 100);
    let mut m = Meter::new(id);
    m.on_event(&mut o, &ChatEvent::TextDelta { text: "a".to_string() }, 5);
    m.on_event(&mut o, &ChatEvent::TextDelta { text: "b".to_string() }, 9);
    m.on_event(&mut o, &ChatEvent::ToolUseStart { id: "c".to_string(), name: "f".to_string() }, 10);
    assert_eq!(o.active[0].first_token_ms, Some(5));
    assert_eq!(o.active[0].output_tokens, 2);
    m.on_event(
        &mut o,
        &ChatEvent::Done { input_tokens: 1, output_tokens: 7, stop_reason: StopReason::ToolUse },
        11,
    );
    assert_eq!((m.out_tokens, m.had_tool, m.stop), (7, true, "tool_use"));
    let live = value(&o.snapshot(150, 3, &vec![]));
    assert_eq!(live["backend"], "mlx");
    assert_eq!(live["uptime_s"], 3);
    assert_eq!(live["active_requests"][0]["elapsed_ms"], 50);
    assert_eq!(o.request_finish(id, 20, m.out_tokens, m.stop, m.had_tool), Some(5));
    assert!(o.active.is_empty());
    let done = value(&o.snapshot(150, 3, &vec![json_u64(35)]));
    assert_eq!(done["total_requests"], 1);
    assert_eq!(done["total_output_tokens"], 7);
    assert_eq!(done["recent"][0]["tokens_per_sec"], 35);
    assert_eq!(done["recent"][0]["ttft_ms"], 5);
}

#[test]
fn only_the_last_requests_are_remembered() {
    let mut o = Observer::new();
    for i in 0..(RECENT_CAP as u64 + 5) {
        let id = o.request_start(&meta(), i);
        o.request_finish(id, 1, 1, "end_turn", false);
    }
    assert_eq!(o.recent.len(), RECENT_CAP);
    assert_eq!(o.recent[0].id, 6);
    assert_eq!(o.total_requests, RECENT_CAP as u64 + 5);
}

#[test]
fn events_of_the_log() {
    let s = value(&start_event(4, &meta()));
    assert_eq!(s["event"], "request_start");
    assert_eq!(s["messages"], 2);
    let d = done_event(4, None, 3, 10, parse_json("1.5").unwrap(), "end_turn", true);
    let v = value(&stamp_event(d, "2026-01-01"));
    assert_eq!(v["ttft_ms"], serde_json::Value::Null);
    assert_eq!(v["tokens_per_sec"], 1.5);
    assert_eq!(v["had_tool_use"], true);
    assert_eq!(v["ts"], "2026-01-01");
}

#[test]
fn the_log_has_a_place() {
    assert_eq!(rozum::obs::log_path(Some("/l"), Some("/h")).as_deref(), Some("/l"));
    assert_eq!(rozum::obs::log_path(Some(""), Some("/h")), None);
    assert_eq!(rozum::obs::log_path(None, Some("/h")).as_deref(), Some("/h/.rozum/gateway.jsonl"));
    assert_eq!(rozum::obs::log_path(None, None), None);
}
