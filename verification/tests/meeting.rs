use rozum::json::{parse_json, Json};
use rozum::meeting::tui_client::{
    find_room, joined_room, joined_root, list_rooms, prev_day, rejoin_args, since_args,
    submit_args, submit_refusal, JoinSpec, MeetingClient, NewestDay, PollAction, PollLoop,
    StoredTurn,
};
use rozum::meeting::web::{
    authorized, config_refusal, credentials, gateway_probe, listen_address, messages_json,
    model_config_from_body, participant_command_args, password, probe_url, required_trimmed,
    served_room, split_peers, start_refusal, submit_reply, submitted, turn_json, unauthorized,
    ModelControl, ModelControlError, ModelParticipantConfig, ModelStartBody, ReplyPolicy,
    StopOutcome, Tail, CHALLENGE, DEFAULT_GATEWAY_URL,
};

fn turn(date: &str, n: u64, content: &str) -> StoredTurn {
    StoredTurn {
        display_name: "alice".to_string(),
        content: content.to_string(),
        date: date.to_string(),
        n,
        ts: 1_718_000_000 + n,
    }
}

fn value(j: &Json) -> serde_json::Value {
    serde_json::from_str(&j.to_text()).unwrap()
}

fn json(text: &str) -> Json {
    parse_json(text).unwrap()
}

fn body(model: &str) -> ModelStartBody {
    ModelStartBody {
        model: model.to_string(),
        as_handle: None,
        reply_policy: None,
        gateway_url: None,
        peers: None,
        persona: None,
    }
}

#[test]
fn model_config_defaults_handle_policy_and_gateway() {
    let cfg = model_config_from_body(body("mlx-community:gpt-oss-20b-MXFP4-Q4"), "gpt-oss").unwrap();
    assert_eq!(cfg.model, "mlx-community:gpt-oss-20b-MXFP4-Q4");
    assert_eq!(cfg.as_handle, "gpt-oss");
    assert_eq!(cfg.reply_policy, "mention");
    assert_eq!(cfg.gateway_url, DEFAULT_GATEWAY_URL);
    assert!(cfg.peers.is_empty());
}

#[test]
fn model_config_validates_policy_and_peers() {
    let mut b = body("qwen");
    b.reply_policy = Some("always".to_string());
    b.peers = Some("gpt-oss, qwen3.6\ncritic".to_string());
    b.persona = Some("  review code  ".to_string());
    let cfg = model_config_from_body(b, "qwen").unwrap();
    assert_eq!(cfg.reply_policy, "always");
    assert_eq!(cfg.peers, ["gpt-oss", "qwen3.6", "critic"]);
    assert_eq!(cfg.persona.as_deref(), Some("review code"));

    let mut bad = body("qwen");
    bad.reply_policy = Some("sometimes".to_string());
    assert!(model_config_from_body(bad, "qwen").is_err());
    assert_eq!(model_config_from_body(body(" "), "x").unwrap_err(), "model is required");
}

fn config() -> ModelParticipantConfig {
    ModelParticipantConfig {
        model: "m".to_string(),
        as_handle: "h".to_string(),
        reply_policy: "manual".to_string(),
        gateway_url: "http://127.0.0.1:8080/v1".to_string(),
        peers: vec!["p1".to_string(), "p2".to_string()],
        persona: Some("be terse".to_string()),
    }
}

#[test]
fn participant_command_args_include_room_policy_peers_and_persona() {
    assert_eq!(
        participant_command_args("demo", &config()),
        vec![
            "meetings",
            "participant",
            "--model",
            "m",
            "--room",
            "demo",
            "--as",
            "h",
            "--reply-policy",
            "manual",
            "--gateway-url",
            "http://127.0.0.1:8080/v1",
            "--peer",
            "p1",
            "--peer",
            "p2",
            "--persona",
            "be terse",
        ]
    );
}

#[test]
fn prev_day_scrollback_walks_back() {
    let dates = vec!["2024-06-10".to_string(), "2024-06-11".to_string()];
    let mut c = MeetingClient::new("alice", "tok");
    c.entered(
        "room",
        "/rooms/room",
        JoinSpec::Named("room".to_string()),
        Some(NewestDay { date: dates[1].clone(), turns: vec![turn(&dates[1], 0, "day1-a")] }),
    );
    let wanted = c.prev_day_wanted(&dates).unwrap();
    assert_eq!(wanted, dates[0]);
    let older = c.prev_day_turns(Some(NewestDay {
        date: wanted,
        turns: vec![turn(&dates[0], 0, "day0-a")],
    }));
    assert_eq!(older[0].content, "day0-a");
    assert_eq!(c.prev_day_wanted(&dates), None, "the earliest day is loaded");
    assert_eq!(prev_day(&dates, "2020-01-01"), None);
}

#[test]
fn only_the_secret_opens_the_door() {
    // "user:s3cret" and "user:wrong".
    assert!(authorized(Some("Basic dXNlcjpzM2NyZXQ="), "s3cret"));
    assert!(authorized(Some("basic   dXNlcjpzM2NyZXQ=  "), "s3cret"));
    assert!(!authorized(Some("Basic dXNlcjp3cm9uZw=="), "s3cret"));
    assert!(!authorized(Some("Bearer dXNlcjpzM2NyZXQ="), "s3cret"));
    assert!(!authorized(Some("Basic ***"), "s3cret"));
    assert!(!authorized(None, "s3cret"));
    assert_eq!(credentials("Basic  abc ").as_deref(), Some("abc"));
    assert_eq!(password(b"name:pass:word".to_vec()), "pass:word");
    assert_eq!(password(b"no colon".to_vec()), "");
    assert_eq!(password(vec![0xFF, b':', b'x']), "");
    assert_eq!(unauthorized().status, 401);
    assert!(CHALLENGE.starts_with("Basic realm="));
}

#[test]
fn messages_are_shown_and_submitted() {
    let t = vec![turn("2024-06-10", 3, "hi")];
    let v = value(&turn_json(&t[0]));
    assert_eq!(v["from"], "alice");
    assert_eq!(v["n"], 3);
    let m = value(&messages_json("demo", &t));
    assert_eq!(m["room"], "demo");
    assert_eq!(m["messages"][0]["content"], "hi");
    assert_eq!(submitted("  hi \n").unwrap_or_else(|_| panic!("text")), "hi");
    match submitted(" \n ") {
        Err(r) => assert_eq!((r.status, r.body.as_str()), (400, "empty message")),
        Ok(_) => panic!("blank"),
    }
    assert_eq!(submit_reply(Ok(())).body, "ok");
    assert_eq!(submit_reply(Err("gone".to_string())).body, "submit failed: gone");
}

#[test]
fn a_room_is_followed_without_gaps() {
    let mut t = Tail::new(&vec![turn("d1", 0, "a"), turn("d1", 1, "b")]);
    assert_eq!(t.since(), (Some(&"d1".to_string()), 2));
    assert!(t.advance(&vec![]).is_empty());
    let sent = t.advance(&vec![turn("d2", 0, "c")]);
    assert_eq!(value(&sent[0])["content"], "c");
    assert_eq!(t.since(), (Some(&"d2".to_string()), 1));
    assert_eq!(Tail::new(&vec![]).since(), (None, 0));
}

#[test]
fn rooms_and_addresses() {
    match served_room(Some("r".to_string()), None) {
        Ok(JoinSpec::Named(n)) => assert_eq!(n, "r"),
        _ => panic!("named"),
    }
    match served_room(None, Some("/p".to_string())) {
        Ok(JoinSpec::Project(p)) => assert_eq!(p, "/p"),
        _ => panic!("project"),
    }
    assert!(served_room(None, None).is_err());
    assert_eq!(listen_address("127.0.0.1", 8080), "127.0.0.1:8080");
}

#[test]
fn one_model_runs_at_a_time() {
    let mut c = ModelControl::new();
    assert_eq!(c.start("demo", &config()).unwrap_or_else(|_| panic!("idle"))[0], "meetings");
    c.started(config(), 77);
    assert!(matches!(c.start("demo", &config()), Err(ModelControlError::AlreadyRunning)));
    c.reap(None);
    let s = c.status(Some(5));
    assert!(s.running);
    assert_eq!(s.pid, Some(5));
    assert_eq!(s.started_at, Some(77));
    assert_eq!(s.config, Some(config()));
    c.stopped(StopOutcome::TimedOut);
    assert_eq!(c.status(None).last_exit.as_deref(), Some("kill timeout"));
    c.started(config(), 78);
    c.stopped(StopOutcome::Failed("io".to_string()));
    assert_eq!(c.status(Some(5)).last_exit.as_deref(), Some("wait failed: io"));
    assert_eq!(c.status(Some(5)).pid, None);
    c.started(config(), 79);
    c.reap(Some("exit status: 0".to_string()));
    assert_eq!(c.status(None).last_exit.as_deref(), Some("exit status: 0"));
    c.stopped(StopOutcome::Exited("ignored".to_string()));
    assert_eq!(c.status(None).last_exit.as_deref(), Some("exit status: 0"));
    assert_eq!(start_refusal(ModelControlError::AlreadyRunning).status, 409);
    assert_eq!(start_refusal(ModelControl::not_spawned("rozum", "no")).body, "start failed: rozum: no\n");
    assert_eq!(
        start_refusal(ModelControl::unresolved("x")).body,
        "start failed: resolve participant command: x\n"
    );
    assert_eq!(config_refusal("bad").body, "bad\n");
}

#[test]
fn gateways_are_probed() {
    let mut c = config();
    c.gateway_url = "http://h/v1//".to_string();
    assert_eq!(probe_url(&c), "http://h/v1/models");
    let up = gateway_probe("u".to_string(), Ok(204));
    assert!(up.ok && up.status == Some(204) && up.error.is_none());
    assert!(!gateway_probe("u".to_string(), Ok(500)).ok);
    assert_eq!(gateway_probe("u".to_string(), Err("down".to_string())).error.as_deref(), Some("down"));
    assert_eq!(required_trimmed(" ", "model").unwrap_err(), "model is required");
    assert_eq!(split_peers(" a ,,\n b\n"), ["a", "b"]);
    assert_eq!(ReplyPolicy::parse("manual"), Ok(ReplyPolicy::Manual));
    assert!(ReplyPolicy::parse("Manual").is_err());
    assert_eq!(ReplyPolicy::Always.name(), "always");
}

#[test]
fn rooms_are_listed_and_joined() {
    let v = json("{\"rooms\":[{\"name\":\"r\",\"root\":\"/r\",\"participants\":2,\"last_date\":\"d\"},{\"topic\":\"nameless\"}]}");
    let rooms = list_rooms(&v);
    assert_eq!(rooms.len(), 1);
    assert_eq!(rooms[0].participants, 2);
    assert_eq!(rooms[0].topic, "");
    assert_eq!(find_room(&rooms, "r"), Ok(0));
    assert_eq!(find_room(&rooms, "x"), Err("no room named 'x'".to_string()));
    let joined = json("{\"room\":\"r\",\"root\":\"/r\"}");
    assert_eq!(joined_room(&joined), Ok("r".to_string()));
    assert_eq!(joined_root(&joined), Ok("/r".to_string()));
    assert_eq!(joined_room(&json("{}")), Err("no room in result"));
    assert_eq!(joined_root(&json("{}")), Err("no root in result"));
    let c = MeetingClient::new("alice", "tok");
    let p = value(&c.enter_project_args("/p"));
    assert_eq!((p["project"].as_str(), p["kind"].as_str()), (Some("/p"), Some("human")));
    assert_eq!(value(&c.enter_named_args("r"))["name"], "r");
    assert_eq!(value(&c.new_room_args(Some("t")))["topic"], "t");
    assert!(value(&c.new_room_args(None)).get("topic").is_none());
    assert_eq!(value(&c.enter_or_create_args("r"))["name"], "r");
    let (call, args) = rejoin_args(&JoinSpec::Project("/p".to_string()), "alice", "tok");
    assert_eq!(call, "_join_internal");
    assert_eq!(value(&args)["session_token"], "tok");
    assert_eq!(rejoin_args(&JoinSpec::Named("r".to_string()), "a", "t").0, "rooms.join");
    assert_eq!(value(&submit_args("hi"))["content"], "hi");
    assert_eq!(submit_refusal(&json("{\"isError\":false}")), None);
    assert_eq!(
        submit_refusal(&json("{\"isError\":true}")),
        Some("submit rejected: {\"isError\":true}".to_string())
    );
}

#[test]
fn polls_move_the_cursor() {
    let mut c = MeetingClient::new("alice", "tok");
    c.entered(
        "r",
        "/r",
        JoinSpec::Named("r".to_string()),
        Some(NewestDay { date: "d1".to_string(), turns: vec![turn("d1", 0, "a")] }),
    );
    assert_eq!(c.room_name().map(|s| s.as_str()), Some("r"));
    assert_eq!(c.room_root().map(|s| s.as_str()), Some("/r"));
    assert_eq!(c.transcript().len(), 1);
    assert_eq!(c.on_poll(&json("{}")), None);
    let read = c.on_poll(&json("{\"still_waiting\":false,\"high_water\":{\"date\":\"d1\",\"n\":2}}"));
    assert_eq!(read, Some(Some(("d1".to_string(), 1))));
    assert_eq!(c.cursor, Some(("d1".to_string(), 2)));
    c.append(&vec![turn("d1", 1, "b")]);
    assert_eq!(c.transcript().len(), 2);
    c.reload_current_day(None);
    assert!(c.transcript().is_empty());
    assert_eq!(value(&since_args(&Some(("d".to_string(), 4))))["since_n"], 4);
    assert_eq!(value(&since_args(&None)), serde_json::from_str::<serde_json::Value>("{}").unwrap());

    let mut p = PollLoop { cursor: None };
    assert!(matches!(p.on_reply(None), PollAction::Again));
    assert!(matches!(p.on_reply(Some(&json("{\"still_waiting\":true}"))), PollAction::Again));
    match p.on_reply(Some(&json("{\"still_waiting\":false,\"high_water\":{\"date\":\"d\",\"n\":1}}"))) {
        PollAction::Read(since) => assert_eq!(since, None),
        _ => panic!("there is something to read"),
    }
    assert_eq!(p.cursor, Some(("d".to_string(), 1)));
    assert!(matches!(p.on_reply(Some(&json("{\"ended\":true}"))), PollAction::Stop));
    assert!(p.after_read(0, false));
    assert!(!p.after_read(1, false));
}
