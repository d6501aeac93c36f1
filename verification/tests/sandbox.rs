use rozum::paths::{dedup, is_same_path, is_under, join_path, path_before};
use rozum::sandbox::{
    agent_dir, default_docker_image, default_secret_paths, sbpl_quote, seatbelt_profile_name, DockerLimits,
    NetPolicy, SandboxBackend, SandboxEnv, SandboxPolicy,
};

fn strings(v: &[&str]) -> Vec<String> {
    v.iter().map(|s| s.to_string()).collect()
}

fn policy(writable: &[&str], secret_deny: &[&str], network: NetPolicy) -> SandboxPolicy {
    SandboxPolicy { writable: strings(writable), secret_deny: strings(secret_deny), network }
}

fn env() -> SandboxEnv {
    SandboxEnv {
        home: Some("/Users/x".to_string()),
        cargo_home: None,
        rustup_home: None,
        tmpdir: Some("/tmp".to_string()),
        agent_dirs: vec![agent_dir("agent")],
        links: vec![],
    }
}

/// True if `needle` appears as a contiguous run inside `hay`.
fn window_has(hay: &[String], needle: &[&str]) -> bool {
    hay.windows(needle.len()).any(|w| w.iter().zip(needle).all(|(a, b)| a == b))
}

#[test]
fn profile_confines_writes_and_denies_secrets() {
    let p = policy(&["/private/tmp/ws"], &["/Users/x/.ssh"], NetPolicy::GatewayOnly).to_seatbelt_profile();
    assert!(p.starts_with("(version 1)\n(deny default)\n"));
    assert!(p.contains("(allow file-read*)\n"));
    assert!(p.contains("(deny file-read* (subpath \"/Users/x/.ssh\"))"));
    assert!(p.contains("(deny file-write* (subpath \"/Users/x/.ssh\"))"));
    let allow_w = p.find("(allow file-write*").unwrap();
    let deny_secret = p.find("(deny file-write* (subpath \"/Users/x/.ssh\"))").unwrap();
    assert!(deny_secret > allow_w, "secret write-deny must come after allow-write");
    assert!(p.contains("(subpath \"/private/tmp/ws\")"));
    assert!(p.contains("(literal \"/dev/null\")"));
    assert!(p.contains("localhost"));
}

#[test]
fn network_variants() {
    let base = |n| policy(&["/ws"], &[], n).to_seatbelt_profile();
    assert!(!base(NetPolicy::Off).contains("allow network"));
    assert!(base(NetPolicy::GatewayOnly).contains("(allow network* (local ip) (remote ip \"localhost:*\"))"));
    assert_eq!(base(NetPolicy::GatewayStrict), base(NetPolicy::GatewayOnly));
    assert!(base(NetPolicy::Full).contains("(allow network*)\n"));
}

#[test]
fn sbpl_quote_escapes() {
    assert_eq!(sbpl_quote("/a/b"), "\"/a/b\"");
    assert_eq!(sbpl_quote("/a/\"q\"/b"), "\"/a/\\\"q\\\"/b\"");
}

#[test]
fn rust_coding_includes_workspace_and_toolchain() {
    let ws = "/private/tmp/ws".to_string();
    let pol = SandboxPolicy::rust_coding(&vec![ws.clone()], NetPolicy::GatewayOnly, &env());
    assert!(pol.writable.iter().any(|p| p == &ws));
    assert!(pol.writable.len() >= 2, "toolchain caches should be added");
    assert_eq!(pol.network, NetPolicy::GatewayOnly);
}

#[test]
fn rust_coding_includes_agent_state_dirs() {
    let pol = SandboxPolicy::rust_coding(&strings(&["/private/tmp/ws"]), NetPolicy::Off, &env());
    assert!(
        pol.writable.iter().any(|p| p.ends_with(".codex")),
        "agent state dir ~/.codex must be writable"
    );
    for d in [
        "/Users/x/.codex",
        "/Users/x/.config/opencode",
        "/Users/x/.local/share/opencode",
        "/Users/x/.local/state/opencode",
        "/Users/x/.cache/opencode",
    ] {
        assert!(pol.writable.iter().any(|p| p == d), "{d}");
    }
}

#[test]
fn rust_coding_includes_the_state_dirs_it_is_told_of() {
    let pol = SandboxPolicy::rust_coding(&strings(&["/private/tmp/ws"]), NetPolicy::Off, &env());
    assert!(
        pol.writable.iter().any(|p| p == "/Users/x/.agent"),
        "agent state dir ~/.agent must be writable so the agent can run"
    );
}

#[test]
fn backend_parse_selects_docker_only_for_known_aliases() {
    assert_eq!(SandboxBackend::parse("docker"), SandboxBackend::Docker);
    assert_eq!(SandboxBackend::parse("Docker"), SandboxBackend::Docker);
    assert_eq!(SandboxBackend::parse(" CONTAINER "), SandboxBackend::Docker);
    for s in ["seatbelt", "", "podman", "vm", "nonsense"] {
        assert_eq!(SandboxBackend::parse(s), SandboxBackend::Seatbelt, "{s:?}");
    }
    assert_eq!(SandboxBackend::default(), SandboxBackend::Seatbelt);
}

#[test]
fn docker_args_mount_workspace_and_map_network() {
    let args = policy(&["/private/tmp/ws"], &[], NetPolicy::GatewayOnly).to_docker_run_args(
        "img:1",
        "/private/tmp/ws",
        &vec![],
        &DockerLimits::none(),
        &vec![],
    );
    assert_eq!(&args[0..4], &["run", "--rm", "-i", "--init"]);
    assert!(window_has(&args, &["-v", "/private/tmp/ws:/private/tmp/ws:rw"]));
    assert!(window_has(&args, &["-w", "/private/tmp/ws"]));
    assert!(window_has(&args, &["--add-host", "host.docker.internal:host-gateway"]));
    assert_eq!(args.last().unwrap(), "img:1");
    assert!(!args.iter().any(|a| a == "--network=none"));
}

#[test]
fn docker_args_no_network_and_env_forwarding() {
    let args = policy(&["/ws"], &[], NetPolicy::Off).to_docker_run_args(
        "img",
        "/ws",
        &strings(&["FOO", "BAR"]),
        &DockerLimits::none(),
        &vec![],
    );
    assert!(args.iter().any(|a| a == "--network=none"));
    assert!(!args.iter().any(|a| a == "--add-host"));
    assert!(window_has(&args, &["-e", "FOO"]));
    assert!(window_has(&args, &["-e", "BAR"]));
}

#[test]
fn docker_args_mask_secret_under_a_writable_mount() {
    let args = policy(&["/home/u"], &["/home/u/.ssh", "/elsewhere/.aws"], NetPolicy::Off)
        .to_docker_run_args("img", "/home/u", &vec![], &DockerLimits::none(), &vec![]);
    assert!(window_has(&args, &["--tmpfs", "/home/u/.ssh"]));
    assert!(!args.iter().any(|a| a == "/elsewhere/.aws"));
}

#[test]
fn docker_args_render_resource_limits_only_when_set() {
    let p = policy(&["/ws"], &[], NetPolicy::Off);
    let bare = p.to_docker_run_args("img", "/ws", &vec![], &DockerLimits::none(), &vec![]);
    for f in ["--memory", "--cpus", "--pids-limit"] {
        assert!(!bare.iter().any(|a| a == f), "{f} must be absent when unset");
    }
    let limits = DockerLimits {
        memory: Some("8g".to_string()),
        cpus: Some("4".to_string()),
        pids: Some(2048),
    };
    let args = p.to_docker_run_args("img", "/ws", &vec![], &limits, &vec![]);
    assert!(window_has(&args, &["--memory", "8g"]));
    assert!(window_has(&args, &["--cpus", "4"]));
    assert!(window_has(&args, &["--pids-limit", "2048"]));
}

#[test]
fn net_policy_parse_maps_aliases_and_defaults() {
    assert_eq!(NetPolicy::parse("none"), NetPolicy::Off);
    assert_eq!(NetPolicy::parse("OFF"), NetPolicy::Off);
    assert_eq!(NetPolicy::parse("full"), NetPolicy::Full);
    assert_eq!(NetPolicy::parse(" all "), NetPolicy::Full);
    assert_eq!(NetPolicy::parse("gateway-strict"), NetPolicy::GatewayStrict);
    assert_eq!(NetPolicy::parse(" STRICT "), NetPolicy::GatewayStrict);
    for s in ["gateway-only", "gateway", "loopback", "", "nonsense"] {
        assert_eq!(NetPolicy::parse(s), NetPolicy::GatewayOnly, "{s:?}");
    }
    assert_eq!(NetPolicy::default(), NetPolicy::GatewayOnly);
}

#[test]
fn docker_args_strict_egress_adds_cap_and_marker() {
    let args = policy(&["/ws"], &[], NetPolicy::GatewayStrict).to_docker_run_args(
        "img",
        "/ws",
        &vec![],
        &DockerLimits::none(),
        &vec![],
    );
    assert!(window_has(&args, &["--add-host", "host.docker.internal:host-gateway"]));
    assert!(args.iter().any(|a| a == "--cap-add=NET_ADMIN"));
    assert!(window_has(&args, &["-e", "ROZUM_EGRESS=strict"]));
    assert!(!args.iter().any(|a| a == "--network=none"));
}

#[test]
fn the_environment_is_read() {
    assert_eq!(NetPolicy::from_env(None), NetPolicy::GatewayOnly);
    assert_eq!(NetPolicy::from_env(Some("full")), NetPolicy::Full);
    assert_eq!(SandboxBackend::from_env(Some("docker")), SandboxBackend::Docker);
    assert_eq!(default_docker_image(Some("mine:2")), "mine:2");
    assert!(!default_docker_image(None).is_empty());
    let l = DockerLimits::from_env(Some("1g"), None, Some("12"));
    assert_eq!(l.memory.as_deref(), Some("1g"));
    assert_eq!(l.pids, Some(12));
    assert_eq!(seatbelt_profile_name(42).matches("42").count(), 1);
}

#[test]
fn linked_secrets_are_denied_where_they_are() {
    let mut e = env();
    e.links.push(("/Users/x/.ssh".to_string(), "/Volumes/keys/ssh".to_string()));
    assert!(default_secret_paths(&e).iter().any(|p| p == "/Users/x/.ssh"));
    let pol = SandboxPolicy::rust_coding(&strings(&["/ws"]), NetPolicy::Off, &e);
    assert!(pol.secret_deny.iter().any(|p| p == "/Volumes/keys/ssh"));
    let p = pol.to_seatbelt_profile();
    assert!(p.contains("(deny file-write* (subpath \"/Volumes/keys/ssh\"))"));
}

#[test]
fn paths_are_told_apart_by_their_parts() {
    assert!(is_under("/home/u/.ssh", "/home/u"));
    assert!(!is_under("/home/user", "/home/u"));
    assert!(is_same_path("/a//b/", "/a/./b"));
    assert!(path_before("/a/b", "/a/c"));
    assert!(!path_before("/a/b", "/a/b"));
    assert_eq!(join_path("/a", "b"), "/a/b");
    assert_eq!(join_path("/a", "/b"), "/b");
    assert_eq!(dedup(&strings(&["/b", "/a", "/b/"])), strings(&["/a", "/b"]));
    // The order is that of the standard library's paths.
    let mut std_paths: Vec<std::path::PathBuf> =
        ["/b/a", "/b", "/a.b", "/a/b", "c", "/"].iter().map(std::path::PathBuf::from).collect();
    std_paths.sort();
    let sorted: Vec<String> = std_paths.iter().map(|p| p.display().to_string()).collect();
    assert_eq!(dedup(&strings(&["/b/a", "/b", "/a.b", "/a/b", "c", "/"])), sorted);
}
