//! Structural sandbox for agentic model runs: a set of path rules, rendered to
//! an OS jail.
//!
//! Writes are confined to the workspaces, the toolchain caches and a few device
//! nodes. Reads are allowed but for a denylist of secrets. The network is denied
//! by default.

use crate::paths::{dedup, is_same_path, is_under, join_path, path_join, path_set, path_under, same_path};
use crate::text::{
    ascii_lower, chars_of, copy, dec, dec_text, occurs_at, parse_signed, same, signed_dec,
    signed_number, signed_text, to_ascii_lower, trim, trim_str, views,
};
use vstd::prelude::*;

verus! {

// ---------------------------------------------------------------------------
// Network
// ---------------------------------------------------------------------------

/// Network policy for the sandboxed child.
#[derive(Clone, Copy, Debug, PartialEq, Eq, Structural)]
pub enum NetPolicy {
    /// No network at all.
    Off,
    /// Loopback only: the local model gateway, nothing off-box.
    GatewayOnly,
    /// The gateway and nothing else, with an egress filter in a container.
    GatewayStrict,
    /// Unrestricted.
    Full,
}

impl Default for NetPolicy {
    fn default() -> (r: Self)
        ensures
            r == NetPolicy::GatewayOnly,
    {
        NetPolicy::GatewayOnly
    }
}

/// The policy that a name stands for, whatever its case and surrounding space.
pub open spec fn net_policy_named(raw: Seq<char>) -> NetPolicy {
    let n = ascii_lower(trim(raw));
    if n == "none"@ || n == "off"@ {
        NetPolicy::Off
    } else if n == "gateway-strict"@ || n == "strict"@ {
        NetPolicy::GatewayStrict
    } else if n == "full"@ || n == "all"@ || n == "unrestricted"@ {
        NetPolicy::Full
    } else {
        NetPolicy::GatewayOnly
    }
}

impl NetPolicy {
    /// The policy that was set, `GatewayOnly` where none was.
    pub fn from_env(value: Option<&str>) -> (r: Self)
        ensures
            r == (match value {
                Some(v) => net_policy_named(v@),
                None => NetPolicy::GatewayOnly,
            }),
    {
        match value {
            Some(v) => Self::parse(v),
            None => NetPolicy::GatewayOnly,
        }
    }

    pub fn parse(raw: &str) -> (r: Self)
        ensures
            r == net_policy_named(raw@),
    {
        let name = to_ascii_lower(trim_str(raw).as_str());
        let n = name.as_str();
        if same(n, "none") || same(n, "off") {
            NetPolicy::Off
        } else if same(n, "gateway-strict") || same(n, "strict") {
            NetPolicy::GatewayStrict
        } else if same(n, "full") || same(n, "all") || same(n, "unrestricted") {
            NetPolicy::Full
        } else {
            NetPolicy::GatewayOnly
        }
    }
}

// ---------------------------------------------------------------------------
// Backend
// ---------------------------------------------------------------------------

/// Which OS mechanism enforces the policy.
#[derive(Clone, Copy, Debug, PartialEq, Eq, Structural)]
pub enum SandboxBackend {
    /// macOS `sandbox-exec` with a generated profile.
    Seatbelt,
    /// A `docker` container: writable paths become mounts, the rest of the host
    /// is absent.
    Docker,
}

impl Default for SandboxBackend {
    fn default() -> (r: Self)
        ensures
            r == SandboxBackend::Seatbelt,
    {
        SandboxBackend::Seatbelt
    }
}

/// The backend that a name stands for, whatever its case and surrounding space.
pub open spec fn backend_named(raw: Seq<char>) -> SandboxBackend {
    let n = ascii_lower(trim(raw));
    if n == "docker"@ || n == "container"@ {
        SandboxBackend::Docker
    } else {
        SandboxBackend::Seatbelt
    }
}

impl SandboxBackend {
    /// The backend that was set, `Seatbelt` where none was.
    pub fn from_env(value: Option<&str>) -> (r: Self)
        ensures
            r == (match value {
                Some(v) => backend_named(v@),
                None => SandboxBackend::Seatbelt,
            }),
    {
        match value {
            Some(v) => Self::parse(v),
            None => SandboxBackend::Seatbelt,
        }
    }

    pub fn parse(raw: &str) -> (r: Self)
        ensures
            r == backend_named(raw@),
    {
        let name = to_ascii_lower(trim_str(raw).as_str());
        if same(name.as_str(), "docker") || same(name.as_str(), "container") {
            SandboxBackend::Docker
        } else {
            SandboxBackend::Seatbelt
        }
    }
}

/// The name under which a container reaches a service on the host.
pub const CONTAINER_GATEWAY_HOST: &'static str = "host.docker.internal";

/// The image that a container runs the agent in: the one that was set, else
/// `rozum-agent:latest`.
pub fn default_docker_image(value: Option<&str>) -> (r: String)
    ensures
        r@ == (match value {
            Some(v) => v@,
            None => "rozum-agent:latest"@,
        }),
{
    match value {
        Some(v) => copy(v),
        None => copy("rozum-agent:latest"),
    }
}

// ---------------------------------------------------------------------------
// Limits
// ---------------------------------------------------------------------------

/// Container resource limits; only those that are set are rendered.
#[derive(Debug, PartialEq, Eq)]
pub struct DockerLimits {
    /// `--memory`, such as `8g`.
    pub memory: Option<String>,
    /// `--cpus`, such as `4`.
    pub cpus: Option<String>,
    /// `--pids-limit`; `-1` is unlimited.
    pub pids: Option<i64>,
}

/// A setting without surrounding space; an empty one is none.
pub open spec fn setting(value: Option<&str>) -> Option<Seq<char>> {
    match value {
        Some(v) => if trim(v@).len() == 0 {
            None
        } else {
            Some(trim(v@))
        },
        None => None,
    }
}

fn trimmed_setting(value: Option<&str>) -> (r: Option<String>)
    ensures
        match r {
            Some(s) => setting(value) == Some(s@),
            None => setting(value) is None,
        },
{
    match value {
        Some(v) => {
            let t = trim_str(v);
            if t.as_str().is_empty() {
                None
            } else {
                Some(t)
            }
        },
        None => None,
    }
}

/// A flag and its value, where there is one.
pub open spec fn flag(name: Seq<char>, value: Option<Seq<char>>) -> Seq<Seq<char>> {
    match value {
        Some(v) => seq![name, v],
        None => Seq::empty(),
    }
}

pub open spec fn text_of(s: Option<String>) -> Option<Seq<char>> {
    match s {
        Some(s) => Some(s@),
        None => None,
    }
}

/// The flags of the limits that are set.
pub open spec fn limit_args(l: DockerLimits) -> Seq<Seq<char>> {
    flag("--memory"@, text_of(l.memory)) + flag("--cpus"@, text_of(l.cpus)) + flag(
        "--pids-limit"@,
        match l.pids {
            Some(p) => Some(signed_text(p as int)),
            None => None,
        },
    )
}

fn push_flag(a: &mut Vec<String>, name: &str, value: Option<String>)
    ensures
        views(final(a)@) == views(old(a)@) + flag(name@, text_of(value)),
{
    match value {
        Some(v) => {
            a.push(copy(name));
            a.push(v);
            assert(views(a@) =~= views(old(a)@) + flag(name@, text_of(value)));
        },
        None => {
            assert(views(a@) =~= views(old(a)@) + flag(name@, text_of(value)));
        },
    }
}

impl DockerLimits {
    /// No limits at all.
    pub fn none() -> (r: Self)
        ensures
            r.memory is None,
            r.cpus is None,
            r.pids is None,
    {
        DockerLimits { memory: None, cpus: None, pids: None }
    }

    /// The limits that were set. Processes are limited to 2048 unless something
    /// else was set; a setting that is no number sets no limit.
    pub fn from_env(memory: Option<&str>, cpus: Option<&str>, pids: Option<&str>) -> (r: Self)
        ensures
            text_of(r.memory) == setting(memory),
            text_of(r.cpus) == setting(cpus),
            match setting(pids) {
                Some(s) => match signed_number(s) {
                    Some(n) => r.pids matches Some(p) && p == n,
                    None => r.pids is None,
                },
                None => r.pids == Some(2048i64),
            },
    {
        let pids = match trimmed_setting(pids) {
            Some(s) => parse_signed(s.as_str()),
            None => Some(2048),
        };
        DockerLimits { memory: trimmed_setting(memory), cpus: trimmed_setting(cpus), pids }
    }

    fn push_args(&self, a: &mut Vec<String>)
        ensures
            views(final(a)@) == views(old(a)@) + limit_args(*self),
    {
        let memory = self.memory.clone();
        let cpus = self.cpus.clone();
        let pids = match self.pids {
            Some(p) => Some(signed_dec(p)),
            None => None,
        };
        push_flag(a, "--memory", memory);
        push_flag(a, "--cpus", cpus);
        push_flag(a, "--pids-limit", pids);
        assert(views(a@) =~= views(old(a)@) + limit_args(*self));
    }
}

// ---------------------------------------------------------------------------
// Paths
// ---------------------------------------------------------------------------

/// What the sandbox knows of its surroundings.
pub struct SandboxEnv {
    pub home: Option<String>,
    pub cargo_home: Option<String>,
    pub rustup_home: Option<String>,
    pub tmpdir: Option<String>,
    /// Directories below the home directory in which further agents keep their
    /// state.
    pub agent_dirs: Vec<String>,
    /// The real location, free of symbolic links, of each path that has one.
    pub links: Vec<(String, String)>,
}

pub open spec fn link_pairs(links: Seq<(String, String)>) -> Seq<(Seq<char>, Seq<char>)> {
    Seq::new(links.len(), |i: int| (links[i].0@, links[i].1@))
}

/// The real location of a path; the path itself where none is known.
pub open spec fn resolved(links: Seq<(Seq<char>, Seq<char>)>, p: Seq<char>) -> Seq<char>
    decreases links.len(),
{
    if links.len() == 0 {
        p
    } else if links[0].0 == p {
        links[0].1
    } else {
        resolved(links.subrange(1, links.len() as int), p)
    }
}

pub open spec fn all_resolved(links: Seq<(Seq<char>, Seq<char>)>, s: Seq<Seq<char>>) -> Seq<
    Seq<char>,
> {
    Seq::new(s.len(), |i: int| resolved(links, s[i]))
}

fn resolve(links: &Vec<(String, String)>, p: &str) -> (r: String)
    ensures
        r@ == resolved(link_pairs(links@), p@),
{
    let ghost all = link_pairs(links@);
    let mut i: usize = 0;
    assert(all.subrange(0, all.len() as int) =~= all);
    while i < links.len()
        invariant
            i <= links.len(),
            all == link_pairs(links@),
            resolved(all, p@) == resolved(all.subrange(i as int, all.len() as int), p@),
        decreases links.len() - i,
    {
        let ghost rest = all.subrange(i as int, all.len() as int);
        assert(rest[0] == (links@[i as int].0@, links@[i as int].1@));
        assert(rest.subrange(1, rest.len() as int) =~= all.subrange(i + 1, all.len() as int));
        if same(links[i].0.as_str(), p) {
            return links[i].1.clone();
        }
        i = i + 1;
    }
    copy(p)
}

fn resolve_all(links: &Vec<(String, String)>, v: &Vec<String>) -> (r: Vec<String>)
    ensures
        views(r@) == all_resolved(link_pairs(links@), views(v@)),
{
    let mut out: Vec<String> = Vec::new();
    let mut i: usize = 0;
    while i < v.len()
        invariant
            i <= v.len(),
            out@.len() == i,
            forall|k: int|
                0 <= k < i ==> (#[trigger] out@[k])@ == resolved(link_pairs(links@), v@[k]@),
        decreases v.len() - i,
    {
        out.push(resolve(links, v[i].as_str()));
        i = i + 1;
    }
    assert(views(out@) =~= all_resolved(link_pairs(links@), views(v@)));
    out
}

/// A path that was set, else `sub` below the home directory.
pub open spec fn set_or_home(set: Option<String>, home: Option<String>, sub: Seq<char>) -> Seq<
    Seq<char>,
> {
    match set {
        Some(p) => seq![p@],
        None => match home {
            Some(h) => seq![path_join(h@, sub)],
            None => Seq::empty(),
        },
    }
}

/// The toolchain and scratch directories that a build reads and writes.
pub open spec fn toolchain_of(env: SandboxEnv) -> Seq<Seq<char>> {
    set_or_home(env.cargo_home, env.home, ".cargo"@) + set_or_home(
        env.rustup_home,
        env.home,
        ".rustup"@,
    ) + (match env.tmpdir {
        Some(t) => seq![t@],
        None => Seq::empty(),
    }) + seq!["/tmp"@]
}

/// The directories in which common agents keep their own state.
pub open spec fn agent_dirs() -> Seq<Seq<char>> {
    seq![
        ".codex"@,
        ".config/opencode"@,
        ".local/share/opencode"@,
        ".local/state/opencode"@,
        ".cache/opencode"@,
    ]
}

/// The directories in which the agents keep their own state, below the home
/// directory.
pub open spec fn agent_state_of(env: SandboxEnv) -> Seq<Seq<char>> {
    below_home(env.home, views(env.agent_dirs@) + agent_dirs())
}

/// Common credential stores.
pub open spec fn secret_dirs() -> Seq<Seq<char>> {
    seq![
        ".ssh"@,
        ".aws"@,
        ".gnupg"@,
        ".netrc"@,
        ".kube"@,
        ".docker"@,
        ".config/gh"@,
        ".config/gcloud"@,
        ".npmrc"@,
        "Library/Keychains"@,
    ]
}

/// Each of `subs` below the home directory, if there is one.
pub open spec fn below_home(home: Option<String>, subs: Seq<Seq<char>>) -> Seq<Seq<char>> {
    match home {
        Some(h) => Seq::new(subs.len(), |i: int| path_join(h@, subs[i])),
        None => Seq::empty(),
    }
}

fn push_set_or_home(
    out: &mut Vec<String>,
    set: &Option<String>,
    home: &Option<String>,
    sub: &str,
)
    ensures
        views(final(out)@) == views(old(out)@) + set_or_home(*set, *home, sub@),
{
    match set {
        Some(p) => {
            out.push(p.clone());
        },
        None => match home {
            Some(h) => {
                out.push(join_path(h.as_str(), sub));
            },
            None => {},
        },
    }
    assert(views(out@) =~= views(old(out)@) + set_or_home(*set, *home, sub@));
}

/// The toolchain and scratch directories that a build reads and writes.
pub fn toolchain_paths(env: &SandboxEnv) -> (r: Vec<String>)
    ensures
        views(r@) == toolchain_of(*env),
{
    let mut out: Vec<String> = Vec::new();
    assert(views(out@) =~= Seq::empty());
    push_set_or_home(&mut out, &env.cargo_home, &env.home, ".cargo");
    push_set_or_home(&mut out, &env.rustup_home, &env.home, ".rustup");
    match &env.tmpdir {
        Some(t) => {
            out.push(t.clone());
        },
        None => {},
    }
    out.push(copy("/tmp"));
    assert(views(out@) =~= toolchain_of(*env));
    out
}

fn push_below_home(out: &mut Vec<String>, home: &str, sub: &str)
    ensures
        views(final(out)@) == views(old(out)@).push(path_join(home@, sub@)),
{
    out.push(join_path(home, sub));
    assert(views(out@) =~= views(old(out)@).push(path_join(home@, sub@)));
}

/// Where an agent keeps its own state, below the home directory: in a hidden
/// directory with the name of its program.
pub fn agent_dir(program: &str) -> (r: String)
    ensures
        r@ == "."@ + program@,
{
    let mut out = copy(".");
    out.append(program);
    out
}

/// The directories in which the agents keep their own state.
pub fn agent_state_paths(env: &SandboxEnv) -> (r: Vec<String>)
    ensures
        views(r@) == agent_state_of(*env),
{
    let mut out: Vec<String> = Vec::new();
    match &env.home {
        Some(home) => {
            let h = home.as_str();
            let ghost dirs = views(env.agent_dirs@);
            let mut i: usize = 0;
            assert(views(out@) =~= below_home(env.home, dirs.subrange(0, 0)));
            while i < env.agent_dirs.len()
                invariant
                    i <= env.agent_dirs.len(),
                    dirs == views(env.agent_dirs@),
                    env.home == Some(*home),
                    h@ == home@,
                    views(out@) == below_home(env.home, dirs.subrange(0, i as int)),
                decreases env.agent_dirs.len() - i,
            {
                push_below_home(&mut out, h, env.agent_dirs[i].as_str());
                i = i + 1;
                assert(views(out@) =~= below_home(env.home, dirs.subrange(0, i as int)));
            }
            assert(dirs.subrange(0, i as int) =~= dirs);
            push_below_home(&mut out, h, ".codex");
            push_below_home(&mut out, h, ".config/opencode");
            push_below_home(&mut out, h, ".local/share/opencode");
            push_below_home(&mut out, h, ".local/state/opencode");
            push_below_home(&mut out, h, ".cache/opencode");
        },
        None => {},
    }
    assert(views(out@) =~= agent_state_of(*env));
    out
}

/// Common credential stores.
pub fn default_secret_paths(env: &SandboxEnv) -> (r: Vec<String>)
    ensures
        views(r@) == below_home(env.home, secret_dirs()),
{
    let mut out: Vec<String> = Vec::new();
    match &env.home {
        Some(home) => {
            let h = home.as_str();
            push_below_home(&mut out, h, ".ssh");
            push_below_home(&mut out, h, ".aws");
            push_below_home(&mut out, h, ".gnupg");
            push_below_home(&mut out, h, ".netrc");
            push_below_home(&mut out, h, ".kube");
            push_below_home(&mut out, h, ".docker");
            push_below_home(&mut out, h, ".config/gh");
            push_below_home(&mut out, h, ".config/gcloud");
            push_below_home(&mut out, h, ".npmrc");
            push_below_home(&mut out, h, "Library/Keychains");
        },
        None => {},
    }
    assert(views(out@) =~= below_home(env.home, secret_dirs()));
    out
}

// ---------------------------------------------------------------------------
// Policy
// ---------------------------------------------------------------------------

/// Confined writes, a denylist of secrets, and the network.
pub struct SandboxPolicy {
    /// Roots that the child may read, write and execute in.
    pub writable: Vec<String>,
    /// Secret roots, carved out.
    pub secret_deny: Vec<String>,
    pub network: NetPolicy,
}

/// What stands for a character in a profile's string.
pub open spec fn sbpl_char(c: char) -> Seq<char> {
    if c == '\\' {
        seq!['\\', '\\']
    } else if c == '"' {
        seq!['\\', '"']
    } else {
        seq![c]
    }
}

pub open spec fn sbpl_chars(s: Seq<char>) -> Seq<char>
    decreases s.len(),
{
    if s.len() == 0 {
        Seq::empty()
    } else {
        sbpl_chars(s.drop_last()) + sbpl_char(s.last())
    }
}

/// A path as a string literal of a profile.
pub open spec fn sbpl_literal(s: Seq<char>) -> Seq<char> {
    (seq!['"'] + sbpl_chars(s)).push('"')
}

/// Quotes a path as a string literal of a profile, escaping `\` and `"`.
pub fn sbpl_quote(p: &str) -> (r: String)
    ensures
        r@ == sbpl_literal(p@),
{
    let v = chars_of(p);
    let mut out = String::new();
    out.push('"');
    let mut i: usize = 0;
    assert(out@ =~= seq!['"'] + sbpl_chars(p@.subrange(0, 0)));
    while i < v.len()
        invariant
            i <= v.len(),
            v@ == p@,
            out@ == seq!['"'] + sbpl_chars(p@.subrange(0, i as int)),
        decreases v.len() - i,
    {
        let c = v[i];
        let ghost before = out@;
        let ghost part = p@.subrange(0, i + 1);
        assert(part.drop_last() =~= p@.subrange(0, i as int));
        if c == '\\' || c == '"' {
            out.push('\\');
        }
        out.push(c);
        assert(out@ =~= before + sbpl_char(c));
        i = i + 1;
        assert(out@ =~= seq!['"'] + sbpl_chars(part));
    }
    assert(p@.subrange(0, i as int) =~= p@);
    out.push('"');
    out
}

pub open spec fn writable_rule(p: Seq<char>) -> Seq<char> {
    "  (subpath "@ + sbpl_literal(p) + ")\n"@
}

pub open spec fn writable_rules(s: Seq<Seq<char>>) -> Seq<char>
    decreases s.len(),
{
    if s.len() == 0 {
        Seq::empty()
    } else {
        writable_rules(s.drop_last()) + writable_rule(s.last())
    }
}

pub open spec fn deny_read_rule(p: Seq<char>) -> Seq<char> {
    "(deny file-read* (subpath "@ + sbpl_literal(p) + "))\n"@
}

pub open spec fn deny_write_rule(p: Seq<char>) -> Seq<char> {
    "(deny file-write* (subpath "@ + sbpl_literal(p) + "))\n"@
}

pub open spec fn secret_rules(s: Seq<Seq<char>>) -> Seq<char>
    decreases s.len(),
{
    if s.len() == 0 {
        Seq::empty()
    } else {
        secret_rules(s.drop_last()) + (deny_read_rule(s.last()) + deny_write_rule(s.last()))
    }
}

/// What stands before the writable roots: everything is denied, then what a
/// process needs to start and to read.
pub open spec fn profile_head() -> Seq<char> {
    "(version 1)\n(deny default)\n(allow process-fork)\n(allow process-exec*)\n(allow sysctl-read)\n(allow mach-lookup)\n(allow file-read*)\n(allow file-write*\n"@
}

/// The device nodes that tools expect to write to.
pub open spec fn device_rules() -> Seq<char> {
    "  (literal \"/dev/null\")\n  (literal \"/dev/zero\")\n  (literal \"/dev/random\")\n  (literal \"/dev/urandom\")\n  (literal \"/dev/dtracehelper\")\n  (literal \"/dev/tty\")\n)\n"@
}

pub open spec fn network_rule(n: NetPolicy) -> Seq<char> {
    match n {
        NetPolicy::Off => Seq::empty(),
        NetPolicy::GatewayOnly => "(allow network* (local ip) (remote ip \"localhost:*\"))\n"@,
        NetPolicy::GatewayStrict => "(allow network* (local ip) (remote ip \"localhost:*\"))\n"@,
        NetPolicy::Full => "(allow network*)\n"@,
    }
}

/// The rules that allow: all of them stand before those that deny a secret.
pub open spec fn allow_rules(writable: Seq<Seq<char>>) -> Seq<char> {
    profile_head() + writable_rules(writable) + device_rules()
}

/// The whole profile. The last rule that matches decides, so the secrets come
/// after the writable roots.
pub open spec fn seatbelt_profile(
    writable: Seq<Seq<char>>,
    secrets: Seq<Seq<char>>,
    network: NetPolicy,
) -> Seq<char> {
    allow_rules(writable) + secret_rules(secrets) + network_rule(network)
}

pub open spec fn mounts(writable: Seq<Seq<char>>) -> Seq<Seq<char>>
    decreases writable.len(),
{
    if writable.len() == 0 {
        Seq::empty()
    } else {
        let p = writable.last();
        mounts(writable.drop_last()) + seq!["-v"@, p + ":"@ + p + ":rw"@]
    }
}

/// `p` lies below one of `roots`, and is not that root.
pub open spec fn strictly_below_any(p: Seq<char>, roots: Seq<Seq<char>>) -> bool {
    exists|i: int|
        0 <= i < roots.len() && !same_path(p, #[trigger] roots[i]) && path_under(p, roots[i])
}

/// Secrets that lie below a mount are shadowed; the others are absent anyway.
pub open spec fn masks(secrets: Seq<Seq<char>>, writable: Seq<Seq<char>>) -> Seq<Seq<char>>
    decreases secrets.len(),
{
    if secrets.len() == 0 {
        Seq::empty()
    } else {
        let rest = masks(secrets.drop_last(), writable);
        if strictly_below_any(secrets.last(), writable) {
            rest + seq!["--tmpfs"@, secrets.last()]
        } else {
            rest
        }
    }
}

pub open spec fn network_args(n: NetPolicy) -> Seq<Seq<char>> {
    match n {
        NetPolicy::Off => seq!["--network=none"@],
        NetPolicy::GatewayStrict => seq![
            "--add-host"@,
            "host.docker.internal:host-gateway"@,
            "--cap-add=NET_ADMIN"@,
            "-e"@,
            "ROZUM_EGRESS=strict"@,
        ],
        _ => seq!["--add-host"@, "host.docker.internal:host-gateway"@],
    }
}

pub open spec fn env_args(names: Seq<Seq<char>>) -> Seq<Seq<char>>
    decreases names.len(),
{
    if names.len() == 0 {
        Seq::empty()
    } else {
        env_args(names.drop_last()) + seq!["-e"@, names.last()]
    }
}

/// The arguments of `docker run`, up to the image.
pub open spec fn docker_args(
    writable: Seq<Seq<char>>,
    secrets: Seq<Seq<char>>,
    network: NetPolicy,
    image: Seq<char>,
    workdir: Seq<char>,
    forward_env: Seq<Seq<char>>,
    limits: DockerLimits,
) -> Seq<Seq<char>> {
    seq!["run"@, "--rm"@, "-i"@, "--init"@] + limit_args(limits) + mounts(writable) + masks(
        secrets,
        writable,
    ) + seq!["-w"@, workdir] + network_args(network) + env_args(forward_env) + seq![image]
}

fn push_text(a: &mut Vec<String>, s: &str)
    ensures
        views(final(a)@) == views(old(a)@).push(s@),
{
    a.push(copy(s));
    assert(views(a@) =~= views(old(a)@).push(s@));
}

fn push_two(a: &mut Vec<String>, s: &str, t: &str)
    ensures
        views(final(a)@) == views(old(a)@) + seq![s@, t@],
{
    push_text(a, s);
    push_text(a, t);
    assert(views(a@) =~= views(old(a)@) + seq![s@, t@]);
}

fn lies_strictly_below(p: &str, roots: &Vec<String>) -> (r: bool)
    ensures
        r == strictly_below_any(p@, views(roots@)),
{
    let mut i: usize = 0;
    while i < roots.len()
        invariant
            i <= roots.len(),
            forall|k: int|
                0 <= k < i ==> !(!same_path(p@, #[trigger] views(roots@)[k]) && path_under(
                    p@,
                    views(roots@)[k],
                )),
        decreases roots.len() - i,
    {
        assert(views(roots@)[i as int] == roots@[i as int]@);
        if !is_same_path(p, roots[i].as_str()) && is_under(p, roots[i].as_str()) {
            return true;
        }
        i = i + 1;
    }
    false
}

fn push_mounts(a: &mut Vec<String>, writable: &Vec<String>)
    ensures
        views(final(a)@) == views(old(a)@) + mounts(views(writable@)),
{
    let mut i: usize = 0;
    assert(views(a@) =~= views(old(a)@) + mounts(views(writable@).subrange(0, 0)));
    while i < writable.len()
        invariant
            i <= writable.len(),
            views(a@) == views(old(a)@) + mounts(views(writable@).subrange(0, i as int)),
        decreases writable.len() - i,
    {
        let ghost part = views(writable@).subrange(0, i + 1);
        assert(part.drop_last() =~= views(writable@).subrange(0, i as int));
        assert(part.last() == writable@[i as int]@);
        let ghost before = views(a@);
        let p = writable[i].as_str();
        let mut m = copy(p);
        m.append(":");
        m.append(p);
        m.append(":rw");
        push_two(a, "-v", m.as_str());
        assert(m@ =~= part.last() + ":"@ + part.last() + ":rw"@);
        assert(views(a@) =~= views(old(a)@) + mounts(part));
        i = i + 1;
    }
    assert(views(writable@).subrange(0, i as int) =~= views(writable@));
}

fn push_masks(a: &mut Vec<String>, secrets: &Vec<String>, writable: &Vec<String>)
    ensures
        views(final(a)@) == views(old(a)@) + masks(views(secrets@), views(writable@)),
{
    let mut i: usize = 0;
    let ghost w = views(writable@);
    assert(views(a@) =~= views(old(a)@) + masks(views(secrets@).subrange(0, 0), w));
    while i < secrets.len()
        invariant
            i <= secrets.len(),
            w == views(writable@),
            views(a@) == views(old(a)@) + masks(views(secrets@).subrange(0, i as int), w),
        decreases secrets.len() - i,
    {
        let ghost part = views(secrets@).subrange(0, i + 1);
        assert(part.drop_last() =~= views(secrets@).subrange(0, i as int));
        assert(part.last() == secrets@[i as int]@);
        if lies_strictly_below(secrets[i].as_str(), writable) {
            push_two(a, "--tmpfs", secrets[i].as_str());
            assert(views(a@) =~= views(old(a)@) + masks(part, w));
        }
        i = i + 1;
    }
    assert(views(secrets@).subrange(0, i as int) =~= views(secrets@));
}

fn push_env(a: &mut Vec<String>, names: &Vec<String>)
    ensures
        views(final(a)@) == views(old(a)@) + env_args(views(names@)),
{
    let mut i: usize = 0;
    assert(views(a@) =~= views(old(a)@) + env_args(views(names@).subrange(0, 0)));
    while i < names.len()
        invariant
            i <= names.len(),
            views(a@) == views(old(a)@) + env_args(views(names@).subrange(0, i as int)),
        decreases names.len() - i,
    {
        let ghost part = views(names@).subrange(0, i + 1);
        assert(part.drop_last() =~= views(names@).subrange(0, i as int));
        assert(part.last() == names@[i as int]@);
        push_two(a, "-e", names[i].as_str());
        assert(views(a@) =~= views(old(a)@) + env_args(part));
        i = i + 1;
    }
    assert(views(names@).subrange(0, i as int) =~= views(names@));
}

impl SandboxPolicy {
    /// The coding profile: the workspaces, the toolchain caches and the agents'
    /// own state are writable, common credential stores are secret. Every path
    /// stands for its real location.
    pub fn rust_coding(workspaces: &Vec<String>, network: NetPolicy, env: &SandboxEnv) -> (r: Self)
        ensures
            views(r.writable@) == path_set(
                all_resolved(
                    link_pairs(env.links@),
                    views(workspaces@) + toolchain_of(*env) + agent_state_of(*env),
                ),
            ),
            views(r.secret_deny@) == path_set(
                all_resolved(link_pairs(env.links@), below_home(env.home, secret_dirs())),
            ),
            r.network == network,
    {
        let writable = Self::coding_paths(workspaces, env);
        SandboxPolicy {
            writable: dedup(&resolve_all(&env.links, &writable)),
            secret_deny: dedup(&resolve_all(&env.links, &default_secret_paths(env))),
            network,
        }
    }

    /// The paths that the coding profile makes writable, before they are
    /// resolved.
    pub fn coding_paths(workspaces: &Vec<String>, env: &SandboxEnv) -> (r: Vec<String>)
        ensures
            views(r@) == views(workspaces@) + toolchain_of(*env) + agent_state_of(*env),
    {
        let mut out = crate::text::copy_all(workspaces);
        let mut tools = toolchain_paths(env);
        let mut agents = agent_state_paths(env);
        let ghost a = out@;
        let ghost b = tools@;
        let ghost c = agents@;
        out.append(&mut tools);
        assert(views(out@) =~= views(a) + views(b));
        let ghost d = out@;
        out.append(&mut agents);
        assert(views(out@) =~= views(d) + views(c));
        out
    }

    /// Renders the policy to a macOS Seatbelt profile.
    pub fn to_seatbelt_profile(&self) -> (r: String)
        ensures
            r@ == seatbelt_profile(
                views(self.writable@),
                views(self.secret_deny@),
                self.network,
            ),
    {
        let mut p = copy(
            "(version 1)\n(deny default)\n(allow process-fork)\n(allow process-exec*)\n(allow sysctl-read)\n(allow mach-lookup)\n(allow file-read*)\n(allow file-write*\n",
        );
        let mut i: usize = 0;
        assert(p@ =~= profile_head() + writable_rules(views(self.writable@).subrange(0, 0)));
        while i < self.writable.len()
            invariant
                i <= self.writable.len(),
                p@ == profile_head() + writable_rules(
                    views(self.writable@).subrange(0, i as int),
                ),
            decreases self.writable.len() - i,
        {
            let ghost part = views(self.writable@).subrange(0, i + 1);
            assert(part.drop_last() =~= views(self.writable@).subrange(0, i as int));
            assert(part.last() == self.writable@[i as int]@);
            p.append("  (subpath ");
            p.append(sbpl_quote(self.writable[i].as_str()).as_str());
            p.append(")\n");
            assert(p@ =~= profile_head() + writable_rules(part));
            i = i + 1;
        }
        assert(views(self.writable@).subrange(0, i as int) =~= views(self.writable@));
        p.append(
            "  (literal \"/dev/null\")\n  (literal \"/dev/zero\")\n  (literal \"/dev/random\")\n  (literal \"/dev/urandom\")\n  (literal \"/dev/dtracehelper\")\n  (literal \"/dev/tty\")\n)\n",
        );
        let ghost head = p@;
        assert(head == allow_rules(views(self.writable@)));
        let mut k: usize = 0;
        assert(p@ =~= head + secret_rules(views(self.secret_deny@).subrange(0, 0)));
        while k < self.secret_deny.len()
            invariant
                k <= self.secret_deny.len(),
                p@ == head + secret_rules(views(self.secret_deny@).subrange(0, k as int)),
            decreases self.secret_deny.len() - k,
        {
            let ghost part = views(self.secret_deny@).subrange(0, k + 1);
            assert(part.drop_last() =~= views(self.secret_deny@).subrange(0, k as int));
            assert(part.last() == self.secret_deny@[k as int]@);
            let q = sbpl_quote(self.secret_deny[k].as_str());
            p.append("(deny file-read* (subpath ");
            p.append(q.as_str());
            p.append("))\n");
            p.append("(deny file-write* (subpath ");
            p.append(q.as_str());
            p.append("))\n");
            assert(p@ =~= head + secret_rules(part));
            k = k + 1;
        }
        assert(views(self.secret_deny@).subrange(0, k as int) =~= views(self.secret_deny@));
        match self.network {
            NetPolicy::Off => {
                assert(p@ + Seq::<char>::empty() =~= p@);
            },
            NetPolicy::GatewayOnly => {
                p.append("(allow network* (local ip) (remote ip \"localhost:*\"))\n");
            },
            NetPolicy::GatewayStrict => {
                p.append("(allow network* (local ip) (remote ip \"localhost:*\"))\n");
            },
            NetPolicy::Full => {
                p.append("(allow network*)\n");
            },
        }
        p
    }

    /// Renders the policy to the arguments of `docker run`, up to and with the
    /// image; the caller appends the program. Writable paths are mounted where
    /// they are, secrets below a mount are shadowed by an empty file system, and
    /// everything else is absent.
    pub fn to_docker_run_args(
        &self,
        image: &str,
        workdir: &str,
        forward_env: &Vec<String>,
        limits: &DockerLimits,
        links: &Vec<(String, String)>,
    ) -> (r: Vec<String>)
        ensures
            views(r@) == docker_args(
                all_resolved(link_pairs(links@), views(self.writable@)),
                all_resolved(link_pairs(links@), views(self.secret_deny@)),
                self.network,
                image@,
                workdir@,
                views(forward_env@),
                *limits,
            ),
    {
        let mut a: Vec<String> = Vec::new();
        push_text(&mut a, "run");
        push_text(&mut a, "--rm");
        push_text(&mut a, "-i");
        push_text(&mut a, "--init");
        assert(views(a@) =~= seq!["run"@, "--rm"@, "-i"@, "--init"@]);
        limits.push_args(&mut a);
        let writable = resolve_all(links, &self.writable);
        push_mounts(&mut a, &writable);
        let secrets = resolve_all(links, &self.secret_deny);
        push_masks(&mut a, &secrets, &writable);
        push_two(&mut a, "-w", workdir);
        let ghost before = views(a@);
        match self.network {
            NetPolicy::Off => {
                push_text(&mut a, "--network=none");
            },
            NetPolicy::GatewayStrict => {
                push_two(&mut a, "--add-host", "host.docker.internal:host-gateway");
                push_text(&mut a, "--cap-add=NET_ADMIN");
                push_two(&mut a, "-e", "ROZUM_EGRESS=strict");
            },
            _ => {
                push_two(&mut a, "--add-host", "host.docker.internal:host-gateway");
            },
        }
        assert(views(a@) =~= before + network_args(self.network));
        push_env(&mut a, forward_env);
        let ghost last = views(a@);
        push_text(&mut a, image);
        assert(views(a@) =~= last + seq![image@]);
        a
    }
}

/// The name of the profile file of a process.
pub fn seatbelt_profile_name(pid: u32) -> (r: String)
    ensures
        r@ == "rozum-sandbox-"@ + dec_text(pid as nat) + ".sb"@,
{
    let mut out = copy("rozum-sandbox-");
    out.append(dec(pid as u64).as_str());
    out.append(".sb");
    out
}

// ---------------------------------------------------------------------------
// Laws
// ---------------------------------------------------------------------------

proof fn occurs_in_sum(a: Seq<char>, b: Seq<char>, p: Seq<char>, i: int)
    ensures
        occurs_at(a, p, i) ==> occurs_at(a + b, p, i),
        occurs_at(b, p, i) ==> occurs_at(a + b, p, a.len() + i),
{
    if occurs_at(a, p, i) {
        assert((a + b).subrange(i, i + p.len()) =~= a.subrange(i, i + p.len()));
    }
    if occurs_at(b, p, i) {
        assert((a + b).subrange(a.len() + i, a.len() + i + p.len()) =~= b.subrange(i, i + p.len()));
    }
}

proof fn secret_rule_at(s: Seq<Seq<char>>, k: int) -> (at: (int, int))
    requires
        0 <= k < s.len(),
    ensures
        occurs_at(secret_rules(s), deny_read_rule(s[k]), at.0),
        occurs_at(secret_rules(s), deny_write_rule(s[k]), at.1),
    decreases s.len(),
{
    let init = s.drop_last();
    let rest = secret_rules(init);
    let read = deny_read_rule(s.last());
    let write = deny_write_rule(s.last());
    if k < init.len() {
        let at = secret_rule_at(init, k);
        assert(init[k] == s[k]);
        occurs_in_sum(rest, read + write, deny_read_rule(s[k]), at.0);
        occurs_in_sum(rest, read + write, deny_write_rule(s[k]), at.1);
        at
    } else {
        assert(read.subrange(0, read.len() as int) =~= read);
        assert(write.subrange(0, write.len() as int) =~= write);
        occurs_in_sum(read, write, read, 0);
        occurs_in_sum(read, write, write, 0);
        occurs_in_sum(rest, read + write, read, 0);
        occurs_in_sum(rest, read + write, write, read.len() as int);
        (rest.len() as int, (rest.len() + read.len()) as int)
    }
}

/// Every secret is denied, for reading and for writing, behind every rule that
/// allows a write: the last rule that matches decides, so the secret stays safe
/// even below a writable root.
pub proof fn secrets_are_denied_last(
    writable: Seq<Seq<char>>,
    secrets: Seq<Seq<char>>,
    network: NetPolicy,
    k: int,
) -> (at: (int, int))
    requires
        0 <= k < secrets.len(),
    ensures
        ({
            let p = seatbelt_profile(writable, secrets, network);
            &&& occurs_at(p, deny_read_rule(secrets[k]), at.0)
            &&& occurs_at(p, deny_write_rule(secrets[k]), at.1)
            &&& at.0 >= allow_rules(writable).len()
            &&& at.1 >= allow_rules(writable).len()
        }),
{
    let at = secret_rule_at(secrets, k);
    let head = allow_rules(writable);
    let mid = secret_rules(secrets);
    occurs_in_sum(head, mid, deny_read_rule(secrets[k]), at.0);
    occurs_in_sum(head, mid, deny_write_rule(secrets[k]), at.1);
    occurs_in_sum(
        head + mid,
        network_rule(network),
        deny_read_rule(secrets[k]),
        head.len() + at.0,
    );
    occurs_in_sum(
        head + mid,
        network_rule(network),
        deny_write_rule(secrets[k]),
        head.len() + at.1,
    );
    (head.len() + at.0, head.len() + at.1)
}

/// A profile starts by denying everything.
pub proof fn everything_is_denied_first(
    writable: Seq<Seq<char>>,
    secrets: Seq<Seq<char>>,
    network: NetPolicy,
)
    ensures
        occurs_at(
            seatbelt_profile(writable, secrets, network),
            "(version 1)\n(deny default)\n"@,
            0,
        ),
{
    reveal_strlit("(version 1)\n(deny default)\n");
    reveal_strlit(
        "(version 1)\n(deny default)\n(allow process-fork)\n(allow process-exec*)\n(allow sysctl-read)\n(allow mach-lookup)\n(allow file-read*)\n(allow file-write*\n",
    );
    let q = "(version 1)\n(deny default)\n"@;
    assert(profile_head().subrange(0, q.len() as int) =~= q);
    occurs_in_sum(profile_head(), writable_rules(writable), q, 0);
    occurs_in_sum(profile_head() + writable_rules(writable), device_rules(), q, 0);
    occurs_in_sum(allow_rules(writable), secret_rules(secrets), q, 0);
    occurs_in_sum(allow_rules(writable) + secret_rules(secrets), network_rule(network), q, 0);
}

/// The stricter of the two gateway policies changes nothing in a profile, whose
/// loopback rule is strict already.
pub proof fn strict_and_plain_gateway_profiles_agree(
    writable: Seq<Seq<char>>,
    secrets: Seq<Seq<char>>,
)
    ensures
        seatbelt_profile(writable, secrets, NetPolicy::GatewayStrict) == seatbelt_profile(
            writable,
            secrets,
            NetPolicy::GatewayOnly,
        ),
{
}

/// In a container every secret that a mount would bring in is shadowed.
pub proof fn mounted_secrets_are_masked(
    secrets: Seq<Seq<char>>,
    writable: Seq<Seq<char>>,
    k: int,
) -> (at: int)
    requires
        0 <= k < secrets.len(),
        strictly_below_any(secrets[k], writable),
    ensures
        0 <= at,
        at + 1 < masks(secrets, writable).len(),
        masks(secrets, writable)[at] == "--tmpfs"@,
        masks(secrets, writable)[at + 1] == secrets[k],
    decreases secrets.len(),
{
    let init = secrets.drop_last();
    if k < init.len() {
        assert(init[k] == secrets[k]);
        mounted_secrets_are_masked(init, writable, k)
    } else {
        masks(init, writable).len() as int
    }
}

/// A path is quoted character by character: a quote and a backslash behind a
/// backslash, every other character as it is.
pub proof fn paths_are_quoted(a: Seq<char>, b: Seq<char>, x: char)
    ensures
        sbpl_chars(a + b) == sbpl_chars(a) + sbpl_chars(b),
        x == '"' || x == '\\' ==> sbpl_chars(seq![x]) == seq!['\\', x],
        x != '"' && x != '\\' ==> sbpl_chars(seq![x]) == seq![x],
    decreases b.len(),
{
    let none = Seq::<char>::empty();
    assert(seq![x].drop_last() =~= none);
    assert(seq![x].last() == x);
    assert(sbpl_chars(none) =~= Seq::empty());
    if x == '"' || x == '\\' {
        assert(sbpl_chars(seq![x]) =~= seq!['\\', x]);
    }
    if x != '"' && x != '\\' {
        assert(sbpl_chars(seq![x]) =~= seq![x]);
    }
    if b.len() == 0 {
        assert(a + b =~= a);
        assert(sbpl_chars(a) + sbpl_chars(b) =~= sbpl_chars(a));
    } else {
        paths_are_quoted(a, b.drop_last(), x);
        assert((a + b).drop_last() =~= a + b.drop_last());
        assert((a + b).last() == b.last());
        assert(sbpl_chars(a + b) =~= sbpl_chars(a) + sbpl_chars(b));
    }
}


/// Every writable root has a rule of its own, in its place.
pub proof fn every_root_is_writable(a: Seq<Seq<char>>, b: Seq<Seq<char>>, x: Seq<char>)
    ensures
        writable_rules(a + b) == writable_rules(a) + writable_rules(b),
        writable_rules(seq![x]) == "  (subpath \""@ + sbpl_chars(x) + "\")\n"@,
    decreases b.len(),
{
    let none = Seq::<Seq<char>>::empty();
    assert(seq![x].drop_last() =~= none);
    assert(seq![x].last() == x);
    assert(writable_rules(none) =~= Seq::empty());
    reveal_strlit("  (subpath \"");
    reveal_strlit("  (subpath ");
    reveal_strlit("\")\n");
    reveal_strlit(")\n");
    assert(writable_rules(seq![x]) =~= "  (subpath \""@ + sbpl_chars(x) + "\")\n"@);
    if b.len() == 0 {
        assert(a + b =~= a);
        assert(writable_rules(a) + writable_rules(b) =~= writable_rules(a));
    } else {
        every_root_is_writable(a, b.drop_last(), x);
        assert((a + b).drop_last() =~= a + b.drop_last());
        assert((a + b).last() == b.last());
        assert(writable_rules(a + b) =~= writable_rules(a) + writable_rules(b));
    }
}


/// Every secret is denied, first for reading and then for writing, in its place.
pub proof fn every_secret_is_denied(a: Seq<Seq<char>>, b: Seq<Seq<char>>, x: Seq<char>)
    ensures
        secret_rules(a + b) == secret_rules(a) + secret_rules(b),
        secret_rules(seq![x]) == "(deny file-read* (subpath "@ + sbpl_literal(x) + "))\n(deny file-write* (subpath "@ + sbpl_literal(x) + "))\n"@,
    decreases b.len(),
{
    let none = Seq::<Seq<char>>::empty();
    assert(seq![x].drop_last() =~= none);
    assert(seq![x].last() == x);
    assert(secret_rules(none) =~= Seq::empty());
    reveal_strlit("(deny file-read* (subpath ");
    reveal_strlit("(deny file-write* (subpath ");
    reveal_strlit("))\n");
    reveal_strlit("))\n(deny file-write* (subpath ");
    assert(secret_rules(seq![x]) =~= "(deny file-read* (subpath "@ + sbpl_literal(x) + "))\n(deny file-write* (subpath "@ + sbpl_literal(x) + "))\n"@);
    if b.len() == 0 {
        assert(a + b =~= a);
        assert(secret_rules(a) + secret_rules(b) =~= secret_rules(a));
    } else {
        every_secret_is_denied(a, b.drop_last(), x);
        assert((a + b).drop_last() =~= a + b.drop_last());
        assert((a + b).last() == b.last());
        assert(secret_rules(a + b) =~= secret_rules(a) + secret_rules(b));
    }
}


/// Every writable root is mounted at its own place, for reading and writing.
pub proof fn every_root_is_mounted(a: Seq<Seq<char>>, b: Seq<Seq<char>>, x: Seq<char>)
    ensures
        mounts(a + b) == mounts(a) + mounts(b),
        mounts(seq![x]) == seq!["-v"@, x + ":"@ + x + ":rw"@],
    decreases b.len(),
{
    let none = Seq::<Seq<char>>::empty();
    assert(seq![x].drop_last() =~= none);
    assert(seq![x].last() == x);
    assert(mounts(none) =~= Seq::empty());
    assert(mounts(seq![x]) =~= seq!["-v"@, x + ":"@ + x + ":rw"@]);
    if b.len() == 0 {
        assert(a + b =~= a);
        assert(mounts(a) + mounts(b) =~= mounts(a));
    } else {
        every_root_is_mounted(a, b.drop_last(), x);
        assert((a + b).drop_last() =~= a + b.drop_last());
        assert((a + b).last() == b.last());
        assert(mounts(a + b) =~= mounts(a) + mounts(b));
    }
}


/// A secret is masked where a mount would bring it in, and only there.
pub proof fn only_mounted_secrets_are_masked(a: Seq<Seq<char>>, b: Seq<Seq<char>>, x: Seq<char>, writable: Seq<Seq<char>>)
    ensures
        masks(a + b, writable) == masks(a, writable) + masks(b, writable),
        strictly_below_any(x, writable) ==> masks(seq![x], writable) == seq!["--tmpfs"@, x],
        !strictly_below_any(x, writable) ==> masks(seq![x], writable).len() == 0,
    decreases b.len(),
{
    let none = Seq::<Seq<char>>::empty();
    assert(seq![x].drop_last() =~= none);
    assert(seq![x].last() == x);
    assert(masks(none, writable) =~= Seq::empty());
    if strictly_below_any(x, writable) {
        assert(masks(seq![x], writable) =~= seq!["--tmpfs"@, x]);
    }
    if !strictly_below_any(x, writable) {
        assert(masks(seq![x], writable) =~= Seq::empty());
    }
    if b.len() == 0 {
        assert(a + b =~= a);
        assert(masks(a, writable) + masks(b, writable) =~= masks(a, writable));
    } else {
        only_mounted_secrets_are_masked(a, b.drop_last(), x, writable);
        assert((a + b).drop_last() =~= a + b.drop_last());
        assert((a + b).last() == b.last());
        assert(masks(a + b, writable) =~= masks(a, writable) + masks(b, writable));
    }
}


/// Every variable is forwarded by its name.
pub proof fn every_name_is_forwarded(a: Seq<Seq<char>>, b: Seq<Seq<char>>, x: Seq<char>)
    ensures
        env_args(a + b) == env_args(a) + env_args(b),
        env_args(seq![x]) == seq!["-e"@, x],
    decreases b.len(),
{
    let none = Seq::<Seq<char>>::empty();
    assert(seq![x].drop_last() =~= none);
    assert(seq![x].last() == x);
    assert(env_args(none) =~= Seq::empty());
    assert(env_args(seq![x]) =~= seq!["-e"@, x]);
    if b.len() == 0 {
        assert(a + b =~= a);
        assert(env_args(a) + env_args(b) =~= env_args(a));
    } else {
        every_name_is_forwarded(a, b.drop_last(), x);
        assert((a + b).drop_last() =~= a + b.drop_last());
        assert((a + b).last() == b.last());
        assert(env_args(a + b) =~= env_args(a) + env_args(b));
    }
}


/// A path is resolved to what is known of it first, and is itself where nothing is
/// known.
pub proof fn paths_are_resolved(links: Seq<(Seq<char>, Seq<char>)>, p: Seq<char>, k: int)
    ensures
        0 <= k < links.len() && links[k].0 == p && (forall|j: int|
            0 <= j < k ==> (#[trigger] links[j]).0 != p) ==> resolved(links, p) == links[k].1,
        (forall|j: int| 0 <= j < links.len() ==> (#[trigger] links[j]).0 != p) ==> resolved(links, p)
            == p,
    decreases links.len(),
{
    if links.len() > 0 && links[0].0 != p {
        let rest = links.subrange(1, links.len() as int);
        paths_are_resolved(rest, p, k - 1);
        if 0 <= k < links.len() && links[k].0 == p && (forall|j: int|
            0 <= j < k ==> (#[trigger] links[j]).0 != p) {
            assert(rest[k - 1] == links[k]);
            assert forall|j: int| 0 <= j < k - 1 implies (#[trigger] rest[j]).0 != p by {
                assert(rest[j] == links[j + 1]);
            }
        }
        if forall|j: int| 0 <= j < links.len() ==> (#[trigger] links[j]).0 != p {
            assert forall|j: int| 0 <= j < rest.len() implies (#[trigger] rest[j]).0 != p by {
                assert(rest[j] == links[j + 1]);
            }
        }
    }
}

/// The network is off, on the loopback or open as the policy says: without a policy
/// of its own a name stands for the gateway alone, and white space and case make no
/// difference.
pub proof fn policies_go_by_their_names(raw: Seq<char>, other: Seq<char>)
    ensures
        ascii_lower(trim(raw)) == ascii_lower(trim(other)) ==> net_policy_named(raw)
            == net_policy_named(other) && backend_named(raw) == backend_named(other),
        net_policy_named(raw) is Off <==> ascii_lower(trim(raw)) == "none"@ || ascii_lower(
            trim(raw),
        ) == "off"@,
        ascii_lower(trim(raw)) == "gateway-strict"@ || ascii_lower(trim(raw)) == "strict"@
            ==> net_policy_named(raw) is GatewayStrict,
        ascii_lower(trim(raw)) == "full"@ || ascii_lower(trim(raw)) == "all"@ || ascii_lower(
            trim(raw),
        ) == "unrestricted"@ ==> net_policy_named(raw) is Full,
        net_policy_named(raw) is Full ==> ascii_lower(trim(raw)) == "full"@ || ascii_lower(
            trim(raw),
        ) == "all"@ || ascii_lower(trim(raw)) == "unrestricted"@,
        backend_named(raw) is Docker <==> ascii_lower(trim(raw)) == "docker"@ || ascii_lower(
            trim(raw),
        ) == "container"@,
{
    policy_names_differ();
}

/// No two names of policies are the same.
proof fn policy_names_differ()
    ensures
        "none"@ != "off"@,
        "none"@ != "gateway-strict"@,
        "none"@ != "strict"@,
        "none"@ != "full"@,
        "none"@ != "all"@,
        "none"@ != "unrestricted"@,
        "off"@ != "gateway-strict"@,
        "off"@ != "strict"@,
        "off"@ != "full"@,
        "off"@ != "all"@,
        "off"@ != "unrestricted"@,
        "gateway-strict"@ != "strict"@,
        "gateway-strict"@ != "full"@,
        "gateway-strict"@ != "all"@,
        "gateway-strict"@ != "unrestricted"@,
        "strict"@ != "full"@,
        "strict"@ != "all"@,
        "strict"@ != "unrestricted"@,
        "full"@ != "all"@,
        "full"@ != "unrestricted"@,
        "all"@ != "unrestricted"@,
{
    reveal_strlit("none");
    reveal_strlit("off");
    reveal_strlit("gateway-strict");
    reveal_strlit("strict");
    reveal_strlit("full");
    reveal_strlit("all");
    reveal_strlit("unrestricted");
    assert("none"@.len() != "off"@.len());
    assert("none"@.len() != "gateway-strict"@.len());
    assert("none"@.len() != "strict"@.len());
    assert("none"@[0] != "full"@[0]);
    assert("none"@.len() != "all"@.len());
    assert("none"@.len() != "unrestricted"@.len());
    assert("off"@.len() != "gateway-strict"@.len());
    assert("off"@.len() != "strict"@.len());
    assert("off"@.len() != "full"@.len());
    assert("off"@[0] != "all"@[0]);
    assert("off"@.len() != "unrestricted"@.len());
    assert("gateway-strict"@.len() != "strict"@.len());
    assert("gateway-strict"@.len() != "full"@.len());
    assert("gateway-strict"@.len() != "all"@.len());
    assert("gateway-strict"@.len() != "unrestricted"@.len());
    assert("strict"@.len() != "full"@.len());
    assert("strict"@.len() != "all"@.len());
    assert("strict"@.len() != "unrestricted"@.len());
    assert("full"@.len() != "all"@.len());
    assert("full"@.len() != "unrestricted"@.len());
    assert("all"@.len() != "unrestricted"@.len());
}

/// What a policy allows of the network: nothing when it is off, only the loopback
/// for the gateway, everything when it is open; a container without network has
/// none at all, and only a strict one guards its own way out.
pub proof fn the_network_is_as_the_policy_says()
    ensures
        network_rule(NetPolicy::Off).len() == 0,
        network_rule(NetPolicy::Full) == "(allow network*)\n"@,
        network_rule(NetPolicy::GatewayOnly)
            == "(allow network* (local ip) (remote ip \"localhost:*\"))\n"@,
        network_args(NetPolicy::Off) == seq!["--network=none"@],
        network_args(NetPolicy::Full) == seq![
            "--add-host"@,
            "host.docker.internal:host-gateway"@,
        ],
        network_args(NetPolicy::GatewayOnly) == network_args(NetPolicy::Full),
        network_args(NetPolicy::GatewayStrict).subrange(0, 2) == network_args(NetPolicy::Full),
        network_args(NetPolicy::GatewayStrict).contains("--cap-add=NET_ADMIN"@),
        network_args(NetPolicy::GatewayStrict).contains("ROZUM_EGRESS=strict"@),
{
    let strict = network_args(NetPolicy::GatewayStrict);
    assert(strict.subrange(0, 2) =~= network_args(NetPolicy::Full));
    assert(strict[2] == "--cap-add=NET_ADMIN"@);
    assert(strict[4] == "ROZUM_EGRESS=strict"@);
}

/// A limit is passed on where it is set, and not where it is not.
pub proof fn limits_are_passed_on(l: DockerLimits)
    ensures
        l.memory is None && l.cpus is None && l.pids is None ==> limit_args(l).len() == 0,
        l.memory matches Some(m) ==> limit_args(l).len() >= 2 && limit_args(l)[0] == "--memory"@
            && limit_args(l)[1] == m@,
        l.memory is None ==> (l.cpus matches Some(c) ==> limit_args(l).len() >= 2 && limit_args(l)[0]
            == "--cpus"@ && limit_args(l)[1] == c@),
        l.pids matches Some(p) ==> limit_args(l).len() >= 2 && limit_args(l)[limit_args(l).len() - 2]
            == "--pids-limit"@ && limit_args(l).last() == signed_text(p as int),
{
}

/// A container runs the image last, in the working directory, behind its limits,
/// mounts and masks.
pub proof fn a_container_runs_its_image(
    writable: Seq<Seq<char>>,
    secrets: Seq<Seq<char>>,
    network: NetPolicy,
    image: Seq<char>,
    workdir: Seq<char>,
    forward_env: Seq<Seq<char>>,
    limits: DockerLimits,
)
    ensures
        ({
            let a = docker_args(writable, secrets, network, image, workdir, forward_env, limits);
            let l = 4 + limit_args(limits).len() as int;
            let m = l + mounts(writable).len() as int;
            let w = m + masks(secrets, writable).len() as int;
            let n = w + 2 + network_args(network).len() as int;
            &&& a[0] == "run"@ && a[1] == "--rm"@ && a[2] == "-i"@ && a[3] == "--init"@
            &&& a.subrange(4, l) == limit_args(limits)
            &&& a.subrange(l, m) == mounts(writable)
            &&& a.subrange(m, w) == masks(secrets, writable)
            &&& a[w] == "-w"@ && a[w + 1] == workdir
            &&& a.subrange(w + 2, n) == network_args(network)
            &&& a.subrange(n, a.len() - 1) == env_args(forward_env)
            &&& a.last() == image
        }),
{
    let a = docker_args(writable, secrets, network, image, workdir, forward_env, limits);
    let l = 4 + limit_args(limits).len() as int;
    let m = l + mounts(writable).len() as int;
    let w = m + masks(secrets, writable).len() as int;
    let n = w + 2 + network_args(network).len() as int;
    assert(a.subrange(4, l) =~= limit_args(limits));
    assert(a.subrange(l, m) =~= mounts(writable));
    assert(a.subrange(m, w) =~= masks(secrets, writable));
    assert(a.subrange(w + 2, n) =~= network_args(network));
    assert(a.subrange(n, a.len() - 1) =~= env_args(forward_env));
}

/// A secret is shadowed in a mount below which it lies, not where it is the mount.
pub proof fn a_mount_is_not_below_itself(p: Seq<char>, roots: Seq<Seq<char>>, k: int)
    requires
        0 <= k < roots.len(),
    ensures
        path_under(p, roots[k]) && !same_path(p, roots[k]) ==> strictly_below_any(p, roots),
        (forall|i: int|
            0 <= i < roots.len() ==> same_path(p, #[trigger] roots[i]) || !path_under(p, roots[i]))
            ==> !strictly_below_any(p, roots),
{
}

/// A toolchain lies where it was set to lie, else below the home directory; without
/// either it is left out. The scratch directories are always there.
pub proof fn the_toolchain_is_where_it_was_set(env: SandboxEnv)
    ensures
        toolchain_of(env).last() == "/tmp"@,
        env.cargo_home matches Some(c) ==> toolchain_of(env)[0] == c@,
        env.cargo_home is None ==> (env.home matches Some(h) ==> toolchain_of(env)[0] == path_join(
            h@,
            ".cargo"@,
        )),
        env.cargo_home is Some || env.home is Some ==> (env.rustup_home matches Some(r)
            ==> toolchain_of(env)[1] == r@),
        env.cargo_home is Some || env.home is Some ==> (env.rustup_home is None ==> (
        env.home matches Some(h) ==> toolchain_of(env)[1] == path_join(h@, ".rustup"@))),
        env.tmpdir matches Some(t) ==> toolchain_of(env)[toolchain_of(env).len() - 2] == t@,
        env.home is None ==> agent_state_of(env).len() == 0,
{
}

/// The common credential stores and the agents' own directories are known, each below
/// the home directory.
pub proof fn known_directories_are_below_home(home: String, subs: Seq<Seq<char>>, i: int)
    requires
        0 <= i < subs.len(),
    ensures
        below_home(Some(home), subs).len() == subs.len(),
        below_home(Some(home), subs)[i] == path_join(home@, subs[i]),
        below_home(None, subs).len() == 0,
        secret_dirs().contains(".ssh"@),
        secret_dirs().contains(".aws"@),
        secret_dirs().contains(".gnupg"@),
        secret_dirs().contains(".netrc"@),
        secret_dirs().contains(".kube"@),
        secret_dirs().contains(".docker"@),
        secret_dirs().contains(".config/gh"@),
        secret_dirs().contains(".config/gcloud"@),
        secret_dirs().contains(".npmrc"@),
        secret_dirs().contains("Library/Keychains"@),
        agent_dirs().contains(".codex"@),
        agent_dirs().contains(".config/opencode"@),
        agent_dirs().contains(".local/share/opencode"@),
        agent_dirs().contains(".local/state/opencode"@),
        agent_dirs().contains(".cache/opencode"@),
{
    assert(secret_dirs()[0] == ".ssh"@);
    assert(secret_dirs()[1] == ".aws"@);
    assert(secret_dirs()[2] == ".gnupg"@);
    assert(secret_dirs()[3] == ".netrc"@);
    assert(secret_dirs()[4] == ".kube"@);
    assert(secret_dirs()[5] == ".docker"@);
    assert(secret_dirs()[6] == ".config/gh"@);
    assert(secret_dirs()[7] == ".config/gcloud"@);
    assert(secret_dirs()[8] == ".npmrc"@);
    assert(secret_dirs()[9] == "Library/Keychains"@);
    assert(agent_dirs()[0] == ".codex"@);
    assert(agent_dirs()[1] == ".config/opencode"@);
    assert(agent_dirs()[2] == ".local/share/opencode"@);
    assert(agent_dirs()[3] == ".local/state/opencode"@);
    assert(agent_dirs()[4] == ".cache/opencode"@);
}

/// Every path of a list is resolved, each in its place.
pub proof fn every_path_is_resolved(
    links: Seq<(Seq<char>, Seq<char>)>,
    s: Seq<Seq<char>>,
    i: int,
)
    requires
        0 <= i < s.len(),
    ensures
        all_resolved(links, s).len() == s.len(),
        all_resolved(links, s)[i] == resolved(links, s[i]),
{
}

/// The writable roots stand in the rule that allows writing, which ends with the
/// devices, before anything is denied.
pub proof fn writing_is_allowed_below_the_roots(
    writable: Seq<Seq<char>>,
    secrets: Seq<Seq<char>>,
    network: NetPolicy,
)
    ensures
        ({
            let p = seatbelt_profile(writable, secrets, network);
            let h = profile_head().len() as int;
            let r = h + writable_rules(writable).len() as int;
            let d = r + device_rules().len() as int;
            let s = d + secret_rules(secrets).len() as int;
            &&& p.subrange(h - 20, h) == "\n(allow file-write*\n"@
            &&& p.subrange(h, r) == writable_rules(writable)
            &&& p.subrange(d, s) == secret_rules(secrets)
            &&& p.subrange(s, p.len() as int) == network_rule(network)
        }),
{
    reveal_strlit(
        "(version 1)\n(deny default)\n(allow process-fork)\n(allow process-exec*)\n(allow sysctl-read)\n(allow mach-lookup)\n(allow file-read*)\n(allow file-write*\n",
    );
    reveal_strlit("\n(allow file-write*\n");
    let p = seatbelt_profile(writable, secrets, network);
    let h = profile_head().len() as int;
    let r = h + writable_rules(writable).len() as int;
    let d = r + device_rules().len() as int;
    let s = d + secret_rules(secrets).len() as int;
    assert(p.subrange(h - 20, h) =~= "\n(allow file-write*\n"@);
    assert(p.subrange(h, r) =~= writable_rules(writable));
    assert(p.subrange(d, s) =~= secret_rules(secrets));
    assert(p.subrange(s, p.len() as int) =~= network_rule(network));
}

/// A directory is the one that was set, else the usual one below the home directory,
/// else none; a flag stands before its value, and not without one.
pub proof fn a_set_directory_counts(
    set: String,
    home: String,
    other: Option<String>,
    sub: Seq<char>,
    name: Seq<char>,
    value: Seq<char>,
)
    ensures
        set_or_home(Some(set), other, sub) =~= seq![set@],
        set_or_home(None, Some(home), sub) =~= seq![path_join(home@, sub)],
        set_or_home(None, None, sub).len() == 0,
        flag(name, Some(value)) =~= seq![name] + seq![value],
        flag(name, None).len() == 0,
{
}

} // verus!
