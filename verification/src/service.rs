//! Installing the gateway and the meeting daemon as user services: a launchd
//! agent, a `systemd --user` unit, or a scheduled task on Windows.
//!
//! Everything here is text: what the files hold and where they lie.

use crate::paths::{join_path, path_join};
use crate::text::{chars_of, copy, join, joined, views};
use vstd::prelude::*;

verus! {

/// launchd label of the gateway.
pub const SERVICE_LABEL: &'static str = crate::services::GATEWAY_LABEL;

pub const SYSTEMD_UNIT: &'static str = "rozum-gateway.service";

/// Scheduled-task name of the gateway.
pub const WINDOWS_TASK: &'static str = "\\rozum\\rozum-gateway";

/// Scheduled-task name of the meeting daemon.
pub const MEETINGS_WINDOWS_TASK: &'static str = "\\rozum\\rozum-meetings";

/// launchd label of the meeting daemon.
pub const MEETINGS_LABEL: &'static str = "com.rozum.meetings";

pub const MEETINGS_SYSTEMD_UNIT: &'static str = "rozum-meetings.service";

// ---------------------------------------------------------------------------
// Places
// ---------------------------------------------------------------------------

/// The directories of a user, as far as they are known.
pub struct UserDirs {
    pub home: Option<String>,
    /// Where `systemd` looks for units, if it was set.
    pub xdg_config_home: Option<String>,
    /// Where the product keeps its configuration.
    pub config_dir: Option<String>,
}

/// The home directory; the current one where it is not known.
pub open spec fn home_of(d: UserDirs) -> Seq<char> {
    match d.home {
        Some(h) => h@,
        None => "."@,
    }
}

fn home(d: &UserDirs) -> (r: String)
    ensures
        r@ == home_of(*d),
{
    match &d.home {
        Some(h) => h.clone(),
        None => copy("."),
    }
}

pub open spec fn agents_dir_of(d: UserDirs) -> Seq<char> {
    path_join(home_of(d), "Library/LaunchAgents"@)
}

pub open spec fn units_dir_of(d: UserDirs) -> Seq<char> {
    path_join(
        match d.xdg_config_home {
            Some(c) => c@,
            None => path_join(home_of(d), ".config"@),
        },
        "systemd/user"@,
    )
}

/// Where the task definition and its launcher lie.
pub open spec fn windows_dir_of(d: UserDirs) -> Seq<char> {
    match d.config_dir {
        Some(c) => c@,
        None => path_join(home_of(d), ".rozum"@),
    }
}

/// `~/Library/LaunchAgents/com.rozum.gateway.plist`.
pub fn launchd_plist_path(d: &UserDirs) -> (r: String)
    ensures
        r@ == path_join(agents_dir_of(*d), SERVICE_LABEL@ + ".plist"@),
{
    let dir = join_path(home(d).as_str(), "Library/LaunchAgents");
    let name = copy(SERVICE_LABEL).concat(".plist");
    join_path(dir.as_str(), name.as_str())
}

fn units_dir(d: &UserDirs) -> (r: String)
    ensures
        r@ == units_dir_of(*d),
{
    let base = match &d.xdg_config_home {
        Some(c) => c.clone(),
        None => join_path(home(d).as_str(), ".config"),
    };
    join_path(base.as_str(), "systemd/user")
}

/// `$XDG_CONFIG_HOME/systemd/user/rozum-gateway.service`, below `~/.config` where
/// that is not set.
pub fn systemd_unit_path(d: &UserDirs) -> (r: String)
    ensures
        r@ == path_join(units_dir_of(*d), SYSTEMD_UNIT@),
{
    join_path(units_dir(d).as_str(), SYSTEMD_UNIT)
}

/// `~/Library/LaunchAgents/com.rozum.meetings.plist`.
pub fn meetings_launchd_plist_path(d: &UserDirs) -> (r: String)
    ensures
        r@ == path_join(agents_dir_of(*d), MEETINGS_LABEL@ + ".plist"@),
{
    let dir = join_path(home(d).as_str(), "Library/LaunchAgents");
    let name = copy(MEETINGS_LABEL).concat(".plist");
    join_path(dir.as_str(), name.as_str())
}

/// `$XDG_CONFIG_HOME/systemd/user/rozum-meetings.service`, below `~/.config` where
/// that is not set.
pub fn meetings_systemd_unit_path(d: &UserDirs) -> (r: String)
    ensures
        r@ == path_join(units_dir_of(*d), MEETINGS_SYSTEMD_UNIT@),
{
    join_path(units_dir(d).as_str(), MEETINGS_SYSTEMD_UNIT)
}

fn windows_service_dir(d: &UserDirs) -> (r: String)
    ensures
        r@ == windows_dir_of(*d),
{
    match &d.config_dir {
        Some(c) => c.clone(),
        None => join_path(home(d).as_str(), ".rozum"),
    }
}

/// The gateway's task definition.
pub fn windows_task_xml_path(d: &UserDirs) -> (r: String)
    ensures
        r@ == path_join(windows_dir_of(*d), "rozum-gateway.task.xml"@),
{
    join_path(windows_service_dir(d).as_str(), "rozum-gateway.task.xml")
}

/// The gateway's launcher.
pub fn windows_launcher_path(d: &UserDirs) -> (r: String)
    ensures
        r@ == path_join(windows_dir_of(*d), "rozum-gateway.cmd"@),
{
    join_path(windows_service_dir(d).as_str(), "rozum-gateway.cmd")
}

/// The meeting daemon's task definition.
pub fn meetings_windows_task_xml_path(d: &UserDirs) -> (r: String)
    ensures
        r@ == path_join(windows_dir_of(*d), "rozum-meetings.task.xml"@),
{
    join_path(windows_service_dir(d).as_str(), "rozum-meetings.task.xml")
}

/// The meeting daemon's launcher.
pub fn meetings_windows_launcher_path(d: &UserDirs) -> (r: String)
    ensures
        r@ == path_join(windows_dir_of(*d), "rozum-meetings.cmd"@),
{
    join_path(windows_service_dir(d).as_str(), "rozum-meetings.cmd")
}

/// The file to which the gateway's launcher appends both streams.
pub fn windows_log_path(gateway_dir: &str) -> (r: String)
    ensures
        r@ == path_join(gateway_dir@, "service.log"@),
{
    join_path(gateway_dir, "service.log")
}

pub open spec fn meetings_log_of(state_dir: Seq<char>) -> Seq<char> {
    path_join(path_join(state_dir, "meetings"@), "service.log"@)
}

/// The meeting daemon's log, below the product's state directory.
pub fn meetings_log_path(state_dir: &str) -> (r: String)
    ensures
        r@ == meetings_log_of(state_dir@),
{
    join_path(join_path(state_dir, "meetings").as_str(), "service.log")
}

/// The file to which the meeting daemon's launcher appends both streams.
pub fn meetings_windows_log_path(state_dir: &str) -> (r: String)
    ensures
        r@ == meetings_log_of(state_dir@),
{
    meetings_log_path(state_dir)
}

// ---------------------------------------------------------------------------
// Escaping
// ---------------------------------------------------------------------------

pub open spec fn xml_char(c: char) -> Seq<char> {
    if c == '&' {
        "&amp;"@
    } else if c == '<' {
        "&lt;"@
    } else if c == '>' {
        "&gt;"@
    } else {
        seq![c]
    }
}

/// `s` with `&`, `<` and `>` as entities.
pub open spec fn xml_text(s: Seq<char>) -> Seq<char>
    decreases s.len(),
{
    if s.len() == 0 {
        Seq::empty()
    } else {
        xml_text(s.drop_last()) + xml_char(s.last())
    }
}

/// Minimal XML escaping.
pub fn xml_escape(s: &str) -> (r: String)
    ensures
        r@ == xml_text(s@),
{
    let v = chars_of(s);
    let mut out = String::new();
    let mut i: usize = 0;
    while i < v.len()
        invariant
            i <= v.len(),
            v@ == s@,
            out@ == xml_text(s@.subrange(0, i as int)),
        decreases v.len() - i,
    {
        let c = v[i];
        let ghost part = s@.subrange(0, i + 1);
        let ghost before = out@;
        assert(part.drop_last() =~= s@.subrange(0, i as int));
        if c == '&' {
            out.append("&amp;");
        } else if c == '<' {
            out.append("&lt;");
        } else if c == '>' {
            out.append("&gt;");
        } else {
            out.push(c);
            assert(out@ =~= before + seq![c]);
        }
        i = i + 1;
    }
    assert(s@.subrange(0, i as int) =~= s@);
    out
}

/// `s` with every `%` doubled.
pub open spec fn percent_text(s: Seq<char>) -> Seq<char>
    decreases s.len(),
{
    if s.len() == 0 {
        Seq::empty()
    } else if s.last() == '%' {
        percent_text(s.drop_last()).push('%').push('%')
    } else {
        percent_text(s.drop_last()).push(s.last())
    }
}

fn cmd_escape_percent(s: &str) -> (r: String)
    ensures
        r@ == percent_text(s@),
{
    let v = chars_of(s);
    let mut out = String::new();
    let mut i: usize = 0;
    while i < v.len()
        invariant
            i <= v.len(),
            v@ == s@,
            out@ == percent_text(s@.subrange(0, i as int)),
        decreases v.len() - i,
    {
        let c = v[i];
        let ghost part = s@.subrange(0, i + 1);
        assert(part.drop_last() =~= s@.subrange(0, i as int));
        if c == '%' {
            out.push('%');
        }
        out.push(c);
        i = i + 1;
    }
    assert(s@.subrange(0, i as int) =~= s@);
    out
}

// ---------------------------------------------------------------------------
// launchd
// ---------------------------------------------------------------------------

/// The contents of a list of settings.
pub open spec fn settings(env: Seq<(String, String)>) -> Seq<(Seq<char>, Seq<char>)> {
    Seq::new(env.len(), |i: int| (env[i].0@, env[i].1@))
}

pub open spec fn plist_string(s: Seq<char>) -> Seq<char> {
    "    <string>"@ + xml_text(s) + "</string>\n"@
}

pub open spec fn plist_strings(s: Seq<Seq<char>>) -> Seq<char>
    decreases s.len(),
{
    if s.len() == 0 {
        Seq::empty()
    } else {
        plist_strings(s.drop_last()) + plist_string(s.last())
    }
}

pub open spec fn plist_setting(k: Seq<char>, v: Seq<char>) -> Seq<char> {
    "    <key>"@ + xml_text(k) + "</key>\n"@ + plist_string(v)
}

pub open spec fn plist_settings(env: Seq<(Seq<char>, Seq<char>)>) -> Seq<char>
    decreases env.len(),
{
    if env.len() == 0 {
        Seq::empty()
    } else {
        plist_settings(env.drop_last()) + plist_setting(env.last().0, env.last().1)
    }
}

pub open spec fn plist_env(env: Seq<(Seq<char>, Seq<char>)>) -> Seq<char> {
    if env.len() == 0 {
        Seq::empty()
    } else {
        "  <key>EnvironmentVariables</key>\n  <dict>\n"@ + plist_settings(env) + "  </dict>\n"@
    }
}

/// The plist of an agent that is started at load and kept alive.
pub open spec fn plist(
    label: Seq<char>,
    command: Seq<Seq<char>>,
    env: Seq<(Seq<char>, Seq<char>)>,
    log: Seq<char>,
) -> Seq<char> {
    "<?xml version=\"1.0\" encoding=\"UTF-8\"?>\n<!DOCTYPE plist PUBLIC \"-//Apple//DTD PLIST 1.0//EN\" \"http://www.apple.com/DTDs/PropertyList-1.0.dtd\">\n<plist version=\"1.0\">\n<dict>\n  <key>Label</key>\n  <string>"@
        + label + "</string>\n  <key>ProgramArguments</key>\n  <array>\n"@ + plist_strings(command)
        + "  </array>\n"@ + plist_env(env)
        + "  <key>RunAtLoad</key>\n  <true/>\n  <key>KeepAlive</key>\n  <true/>\n  <key>StandardOutPath</key>\n  <string>"@
        + xml_text(log) + "</string>\n  <key>StandardErrorPath</key>\n  <string>"@ + xml_text(log)
        + "</string>\n</dict>\n</plist>\n"@
}

fn push_plist_string(out: &mut String, s: &str)
    ensures
        final(out)@ == old(out)@ + plist_string(s@),
{
    out.append("    <string>");
    out.append(xml_escape(s).as_str());
    out.append("</string>\n");
    assert(out@ =~= old(out)@ + plist_string(s@));
}

/// The program and its arguments.
fn command_of(program: &str, args: &Vec<String>) -> (r: Vec<String>)
    ensures
        views(r@) == seq![program@] + views(args@),
{
    let mut v: Vec<String> = Vec::new();
    v.push(copy(program));
    let mut rest = crate::text::copy_all(args);
    let ghost head = v@;
    let ghost tail = rest@;
    v.append(&mut rest);
    assert(views(v@) =~= views(head) + views(tail));
    assert(views(head) =~= seq![program@]);
    v
}

fn plist_text(label: &str, command: &Vec<String>, env: &Vec<(String, String)>, log: &str) -> (r:
    String)
    ensures
        r@ == plist(label@, views(command@), settings(env@), log@),
{
    let mut out = copy(
        "<?xml version=\"1.0\" encoding=\"UTF-8\"?>\n<!DOCTYPE plist PUBLIC \"-//Apple//DTD PLIST 1.0//EN\" \"http://www.apple.com/DTDs/PropertyList-1.0.dtd\">\n<plist version=\"1.0\">\n<dict>\n  <key>Label</key>\n  <string>",
    );
    out.append(label);
    out.append("</string>\n  <key>ProgramArguments</key>\n  <array>\n");
    let ghost head = out@;
    let mut i: usize = 0;
    assert(out@ =~= head + plist_strings(views(command@).subrange(0, 0)));
    while i < command.len()
        invariant
            i <= command.len(),
            out@ == head + plist_strings(views(command@).subrange(0, i as int)),
        decreases command.len() - i,
    {
        let ghost part = views(command@).subrange(0, i + 1);
        assert(part.drop_last() =~= views(command@).subrange(0, i as int));
        assert(part.last() == command@[i as int]@);
        push_plist_string(&mut out, command[i].as_str());
        assert(out@ =~= head + plist_strings(part));
        i = i + 1;
    }
    assert(views(command@).subrange(0, i as int) =~= views(command@));
    out.append("  </array>\n");
    let ghost mid = out@;
    let ghost all = settings(env@);
    if env.len() > 0 {
        out.append("  <key>EnvironmentVariables</key>\n  <dict>\n");
        let ghost inner = out@;
        let mut k: usize = 0;
        assert(out@ =~= inner + plist_settings(all.subrange(0, 0)));
        while k < env.len()
            invariant
                k <= env.len(),
                all == settings(env@),
                out@ == inner + plist_settings(all.subrange(0, k as int)),
            decreases env.len() - k,
        {
            let ghost part = all.subrange(0, k + 1);
            assert(part.drop_last() =~= all.subrange(0, k as int));
            assert(part.last() == (env@[k as int].0@, env@[k as int].1@));
            out.append("    <key>");
            out.append(xml_escape(env[k].0.as_str()).as_str());
            out.append("</key>\n");
            push_plist_string(&mut out, env[k].1.as_str());
            assert(out@ =~= inner + plist_settings(part));
            k = k + 1;
        }
        assert(all.subrange(0, k as int) =~= all);
        out.append("  </dict>\n");
        assert(out@ =~= mid + plist_env(all));
    } else {
        assert(out@ =~= mid + plist_env(all));
    }
    let l = xml_escape(log);
    out.append(
        "  <key>RunAtLoad</key>\n  <true/>\n  <key>KeepAlive</key>\n  <true/>\n  <key>StandardOutPath</key>\n  <string>",
    );
    out.append(l.as_str());
    out.append("</string>\n  <key>StandardErrorPath</key>\n  <string>");
    out.append(l.as_str());
    out.append("</string>\n</dict>\n</plist>\n");
    out
}

/// A user agent that runs the gateway, started at load and kept alive, with its
/// log below `gateway_dir`.
pub fn launchd_plist(
    program: &str,
    args: &Vec<String>,
    env: &Vec<(String, String)>,
    gateway_dir: &str,
) -> (r: String)
    ensures
        r@ == plist(
            SERVICE_LABEL@,
            seq![program@] + views(args@),
            settings(env@),
            path_join(gateway_dir@, "service.log"@),
        ),
{
    let log = join_path(gateway_dir, "service.log");
    plist_text(SERVICE_LABEL, &command_of(program, args), env, log.as_str())
}

/// A user agent that runs the meeting daemon, started at load and kept alive,
/// with its log below `state_dir`.
pub fn meetings_launchd_plist(
    program: &str,
    args: &Vec<String>,
    env: &Vec<(String, String)>,
    state_dir: &str,
) -> (r: String)
    ensures
        r@ == plist(
            MEETINGS_LABEL@,
            seq![program@] + views(args@),
            settings(env@),
            meetings_log_of(state_dir@),
        ),
{
    let log = meetings_log_path(state_dir);
    plist_text(MEETINGS_LABEL, &command_of(program, args), env, log.as_str())
}

// ---------------------------------------------------------------------------
// systemd
// ---------------------------------------------------------------------------

pub open spec fn unit_settings(env: Seq<(Seq<char>, Seq<char>)>) -> Seq<char>
    decreases env.len(),
{
    if env.len() == 0 {
        Seq::empty()
    } else {
        unit_settings(env.drop_last()) + ("Environment="@ + env.last().0 + "="@ + env.last().1
            + "\n"@)
    }
}

/// A unit for the default user target.
pub open spec fn unit(
    description: Seq<char>,
    after: Seq<char>,
    command: Seq<Seq<char>>,
    env: Seq<(Seq<char>, Seq<char>)>,
) -> Seq<char> {
    "[Unit]\nDescription="@ + description + "\nAfter="@ + after
        + "\n\n[Service]\nType=simple\nExecStart="@ + joined(command, " "@) + "\n"@ + unit_settings(
        env,
    ) + "Restart=on-failure\nRestartSec=2\n\n[Install]\nWantedBy=default.target\n"@
}

fn unit_text(
    description: &str,
    after: &str,
    command: &Vec<String>,
    env: &Vec<(String, String)>,
) -> (r: String)
    ensures
        r@ == unit(description@, after@, views(command@), settings(env@)),
{
    let mut out = copy("[Unit]\nDescription=");
    out.append(description);
    out.append("\nAfter=");
    out.append(after);
    out.append("\n\n[Service]\nType=simple\nExecStart=");
    out.append(join(command, " ").as_str());
    out.append("\n");
    let ghost head = out@;
    let ghost all = settings(env@);
    let mut k: usize = 0;
    assert(out@ =~= head + unit_settings(all.subrange(0, 0)));
    while k < env.len()
        invariant
            k <= env.len(),
            all == settings(env@),
            out@ == head + unit_settings(all.subrange(0, k as int)),
        decreases env.len() - k,
    {
        let ghost part = all.subrange(0, k + 1);
        assert(part.drop_last() =~= all.subrange(0, k as int));
        assert(part.last() == (env@[k as int].0@, env@[k as int].1@));
        out.append("Environment=");
        out.append(env[k].0.as_str());
        out.append("=");
        out.append(env[k].1.as_str());
        out.append("\n");
        assert(out@ =~= head + unit_settings(part));
        k = k + 1;
    }
    assert(all.subrange(0, k as int) =~= all);
    out.append("Restart=on-failure\nRestartSec=2\n\n[Install]\nWantedBy=default.target\n");
    out
}

/// A `systemd --user` unit that runs the gateway.
pub fn systemd_unit(program: &str, args: &Vec<String>, env: &Vec<(String, String)>) -> (r: String)
    ensures
        r@ == unit(
            "rozum local LLM gateway"@,
            "network-online.target"@,
            seq![program@] + views(args@),
            settings(env@),
        ),
{
    unit_text(
        "rozum local LLM gateway",
        "network-online.target",
        &command_of(program, args),
        env,
    )
}

/// A `systemd --user` unit that runs the meeting daemon.
pub fn meetings_systemd_unit(program: &str, args: &Vec<String>, env: &Vec<(String, String)>) -> (r:
    String)
    ensures
        r@ == unit(
            "rozum meeting daemon"@,
            "default.target"@,
            seq![program@] + views(args@),
            settings(env@),
        ),
{
    unit_text("rozum meeting daemon", "default.target", &command_of(program, args), env)
}

// ---------------------------------------------------------------------------
// Windows
// ---------------------------------------------------------------------------

/// A value that a `.cmd` file cannot carry without changing what it means.
#[derive(Debug, PartialEq, Eq)]
pub struct CmdQuotingRefusal {
    pub what: String,
    pub value: String,
}

impl CmdQuotingRefusal {
    pub fn message(&self) -> (r: String)
        ensures
            r@ == self.what@
                + " contains a double quote, which cmd.exe cannot carry through a .cmd launcher without changing it: "@
                + self.value@,
    {
        let mut out = self.what.clone();
        out.append(
            " contains a double quote, which cmd.exe cannot carry through a .cmd launcher without changing it: ",
        );
        out.append(self.value.as_str());
        out
    }
}

pub open spec fn has_quote(s: Seq<char>) -> bool {
    exists|i: int| 0 <= i < s.len() && s[i] == '"'
}

/// The first value with a double quote, in the order program, arguments,
/// settings, log, and what it is called.
pub open spec fn first_quoted_arg(args: Seq<Seq<char>>, i: int) -> Option<Seq<char>>
    decreases args.len() - i,
{
    if i < 0 || i >= args.len() {
        None
    } else if has_quote(args[i]) {
        Some(args[i])
    } else {
        first_quoted_arg(args, i + 1)
    }
}

pub open spec fn first_quoted_setting(env: Seq<(Seq<char>, Seq<char>)>, i: int) -> Option<
    (Seq<char>, Seq<char>),
>
    decreases env.len() - i,
{
    if i < 0 || i >= env.len() {
        None
    } else if has_quote(env[i].1) {
        Some(env[i])
    } else {
        first_quoted_setting(env, i + 1)
    }
}

pub open spec fn refused(
    program: Seq<char>,
    args: Seq<Seq<char>>,
    env: Seq<(Seq<char>, Seq<char>)>,
    log: Seq<char>,
) -> Option<(Seq<char>, Seq<char>)> {
    if has_quote(program) {
        Some(("the program path"@, program))
    } else {
        match first_quoted_arg(args, 0) {
            Some(a) => Some(("an argument"@, a)),
            None => match first_quoted_setting(env, 0) {
                Some((k, v)) => Some(("environment value "@ + k, v)),
                None => if has_quote(log) {
                    Some(("the log path"@, log))
                } else {
                    None
                },
            },
        }
    }
}

pub open spec fn cmd_settings(env: Seq<(Seq<char>, Seq<char>)>) -> Seq<char>
    decreases env.len(),
{
    if env.len() == 0 {
        Seq::empty()
    } else {
        cmd_settings(env.drop_last()) + ("set \""@ + percent_text(env.last().0) + "="@
            + percent_text(env.last().1) + "\"\r\n"@)
    }
}

pub open spec fn cmd_args(args: Seq<Seq<char>>) -> Seq<char>
    decreases args.len(),
{
    if args.len() == 0 {
        Seq::empty()
    } else {
        cmd_args(args.drop_last()) + (" \""@ + percent_text(args.last()) + "\""@)
    }
}

/// The launcher: sets the environment, then runs the program with both streams
/// appended to the log.
pub open spec fn launcher(
    program: Seq<char>,
    args: Seq<Seq<char>>,
    env: Seq<(Seq<char>, Seq<char>)>,
    log: Seq<char>,
) -> Seq<char> {
    "@echo off\r\nsetlocal\r\n"@ + cmd_settings(env) + "\""@ + percent_text(program) + "\""@
        + cmd_args(args) + " >> \""@ + percent_text(log) + "\" 2>&1\r\n"@
}

fn quoted(s: &str) -> (r: bool)
    ensures
        r == has_quote(s@),
{
    let v = chars_of(s);
    let mut i: usize = 0;
    while i < v.len()
        invariant
            i <= v.len(),
            v@ == s@,
            forall|k: int| 0 <= k < i ==> s@[k] != '"',
        decreases v.len() - i,
    {
        if v[i] == '"' {
            return true;
        }
        i = i + 1;
    }
    false
}

fn refuse_if_quoted(what: &str, value: &str) -> (r: Result<(), CmdQuotingRefusal>)
    ensures
        match r {
            Ok(_) => !has_quote(value@),
            Err(e) => has_quote(value@) && e.what@ == what@ && e.value@ == value@,
        },
{
    if quoted(value) {
        return Err(CmdQuotingRefusal { what: copy(what), value: copy(value) });
    }
    Ok(())
}

fn refuse_any(program: &str, args: &Vec<String>, env: &Vec<(String, String)>, log: &str) -> (r:
    Result<(), CmdQuotingRefusal>)
    ensures
        match r {
            Ok(_) => refused(program@, views(args@), settings(env@), log@) is None,
            Err(e) => refused(program@, views(args@), settings(env@), log@) == Some(
                (e.what@, e.value@),
            ),
        },
{
    match refuse_if_quoted("the program path", program) {
        Ok(_) => {},
        Err(e) => {
            return Err(e);
        },
    }
    let ghost a = views(args@);
    let ghost s = settings(env@);
    let mut i: usize = 0;
    while i < args.len()
        invariant
            i <= args.len(),
            a == views(args@),
            s == settings(env@),
            !has_quote(program@),
            first_quoted_arg(a, 0) == first_quoted_arg(a, i as int),
        decreases args.len() - i,
    {
        match refuse_if_quoted("an argument", args[i].as_str()) {
            Ok(_) => {},
            Err(e) => {
                return Err(e);
            },
        }
        i = i + 1;
    }
    let mut k: usize = 0;
    while k < env.len()
        invariant
            k <= env.len(),
            a == views(args@),
            s == settings(env@),
            !has_quote(program@),
            first_quoted_arg(a, 0) is None,
            first_quoted_setting(s, 0) == first_quoted_setting(s, k as int),
        decreases env.len() - k,
    {
        let mut what = copy("environment value ");
        what.append(env[k].0.as_str());
        match refuse_if_quoted(what.as_str(), env[k].1.as_str()) {
            Ok(_) => {},
            Err(e) => {
                return Err(e);
            },
        }
        k = k + 1;
    }
    refuse_if_quoted("the log path", log)
}

/// The `.cmd` file that a scheduled task runs. A value with a double quote is
/// refused: `cmd.exe` has no escape for one.
pub fn windows_launcher_cmd(
    program: &str,
    args: &Vec<String>,
    env: &Vec<(String, String)>,
    log: &str,
) -> (r: Result<String, CmdQuotingRefusal>)
    ensures
        match r {
            Ok(s) => refused(program@, views(args@), settings(env@), log@) is None && s@
                == launcher(program@, views(args@), settings(env@), log@),
            Err(e) => refused(program@, views(args@), settings(env@), log@) == Some(
                (e.what@, e.value@),
            ),
        },
{
    match refuse_any(program, args, env, log) {
        Ok(_) => {},
        Err(e) => {
            return Err(e);
        },
    }
    let mut s = copy("@echo off\r\nsetlocal\r\n");
    let ghost head = s@;
    let ghost all = settings(env@);
    let mut k: usize = 0;
    assert(s@ =~= head + cmd_settings(all.subrange(0, 0)));
    while k < env.len()
        invariant
            k <= env.len(),
            all == settings(env@),
            s@ == head + cmd_settings(all.subrange(0, k as int)),
        decreases env.len() - k,
    {
        let ghost part = all.subrange(0, k + 1);
        assert(part.drop_last() =~= all.subrange(0, k as int));
        assert(part.last() == (env@[k as int].0@, env@[k as int].1@));
        s.append("set \"");
        s.append(cmd_escape_percent(env[k].0.as_str()).as_str());
        s.append("=");
        s.append(cmd_escape_percent(env[k].1.as_str()).as_str());
        s.append("\"\r\n");
        assert(s@ =~= head + cmd_settings(part));
        k = k + 1;
    }
    assert(all.subrange(0, k as int) =~= all);
    s.append("\"");
    s.append(cmd_escape_percent(program).as_str());
    s.append("\"");
    let ghost mid = s@;
    let mut i: usize = 0;
    assert(s@ =~= mid + cmd_args(views(args@).subrange(0, 0)));
    while i < args.len()
        invariant
            i <= args.len(),
            s@ == mid + cmd_args(views(args@).subrange(0, i as int)),
        decreases args.len() - i,
    {
        let ghost part = views(args@).subrange(0, i + 1);
        assert(part.drop_last() =~= views(args@).subrange(0, i as int));
        assert(part.last() == args@[i as int]@);
        s.append(" \"");
        s.append(cmd_escape_percent(args[i].as_str()).as_str());
        s.append("\"");
        assert(s@ =~= mid + cmd_args(part));
        i = i + 1;
    }
    assert(views(args@).subrange(0, i as int) =~= views(args@));
    s.append(" >> \"");
    s.append(cmd_escape_percent(log).as_str());
    s.append("\" 2>&1\r\n");
    Ok(s)
}

/// The UTF-16 units of a character.
pub open spec fn utf16_units(c: char) -> Seq<int> {
    let n = c as int;
    if n < 0x1_0000 {
        seq![n]
    } else {
        seq![0xd800 + (n - 0x1_0000) / 0x400, 0xdc00 + (n - 0x1_0000) % 0x400]
    }
}

/// A unit in little-endian bytes.
pub open spec fn unit_bytes(u: int) -> Seq<u8> {
    seq![(u % 0x100) as u8, (u / 0x100) as u8]
}

pub open spec fn char_bytes(c: char) -> Seq<u8> {
    let u = utf16_units(c);
    if u.len() == 1 {
        unit_bytes(u[0])
    } else {
        unit_bytes(u[0]) + unit_bytes(u[1])
    }
}

pub open spec fn utf16_bytes(s: Seq<char>) -> Seq<u8>
    decreases s.len(),
{
    if s.len() == 0 {
        Seq::empty()
    } else {
        utf16_bytes(s.drop_last()) + char_bytes(s.last())
    }
}

proof fn char_code(c: char)
    ensures
        (c as u32) as int == c as int,
        0 <= c as int <= 0x10_ffff,
{
}

fn push_unit(out: &mut Vec<u8>, u: u32)
    requires
        u < 0x1_0000,
    ensures
        final(out)@ == old(out)@ + unit_bytes(u as int),
{
    out.push((u % 0x100) as u8);
    out.push((u / 0x100) as u8);
    assert(out@ =~= old(out)@ + unit_bytes(u as int));
}

/// A text in UTF-16, little-endian, behind a byte-order mark: what `schtasks`
/// reads.
pub fn utf16le_with_bom(s: &str) -> (r: Vec<u8>)
    ensures
        r@ == seq![0xffu8, 0xfeu8] + utf16_bytes(s@),
{
    let v = chars_of(s);
    let mut out: Vec<u8> = Vec::new();
    out.push(0xff);
    out.push(0xfe);
    let ghost bom = seq![0xffu8, 0xfeu8];
    let mut i: usize = 0;
    assert(out@ =~= bom + utf16_bytes(s@.subrange(0, 0)));
    while i < v.len()
        invariant
            i <= v.len(),
            v@ == s@,
            bom == seq![0xffu8, 0xfeu8],
            out@ == bom + utf16_bytes(s@.subrange(0, i as int)),
        decreases v.len() - i,
    {
        let ghost part = s@.subrange(0, i + 1);
        assert(part.drop_last() =~= s@.subrange(0, i as int));
        let ghost before = out@;
        let c: char = v[i];
        let n: u32 = c as u32;
        proof {
            char_code(c);
        }
        if n < 0x1_0000 {
            push_unit(&mut out, n);
            assert(out@ =~= before + char_bytes(c));
        } else {
            push_unit(&mut out, 0xd800 + (n - 0x1_0000) / 0x400);
            push_unit(&mut out, 0xdc00 + (n - 0x1_0000) % 0x400);
            assert(out@ =~= before + char_bytes(c));
        }
        assert(out@ =~= bom + utf16_bytes(part));
        i = i + 1;
    }
    assert(s@.subrange(0, i as int) =~= s@);
    out
}

/// A task that runs a launcher at logon, without a time limit, and restarts it
/// on failure.
pub open spec fn task(description: Seq<char>, launcher: Seq<char>) -> Seq<char> {
    "<?xml version=\"1.0\" encoding=\"UTF-16\"?>\n<Task version=\"1.2\" xmlns=\"http://schemas.microsoft.com/windows/2004/02/mit/task\">\n  <RegistrationInfo>\n    <Description>"@
        + xml_text(description)
        + "</Description>\n  </RegistrationInfo>\n  <Triggers>\n    <LogonTrigger>\n      <Enabled>true</Enabled>\n    </LogonTrigger>\n  </Triggers>\n  <Principals>\n    <Principal id=\"Author\">\n      <LogonType>InteractiveToken</LogonType>\n      <RunLevel>LeastPrivilege</RunLevel>\n    </Principal>\n  </Principals>\n  <Settings>\n    <MultipleInstancesPolicy>IgnoreNew</MultipleInstancesPolicy>\n    <DisallowStartIfOnBatteries>false</DisallowStartIfOnBatteries>\n    <StopIfGoingOnBatteries>false</StopIfGoingOnBatteries>\n    <StartWhenAvailable>true</StartWhenAvailable>\n    <RunOnlyIfNetworkAvailable>false</RunOnlyIfNetworkAvailable>\n    <IdleSettings>\n      <StopOnIdleEnd>false</StopOnIdleEnd>\n      <RestartOnIdle>false</RestartOnIdle>\n    </IdleSettings>\n    <AllowHardTerminate>true</AllowHardTerminate>\n    <AllowStartOnDemand>true</AllowStartOnDemand>\n    <Enabled>true</Enabled>\n    <Hidden>false</Hidden>\n    <RunOnlyIfIdle>false</RunOnlyIfIdle>\n    <RestartOnFailure>\n      <Interval>PT1M</Interval>\n      <Count>3</Count>\n    </RestartOnFailure>\n    <ExecutionTimeLimit>PT0S</ExecutionTimeLimit>\n  </Settings>\n  <Actions Context=\"Author\">\n    <Exec>\n      <Command>"@
        + xml_text(launcher) + "</Command>\n    </Exec>\n  </Actions>\n</Task>\n"@
}

/// A task definition that runs `launcher` at logon, restarted on failure and
/// without the default time limit.
pub fn windows_task_xml(description: &str, launcher: &str) -> (r: String)
    ensures
        r@ == task(description@, launcher@),
{
    let mut out = copy(
        "<?xml version=\"1.0\" encoding=\"UTF-16\"?>\n<Task version=\"1.2\" xmlns=\"http://schemas.microsoft.com/windows/2004/02/mit/task\">\n  <RegistrationInfo>\n    <Description>",
    );
    out.append(xml_escape(description).as_str());
    out.append(
        "</Description>\n  </RegistrationInfo>\n  <Triggers>\n    <LogonTrigger>\n      <Enabled>true</Enabled>\n    </LogonTrigger>\n  </Triggers>\n  <Principals>\n    <Principal id=\"Author\">\n      <LogonType>InteractiveToken</LogonType>\n      <RunLevel>LeastPrivilege</RunLevel>\n    </Principal>\n  </Principals>\n  <Settings>\n    <MultipleInstancesPolicy>IgnoreNew</MultipleInstancesPolicy>\n    <DisallowStartIfOnBatteries>false</DisallowStartIfOnBatteries>\n    <StopIfGoingOnBatteries>false</StopIfGoingOnBatteries>\n    <StartWhenAvailable>true</StartWhenAvailable>\n    <RunOnlyIfNetworkAvailable>false</RunOnlyIfNetworkAvailable>\n    <IdleSettings>\n      <StopOnIdleEnd>false</StopOnIdleEnd>\n      <RestartOnIdle>false</RestartOnIdle>\n    </IdleSettings>\n    <AllowHardTerminate>true</AllowHardTerminate>\n    <AllowStartOnDemand>true</AllowStartOnDemand>\n    <Enabled>true</Enabled>\n    <Hidden>false</Hidden>\n    <RunOnlyIfIdle>false</RunOnlyIfIdle>\n    <RestartOnFailure>\n      <Interval>PT1M</Interval>\n      <Count>3</Count>\n    </RestartOnFailure>\n    <ExecutionTimeLimit>PT0S</ExecutionTimeLimit>\n  </Settings>\n  <Actions Context=\"Author\">\n    <Exec>\n      <Command>",
    );
    out.append(xml_escape(launcher).as_str());
    out.append("</Command>\n    </Exec>\n  </Actions>\n</Task>\n");
    out
}

// ---------------------------------------------------------------------------
// Laws
// ---------------------------------------------------------------------------

/// Escaped text holds no bare markup: every `<` and `>` is gone.
pub proof fn escaped_text_has_no_markup(s: Seq<char>)
    ensures
        forall|i: int|
            0 <= i < xml_text(s).len() ==> #[trigger] xml_text(s)[i] != '<' && xml_text(s)[i]
                != '>',
    decreases s.len(),
{
    reveal_strlit("&amp;");
    reveal_strlit("&lt;");
    reveal_strlit("&gt;");
    if s.len() > 0 {
        escaped_text_has_no_markup(s.drop_last());
        let c = xml_char(s.last());
        assert(forall|k: int| 0 <= k < c.len() ==> c[k] != '<' && c[k] != '>');
        let rest = xml_text(s.drop_last());
        assert forall|i: int| 0 <= i < xml_text(s).len() implies #[trigger] xml_text(s)[i] != '<'
            && xml_text(s)[i] != '>' by {
            if i < rest.len() {
                assert(xml_text(s)[i] == rest[i]);
            } else {
                assert(xml_text(s)[i] == c[i - rest.len()]);
            }
        }
    }
}

/// Halving each pair of percent signs gives the text back: none is lost and none
/// is left to expand.
pub open spec fn unpercent(s: Seq<char>) -> Seq<char>
    decreases s.len(),
{
    if s.len() == 0 {
        Seq::empty()
    } else if s.len() >= 2 && s.last() == '%' && s[s.len() - 2] == '%' {
        unpercent(s.subrange(0, s.len() - 2)).push('%')
    } else {
        unpercent(s.drop_last()).push(s.last())
    }
}

/// What a launcher carries is read back as it was.
pub proof fn percent_signs_survive(s: Seq<char>)
    ensures
        unpercent(percent_text(s)) == s,
    decreases s.len(),
{
    if s.len() > 0 {
        let rest = percent_text(s.drop_last());
        percent_signs_survive(s.drop_last());
        let t = percent_text(s);
        if s.last() == '%' {
            assert(t.subrange(0, t.len() - 2) =~= rest);
            assert(unpercent(t) =~= s);
        } else {
            assert(t.drop_last() =~= rest);
            assert(unpercent(t) =~= s);
        }
    }
}

/// A launcher is written exactly when no value holds a double quote.
pub proof fn only_quotes_are_refused(
    program: Seq<char>,
    args: Seq<Seq<char>>,
    env: Seq<(Seq<char>, Seq<char>)>,
    log: Seq<char>,
)
    ensures
        refused(program, args, env, log) is None <==> {
            &&& !has_quote(program)
            &&& forall|i: int| 0 <= i < args.len() ==> !has_quote(#[trigger] args[i])
            &&& forall|i: int| 0 <= i < env.len() ==> !has_quote((#[trigger] env[i]).1)
            &&& !has_quote(log)
        },
{
    first_quoted_arg_is_first(args, 0);
    first_quoted_setting_is_first(env, 0);
}

proof fn first_quoted_arg_is_first(args: Seq<Seq<char>>, i: int)
    requires
        0 <= i,
    ensures
        first_quoted_arg(args, i) is None <==> forall|k: int|
            i <= k < args.len() ==> !has_quote(#[trigger] args[k]),
    decreases args.len() - i,
{
    if i < args.len() && !has_quote(args[i]) {
        first_quoted_arg_is_first(args, i + 1);
    }
}

proof fn first_quoted_setting_is_first(env: Seq<(Seq<char>, Seq<char>)>, i: int)
    requires
        0 <= i,
    ensures
        first_quoted_setting(env, i) is None <==> forall|k: int|
            i <= k < env.len() ==> !has_quote((#[trigger] env[k]).1),
    decreases env.len() - i,
{
    if i < env.len() && !has_quote(env[i].1) {
        first_quoted_setting_is_first(env, i + 1);
    }
}

/// Text is escaped character by character: the three characters of markup as
/// entities, every other as it is.
pub proof fn markup_is_escaped(a: Seq<char>, b: Seq<char>, x: char)
    ensures
        xml_text(a + b) == xml_text(a) + xml_text(b),
        x == '&' ==> xml_text(seq![x]) == "&amp;"@,
        x == '<' ==> xml_text(seq![x]) == "&lt;"@,
        x == '>' ==> xml_text(seq![x]) == "&gt;"@,
        x != '&' && x != '<' && x != '>' ==> xml_text(seq![x]) == seq![x],
    decreases b.len(),
{
    let none = Seq::<char>::empty();
    assert(seq![x].drop_last() =~= none);
    assert(seq![x].last() == x);
    assert(xml_text(none) =~= Seq::empty());
    if x == '&' {
        assert(xml_text(seq![x]) =~= "&amp;"@);
    }
    if x == '<' {
        assert(xml_text(seq![x]) =~= "&lt;"@);
    }
    if x == '>' {
        assert(xml_text(seq![x]) =~= "&gt;"@);
    }
    if x != '&' && x != '<' && x != '>' {
        assert(xml_text(seq![x]) =~= seq![x]);
    }
    if b.len() == 0 {
        assert(a + b =~= a);
        assert(xml_text(a) + xml_text(b) =~= xml_text(a));
    } else {
        markup_is_escaped(a, b.drop_last(), x);
        assert((a + b).drop_last() =~= a + b.drop_last());
        assert((a + b).last() == b.last());
        assert(xml_text(a + b) =~= xml_text(a) + xml_text(b));
    }
}


/// Percent signs are doubled one by one, and nothing else changes.
pub proof fn percent_signs_are_doubled(a: Seq<char>, b: Seq<char>, x: char)
    ensures
        percent_text(a + b) == percent_text(a) + percent_text(b),
        x == '%' ==> percent_text(seq![x]) == seq!['%', '%'],
        x != '%' ==> percent_text(seq![x]) == seq![x],
    decreases b.len(),
{
    let none = Seq::<char>::empty();
    assert(seq![x].drop_last() =~= none);
    assert(seq![x].last() == x);
    assert(percent_text(none) =~= Seq::empty());
    if x == '%' {
        assert(percent_text(seq![x]) =~= seq!['%', '%']);
    }
    if x != '%' {
        assert(percent_text(seq![x]) =~= seq![x]);
    }
    if b.len() == 0 {
        assert(a + b =~= a);
        assert(percent_text(a) + percent_text(b) =~= percent_text(a));
    } else {
        percent_signs_are_doubled(a, b.drop_last(), x);
        assert((a + b).drop_last() =~= a + b.drop_last());
        assert((a + b).last() == b.last());
        assert(percent_text(a + b) =~= percent_text(a) + percent_text(b));
    }
}


/// Every argument of an agent is a string of its own, in its place.
pub proof fn every_argument_is_listed(a: Seq<Seq<char>>, b: Seq<Seq<char>>, x: Seq<char>)
    ensures
        plist_strings(a + b) == plist_strings(a) + plist_strings(b),
        plist_strings(seq![x]) == "    <string>"@ + xml_text(x) + "</string>\n"@,
    decreases b.len(),
{
    let none = Seq::<Seq<char>>::empty();
    assert(seq![x].drop_last() =~= none);
    assert(seq![x].last() == x);
    assert(plist_strings(none) =~= Seq::empty());
    assert(plist_strings(seq![x]) =~= "    <string>"@ + xml_text(x) + "</string>\n"@);
    if b.len() == 0 {
        assert(a + b =~= a);
        assert(plist_strings(a) + plist_strings(b) =~= plist_strings(a));
    } else {
        every_argument_is_listed(a, b.drop_last(), x);
        assert((a + b).drop_last() =~= a + b.drop_last());
        assert((a + b).last() == b.last());
        assert(plist_strings(a + b) =~= plist_strings(a) + plist_strings(b));
    }
}


/// Every setting of an agent is its key and its value, in its place.
pub proof fn every_setting_is_listed(a: Seq<(Seq<char>, Seq<char>)>, b: Seq<(Seq<char>, Seq<char>)>, x: (Seq<char>, Seq<char>))
    ensures
        plist_settings(a + b) == plist_settings(a) + plist_settings(b),
        plist_settings(seq![x]) == "    <key>"@ + xml_text(x.0) + "</key>\n"@ + plist_string(x.1),
    decreases b.len(),
{
    let none = Seq::<(Seq<char>, Seq<char>)>::empty();
    assert(seq![x].drop_last() =~= none);
    assert(seq![x].last() == x);
    assert(plist_settings(none) =~= Seq::empty());
    assert(plist_settings(seq![x]) =~= "    <key>"@ + xml_text(x.0) + "</key>\n"@ + plist_string(x.1));
    if b.len() == 0 {
        assert(a + b =~= a);
        assert(plist_settings(a) + plist_settings(b) =~= plist_settings(a));
    } else {
        every_setting_is_listed(a, b.drop_last(), x);
        assert((a + b).drop_last() =~= a + b.drop_last());
        assert((a + b).last() == b.last());
        assert(plist_settings(a + b) =~= plist_settings(a) + plist_settings(b));
    }
}


/// Every setting of a unit is a line of its own.
pub proof fn every_setting_of_a_unit_is_a_line(a: Seq<(Seq<char>, Seq<char>)>, b: Seq<(Seq<char>, Seq<char>)>, x: (Seq<char>, Seq<char>))
    ensures
        unit_settings(a + b) == unit_settings(a) + unit_settings(b),
        unit_settings(seq![x]) == "Environment="@ + x.0 + "="@ + x.1 + "\n"@,
    decreases b.len(),
{
    let none = Seq::<(Seq<char>, Seq<char>)>::empty();
    assert(seq![x].drop_last() =~= none);
    assert(seq![x].last() == x);
    assert(unit_settings(none) =~= Seq::empty());
    assert(unit_settings(seq![x]) =~= "Environment="@ + x.0 + "="@ + x.1 + "\n"@);
    if b.len() == 0 {
        assert(a + b =~= a);
        assert(unit_settings(a) + unit_settings(b) =~= unit_settings(a));
    } else {
        every_setting_of_a_unit_is_a_line(a, b.drop_last(), x);
        assert((a + b).drop_last() =~= a + b.drop_last());
        assert((a + b).last() == b.last());
        assert(unit_settings(a + b) =~= unit_settings(a) + unit_settings(b));
    }
}


/// Every setting of a launcher is a line of its own, its percent signs doubled.
pub proof fn every_setting_of_a_launcher_is_a_line(a: Seq<(Seq<char>, Seq<char>)>, b: Seq<(Seq<char>, Seq<char>)>, x: (Seq<char>, Seq<char>))
    ensures
        cmd_settings(a + b) == cmd_settings(a) + cmd_settings(b),
        cmd_settings(seq![x]) == "set \""@ + percent_text(x.0) + "="@ + percent_text(x.1) + "\"\r\n"@,
    decreases b.len(),
{
    let none = Seq::<(Seq<char>, Seq<char>)>::empty();
    assert(seq![x].drop_last() =~= none);
    assert(seq![x].last() == x);
    assert(cmd_settings(none) =~= Seq::empty());
    assert(cmd_settings(seq![x]) =~= "set \""@ + percent_text(x.0) + "="@ + percent_text(x.1) + "\"\r\n"@);
    if b.len() == 0 {
        assert(a + b =~= a);
        assert(cmd_settings(a) + cmd_settings(b) =~= cmd_settings(a));
    } else {
        every_setting_of_a_launcher_is_a_line(a, b.drop_last(), x);
        assert((a + b).drop_last() =~= a + b.drop_last());
        assert((a + b).last() == b.last());
        assert(cmd_settings(a + b) =~= cmd_settings(a) + cmd_settings(b));
    }
}


/// Every argument of a launcher is quoted, its percent signs doubled.
pub proof fn every_argument_of_a_launcher_is_quoted(a: Seq<Seq<char>>, b: Seq<Seq<char>>, x: Seq<char>)
    ensures
        cmd_args(a + b) == cmd_args(a) + cmd_args(b),
        cmd_args(seq![x]) == " \""@ + percent_text(x) + "\""@,
    decreases b.len(),
{
    let none = Seq::<Seq<char>>::empty();
    assert(seq![x].drop_last() =~= none);
    assert(seq![x].last() == x);
    assert(cmd_args(none) =~= Seq::empty());
    assert(cmd_args(seq![x]) =~= " \""@ + percent_text(x) + "\""@);
    if b.len() == 0 {
        assert(a + b =~= a);
        assert(cmd_args(a) + cmd_args(b) =~= cmd_args(a));
    } else {
        every_argument_of_a_launcher_is_quoted(a, b.drop_last(), x);
        assert((a + b).drop_last() =~= a + b.drop_last());
        assert((a + b).last() == b.last());
        assert(cmd_args(a + b) =~= cmd_args(a) + cmd_args(b));
    }
}


/// A text is written character by character.
pub proof fn text_is_written_in_units(a: Seq<char>, b: Seq<char>, x: char)
    ensures
        utf16_bytes(a + b) == utf16_bytes(a) + utf16_bytes(b),
        utf16_bytes(seq![x]) == char_bytes(x),
    decreases b.len(),
{
    let none = Seq::<char>::empty();
    assert(seq![x].drop_last() =~= none);
    assert(seq![x].last() == x);
    assert(utf16_bytes(none) =~= Seq::empty());
    assert(utf16_bytes(seq![x]) =~= char_bytes(x));
    if b.len() == 0 {
        assert(a + b =~= a);
        assert(utf16_bytes(a) + utf16_bytes(b) =~= utf16_bytes(a));
    } else {
        text_is_written_in_units(a, b.drop_last(), x);
        assert((a + b).drop_last() =~= a + b.drop_last());
        assert((a + b).last() == b.last());
        assert(utf16_bytes(a + b) =~= utf16_bytes(a) + utf16_bytes(b));
    }
}


/// A character is written in one unit where it fits, low byte first, and else in a
/// pair of surrogates from which it is read back.
pub proof fn characters_are_written_in_units(c: char)
    ensures
        (c as int) < 0x1_0000 ==> utf16_units(c) == seq![c as int] && char_bytes(c).len() == 2
            && char_bytes(c)[0] as int + 0x100 * char_bytes(c)[1] as int == c as int,
        (c as int) >= 0x1_0000 ==> {
            let u = utf16_units(c);
            &&& u.len() == 2
            &&& 0xd800 <= u[0] < 0xdc00
            &&& 0xdc00 <= u[1] < 0xe000
            &&& 0x1_0000 + 0x400 * (u[0] - 0xd800) + (u[1] - 0xdc00) == c as int
            &&& char_bytes(c).len() == 4
            &&& char_bytes(c)[0] as int + 0x100 * char_bytes(c)[1] as int == u[0]
            &&& char_bytes(c)[2] as int + 0x100 * char_bytes(c)[3] as int == u[1]
        },
{
    let n = c as int;
    assert(n < 0x11_0000);
}

/// The first value with a quote is the one that is named: the program before its
/// arguments, they before the settings, and the log last.
pub proof fn the_first_quoted_value_is_named(
    program: Seq<char>,
    args: Seq<Seq<char>>,
    env: Seq<(Seq<char>, Seq<char>)>,
    log: Seq<char>,
    k: int,
)
    ensures
        has_quote(program) ==> refused(program, args, env, log) == Some(
            ("the program path"@, program),
        ),
        !has_quote(program) && 0 <= k < args.len() && has_quote(args[k]) && (forall|j: int|
            0 <= j < k ==> !has_quote(#[trigger] args[j])) ==> refused(program, args, env, log)
            == Some(("an argument"@, args[k])),
        !has_quote(program) && args.len() == 0 && 0 <= k < env.len() && has_quote(env[k].1) && (
        forall|j: int| 0 <= j < k ==> !has_quote((#[trigger] env[j]).1)) ==> refused(
            program,
            args,
            env,
            log,
        ) == Some(("environment value "@ + env[k].0, env[k].1)),
        !has_quote(program) && args.len() == 0 && env.len() == 0 && has_quote(log) ==> refused(
            program,
            args,
            env,
            log,
        ) == Some(("the log path"@, log)),
{
    if 0 <= k < args.len() && has_quote(args[k]) && (forall|j: int|
        0 <= j < k ==> !has_quote(#[trigger] args[j])) {
        first_quoted_arg_is(args, 0, k);
    }
    if 0 <= k < env.len() && has_quote(env[k].1) && (forall|j: int|
        0 <= j < k ==> !has_quote((#[trigger] env[j]).1)) {
        first_quoted_setting_is(env, 0, k);
    }
}

proof fn first_quoted_arg_is(args: Seq<Seq<char>>, i: int, k: int)
    requires
        0 <= i <= k < args.len(),
        has_quote(args[k]),
        forall|j: int| i <= j < k ==> !has_quote(#[trigger] args[j]),
    ensures
        first_quoted_arg(args, i) == Some(args[k]),
    decreases k - i,
{
    if i < k {
        first_quoted_arg_is(args, i + 1, k);
    }
}

proof fn first_quoted_setting_is(env: Seq<(Seq<char>, Seq<char>)>, i: int, k: int)
    requires
        0 <= i <= k < env.len(),
        has_quote(env[k].1),
        forall|j: int| i <= j < k ==> !has_quote((#[trigger] env[j]).1),
    ensures
        first_quoted_setting(env, i) == Some(env[k]),
    decreases k - i,
{
    if i < k {
        first_quoted_setting_is(env, i + 1, k);
    }
}

/// The files of a service lie below the home directory, or where the user's own
/// configuration lies.
pub proof fn services_lie_in_their_places(d: UserDirs, state_dir: Seq<char>)
    ensures
        d.home matches Some(h) ==> agents_dir_of(d) == path_join(h@, "Library/LaunchAgents"@),
        d.xdg_config_home matches Some(c) ==> units_dir_of(d) == path_join(c@, "systemd/user"@),
        d.xdg_config_home is None ==> (d.home matches Some(h) ==> units_dir_of(d) == path_join(
            path_join(h@, ".config"@),
            "systemd/user"@,
        )),
        d.config_dir matches Some(c) ==> windows_dir_of(d) == c@,
        d.config_dir is None ==> (d.home matches Some(h) ==> windows_dir_of(d) == path_join(
            h@,
            ".rozum"@,
        )),
        meetings_log_of(state_dir) == path_join(path_join(state_dir, "meetings"@), "service.log"@),
{
}

/// An agent without settings has no list of them.
pub proof fn settings_are_listed_where_there_are_any(env: Seq<(Seq<char>, Seq<char>)>)
    ensures
        env.len() == 0 ==> plist_env(env).len() == 0,
        env.len() > 0 ==> plist_env(env) == "  <key>EnvironmentVariables</key>\n  <dict>\n"@
            + plist_settings(env) + "  </dict>\n"@,
{
}

/// An agent is started with its command, under its label, with its settings and its
/// log; a unit with its command on one line.
pub proof fn services_start_their_commands(
    label: Seq<char>,
    command: Seq<Seq<char>>,
    env: Seq<(Seq<char>, Seq<char>)>,
    log: Seq<char>,
    after: Seq<char>,
) -> (at: (int, int))
    ensures
        crate::text::occurs_at(
            plist(label, command, env, log),
            label + "</string>\n  <key>ProgramArguments</key>\n  <array>\n"@ + plist_strings(command)
                + "  </array>\n"@ + plist_env(env),
            at.0,
        ),
        crate::text::occurs_at(
            unit(label, after, command, env),
            joined(command, " "@) + "\n"@ + unit_settings(env),
            at.1,
        ),
{
    let head = "<?xml version=\"1.0\" encoding=\"UTF-8\"?>\n<!DOCTYPE plist PUBLIC \"-//Apple//DTD PLIST 1.0//EN\" \"http://www.apple.com/DTDs/PropertyList-1.0.dtd\">\n<plist version=\"1.0\">\n<dict>\n  <key>Label</key>\n  <string>"@;
    let p = plist(label, command, env, log);
    let a = label + "</string>\n  <key>ProgramArguments</key>\n  <array>\n"@ + plist_strings(command)
        + "  </array>\n"@ + plist_env(env);
    let i = head.len() as int;
    assert(p.subrange(i, i + a.len()) =~= a);
    let start = "[Unit]\nDescription="@ + label + "\nAfter="@ + after
        + "\n\n[Service]\nType=simple\nExecStart="@;
    let u = unit(label, after, command, env);
    let b = joined(command, " "@) + "\n"@ + unit_settings(env);
    let j = start.len() as int;
    assert(u.subrange(j, j + b.len()) =~= b);
    (i, j)
}

/// A launcher sets its environment before it runs its program, with both streams
/// appended to the log; a task runs the launcher.
pub proof fn launchers_run_their_programs(
    program: Seq<char>,
    args: Seq<Seq<char>>,
    env: Seq<(Seq<char>, Seq<char>)>,
    log: Seq<char>,
    description: Seq<char>,
) -> (at: (int, int))
    ensures
        crate::text::occurs_at(
            launcher(program, args, env, log),
            cmd_settings(env) + "\""@ + percent_text(program) + "\""@ + cmd_args(args) + " >> \""@
                + percent_text(log) + "\" 2>&1\r\n"@,
            at.0,
        ),
        crate::text::occurs_at(task(description, log), xml_text(log) + "</Command>"@, at.1),
{
    let l = launcher(program, args, env, log);
    let a = cmd_settings(env) + "\""@ + percent_text(program) + "\""@ + cmd_args(args) + " >> \""@
        + percent_text(log) + "\" 2>&1\r\n"@;
    let i = "@echo off\r\nsetlocal\r\n"@.len() as int;
    assert(l.subrange(i, i + a.len()) =~= a);
    reveal_strlit("</Command>");
    reveal_strlit("</Command>\n    </Exec>\n  </Actions>\n</Task>\n");
    let tail = "</Command>\n    </Exec>\n  </Actions>\n</Task>\n"@;
    let t = task(description, log);
    let b = xml_text(log) + "</Command>"@;
    let j = t.len() - tail.len() - xml_text(log).len();
    assert(t.subrange(j, j + b.len()) =~= b);
    (i, j)
}

/// A text has a quote where one stands in it, at whatever place.
pub proof fn a_quote_is_seen_anywhere(a: Seq<char>, b: Seq<char>)
    ensures
        has_quote(a + seq!['"'] + b),
        has_quote(a) <==> a.contains('"'),
        has_quote(a + b) <==> has_quote(a) || has_quote(b),
{
    let s = a + seq!['"'] + b;
    assert(s[a.len() as int] == '"');
    let t = a + b;
    if has_quote(a) {
        let i = choose|i: int| 0 <= i < a.len() && a[i] == '"';
        assert(t[i] == '"');
    }
    if has_quote(b) {
        let i = choose|i: int| 0 <= i < b.len() && b[i] == '"';
        assert(t[a.len() + i] == '"');
    }
    if has_quote(t) {
        let i = choose|i: int| 0 <= i < t.len() && t[i] == '"';
        if i < a.len() {
            assert(a[i] == '"');
        } else {
            assert(b[i - a.len()] == '"');
        }
    }
}

} // verus!
