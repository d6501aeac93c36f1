//! What a machine is supposed to run, declared once.

use crate::text::same;
use vstd::prelude::*;

verus! {

/// How to ask a service whether it is doing its job.
#[derive(Clone, Copy, Debug, PartialEq, Eq)]
pub enum Probe {
    /// A plain GET whose status is the answer.
    Get(&'static str),
    /// An MCP `initialize` over HTTP.
    McpInitialize(&'static str),
    /// There is nothing to ask.
    Nothing,
}

/// How a job is expected to be found.
#[derive(Clone, Copy, Debug, PartialEq, Eq)]
pub enum Shape {
    /// A service: it should be running.
    Resident,
    /// A job that runs now and then: what matters is that it ran recently.
    Periodic { every_secs: u64 },
}

/// Who actually serves, where that can be told apart from the job.
#[derive(Clone, Copy, Debug, PartialEq, Eq)]
pub enum Owner {
    /// The holder of the lock beside the unix socket.
    SocketLock,
    /// The job's own process, or no server at all.
    JobItself,
}

/// The gateway's label.
pub const GATEWAY_LABEL: &'static str = "com.rozum.gateway";

/// One service: what it is called, what runs it, and how to tell whether it is
/// doing its job.
#[derive(Clone, Copy, Debug, PartialEq, Eq)]
pub struct Service {
    /// The launchd label; also the plist's basename.
    pub label: &'static str,
    /// The name of its row in a report.
    pub row: &'static str,
    /// The binary that the job is expected to run, by basename.
    pub program: &'static str,
    pub probe: Probe,
    pub owner: Owner,
    pub shape: Shape,
    /// What it serves.
    pub what: &'static str,
}

pub open spec fn resident(
    label: &'static str,
    row: &'static str,
    program: &'static str,
    probe: Probe,
    what: &'static str,
) -> Service {
    Service { label, row, program, probe, owner: Owner::JobItself, shape: Shape::Resident, what }
}

/// Every service that is installed.
pub open spec fn declared() -> Seq<Service> {
    seq![
        resident(
            GATEWAY_LABEL,
            "svc:gateway",
            "rozum-gateway",
            Probe::Get("http://127.0.0.1:8089/v1/models"),
            "the resident model",
        ),
        resident(
            "com.rozum.ucc-control",
            "svc:ucc-control",
            "rozum-gateway",
            Probe::Get("http://127.0.0.1:8411/control/auth/status"),
            "the control plane",
        ),
        Service {
            owner: Owner::SocketLock,
            ..resident(
                "com.rozum.meeting-daemon",
                "svc:meeting-daemon",
                "rozum-gateway",
                Probe::Get("http://127.0.0.1:8401/rooms"),
                "meeting rooms over REST",
            )
        },
        resident(
            "com.rozum.meeting-ssc",
            "svc:meeting-ssc",
            "rozum-meeting-ssc",
            Probe::Get("http://127.0.0.1:8405/"),
            "the meeting PWA",
        ),
        resident(
            "com.rozum.ucc-ssc",
            "svc:ucc-ssc",
            "rozum-ucc-ssc",
            Probe::Get("http://127.0.0.1:8412/control/public/matrix/cell"),
            "the .ssc public matrix routes",
        ),
        resident(
            "com.rozum.mcp-http",
            "svc:mcp-http",
            "rozum-meet",
            Probe::McpInitialize("http://127.0.0.1:8779/mcp"),
            "MCP over HTTP",
        ),
        resident(
            "com.rozum.telegram",
            "svc:telegram",
            "rozum-telegram-bridge.sh",
            Probe::Nothing,
            "the Telegram bridge (private)",
        ),
        resident(
            "com.rozum.telegram-groups",
            "svc:telegram-groups",
            "rozum-telegram-groups-bridge.sh",
            Probe::Nothing,
            "the Telegram bridge (groups)",
        ),
        resident(
            "com.rozum.assistant",
            "svc:assistant",
            "rozum-gateway",
            Probe::Nothing,
            "the participant pool",
        ),
        resident(
            "com.rozum.assistant-groups",
            "svc:assistant-groups",
            "rozum-gateway",
            Probe::Nothing,
            "the participant pool (groups)",
        ),
        Service {
            shape: Shape::Periodic { every_secs: 300 },
            ..resident(
                "com.rozum.doctor",
                "svc:doctor",
                "rozum-gateway",
                Probe::Nothing,
                "this liveness check itself",
            )
        },
    ]
}

fn resident_service(
    label: &'static str,
    row: &'static str,
    program: &'static str,
    probe: Probe,
    what: &'static str,
) -> (r: Service)
    ensures
        r == resident(label, row, program, probe, what),
{
    Service { label, row, program, probe, owner: Owner::JobItself, shape: Shape::Resident, what }
}

/// Every service that is installed.
pub fn all() -> (r: Vec<Service>)
    ensures
        r@ == declared(),
{
    let mut v: Vec<Service> = Vec::new();
    v.push(
        resident_service(
            GATEWAY_LABEL,
            "svc:gateway",
            "rozum-gateway",
            Probe::Get("http://127.0.0.1:8089/v1/models"),
            "the resident model",
        ),
    );
    v.push(
        resident_service(
            "com.rozum.ucc-control",
            "svc:ucc-control",
            "rozum-gateway",
            Probe::Get("http://127.0.0.1:8411/control/auth/status"),
            "the control plane",
        ),
    );
    let mut daemon = resident_service(
        "com.rozum.meeting-daemon",
        "svc:meeting-daemon",
        "rozum-gateway",
        Probe::Get("http://127.0.0.1:8401/rooms"),
        "meeting rooms over REST",
    );
    daemon.owner = Owner::SocketLock;
    v.push(daemon);
    v.push(
        resident_service(
            "com.rozum.meeting-ssc",
            "svc:meeting-ssc",
            "rozum-meeting-ssc",
            Probe::Get("http://127.0.0.1:8405/"),
            "the meeting PWA",
        ),
    );
    v.push(
        resident_service(
            "com.rozum.ucc-ssc",
            "svc:ucc-ssc",
            "rozum-ucc-ssc",
            Probe::Get("http://127.0.0.1:8412/control/public/matrix/cell"),
            "the .ssc public matrix routes",
        ),
    );
    v.push(
        resident_service(
            "com.rozum.mcp-http",
            "svc:mcp-http",
            "rozum-meet",
            Probe::McpInitialize("http://127.0.0.1:8779/mcp"),
            "MCP over HTTP",
        ),
    );
    v.push(
        resident_service(
            "com.rozum.telegram",
            "svc:telegram",
            "rozum-telegram-bridge.sh",
            Probe::Nothing,
            "the Telegram bridge (private)",
        ),
    );
    v.push(
        resident_service(
            "com.rozum.telegram-groups",
            "svc:telegram-groups",
            "rozum-telegram-groups-bridge.sh",
            Probe::Nothing,
            "the Telegram bridge (groups)",
        ),
    );
    v.push(
        resident_service(
            "com.rozum.assistant",
            "svc:assistant",
            "rozum-gateway",
            Probe::Nothing,
            "the participant pool",
        ),
    );
    v.push(
        resident_service(
            "com.rozum.assistant-groups",
            "svc:assistant-groups",
            "rozum-gateway",
            Probe::Nothing,
            "the participant pool (groups)",
        ),
    );
    let mut doctor = resident_service(
        "com.rozum.doctor",
        "svc:doctor",
        "rozum-gateway",
        Probe::Nothing,
        "this liveness check itself",
    );
    doctor.shape = Shape::Periodic { every_secs: 300 };
    v.push(doctor);
    assert(v@ =~= declared());
    v
}

/// The first service with a label, from position `i` on.
pub open spec fn labelled(s: Seq<Service>, label: Seq<char>, i: int) -> Option<Service>
    decreases s.len() - i,
{
    if i < 0 || i >= s.len() {
        None
    } else if s[i].label@ == label {
        Some(s[i])
    } else {
        labelled(s, label, i + 1)
    }
}

/// The declared service for a launchd label, if it is one of ours.
pub fn find(label: &str) -> (r: Option<Service>)
    ensures
        r == labelled(declared(), label@, 0),
{
    let v = all();
    let mut i: usize = 0;
    while i < v.len()
        invariant
            i <= v.len(),
            v@ == declared(),
            labelled(declared(), label@, 0) == labelled(declared(), label@, i as int),
        decreases v.len() - i,
    {
        if same(v[i].label, label) {
            return Some(v[i]);
        }
        i = i + 1;
    }
    None
}

// ---------------------------------------------------------------------------
// Laws
// ---------------------------------------------------------------------------

/// The row of a service is named after its label.
pub open spec fn named_consistently(s: Service) -> bool {
    let prefix = "com.rozum."@;
    &&& s.label@.len() > prefix.len()
    &&& s.label@.subrange(0, prefix.len() as int) == prefix
    &&& s.row@ == "svc:"@ + s.label@.subrange(prefix.len() as int, s.label@.len() as int)
    &&& s.program@.len() > 0
    &&& s.what@.len() > 0
}

/// Every entry follows the naming rule.
pub proof fn every_entry_is_named_consistently(i: int)
    requires
        0 <= i < declared().len(),
    ensures
        named_consistently(declared()[i]),
{
    reveal_strlit("com.rozum.");
    reveal_strlit("svc:");
    reveal_strlit("com.rozum.gateway");
    reveal_strlit("com.rozum.ucc-control");
    reveal_strlit("com.rozum.meeting-daemon");
    reveal_strlit("com.rozum.meeting-ssc");
    reveal_strlit("com.rozum.ucc-ssc");
    reveal_strlit("com.rozum.mcp-http");
    reveal_strlit("com.rozum.telegram");
    reveal_strlit("com.rozum.telegram-groups");
    reveal_strlit("com.rozum.assistant");
    reveal_strlit("com.rozum.assistant-groups");
    reveal_strlit("com.rozum.doctor");
    reveal_strlit("svc:gateway");
    reveal_strlit("svc:ucc-control");
    reveal_strlit("svc:meeting-daemon");
    reveal_strlit("svc:meeting-ssc");
    reveal_strlit("svc:ucc-ssc");
    reveal_strlit("svc:mcp-http");
    reveal_strlit("svc:telegram");
    reveal_strlit("svc:telegram-groups");
    reveal_strlit("svc:assistant");
    reveal_strlit("svc:assistant-groups");
    reveal_strlit("svc:doctor");
    reveal_strlit("rozum-gateway");
    reveal_strlit("rozum-meeting-ssc");
    reveal_strlit("rozum-ucc-ssc");
    reveal_strlit("rozum-meet");
    reveal_strlit("rozum-telegram-bridge.sh");
    reveal_strlit("rozum-telegram-groups-bridge.sh");
    reveal_strlit("the resident model");
    reveal_strlit("the control plane");
    reveal_strlit("meeting rooms over REST");
    reveal_strlit("the meeting PWA");
    reveal_strlit("the .ssc public matrix routes");
    reveal_strlit("MCP over HTTP");
    reveal_strlit("the Telegram bridge (private)");
    reveal_strlit("the Telegram bridge (groups)");
    reveal_strlit("the participant pool");
    reveal_strlit("the participant pool (groups)");
    reveal_strlit("this liveness check itself");
    let s = declared()[i];
    let prefix = "com.rozum."@;
    assert(s.label@.subrange(0, prefix.len() as int) =~= prefix);
    assert(s.row@ =~= "svc:"@ + s.label@.subrange(prefix.len() as int, s.label@.len() as int));
}

/// No two entries share a label.
pub proof fn labels_are_distinct(i: int, j: int)
    requires
        0 <= i < j < declared().len(),
    ensures
        declared()[i].label@ != declared()[j].label@,
{
    reveal_strlit("com.rozum.gateway");
    reveal_strlit("com.rozum.ucc-control");
    reveal_strlit("com.rozum.meeting-daemon");
    reveal_strlit("com.rozum.meeting-ssc");
    reveal_strlit("com.rozum.ucc-ssc");
    reveal_strlit("com.rozum.mcp-http");
    reveal_strlit("com.rozum.telegram");
    reveal_strlit("com.rozum.telegram-groups");
    reveal_strlit("com.rozum.assistant");
    reveal_strlit("com.rozum.assistant-groups");
    reveal_strlit("com.rozum.doctor");
    let a = declared()[i].label@;
    let b = declared()[j].label@;
    if a.len() == b.len() {
        assert(a[10] != b[10]);
    }
}

/// Looking up the label of an entry gives that entry.
pub proof fn every_entry_is_found_by_its_label(i: int)
    requires
        0 <= i < declared().len(),
    ensures
        labelled(declared(), declared()[i].label@, 0) == Some(declared()[i]),
{
    labelled_finds(i, 0);
}

proof fn labelled_finds(i: int, k: int)
    requires
        0 <= k <= i < declared().len(),
    ensures
        labelled(declared(), declared()[i].label@, k) == Some(declared()[i]),
    decreases i - k,
{
    if k < i {
        labels_are_distinct(k, i);
        labelled_finds(i, k + 1);
    }
}

/// A resident service owns its own job and is what it was declared as.
pub proof fn a_resident_service_is_as_declared(
    label: &'static str,
    row: &'static str,
    program: &'static str,
    probe: Probe,
    what: &'static str,
)
    ensures
        ({
            let s = resident(label, row, program, probe, what);
            &&& s.label == label && s.row == row && s.program == program
            &&& s.probe == probe && s.what == what
            &&& s.owner is JobItself && s.shape is Resident
        }),
        declared().len() == 11,
        forall|i: int|
            0 <= i < declared().len() ==> ((#[trigger] declared()[i]).shape is Periodic <==> i == 10),
        forall|i: int|
            0 <= i < declared().len() ==> ((#[trigger] declared()[i]).owner is SocketLock <==> i
                == 2),
{
}

} // verus!
