//! The reconciliation protocol: what the two long-running loops
//! decide, separated from the I/O that carries it out.
//!
//! The loops themselves live with the transport: they sleep, send
//! HTTP requests and wait on the refresh trigger. Everything they
//! decide — which request to build, which replica to try next, when
//! to stop registering and deregister — is computed here, so each
//! decision carries a contract.

use vstd::prelude::*;
use vstd::string::StringExecFns;
use crate::node_types::{ServiceNode, HttpServiceQueryRequest, TYPES_NODE_TYPE_LOOKUP_NODE};
use crate::order::str_eq;

verus! {

pub const PATH_DEFAULT_HTTP_PING: &'static str = "/ping";

pub const PATH_DEFAULT_EVENT_REQUEST: &'static str = "/service-node/event-request";

pub const PATH_HTTP_REGISTER: &'static str = "/lookup/api/v1/register";

pub const PATH_HTTP_DEREGISTER: &'static str = "/lookup/api/v1/deregister";

pub const PATH_HTTP_NODE_QUERY: &'static str = "/lookup/api/v1/query";

/// A replica call counts as a success exactly on HTTP status 200.
pub open spec fn spec_http_success(status: u16) -> bool {
    status == 200
}

/// Executable form of [`spec_http_success`].
pub fn http_success(status: u16) -> (r: bool)
    ensures
        r == spec_http_success(status),
{
    status == 200
}

/// Prefix a lookup host and a request path with the https scheme.
pub fn wrap_http_url(root: &str, path: &str) -> (r: String)
    ensures
        r@ == "https://"@ + root@ + path@,
{
    let mut s = String::from_str("https://");
    s.append(root);
    s.append(path);
    proof {
        assert(s@ =~= "https://"@ + root@ + path@);
    }
    s
}

/// The registration (or deregistration) payload for this node. The
/// scheme is carried only when it is literally "http"; anything else
/// leaves it empty, meaning the transport default.
pub fn build_register_request(scheme: &str, api_root: &str, node_type: &str, uid: &str) -> (r:
    ServiceNode)
    ensures
        r.uid@ == uid@,
        r.node_type@ == node_type@,
        r.api_root@ == api_root@,
        r.scheme@ == if scheme@ == "http"@ {
            scheme@
        } else {
            Seq::<char>::empty()
        },
{
    let mut req = ServiceNode::new();
    req.uid = uid.to_owned();
    req.node_type = node_type.to_owned();
    req.api_root = api_root.to_owned();
    if str_eq(scheme, "http") {
        req.scheme = scheme.to_owned();
    }
    req
}

/// The peer-query payload: ask for every node except the lookup
/// replicas themselves, with no uid filtering.
pub fn build_query_request(from_uid: &str) -> (r: HttpServiceQueryRequest)
    ensures
        r.from_uid@ == from_uid@,
        r.uid_filter.exclude@.len() == 0,
        r.uid_filter.included@.len() == 0,
        r.type_filter.included@.len() == 0,
        r.type_filter.exclude@.len() == 1,
        r.type_filter.exclude@[0]@ == TYPES_NODE_TYPE_LOOKUP_NODE@,
{
    let mut req = HttpServiceQueryRequest::new();
    req.from_uid = from_uid.to_owned();
    req.type_filter.exclude.push(TYPES_NODE_TYPE_LOOKUP_NODE.to_owned());
    req
}

// ---------------------------------------------------------------
// Fan-out over the configured lookup replicas.
// ---------------------------------------------------------------

/// Progress of one fan-out pass over the lookup replicas: try them in
/// their configured order and stop at the first success. This is
/// plain fail-over, not load balancing.
#[derive(Clone, Copy, PartialEq, Eq, Structural, Debug)]
pub struct FanOut {
    pub total: usize,
    pub next: usize,
    pub done: bool,
    pub succeeded: bool,
}

pub open spec fn fan_out_wf(f: FanOut) -> bool {
    &&& f.next <= f.total
    &&& (!f.done ==> f.next < f.total)
    &&& (f.succeeded ==> f.done)
}

pub open spec fn spec_fan_out_new(total: usize) -> FanOut {
    FanOut { total, next: 0, done: total == 0, succeeded: false }
}

/// One observation: a success finishes the pass at the current
/// replica; a failure moves on, or finishes unsuccessfully when the
/// replicas are exhausted.
pub open spec fn spec_fan_out_observe(f: FanOut, status: u16) -> FanOut {
    if spec_http_success(status) {
        FanOut { done: true, succeeded: true, ..f }
    } else if f.next + 1 == f.total {
        FanOut { next: f.total, done: true, succeeded: false, ..f }
    } else {
        FanOut { next: (f.next + 1) as usize, ..f }
    }
}

/// The state after feeding a whole status sequence, stopping early
/// once done.
pub open spec fn spec_fan_out_run(f: FanOut, statuses: Seq<u16>) -> FanOut
    decreases statuses.len(),
{
    if statuses.len() == 0 || f.done {
        f
    } else {
        spec_fan_out_run(spec_fan_out_observe(f, statuses[0]), statuses.drop_first())
    }
}

impl FanOut {
    /// Start a pass over `total` replicas; with none configured the
    /// pass is already over, unsuccessfully.
    pub fn new(total: usize) -> (r: Self)
        ensures
            r == spec_fan_out_new(total),
            fan_out_wf(r),
    {
        FanOut { total, next: 0, done: total == 0, succeeded: false }
    }

    /// The replica to try now, or nothing when the pass is over.
    pub fn current(&self) -> (r: Option<usize>)
        ensures
            r == if self.done {
                Option::<usize>::None
            } else {
                Option::<usize>::Some(self.next)
            },
    {
        if self.done {
            None
        } else {
            Some(self.next)
        }
    }

    /// Feed the status the current replica returned.
    pub fn observe(&mut self, status: u16)
        requires
            fan_out_wf(*old(self)),
            !old(self).done,
        ensures
            *final(self) == spec_fan_out_observe(*old(self), status),
            fan_out_wf(*final(self)),
    {
        if http_success(status) {
            self.done = true;
            self.succeeded = true;
        } else if self.next + 1 == self.total {
            self.next = self.total;
            self.done = true;
        } else {
            self.next = self.next + 1;
        }
    }
}

/// Fail-over works: fed one status per remaining replica, a pass
/// ends, succeeds exactly when some replica answered with success,
/// and stops at the first replica that did, having tried exactly the
/// replicas before it.
pub proof fn lemma_fan_out_run(f: FanOut, statuses: Seq<u16>)
    requires
        fan_out_wf(f),
        !f.done,
        f.succeeded == false,
        statuses.len() == f.total - f.next,
    ensures
        ({
            let end = spec_fan_out_run(f, statuses);
            &&& end.done
            &&& end.succeeded <==> exists|i: int|
                0 <= i < statuses.len() && spec_http_success(#[trigger] statuses[i])
            &&& end.succeeded ==> {
                let i = end.next - f.next;
                &&& 0 <= i < statuses.len()
                &&& spec_http_success(statuses[i])
                &&& forall|j: int| 0 <= j < i ==> !spec_http_success(#[trigger] statuses[j])
            }
        }),
    decreases statuses.len(),
{
    reveal_with_fuel(spec_fan_out_run, 3);
    let end = spec_fan_out_run(f, statuses);
    let f1 = spec_fan_out_observe(f, statuses[0]);
    let rest = statuses.drop_first();
    if spec_http_success(statuses[0]) {
        assert(end == f1);
    } else if f.next + 1 == f.total {
        assert(end == f1);
        assert forall|i: int|
            0 <= i < statuses.len() implies !spec_http_success(#[trigger] statuses[i]) by {
            assert(i == 0);
        }
    } else {
        lemma_fan_out_run(f1, rest);
        let sub = spec_fan_out_run(f1, rest);
        assert(end == sub);
        assert forall|i: int|
            0 <= i < rest.len() && spec_http_success(#[trigger] rest[i]) implies exists|k: int|
            0 <= k < statuses.len() && spec_http_success(#[trigger] statuses[k]) by {
            assert(statuses[i + 1] == rest[i]);
        }
        if exists|k: int| 0 <= k < statuses.len() && spec_http_success(#[trigger] statuses[k]) {
            let k = choose|k: int|
                0 <= k < statuses.len() && spec_http_success(#[trigger] statuses[k]);
            assert(k > 0);
            assert(rest[k - 1] == statuses[k]);
            assert(exists|i: int| 0 <= i < rest.len() && spec_http_success(#[trigger] rest[i]));
        }
        if end.succeeded {
            let i0 = end.next - f1.next;
            let i = end.next - f.next;
            assert(i == i0 + 1);
            assert(statuses[i] == rest[i0]);
            assert forall|j: int| 0 <= j < i implies !spec_http_success(
                #[trigger] statuses[j],
            ) by {
                if j > 0 {
                    assert(rest[j - 1] == statuses[j]);
                }
            }
        }
    }
}

// ---------------------------------------------------------------
// The registration loop's state machine.
// ---------------------------------------------------------------

/// Phase of the self-registration loop.
#[derive(Clone, Copy, PartialEq, Eq, Structural, Debug)]
pub enum RegPhase {
    /// Heartbeating: refresh and re-register once per cycle.
    Registering,
    /// Exit observed: the one cleanup action is still owed.
    Deregistering,
    /// Finished; nothing further happens.
    Stopped,
}

/// What the loop does in one cycle.
#[derive(Clone, Copy, PartialEq, Eq, Structural, Debug)]
pub enum RegAction {
    /// Trigger a refresh, then register this node (fan-out, first
    /// success wins), then sleep one interval.
    Reconcile,
    /// Send the single best-effort deregistration.
    Deregister,
    /// Nothing.
    Idle,
}

/// One decision of the registration loop, from its phase and the
/// exit flag it just observed.
pub open spec fn spec_registration_step(phase: RegPhase, exit: bool) -> (RegPhase, RegAction) {
    match phase {
        RegPhase::Registering => if exit {
            (RegPhase::Deregistering, RegAction::Idle)
        } else {
            (RegPhase::Registering, RegAction::Reconcile)
        },
        RegPhase::Deregistering => (RegPhase::Stopped, RegAction::Deregister),
        RegPhase::Stopped => (RegPhase::Stopped, RegAction::Idle),
    }
}

/// Executable form of [`spec_registration_step`].
pub fn registration_step(phase: RegPhase, exit: bool) -> (r: (RegPhase, RegAction))
    ensures
        r == spec_registration_step(phase, exit),
{
    match phase {
        RegPhase::Registering => if exit {
            (RegPhase::Deregistering, RegAction::Idle)
        } else {
            (RegPhase::Registering, RegAction::Reconcile)
        },
        RegPhase::Deregistering => (RegPhase::Stopped, RegAction::Deregister),
        RegPhase::Stopped => (RegPhase::Stopped, RegAction::Idle),
    }
}

/// The action trace the loop produces from `phase` over a sequence of
/// exit-flag observations.
pub open spec fn run_phases(phase: RegPhase, exits: Seq<bool>) -> Seq<RegAction>
    decreases exits.len(),
{
    if exits.len() == 0 {
        Seq::empty()
    } else {
        let step = spec_registration_step(phase, exits[0]);
        seq![step.1] + run_phases(step.0, exits.drop_first())
    }
}

/// From `Stopped` nothing is ever done.
proof fn lemma_run_stopped(exits: Seq<bool>)
    ensures
        forall|j: int|
            0 <= j < exits.len() ==> run_phases(RegPhase::Stopped, exits)[j] == RegAction::Idle,
        run_phases(RegPhase::Stopped, exits).len() == exits.len(),
    decreases exits.len(),
{
    if exits.len() > 0 {
        lemma_run_stopped(exits.drop_first());
        let acts = run_phases(RegPhase::Stopped, exits);
        assert forall|j: int| 0 <= j < exits.len() implies acts[j] == RegAction::Idle by {
            if j > 0 {
                assert(acts[j] == run_phases(RegPhase::Stopped, exits.drop_first())[j - 1]);
            }
        }
    }
}

/// From `Deregistering` exactly one deregistration is sent, first,
/// and nothing else ever.
proof fn lemma_run_deregistering(exits: Seq<bool>)
    ensures
        run_phases(RegPhase::Deregistering, exits).len() == exits.len(),
        forall|j: int|
            0 <= j < exits.len() ==> (run_phases(RegPhase::Deregistering, exits)[j]
                == RegAction::Deregister <==> j == 0),
        forall|j: int|
            0 <= j < exits.len() ==> run_phases(RegPhase::Deregistering, exits)[j]
                != RegAction::Reconcile,
{
    if exits.len() > 0 {
        lemma_run_stopped(exits.drop_first());
        let acts = run_phases(RegPhase::Deregistering, exits);
        assert forall|j: int| 0 < j < exits.len() implies acts[j] == RegAction::Idle by {
            assert(acts[j] == run_phases(RegPhase::Stopped, exits.drop_first())[j - 1]);
        }
    }
}

/// Shutdown behaviour of the registration loop (with `k` the first
/// cycle that observes the exit flag set, after which it stays set):
/// every earlier cycle reconciles, no cycle from `k` on reconciles,
/// and exactly one deregistration is sent — in cycle `k + 1`, as soon
/// as the loop runs once more after the observation.
pub proof fn lemma_registration_shutdown(exits: Seq<bool>, k: int)
    requires
        0 <= k < exits.len(),
        forall|j: int| 0 <= j < k ==> !(#[trigger] exits[j]),
        forall|j: int| k <= j < exits.len() ==> #[trigger] exits[j],
    ensures
        ({
            let acts = run_phases(RegPhase::Registering, exits);
            &&& acts.len() == exits.len()
            &&& forall|j: int| 0 <= j < k ==> #[trigger] acts[j] == RegAction::Reconcile
            &&& forall|j: int| k <= j < acts.len() ==> #[trigger] acts[j] != RegAction::Reconcile
            &&& forall|j: int|
                0 <= j < acts.len() ==> (#[trigger] acts[j] == RegAction::Deregister <==> j == k
                    + 1)
        }),
    decreases k,
{
    let acts = run_phases(RegPhase::Registering, exits);
    if k == 0 {
        assert(exits[0]);
        lemma_run_deregistering(exits.drop_first());
        let rest = run_phases(RegPhase::Deregistering, exits.drop_first());
        assert(acts == seq![RegAction::Idle] + rest);
        assert forall|j: int|
            0 <= j < acts.len() implies (#[trigger] acts[j] == RegAction::Deregister <==> j
            == 1) by {
            if j > 0 {
                assert(acts[j] == rest[j - 1]);
            }
        }
        assert forall|j: int| 0 <= j < acts.len() implies #[trigger] acts[j]
            != RegAction::Reconcile by {
            if j > 0 {
                assert(acts[j] == rest[j - 1]);
            }
        }
    } else {
        assert(!exits[0]);
        let rest = exits.drop_first();
        assert forall|j: int| 0 <= j < k - 1 implies !(#[trigger] rest[j]) by {
            assert(rest[j] == exits[j + 1]);
        }
        assert forall|j: int| k - 1 <= j < rest.len() implies #[trigger] rest[j] by {
            assert(rest[j] == exits[j + 1]);
        }
        lemma_registration_shutdown(rest, k - 1);
        let racts = run_phases(RegPhase::Registering, rest);
        assert(acts == seq![RegAction::Reconcile] + racts);
        assert forall|j: int| 0 <= j < k implies #[trigger] acts[j] == RegAction::Reconcile by {
            if j > 0 {
                assert(acts[j] == racts[j - 1]);
            }
        }
        assert forall|j: int| k <= j < acts.len() implies #[trigger] acts[j]
            != RegAction::Reconcile by {
            assert(acts[j] == racts[j - 1]);
        }
        assert forall|j: int|
            0 <= j < acts.len() implies (#[trigger] acts[j] == RegAction::Deregister <==> j == k
            + 1) by {
            if j > 0 {
                assert(acts[j] == racts[j - 1]);
            }
        }
    }
}

} // verus!
