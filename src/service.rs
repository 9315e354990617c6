use vstd::prelude::*;

verus! {

/// The answer of a proving service to a request to compile a circuit.
#[derive(Debug)]
pub struct CircuitResponse {
    pub circuit_id: String,
}

/// The answer of a proving service to a request for a proof.
#[derive(Debug)]
pub struct ProofResponse {
    pub proof_id: String,
}

/// The answer of a proving service to a status request.
#[derive(Debug)]
pub struct PollResponse {
    pub status: String,
    pub public: Option<Vec<String>>,
}

/// What a status says of a compilation or a proof.
#[derive(Clone, Copy, Debug, PartialEq, Eq, Structural)]
pub enum Verdict {
    Ready,
    Failed,
    Pending,
}

/// What the polling loop does after one status request.
#[derive(Clone, Copy, Debug, PartialEq, Eq, Structural)]
pub enum PollAction {
    /// Stop and hand back the answer, which is final.
    Stop(Verdict),
    /// Wait, then ask again.
    Wait,
    /// Stop: the allowed attempts are used up.
    TimedOut,
}

/// `Ready` and `Failed` are final; every other status means the work goes on.
pub open spec fn verdict_of(status: Seq<char>) -> Verdict {
    if status == "Ready"@ {
        Verdict::Ready
    } else if status == "Failed"@ {
        Verdict::Failed
    } else {
        Verdict::Pending
    }
}

/// Attempts are numbered from 1 and the loop makes those below `timeout`.
pub open spec fn may_attempt(attempt: int, timeout: int) -> bool {
    1 <= attempt < timeout
}

impl PollResponse {
    /// What this response's status says.
    pub fn verdict(&self) -> (r: Verdict)
        ensures
            r == verdict_of(self.status@),
    {
        let ready = String::from_str("Ready");
        let failed = String::from_str("Failed");
        if self.status == ready {
            Verdict::Ready
        } else if self.status == failed {
            Verdict::Failed
        } else {
            Verdict::Pending
        }
    }
}

/// Whether attempt number `attempt` may be made under `timeout`.
pub fn may_poll(attempt: i64, timeout: i64) -> (r: bool)
    ensures
        r == may_attempt(attempt as int, timeout as int),
{
    1 <= attempt && attempt < timeout
}

/// The decision after attempt number `attempt` got `verdict`: stop on a final verdict,
/// otherwise wait when a next attempt is allowed and time out when it is not.
pub fn next_poll_action(attempt: i64, timeout: i64, verdict: Verdict) -> (r: PollAction)
    ensures
        r == match verdict {
            Verdict::Pending => if may_attempt(attempt + 1, timeout as int) {
                PollAction::Wait
            } else {
                PollAction::TimedOut
            },
            _ => PollAction::Stop(verdict),
        },
{
    match verdict {
        Verdict::Pending => {
            if attempt < timeout && 1 <= attempt + 1 && attempt + 1 < timeout {
                PollAction::Wait
            } else {
                PollAction::TimedOut
            }
        },
        _ => PollAction::Stop(verdict),
    }
}

} // verus!
