//! Notification delivery: response evaluation and the bounded retry
//! schedule (four attempts with fixed delays of 0ms, 500ms, 2s, 5s).

use vstd::prelude::*;

verus! {

/// Why a delivery attempt failed.
#[derive(Debug)]
pub enum DeliveryError {
    /// The transport could not reach the sink.
    Transport(String),
    /// The sink answered but reported failure; carries its diagnostic.
    Rejected(String),
}

impl Clone for DeliveryError {
    fn clone(&self) -> (r: Self)
        ensures
            r == self,
    {
        match self {
            DeliveryError::Transport(s) => DeliveryError::Transport(s.clone()),
            DeliveryError::Rejected(s) => DeliveryError::Rejected(s.clone()),
        }
    }
}

/// Total number of delivery attempts: the initial try plus three retries.
pub const MAX_SEND_ATTEMPTS: u64 = 4;

/// The delay in milliseconds before attempt number `attempt` (0-based):
/// none before the first, then 500ms, 2s, 5s.
pub open spec fn spec_delay_before_ms(attempt: int) -> u64 {
    if attempt <= 0 {
        0
    } else if attempt == 1 {
        500
    } else if attempt == 2 {
        2000
    } else {
        5000
    }
}

/// The delay to wait before attempt `attempt`, or `None` once the schedule
/// is exhausted.
pub fn delay_before_attempt_ms(attempt: u64) -> (r: Option<u64>)
    ensures
        attempt < MAX_SEND_ATTEMPTS ==> r == Some(spec_delay_before_ms(attempt as int)),
        attempt >= MAX_SEND_ATTEMPTS ==> r is None,
{
    if attempt == 0 {
        Some(0)
    } else if attempt == 1 {
        Some(500)
    } else if attempt == 2 {
        Some(2000)
    } else if attempt == 3 {
        Some(5000)
    } else {
        None
    }
}

/// The diagnostic captured when the sink reports failure.
pub open spec fn rejected_diagnostic(status: Seq<char>, description: Option<String>) -> Seq<char> {
    "status="@ + status + ", description="@ + (match description {
        Some(d) => d@,
        None => Seq::<char>::empty(),
    })
}

/// Judge one sink response: the attempt failed exactly when the sink's own
/// success flag is false, in which case its diagnostic text is captured.
pub fn evaluate_sink_response(ok: bool, status: &str, description: Option<String>) -> (r: Result<
    (),
    DeliveryError,
>)
    ensures
        ok <==> r is Ok,
        !ok ==> (r matches Err(DeliveryError::Rejected(d)) && d@ == rejected_diagnostic(
            status@,
            description,
        )),
{
    if ok {
        Ok(())
    } else {
        let mut diagnostic = String::from_str("status=");
        diagnostic.append(status);
        diagnostic.append(", description=");
        match description {
            Some(d) => {
                diagnostic.append(d.as_str());
                proof {
                    assert(diagnostic@ =~= rejected_diagnostic(status@, Some(d)));
                }
                Err(DeliveryError::Rejected(diagnostic))
            },
            None => {
                proof {
                    assert(diagnostic@ =~= rejected_diagnostic(status@, None));
                }
                Err(DeliveryError::Rejected(diagnostic))
            },
        }
    }
}

/// Some attempt in `outcomes` succeeds.
pub open spec fn spec_delivered(outcomes: Seq<bool>) -> bool {
    exists|i: int| 0 <= i < outcomes.len() && outcomes[i]
}

/// How many attempts the schedule makes against a sink whose attempt
/// results are `outcomes`: it stops after the first success, else runs
/// through all of them.
pub open spec fn spec_attempts(outcomes: Seq<bool>) -> int
    decreases outcomes.len(),
{
    if outcomes.len() == 0 {
        0
    } else if outcomes[0] {
        1
    } else {
        1 + spec_attempts(outcomes.skip(1))
    }
}

proof fn lemma_attempts_no_success(outcomes: Seq<bool>)
    requires
        forall|k: int| 0 <= k < outcomes.len() ==> !outcomes[k],
    ensures
        spec_attempts(outcomes) == outcomes.len(),
    decreases outcomes.len(),
{
    if outcomes.len() > 0 {
        assert(forall|k: int|
            0 <= k < outcomes.skip(1).len() ==> outcomes.skip(1)[k] == outcomes[k + 1]);
        lemma_attempts_no_success(outcomes.skip(1));
    }
}

proof fn lemma_attempts_first_success(outcomes: Seq<bool>, j: int)
    requires
        0 <= j < outcomes.len(),
        outcomes[j],
        forall|k: int| 0 <= k < j ==> !outcomes[k],
    ensures
        spec_attempts(outcomes) == j + 1,
    decreases j,
{
    if j > 0 {
        assert(forall|k: int|
            0 <= k < outcomes.skip(1).len() ==> outcomes.skip(1)[k] == outcomes[k + 1]);
        lemma_attempts_first_success(outcomes.skip(1), j - 1);
    }
}

/// What one run of the retry schedule did: attempts made, the delay taken
/// before each, and whether any attempt succeeded.
#[derive(Debug)]
pub struct RetryTrace {
    /// Attempts actually made, at most `MAX_SEND_ATTEMPTS`.
    pub attempts: u64,
    /// Delay taken before each made attempt, in order.
    pub delays_ms: Vec<u64>,
    /// Whether some attempt succeeded.
    pub delivered: bool,
}

/// The reference run of the retry schedule against a sink whose would-be
/// attempt results are `outcomes` (one entry per possible attempt): the
/// sender stops at the first success, makes all four attempts when every
/// one fails, and waits the fixed delay before each attempt it makes.
pub fn run_retry_schedule(outcomes: &Vec<bool>) -> (trace: RetryTrace)
    requires
        outcomes@.len() == MAX_SEND_ATTEMPTS,
    ensures
        trace.delivered == spec_delivered(outcomes@),
        trace.attempts == spec_attempts(outcomes@),
        trace.delays_ms@ =~= Seq::new(spec_attempts(outcomes@) as nat, |i: int| spec_delay_before_ms(i)),
        trace.delivered ==> 1 <= trace.attempts && outcomes@[trace.attempts - 1] && (forall|k: int|
            0 <= k < trace.attempts - 1 ==> !outcomes@[k]),
        !trace.delivered ==> trace.attempts == MAX_SEND_ATTEMPTS,
{
    let mut attempts: u64 = 0;
    let mut delays: Vec<u64> = Vec::new();
    let mut delivered = false;
    let mut i: usize = 0;
    while i < 4
        invariant
            i <= 4,
            outcomes@.len() == 4,
            delays@.len() == attempts,
            attempts <= i,
            forall|k: int| 0 <= k < attempts ==> delays@[k] == spec_delay_before_ms(k),
            !delivered ==> attempts == i && (forall|k: int| 0 <= k < i ==> !outcomes@[k]),
            delivered ==> 1 <= attempts <= i && outcomes@[attempts - 1] && (forall|k: int|
                0 <= k < attempts - 1 ==> !outcomes@[k]),
        decreases 4 - i,
    {
        if !delivered {
            let delay = match delay_before_attempt_ms(attempts) {
                Some(d) => d,
                None => 0,
            };
            delays.push(delay);
            attempts = attempts + 1;
            if outcomes[i] {
                delivered = true;
            }
        }
        i = i + 1;
    }
    proof {
        if delivered {
            lemma_attempts_first_success(outcomes@, attempts - 1);
        } else {
            lemma_attempts_no_success(outcomes@);
        }
    }
    RetryTrace { attempts, delays_ms: delays, delivered }
}

/// Bounded retry law: against a sink that fails every attempt, exactly
/// `MAX_SEND_ATTEMPTS` attempts occur and none delivers.
pub proof fn lemma_retry_exhausts_on_constant_failure(outcomes: Seq<bool>)
    requires
        outcomes.len() == MAX_SEND_ATTEMPTS,
        forall|k: int| 0 <= k < outcomes.len() ==> !outcomes[k],
    ensures
        spec_attempts(outcomes) == MAX_SEND_ATTEMPTS,
        !spec_delivered(outcomes),
{
    lemma_attempts_no_success(outcomes);
}

/// Early-exit law: when the first success is attempt `j` (0-based), exactly
/// `j + 1` attempts occur.
pub proof fn lemma_retry_stops_at_first_success(outcomes: Seq<bool>, j: int)
    requires
        outcomes.len() == MAX_SEND_ATTEMPTS,
        0 <= j < outcomes.len(),
        outcomes[j],
        forall|k: int| 0 <= k < j ==> !outcomes[k],
    ensures
        spec_attempts(outcomes) == j + 1,
        spec_delivered(outcomes),
{
    lemma_attempts_first_success(outcomes, j);
}

} // verus!
