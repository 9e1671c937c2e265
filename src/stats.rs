use vstd::prelude::*;
use crate::model::{Downloads, Package, PpsError};

verus! {

/// The unsigned integer at `key` inside the object at `section` of the JSON
/// text `body`; `None` when `body` is not JSON or holds no such integer.
pub uninterp spec fn json_u64_field(body: Seq<char>, section: Seq<char>, key: Seq<char>) -> Option<u64>;

/// The string at top-level `key` of the JSON text `body`; `None` when `body`
/// is not JSON or holds no such string.
pub uninterp spec fn json_str_field(body: Seq<char>, key: Seq<char>) -> Option<Seq<char>>;

/// Relies on `serde_json::from_str` into a `serde_json::Value`, then
/// `Value::get` for `section` and for `key`, and `Value::as_u64`.
#[verifier::external_body]
fn read_json_u64(body: &str, section: &str, key: &str) -> (r: Option<u64>)
    ensures
        r == json_u64_field(body@, section@, key@),
{
    serde_json::from_str::<serde_json::Value>(body)
        .ok()
        .and_then(|v| v.get(section).and_then(|d| d.get(key)).and_then(|n| n.as_u64()))
}

/// Relies on `serde_json::from_str` into a `serde_json::Value`, then
/// `Value::get` for `key` and `Value::as_str`.
#[verifier::external_body]
fn read_json_str(body: &str, key: &str) -> (r: Option<String>)
    ensures
        r.deep_view() == json_str_field(body@, key@),
{
    serde_json::from_str::<serde_json::Value>(body)
        .ok()
        .and_then(|v| v.get(key).and_then(|s| s.as_str()).map(String::from))
}

/// The download counts that a statistics response carries: a `data` object
/// with the three counts, beside a `package` and a `type` string.
pub open spec fn stats_of(body: Seq<char>) -> Option<Downloads> {
    match (
        json_u64_field(body, "data"@, "last_day"@),
        json_u64_field(body, "data"@, "last_week"@),
        json_u64_field(body, "data"@, "last_month"@),
        json_str_field(body, "package"@),
        json_str_field(body, "type"@),
    ) {
        (Some(d), Some(w), Some(m), Some(_), Some(_)) => Some(Downloads { last_day: d, last_week: w, last_month: m }),
        _ => None,
    }
}

impl Downloads {
    /// Reads the download counts out of a statistics response.
    pub fn from_stats_body(body: &str) -> (r: Result<Downloads, PpsError>)
        ensures
            r is Ok <==> stats_of(body@) is Some,
            r matches Ok(d) ==> stats_of(body@) == Some(d),
            r matches Err(e) ==> e == PpsError::Enrichment,
    {
        let day = read_json_u64(body, "data", "last_day");
        let week = read_json_u64(body, "data", "last_week");
        let month = read_json_u64(body, "data", "last_month");
        let package = read_json_str(body, "package");
        let kind = read_json_str(body, "type");
        match (day, week, month, package, kind) {
            (Some(d), Some(w), Some(m), Some(_), Some(_)) => Ok(Downloads { last_day: d, last_week: w, last_month: m }),
            _ => Err(PpsError::Enrichment),
        }
    }
}

/// How often a failing statistics request is tried.
#[derive(Clone, Copy, Debug, PartialEq, Eq, Structural)]
pub struct RetryPolicy {
    /// The most attempts in all; `None` retries for as long as the caller lets it.
    pub max_attempts: Option<u64>,
}

impl RetryPolicy {
    /// Retries until success or cancellation.
    pub fn unbounded() -> (r: RetryPolicy)
        ensures
            r.max_attempts is None,
    {
        RetryPolicy { max_attempts: None }
    }

    /// Makes at most `attempts` attempts.
    pub fn at_most(attempts: u64) -> (r: RetryPolicy)
        ensures
            r.max_attempts == Some(attempts),
    {
        RetryPolicy { max_attempts: Some(attempts) }
    }
}

/// What one attempt at a statistics request came to.
#[derive(Clone, Debug)]
pub enum Attempt {
    /// The endpoint answered successfully with this body.
    Responded(String),
    /// A transient failure: network error, timeout or unsuccessful status.
    Transient(String),
    /// The caller cancelled the operation.
    Cancelled,
}

/// What to do after an attempt.
#[derive(Debug)]
pub enum RetryStep {
    /// Stop with this outcome.
    Finished(Result<Downloads, PpsError>),
    /// Wait for the backoff delay, then try again.
    Wait,
}

/// Whether `policy` allows another attempt after `failures` failed ones.
pub open spec fn allows_another(policy: RetryPolicy, failures: nat) -> bool {
    match policy.max_attempts {
        None => true,
        Some(m) => failures < m,
    }
}

/// The decision after `attempt`, when `failures` attempts failed before it.
pub open spec fn next_step(policy: RetryPolicy, failures: nat, attempt: Attempt) -> RetryStep {
    match attempt {
        Attempt::Responded(body) => RetryStep::Finished(
            match stats_of(body@) {
                Some(d) => Ok(d),
                None => Err(PpsError::Enrichment),
            },
        ),
        Attempt::Transient(msg) => if allows_another(policy, failures + 1) {
            RetryStep::Wait
        } else {
            RetryStep::Finished(Err(PpsError::Transport(msg)))
        },
        Attempt::Cancelled => RetryStep::Finished(Err(PpsError::Cancelled)),
    }
}

/// The outcome of a run of attempts, the first of them made after `failures`
/// failed ones; `None` while the run has not finished.
pub open spec fn run_attempts(policy: RetryPolicy, failures: nat, attempts: Seq<Attempt>) -> Option<
    Result<Downloads, PpsError>,
>
    decreases attempts.len(),
{
    if attempts.len() == 0 {
        None
    } else {
        match next_step(policy, failures, attempts[0]) {
            RetryStep::Finished(r) => Some(r),
            RetryStep::Wait => run_attempts(policy, failures + 1, attempts.drop_first()),
        }
    }
}

/// Decides what follows an attempt at a statistics request: a response ends
/// the run with the counts it holds (or a fatal enrichment error when it holds
/// none); a transient failure is retried while `policy` allows; cancellation
/// ends the run at once.
pub fn retry_step(policy: &RetryPolicy, failures: u64, attempt: &Attempt) -> (r: RetryStep)
    ensures
        r == next_step(*policy, failures as nat, *attempt),
{
    match attempt {
        Attempt::Responded(body) => RetryStep::Finished(Downloads::from_stats_body(body.as_str())),
        Attempt::Transient(msg) => {
            let again = match policy.max_attempts {
                None => true,
                Some(m) => failures < m && m - failures > 1,
            };
            if again {
                RetryStep::Wait
            } else {
                RetryStep::Finished(Err(PpsError::Transport(msg.clone())))
            }
        },
        Attempt::Cancelled => RetryStep::Finished(Err(PpsError::Cancelled)),
    }
}

/// A request that fails transiently some number of times, within what the
/// policy allows, and then gets a response ends with what that response
/// holds; the earlier failures do not surface.
pub proof fn lemma_retry_ends_with_response(
    policy: RetryPolicy,
    failures: nat,
    transient: Seq<Attempt>,
    body: String,
)
    requires
        forall|i: int| 0 <= i < transient.len() ==> (#[trigger] transient[i]) is Transient,
        allows_another(policy, failures + transient.len()),
    ensures
        run_attempts(policy, failures, transient.push(Attempt::Responded(body))) == Some(
            match stats_of(body@) {
                Some(d) => Ok::<Downloads, PpsError>(d),
                None => Err(PpsError::Enrichment),
            },
        ),
    decreases transient.len(),
{
    let all = transient.push(Attempt::Responded(body));
    if transient.len() > 0 {
        assert(all[0] == transient[0]);
        assert(transient[0] is Transient);
        assert(all.drop_first() =~= transient.drop_first().push(Attempt::Responded(body)));
        assert forall|i: int| 0 <= i < transient.drop_first().len() implies (#[trigger] transient.drop_first()[i]) is Transient by {
            assert(transient[i + 1] is Transient);
        }
        lemma_retry_ends_with_response(policy, failures + 1, transient.drop_first(), body);
    } else {
        assert(all[0] == Attempt::Responded(body));
    }
}

/// Attaches fetched download counts to every package, the `i`th result to the
/// `i`th package. When any fetch failed, the first failure is returned and
/// the packages are left as they were.
pub fn enrich_all(packages: &mut Vec<Package>, results: &Vec<Result<Downloads, PpsError>>) -> (r: Result<(), PpsError>)
    requires
        results@.len() == old(packages)@.len(),
    ensures
        r is Ok <==> forall|i: int| 0 <= i < results@.len() ==> (#[trigger] results@[i]) is Ok,
        r matches Err(e) ==> final(packages)@ == old(packages)@ && exists|i: int|
            0 <= i < results@.len() && #[trigger] results@[i] == Err::<Downloads, PpsError>(e) && forall|k: int|
                0 <= k < i ==> (#[trigger] results@[k]) is Ok,
        r is Ok ==> final(packages)@.len() == old(packages)@.len() && forall|i: int|
            0 <= i < results@.len() ==> {
                let p = #[trigger] final(packages)@[i];
                let q = old(packages)@[i];
                &&& results@[i] matches Ok(d) && p.downloads == Some(d)
                &&& p.name == q.name && p.installed == q.installed && p.version == q.version
                &&& p.release == q.release && p.description == q.description
            },
{
    let n = results.len();
    let mut i: usize = 0;
    while i < n
        invariant
            n == results@.len(),
            0 <= i <= n,
            forall|k: int| 0 <= k < i ==> (#[trigger] results@[k]) is Ok,
        decreases n - i,
    {
        match &results[i] {
            Ok(_) => {},
            Err(e) => {
                return Err(e.duplicate());
            },
        }
        i += 1;
    }
    let ghost before = packages@;
    let mut j: usize = 0;
    while j < n
        invariant
            n == results@.len(),
            n == before.len(),
            packages@.len() == n,
            0 <= j <= n,
            forall|k: int| 0 <= k < n ==> (#[trigger] results@[k]) is Ok,
            forall|k: int| j <= k < n ==> #[trigger] packages@[k] == before[k],
            forall|k: int| 0 <= k < j ==> {
                let p = #[trigger] packages@[k];
                let q = before[k];
                &&& results@[k] matches Ok(d) && p.downloads == Some(d)
                &&& p.name == q.name && p.installed == q.installed && p.version == q.version
                &&& p.release == q.release && p.description == q.description
            },
        decreases n - j,
    {
        match &results[j] {
            Ok(d) => packages[j].update_downloads(*d),
            Err(_) => {},
        }
        j += 1;
    }
    Ok(())
}

} // verus!
