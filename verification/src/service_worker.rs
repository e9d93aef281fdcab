//! Service workers: long-running helper agents (the scribe, the conflict
//! resolver) spawned on demand, and the decisions around spawning, reaching
//! and stopping them.

use vstd::prelude::*;
use crate::text::{concat, to_chars, to_decimal, decimal, trim, trimmed};

verus! {

/// The kinds of service worker.
#[derive(Debug, Clone, Copy, PartialEq, Eq, Structural)]
pub enum ServiceWorkerType {
    /// The documentation agent.
    Scribe,
    /// The merge conflict resolution agent.
    ConflictResolver,
}

impl ServiceWorkerType {
    /// The name passed as the worker's type argument.
    pub open spec fn name(self) -> Seq<char> {
        match self {
            ServiceWorkerType::Scribe => "scribe"@,
            ServiceWorkerType::ConflictResolver => "conflict-resolver"@,
        }
    }

    /// Seconds a worker of this kind may idle before it stops.
    pub open spec fn idle_timeout(self) -> u32 {
        match self {
            ServiceWorkerType::Scribe => 300,
            ServiceWorkerType::ConflictResolver => 600,
        }
    }

    pub fn as_str(&self) -> (r: &'static str)
        ensures
            r@ == self.name(),
    {
        match self {
            ServiceWorkerType::Scribe => "scribe",
            ServiceWorkerType::ConflictResolver => "conflict-resolver",
        }
    }

    /// The default idle timeout in seconds: five minutes for the scribe, ten
    /// for the conflict resolver.
    pub fn default_idle_timeout(&self) -> (r: u32)
        ensures
            r == self.idle_timeout(),
    {
        match self {
            ServiceWorkerType::Scribe => 300,
            ServiceWorkerType::ConflictResolver => 600,
        }
    }

    /// The name the service logs under.
    pub fn log_name(&self) -> (r: &'static str)
        ensures
            r@ == match self {
                ServiceWorkerType::Scribe => "ScribeService"@,
                ServiceWorkerType::ConflictResolver => "ConflictResolverService"@,
            },
    {
        match self {
            ServiceWorkerType::Scribe => "ScribeService",
            ServiceWorkerType::ConflictResolver => "ConflictResolverService",
        }
    }
}

/// A running service worker.
#[derive(Debug)]
pub struct ServiceWorkerHandle {
    pub worker_type: ServiceWorkerType,
    /// The worker's HTTP endpoint, such as `http://127.0.0.1:12345`.
    pub endpoint: String,
    /// The runner that spawned it.
    pub runner_type: String,
    /// The runner's id for it: a process id, a machine id.
    pub runner_id: String,
    /// When it was spawned, as an RFC 3339 time.
    pub spawned_at: String,
}

/// Whether `s` is made of decimal digits only.
pub open spec fn all_digits(s: Seq<char>) -> bool {
    forall|i: int| 0 <= i < s.len() ==> '0' <= #[trigger] s[i] <= '9'
}

/// The number the decimal digits `s` write.
pub open spec fn digits_value(s: Seq<char>) -> nat
    decreases s.len(),
{
    if s.len() == 0 {
        0
    } else {
        10 * digits_value(s.drop_last()) + ((s.last() as int - '0' as int) as nat)
    }
}

/// The number `s` writes as an unsigned 32-bit integer in the form that
/// `str::parse` accepts: an optional `+`, then one or more decimal digits,
/// for a value that fits.
pub open spec fn parse_u32(s: Seq<char>) -> Option<u32> {
    let d = if s.len() > 0 && s[0] == '+' { s.drop_first() } else { s };
    if d.len() > 0 && all_digits(d) && digits_value(d) <= u32::MAX {
        Some(digits_value(d) as u32)
    } else {
        None
    }
}

/// More digits never write a smaller number.
pub proof fn lemma_digits_grow(s: Seq<char>, i: int)
    requires
        all_digits(s),
        0 <= i <= s.len(),
    ensures
        digits_value(s.take(i)) <= digits_value(s),
    decreases s.len() - i,
{
    if i < s.len() {
        lemma_digits_grow(s, i + 1);
        assert(s.take(i + 1).drop_last() =~= s.take(i));
        assert('0' <= s[i] <= '9');
    } else {
        assert(s.take(i) =~= s);
    }
}

/// Reads an unsigned 32-bit integer as `str::parse` does.
pub fn parse_u32_str(s: &str) -> (r: Option<u32>)
    ensures
        r == parse_u32(s@),
{
    let cs = to_chars(s);
    let start: usize = if cs.len() > 0 && cs[0] == '+' { 1 } else { 0 };
    let ghost d = if s@.len() > 0 && s@[0] == '+' { s@.drop_first() } else { s@ };
    assert(d =~= s@.subrange(start as int, s@.len() as int));
    if start == cs.len() {
        return None;
    }
    let mut acc: u64 = 0;
    let mut i: usize = start;
    while i < cs.len()
        invariant
            cs@ == s@,
            start <= i <= cs.len(),
            start < cs.len(),
            d == s@.subrange(start as int, s@.len() as int),
            d == (if s@.len() > 0 && s@[0] == '+' { s@.drop_first() } else { s@ }),
            all_digits(d.take(i - start)),
            acc == digits_value(d.take(i - start)),
            acc <= u32::MAX,
        decreases cs.len() - i,
    {
        let c = cs[i];
        assert(d[i - start] == c);
        if c < '0' || c > '9' {
            assert(!('0' <= d[i - start] <= '9'));
            assert(!all_digits(d));
            return None;
        }
        let v: u64 = (c as u64) - ('0' as u64);
        let next: u64 = acc * 10 + v;
        assert(d.take(i - start + 1).drop_last() =~= d.take(i - start));
        assert(d.take(i - start + 1).last() == c);
        assert(all_digits(d.take(i - start + 1)));
        if next > 4294967295u64 {
            proof {
                if all_digits(d) {
                    lemma_digits_grow(d, i - start + 1);
                    assert(digits_value(d.take(i - start + 1)) == next);
                }
            }
            return None;
        }
        acc = next;
        i = i + 1;
    }
    assert(d.take(cs.len() - start) =~= d);
    Some(acc as u32)
}

impl ServiceWorkerHandle {
    /// A handle for a worker spawned at `spawned_at`.
    pub fn new(worker_type: ServiceWorkerType, endpoint: String, runner_type: String, runner_id: String, spawned_at: String) -> (r: ServiceWorkerHandle)
        ensures
            r.worker_type == worker_type,
            r.endpoint == endpoint,
            r.runner_type == runner_type,
            r.runner_id == runner_id,
            r.spawned_at == spawned_at,
    {
        ServiceWorkerHandle { worker_type, endpoint, runner_type, runner_id, spawned_at }
    }

    /// The worker's health check URL.
    pub fn health_url(&self) -> (r: String)
        ensures
            r@ == self.endpoint@ + "/health"@,
    {
        concat(self.endpoint.as_str(), "/health")
    }

    /// The worker's scribe batch URL.
    pub fn scribe_batch_url(&self) -> (r: String)
        ensures
            r@ == self.endpoint@ + "/scribe/batch"@,
    {
        concat(self.endpoint.as_str(), "/scribe/batch")
    }

    /// The process to signal when stopping the worker: only a local worker
    /// whose runner id reads as a process id has one.
    pub fn local_pid(&self) -> (r: Option<u32>)
        ensures
            r == if self.runner_type@ == "local"@ { parse_u32(self.runner_id@) } else { None },
    {
        if crate::text::str_eq(self.runner_type.as_str(), "local") {
            parse_u32_str(self.runner_id.as_str())
        } else {
            None
        }
    }
}

/// Why a service worker operation failed.
#[derive(Debug)]
pub enum ServiceWorkerError {
    SpawnFailed(String),
    NotAvailable(String),
    HealthCheckFailed(String),
    RequestFailed(String),
    /// The runner failed; the text is its error.
    Runner(String),
    NoRunnerConfigured,
    Config(String),
}

/// Whether work goes to a remote worker: only when a runner other than
/// `local` is configured for the kind and the configuration defines it.
pub fn should_use_remote(runner: Option<&str>, runner_defined: bool) -> (r: bool)
    ensures
        r == match runner {
            None => false,
            Some(name) => name@ != "local"@ && runner_defined,
        },
{
    match runner {
        None => false,
        Some(name) => {
            if crate::text::str_eq(name, "local") {
                false
            } else {
                runner_defined
            }
        },
    }
}

/// The arguments that start a worker of kind `worker_type` that stops after
/// `idle_timeout` idle seconds.
pub fn spawn_args(worker_type: ServiceWorkerType, idle_timeout: u32) -> (r: Vec<String>)
    ensures
        r@.len() == 5,
        r@[0]@ == "__service-worker"@,
        r@[1]@ == "--type"@,
        r@[2]@ == worker_type.name(),
        r@[3]@ == "--idle-timeout"@,
        r@[4]@ == decimal(idle_timeout as nat),
{
    let mut v: Vec<String> = Vec::new();
    v.push("__service-worker".to_owned());
    v.push("--type".to_owned());
    v.push(worker_type.as_str().to_owned());
    v.push("--idle-timeout".to_owned());
    v.push(to_decimal(idle_timeout as u64));
    v
}

/// The member `key` of the JSON object that the text `line` holds, when the
/// text is one and the member is an unsigned integer.
pub uninterp spec fn json_u64_member(line: Seq<char>, key: Seq<char>) -> Option<u64>;

/// Trusted: calls `serde_json::from_str` on the line, then reads the member
/// `key` with `Value::get` and `Value::as_u64`. The result depends on the two
/// texts alone and is named `json_u64_member`.
#[verifier::external_body]
fn json_u64_field(line: &str, key: &str) -> (r: Option<u64>)
    ensures
        r == json_u64_member(line@, key@),
{
    match serde_json::from_str::<serde_json::Value>(line) {
        Ok(v) => v.get(key).and_then(|p| p.as_u64()),
        Err(_) => None,
    }
}

/// What a worker's first output line gives, once the port it names (if any)
/// was read: the local endpoint on that port, or a refusal quoting the line.
pub open spec fn ready_outcome_is(port: Option<u64>, line: Seq<char>, r: Result<String, ServiceWorkerError>) -> bool {
    match port {
        Some(p) => r matches Ok(e) && e@ == "http://127.0.0.1:"@ + decimal(p as nat),
        None => r matches Err(ServiceWorkerError::SpawnFailed(m)) && m@ == "Invalid ready message: "@ + trimmed(line),
    }
}

/// The endpoint of a worker whose ready line `line` named the port `port`.
pub fn endpoint_for_port(port: Option<u64>, line: &str) -> (r: Result<String, ServiceWorkerError>)
    ensures
        ready_outcome_is(port, line@, r),
{
    match port {
        Some(p) => {
            let digits = to_decimal(p);
            Ok(concat("http://127.0.0.1:", digits.as_str()))
        },
        None => {
            let t = trim(line);
            Err(ServiceWorkerError::SpawnFailed(concat("Invalid ready message: ", t.as_str())))
        },
    }
}

/// The outcome of reading a spawned worker's first line: `bytes_read` bytes
/// were read into `line`. No bytes means the worker exited first.
pub fn ready_endpoint(bytes_read: usize, line: &str) -> (r: Result<String, ServiceWorkerError>)
    ensures
        bytes_read == 0 ==> (r matches Err(ServiceWorkerError::SpawnFailed(m)) && m@ == "Worker exited before ready"@),
        bytes_read > 0 ==> ready_outcome_is(json_u64_member(line@, "port"@), line@, r),
{
    if bytes_read == 0 {
        return Err(ServiceWorkerError::SpawnFailed("Worker exited before ready".to_owned()));
    }
    let port = json_u64_field(line, "port");
    endpoint_for_port(port, line)
}

} // verus!
