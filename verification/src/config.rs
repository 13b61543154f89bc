//! The agent's configuration: its shape, defaults, merging, and the
//! precedence between defaults, a configuration file, and environment
//! overrides.
//!
//! Reading files and the environment happens at the edge of the process;
//! this module takes the values already read and decides what the
//! effective configuration is. Paths are carried as plain strings.
//!
//! `batch_max_events`, `batch_max_bytes` and `spki_pin_sha256` are
//! accepted here but not consulted by the batcher or the sender; they are
//! kept so a configuration file naming them still loads.
use vstd::prelude::*;
use vstd::string::StringExecFns;
use crate::codec::ascii_lower;

verus! {

/// Identity and cadence of the agent.
pub struct Common {
    pub instance_id: String,
    pub interval_secs: u64,
    pub max_event_bytes: usize,
}

/// What the collectors sample.
pub struct Collectors {
    pub top_n_procs: usize,
    pub win_eventlog_channels: Vec<String>,
    pub win_eventlog_rps: u32,
}

/// Where telemetry lines are written locally.
pub struct Output {
    pub mode: String,
    pub file_path: Option<String>,
    pub rotate_bytes: usize,
}

/// The delivery pipeline's knobs.
pub struct Networking {
    pub enabled: bool,
    pub endpoint: String,
    pub batch_max_events: usize,
    pub batch_max_bytes: usize,
    pub flush_interval_ms: u64,
    pub queue_dir: String,
    pub queue_max_bytes: u64,
    pub ca_cert: Option<String>,
    pub client_cert: Option<String>,
    pub client_key: Option<String>,
    pub spki_pin_sha256: Option<String>,
    pub compression: String,
    pub retry_budget: usize,
}

/// The local status endpoint.
pub struct Status {
    pub port: Option<u16>,
}

/// The whole configuration.
pub struct AgentConfig {
    pub common: Common,
    pub collectors: Collectors,
    pub output: Output,
    pub networking: Networking,
    pub status: Status,
}

/// Collector sections agree field by field; the channel lists hold the
/// same strings in the same order.
pub open spec fn collectors_eq(x: Collectors, y: Collectors) -> bool {
    x.top_n_procs == y.top_n_procs && x.win_eventlog_channels@ == y.win_eventlog_channels@
        && x.win_eventlog_rps == y.win_eventlog_rps
}

/// Whole configurations agree section by section.
pub open spec fn config_eq(x: AgentConfig, y: AgentConfig) -> bool {
    x.common == y.common && collectors_eq(x.collectors, y.collectors) && x.output == y.output
        && x.networking == y.networking && x.status == y.status
}

fn clone_strings(v: &Vec<String>) -> (r: Vec<String>)
    ensures
        r@ == v@,
{
    let mut r: Vec<String> = Vec::new();
    let mut i: usize = 0;
    while i < v.len()
        invariant
            i <= v@.len(),
            r@ == v@.take(i as int),
        decreases v@.len() - i,
    {
        r.push(v[i].clone());
        proof {
            assert(v@.take(i + 1) =~= v@.take(i as int).push(v@[i as int]));
        }
        i = i + 1;
    }
    proof {
        assert(v@.take(v@.len() as int) =~= v@);
    }
    r
}

fn clone_opt_string(v: &Option<String>) -> (r: Option<String>)
    ensures
        r == *v,
{
    match v {
        Some(s) => Some(s.clone()),
        None => None,
    }
}

impl Clone for Common {
    fn clone(&self) -> (r: Common)
        ensures
            r == *self,
    {
        Common {
            instance_id: self.instance_id.clone(),
            interval_secs: self.interval_secs,
            max_event_bytes: self.max_event_bytes,
        }
    }
}

impl Clone for Collectors {
    fn clone(&self) -> (r: Collectors)
        ensures
            collectors_eq(r, *self),
    {
        Collectors {
            top_n_procs: self.top_n_procs,
            win_eventlog_channels: clone_strings(&self.win_eventlog_channels),
            win_eventlog_rps: self.win_eventlog_rps,
        }
    }
}

impl Clone for Output {
    fn clone(&self) -> (r: Output)
        ensures
            r == *self,
    {
        Output {
            mode: self.mode.clone(),
            file_path: clone_opt_string(&self.file_path),
            rotate_bytes: self.rotate_bytes,
        }
    }
}

impl Clone for Networking {
    fn clone(&self) -> (r: Networking)
        ensures
            r == *self,
    {
        Networking {
            enabled: self.enabled,
            endpoint: self.endpoint.clone(),
            batch_max_events: self.batch_max_events,
            batch_max_bytes: self.batch_max_bytes,
            flush_interval_ms: self.flush_interval_ms,
            queue_dir: self.queue_dir.clone(),
            queue_max_bytes: self.queue_max_bytes,
            ca_cert: clone_opt_string(&self.ca_cert),
            client_cert: clone_opt_string(&self.client_cert),
            client_key: clone_opt_string(&self.client_key),
            spki_pin_sha256: clone_opt_string(&self.spki_pin_sha256),
            compression: self.compression.clone(),
            retry_budget: self.retry_budget,
        }
    }
}

impl Clone for Status {
    fn clone(&self) -> (r: Status)
        ensures
            r == *self,
    {
        Status { port: self.port }
    }
}

impl Clone for AgentConfig {
    fn clone(&self) -> (r: AgentConfig)
        ensures
            config_eq(r, *self),
    {
        AgentConfig {
            common: self.common.clone(),
            collectors: self.collectors.clone(),
            output: self.output.clone(),
            networking: self.networking.clone(),
            status: self.status.clone(),
        }
    }
}

/// The merge of two configurations: every section of `b` replaces the
/// corresponding section of `a`.
pub fn merge_config(a: &AgentConfig, b: &AgentConfig) -> (r: AgentConfig)
    ensures
        r.common == b.common,
        collectors_eq(r.collectors, b.collectors),
        r.output == b.output,
        r.networking == b.networking,
        r.status == b.status,
{
    let mut out = a.clone();
    out.common = b.common.clone();
    out.collectors = b.collectors.clone();
    out.output = b.output.clone();
    out.networking = b.networking.clone();
    out.status = b.status.clone();
    out
}

impl AgentConfig {
    /// The built-in defaults, rooted at the given data directory: the
    /// local log file lives under its `logs` subdirectory and the durable
    /// queue under its `queue` subdirectory. Networking starts disabled.
    pub fn default_with_data_dir(data_dir: &str) -> (c: AgentConfig)
        ensures
            c.common.instance_id@ == "rea-default"@,
            c.common.interval_secs == 5,
            c.common.max_event_bytes == 128 * 1024,
            c.collectors.top_n_procs == 5,
            c.collectors.win_eventlog_channels.deep_view() == seq!["System"@, "Application"@],
            c.collectors.win_eventlog_rps == 10,
            c.output.mode@ == "stdout"@,
            c.output.file_path matches Some(p) && p@ == data_dir@ + "/logs/agent.jsonl"@,
            c.output.rotate_bytes == 10 * 1024 * 1024,
            !c.networking.enabled,
            c.networking.endpoint@ == "https://127.0.0.1:8443/ingest"@,
            c.networking.batch_max_events == 200,
            c.networking.batch_max_bytes == 512 * 1024,
            c.networking.flush_interval_ms == 2000,
            c.networking.queue_dir@ == data_dir@ + "/queue"@,
            c.networking.queue_max_bytes == 50 * 1024 * 1024,
            c.networking.ca_cert is None,
            c.networking.client_cert is None,
            c.networking.client_key is None,
            c.networking.spki_pin_sha256 is None,
            c.networking.compression@ == "zstd"@,
            c.networking.retry_budget == 8,
            c.status.port is None,
    {
        let mut log_path = data_dir.to_owned();
        log_path.append("/logs/agent.jsonl");
        let mut queue_dir = data_dir.to_owned();
        queue_dir.append("/queue");
        let mut channels: Vec<String> = Vec::new();
        channels.push("System".to_owned());
        channels.push("Application".to_owned());
        proof {
            assert(channels.deep_view() =~= seq!["System"@, "Application"@]);
        }
        AgentConfig {
            common: Common {
                instance_id: "rea-default".to_owned(),
                interval_secs: 5,
                max_event_bytes: 128 * 1024,
            },
            collectors: Collectors {
                top_n_procs: 5,
                win_eventlog_channels: channels,
                win_eventlog_rps: 10,
            },
            output: Output {
                mode: "stdout".to_owned(),
                file_path: Some(log_path),
                rotate_bytes: 10 * 1024 * 1024,
            },
            networking: Networking {
                enabled: false,
                endpoint: "https://127.0.0.1:8443/ingest".to_owned(),
                batch_max_events: 200,
                batch_max_bytes: 512 * 1024,
                flush_interval_ms: 2000,
                queue_dir,
                queue_max_bytes: 50 * 1024 * 1024,
                ca_cert: None,
                client_cert: None,
                client_key: None,
                spki_pin_sha256: None,
                compression: "zstd".to_owned(),
                retry_budget: 8,
            },
            status: Status { port: None },
        }
    }
}

/// A decimal digit.
pub open spec fn is_digit(b: u8) -> bool {
    48 <= b && b <= 57
}

/// The value of a decimal digit string, most significant digit first.
pub open spec fn dec_val(s: Seq<u8>) -> int
    decreases s.len(),
{
    if s.len() == 0 {
        0
    } else {
        dec_val(s.drop_last()) * 10 + (s.last() - 48)
    }
}

/// What an environment override for a number means: the digits' value,
/// when the text is nothing but digits and the value fits.
pub open spec fn spec_parse_u64(s: Seq<u8>) -> Option<u64> {
    if s.len() > 0 && (forall|i: int| 0 <= i < s.len() ==> is_digit(#[trigger] s[i])) && dec_val(s)
        <= 0xffff_ffff_ffff_ffff {
        Some(dec_val(s) as u64)
    } else {
        None
    }
}

proof fn lemma_dec_val_nonneg(s: Seq<u8>)
    requires
        forall|i: int| 0 <= i < s.len() ==> is_digit(#[trigger] s[i]),
    ensures
        dec_val(s) >= 0,
    decreases s.len(),
{
    if s.len() > 0 {
        assert(s.drop_last() =~= s.take(s.len() - 1));
        lemma_dec_val_nonneg(s.drop_last());
    }
}

/// Reads a decimal override: `Some` exactly for a non-empty digit string
/// whose value fits; anything else is ignored by the caller.
pub fn parse_u64_decimal(s: &[u8]) -> (r: Option<u64>)
    ensures
        r == spec_parse_u64(s@),
{
    if s.len() == 0 {
        return None;
    }
    let mut acc: u64 = 0;
    let mut i: usize = 0;
    proof {
        assert(s@.take(0) =~= Seq::<u8>::empty());
    }
    while i < s.len()
        invariant
            i <= s@.len(),
            forall|j: int| 0 <= j < i ==> is_digit(#[trigger] s@[j]),
            acc == dec_val(s@.take(i as int)),
        decreases s@.len() - i,
    {
        let b = s[i];
        if b < 48 || 57 < b {
            return None;
        }
        let d = (b - 48) as u64;
        let next: u128 = acc as u128 * 10 + d as u128;
        proof {
            assert(s@.take(i + 1).drop_last() =~= s@.take(i as int));
            assert(s@.take(i + 1).last() == s@[i as int]);
            assert(dec_val(s@.take(i + 1)) == next);
        }
        if next > 0xffff_ffff_ffff_ffffu128 {
            proof {
                if forall|j: int| 0 <= j < s@.len() ==> is_digit(#[trigger] s@[j]) {
                    lemma_dec_val_prefix_bound(s@, i as int + 1);
                }
            }
            return None;
        }
        acc = next as u64;
        i = i + 1;
    }
    proof {
        assert(s@.take(s@.len() as int) =~= s@);
    }
    Some(acc)
}

/// A digit string's value only grows as digits are appended: when a
/// prefix already exceeds the representable range, so does the whole.
proof fn lemma_dec_val_prefix_bound(s: Seq<u8>, i: int)
    requires
        0 <= i <= s.len(),
        forall|j: int| 0 <= j < s.len() ==> is_digit(#[trigger] s[j]),
    ensures
        dec_val(s) >= dec_val(s.take(i)),
    decreases s.len() - i,
{
    if i < s.len() {
        lemma_dec_val_prefix_bound(s, i + 1);
        assert(s.take(i + 1).drop_last() =~= s.take(i));
        assert(s.take(i + 1).last() == s[i]);
        assert(forall|j: int| 0 <= j < s.take(i).len() ==> is_digit(#[trigger] s.take(i)[j]));
        lemma_dec_val_nonneg(s.take(i));
    } else {
        assert(s.take(i) =~= s);
    }
}

/// What an environment flag means: the single byte "1", or "true" in any
/// mix of ASCII case.
pub open spec fn is_truthy_spec(s: Seq<u8>) -> bool {
    (s.len() == 1 && s[0] == 49) || (s.len() == 4 && ascii_lower(s[0]) == 116 && ascii_lower(
        s[1],
    ) == 114 && ascii_lower(s[2]) == 117 && ascii_lower(s[3]) == 101)
}

/// Reads an environment flag that switches networking on.
pub fn is_truthy(s: &[u8]) -> (r: bool)
    ensures
        r == is_truthy_spec(s@),
{
    (s.len() == 1 && s[0] == 49) || (s.len() == 4 && (s[0] == 116 || s[0] == 84) && (s[1] == 114
        || s[1] == 82) && (s[2] == 117 || s[2] == 85) && (s[3] == 101 || s[3] == 69))
}

/// The effective configuration: the file's sections, when a file was
/// read, replace the defaults wholesale; the environment then overrides
/// the collection interval (when it parses as a number) and the
/// networking switch.
pub fn load_precedence(
    default_cfg: AgentConfig,
    file_cfg: Option<AgentConfig>,
    interval_env: Option<Vec<u8>>,
    enable_env: Option<Vec<u8>>,
) -> (r: AgentConfig)
    ensures
        ({
            let base = if file_cfg is Some {
                file_cfg->0
            } else {
                default_cfg
            };
            let interval = if interval_env is Some && spec_parse_u64(interval_env->0@) is Some {
                spec_parse_u64(interval_env->0@)->0
            } else {
                base.common.interval_secs
            };
            let enabled = if enable_env is Some {
                is_truthy_spec(enable_env->0@)
            } else {
                base.networking.enabled
            };
            &&& r.common == (Common { interval_secs: interval, ..base.common })
            &&& collectors_eq(r.collectors, base.collectors)
            &&& r.output == base.output
            &&& r.networking == (Networking { enabled, ..base.networking })
            &&& r.status == base.status
        }),
{
    let mut cfg = match file_cfg {
        Some(f) => merge_config(&default_cfg, &f),
        None => default_cfg,
    };
    match interval_env {
        Some(v) => {
            match parse_u64_decimal(v.as_slice()) {
                Some(n) => {
                    cfg.common.interval_secs = n;
                },
                None => {},
            }
        },
        None => {},
    }
    match enable_env {
        Some(v) => {
            let on = is_truthy(v.as_slice());
            cfg.networking.enabled = on;
        },
        None => {},
    }
    cfg
}

} // verus!
