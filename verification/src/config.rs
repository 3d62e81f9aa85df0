//! Configuration of the dispatch engine.
//!
//! Durations are carried as whole milliseconds and the backoff multiplier
//! as a per-mille fixed-point factor, so that every derived quantity is an
//! exact integer the contracts can speak about.

use crate::error::BlazeError;
use vstd::prelude::*;
use vstd::string::StrSliceExecFns;

verus! {

/// A non-empty string of decimal digits.
pub open spec fn is_digits(s: Seq<char>) -> bool {
    s.len() > 0 && forall|i: int| 0 <= i < s.len() ==> '0' <= #[trigger] s[i] <= '9'
}

/// The number that a string of decimal digits denotes.
pub open spec fn digits_value(s: Seq<char>) -> int
    decreases s.len(),
{
    if s.len() == 0 {
        0
    } else {
        digits_value(s.drop_last()) * 10 + (s.last() as int - '0' as int)
    }
}

proof fn lemma_digits_value_nonneg(s: Seq<char>)
    requires
        forall|i: int| 0 <= i < s.len() ==> '0' <= #[trigger] s[i] <= '9',
    ensures
        digits_value(s) >= 0,
    decreases s.len(),
{
    if s.len() > 0 {
        assert(forall|i: int|
            0 <= i < s.drop_last().len() ==> '0' <= #[trigger] s.drop_last()[i] <= '9');
        lemma_digits_value_nonneg(s.drop_last());
    }
}

/// A prefix of a digit string denotes no more than the whole string.
proof fn lemma_digits_prefix_le(s: Seq<char>, i: int)
    requires
        0 <= i <= s.len(),
        forall|k: int| 0 <= k < s.len() ==> '0' <= #[trigger] s[k] <= '9',
    ensures
        digits_value(s.take(i)) <= digits_value(s),
    decreases s.len() - i,
{
    if i < s.len() {
        lemma_digits_prefix_le(s, i + 1);
        let p = s.take(i);
        let q = s.take(i + 1);
        assert(q.drop_last() =~= p);
        assert(forall|k: int| 0 <= k < p.len() ==> '0' <= #[trigger] p[k] <= '9');
        lemma_digits_value_nonneg(p);
        assert(digits_value(q) == digits_value(p) * 10 + (q.last() as int - '0' as int));
    } else {
        assert(s.take(i) =~= s);
    }
}

/// Parse a non-empty decimal number; `None` when a character is not a
/// digit or the value does not fit a `u64`.
pub fn parse_u64(s: &str) -> (r: Option<u64>)
    ensures
        is_digits(s@) && digits_value(s@) <= u64::MAX ==> (r matches Some(v) && v == digits_value(
            s@,
        )),
        !(is_digits(s@) && digits_value(s@) <= u64::MAX) ==> r is None,
{
    let n = s.unicode_len();
    if n == 0 {
        return None;
    }
    let mut v: u64 = 0;
    let mut i: usize = 0;
    while i < n
        invariant
            n == s@.len(),
            i <= n,
            forall|k: int| 0 <= k < i ==> '0' <= #[trigger] s@[k] <= '9',
            v == digits_value(s@.take(i as int)),
        decreases n - i,
    {
        let c = s.get_char(i);
        if c < '0' || c > '9' {
            return None;
        }
        let d = (c as u32) - ('0' as u32);
        proof {
            assert(s@.take(i as int + 1).drop_last() =~= s@.take(i as int));
            assert(s@.take(i as int + 1).last() == s@[i as int]);
        }
        if v > (u64::MAX - d as u64) / 10 {
            proof {
                assert(digits_value(s@.take(i as int + 1)) > u64::MAX);
                if is_digits(s@) {
                    lemma_digits_prefix_le(s@, i as int + 1);
                }
            }
            return None;
        }
        v = v * 10 + d as u64;
        i = i + 1;
    }
    proof {
        assert(s@.take(n as int) =~= s@);
    }
    Some(v)
}

/// Parse a duration as the configuration file writes one: a number with
/// an `ms` suffix in milliseconds, with an `s` suffix in seconds, or a
/// bare number of seconds. The result is in milliseconds; `None` when
/// the number is malformed or the duration does not fit.
pub fn parse_duration_ms(s: &str) -> (r: Option<u64>)
    ensures
        r == spec_duration_ms(s@),
{
    let n = s.unicode_len();
    if n >= 2 && s.get_char(n - 2) == 'm' && s.get_char(n - 1) == 's' {
        let head = s.substring_char(0, n - 2);
        proof {
            assert(s@.subrange(0, n as int - 2) =~= s@.drop_last().drop_last());
        }
        return parse_u64(head);
    }
    if n >= 1 {
        let last = s.get_char(n - 1);
        if last == 's' {
            let head = s.substring_char(0, n - 1);
            return match parse_u64(head) {
                Some(secs) => {
                    if secs <= u64::MAX / 1000 {
                        Some(secs * 1000)
                    } else {
                        None
                    }
                }
                None => None,
            };
        }
    }
    match parse_u64(s) {
        Some(secs) => {
            if secs <= u64::MAX / 1000 {
                Some(secs * 1000)
            } else {
                None
            }
        }
        None => None,
    }
}

/// The duration in milliseconds that a configuration string denotes:
/// digits with an `ms` suffix in milliseconds, digits with an `s`
/// suffix or bare digits in seconds. Absent when malformed or when the
/// milliseconds do not fit a `u64`.
pub open spec fn spec_duration_ms(s: Seq<char>) -> Option<u64> {
    if s.len() >= 2 && s[s.len() - 2] == 'm' && s.last() == 's' {
        if is_digits(s.drop_last().drop_last()) && digits_value(s.drop_last().drop_last())
            <= u64::MAX {
            Some(digits_value(s.drop_last().drop_last()) as u64)
        } else {
            None
        }
    } else if s.len() >= 1 && s.last() == 's' {
        spec_secs_to_ms(s.drop_last())
    } else {
        spec_secs_to_ms(s)
    }
}

/// Seconds denoted by a digit string, as milliseconds fitting a `u64`.
pub open spec fn spec_secs_to_ms(s: Seq<char>) -> Option<u64> {
    if is_digits(s) && digits_value(s) * 1000 <= u64::MAX {
        Some((digits_value(s) * 1000) as u64)
    } else {
        None
    }
}

/// Command-line arguments, as plain values.
///
/// The caller hands the raw argument strings to [`Args::parse_args`];
/// reading them from the process environment is the caller's business.
pub struct Args {
    /// Path to the JSONL file containing requests.
    pub input: String,
    /// Path to save successful responses, if any.
    pub output: Option<String>,
    /// Path to save error responses.
    pub errors: String,
    /// Maximum requests per second.
    pub rate: u32,
    /// Maximum attempts per request.
    pub max_attempts: u32,
    /// Number of concurrent workers.
    pub workers: usize,
    /// Request timeout in seconds.
    pub timeout: u64,
    /// Path to an endpoint configuration file, if any.
    pub config: Option<String>,
    /// Enable verbose logging.
    pub verbose: bool,
    /// Output logs as JSON.
    pub json_logs: bool,
    /// Disable the progress bar.
    pub no_progress: bool,
    /// Validate the configuration without sending requests.
    pub dry_run: bool,
}

/// Configuration of a single endpoint.
pub struct EndpointConfig {
    /// The endpoint URL.
    pub url: String,
    /// Weight for load balancing; more weight draws more traffic.
    pub weight: u32,
    /// API key for authentication, if any.
    pub api_key: Option<String>,
    /// Model identifier merged into default request bodies, if any.
    pub model: Option<String>,
    /// Maximum concurrent requests to this endpoint.
    pub max_concurrent: u32,
}

/// Full application configuration.
pub struct Config {
    /// Endpoints for load balancing.
    pub endpoints: Vec<EndpointConfig>,
    /// Request settings.
    pub request: RequestConfig,
    /// Retry settings.
    pub retry: RetryConfig,
}

/// Request-specific settings.
#[derive(Clone, Copy)]
pub struct RequestConfig {
    /// Request timeout in milliseconds.
    pub timeout_ms: u64,
    /// Maximum requests per second.
    pub rate_limit: u32,
    /// Number of concurrent workers.
    pub workers: usize,
}

/// Retry and backoff settings.
#[derive(Clone, Copy)]
pub struct RetryConfig {
    /// Maximum number of attempts per request.
    pub max_attempts: u32,
    /// Initial backoff in milliseconds.
    pub initial_backoff_ms: u64,
    /// Maximum backoff in milliseconds.
    pub max_backoff_ms: u64,
    /// Backoff multiplier in per-mille: 2000 doubles the delay each attempt.
    pub multiplier_permille: u32,
}

/// Relies on `str` equality: true exactly when the two strings hold the
/// same characters.
#[verifier::external_body]
fn str_eq(a: &str, b: &str) -> (r: bool)
    ensures
        r == (a@ == b@),
{
    a == b
}

/// The arguments before any flag is read: defaults everywhere, an empty
/// input path, and errors going to `errors.jsonl`.
pub open spec fn spec_args_default(a: Args) -> bool {
    &&& a.input@ == Seq::<char>::empty()
    &&& a.output is None
    &&& a.errors@ == "errors.jsonl"@
    &&& a.rate == 1000
    &&& a.max_attempts == 3
    &&& a.workers == 50
    &&& a.timeout == 30
    &&& a.config is None
    &&& !a.verbose
    &&& !a.json_logs
    &&& !a.no_progress
    &&& !a.dry_run
}

/// What parsing the tokens `argv[i ..]` on top of `acc` yields: boolean
/// flags set their field, the other flags consume the following token
/// as their value, numbers must be decimal and fit their field, and the
/// input path must have been given by the end. `None` is a parse error.
pub open spec fn spec_parse_args(
    argv: Seq<String>,
    i: int,
    acc: Args,
    seen_input: bool,
) -> Option<Args>
    decreases argv.len() - i,
{
    if i < 0 || i > argv.len() {
        None
    } else if i == argv.len() {
        if seen_input {
            Some(acc)
        } else {
            None
        }
    } else {
        let t = argv[i]@;
        if t == "--verbose"@ || t == "-v"@ {
            spec_parse_args(argv, i + 1, Args { verbose: true, ..acc }, seen_input)
        } else if t == "--json-logs"@ {
            spec_parse_args(argv, i + 1, Args { json_logs: true, ..acc }, seen_input)
        } else if t == "--no-progress"@ {
            spec_parse_args(argv, i + 1, Args { no_progress: true, ..acc }, seen_input)
        } else if t == "--dry-run"@ {
            spec_parse_args(argv, i + 1, Args { dry_run: true, ..acc }, seen_input)
        } else if i + 1 >= argv.len() {
            None
        } else {
            let v = argv[i + 1];
            if t == "--input"@ || t == "-i"@ {
                spec_parse_args(argv, i + 2, Args { input: v, ..acc }, true)
            } else if t == "--output"@ || t == "-o"@ {
                spec_parse_args(argv, i + 2, Args { output: Some(v), ..acc }, seen_input)
            } else if t == "--errors"@ || t == "-e"@ {
                spec_parse_args(argv, i + 2, Args { errors: v, ..acc }, seen_input)
            } else if t == "--config"@ || t == "-c"@ {
                spec_parse_args(argv, i + 2, Args { config: Some(v), ..acc }, seen_input)
            } else if t == "--rate"@ || t == "-r"@ {
                if is_digits(v@) && digits_value(v@) <= u32::MAX {
                    spec_parse_args(
                        argv,
                        i + 2,
                        Args { rate: digits_value(v@) as u32, ..acc },
                        seen_input,
                    )
                } else {
                    None
                }
            } else if t == "--max-attempts"@ || t == "-a"@ {
                if is_digits(v@) && digits_value(v@) <= u32::MAX {
                    spec_parse_args(
                        argv,
                        i + 2,
                        Args { max_attempts: digits_value(v@) as u32, ..acc },
                        seen_input,
                    )
                } else {
                    None
                }
            } else if t == "--workers"@ || t == "-w"@ {
                if is_digits(v@) && digits_value(v@) <= usize::MAX {
                    spec_parse_args(
                        argv,
                        i + 2,
                        Args { workers: digits_value(v@) as usize, ..acc },
                        seen_input,
                    )
                } else {
                    None
                }
            } else if t == "--timeout"@ || t == "-t"@ {
                if is_digits(v@) && digits_value(v@) <= u64::MAX {
                    spec_parse_args(
                        argv,
                        i + 2,
                        Args { timeout: digits_value(v@) as u64, ..acc },
                        seen_input,
                    )
                } else {
                    None
                }
            } else {
                None
            }
        }
    }
}

impl Args {
    /// Parse command-line tokens, as handed over by the caller without
    /// the program name. Flags may come in any order; later values win;
    /// the input path is required, everything else has its default.
    pub fn parse_args(argv: Vec<String>) -> (r: Result<Args, BlazeError>)
        ensures
            r matches Ok(a) ==> (exists|init: Args|
                #[trigger] spec_args_default(init) && spec_parse_args(argv@, 0, init, false)
                    == Some(a)),
            r is Err ==> (exists|init: Args|
                #[trigger] spec_args_default(init) && spec_parse_args(argv@, 0, init, false)
                    is None),
            r matches Err(e) ==> e is InvalidConfig,
    {
        let mut acc = Args {
            input: String::new(),
            output: None,
            errors: "errors.jsonl".to_owned(),
            rate: 1000,
            max_attempts: 3,
            workers: 50,
            timeout: 30,
            config: None,
            verbose: false,
            json_logs: false,
            no_progress: false,
            dry_run: false,
        };
        let ghost init = acc;
        let mut seen_input = false;
        let n = argv.len();
        let mut i: usize = 0;
        while i < n
            invariant
                n == argv@.len(),
                i <= n,
                spec_args_default(init),
                spec_parse_args(argv@, 0, init, false) == spec_parse_args(
                    argv@,
                    i as int,
                    acc,
                    seen_input,
                ),
            decreases n - i,
        {
            let t = &argv[i];
            if str_eq(t.as_str(), "--verbose") || str_eq(t.as_str(), "-v") {
                acc.verbose = true;
                i = i + 1;
            } else if str_eq(t.as_str(), "--json-logs") {
                acc.json_logs = true;
                i = i + 1;
            } else if str_eq(t.as_str(), "--no-progress") {
                acc.no_progress = true;
                i = i + 1;
            } else if str_eq(t.as_str(), "--dry-run") {
                acc.dry_run = true;
                i = i + 1;
            } else if i + 1 >= n {
                return Err(BlazeError::InvalidConfig(
                    "expected a value after the last argument".to_owned(),
                ));
            } else {
                let v = argv[i + 1].clone();
                if str_eq(t.as_str(), "--input") || str_eq(t.as_str(), "-i") {
                    acc.input = v;
                    seen_input = true;
                    i = i + 2;
                } else if str_eq(t.as_str(), "--output") || str_eq(t.as_str(), "-o") {
                    acc.output = Some(v);
                    i = i + 2;
                } else if str_eq(t.as_str(), "--errors") || str_eq(t.as_str(), "-e") {
                    acc.errors = v;
                    i = i + 2;
                } else if str_eq(t.as_str(), "--config") || str_eq(t.as_str(), "-c") {
                    acc.config = Some(v);
                    i = i + 2;
                } else if str_eq(t.as_str(), "--rate") || str_eq(t.as_str(), "-r") {
                    match parse_u64(v.as_str()) {
                        Some(x) => {
                            if x <= u32::MAX as u64 {
                                acc.rate = x as u32;
                                i = i + 2;
                            } else {
                                return Err(BlazeError::InvalidConfig(
                                    "rate does not fit".to_owned(),
                                ));
                            }
                        }
                        None => {
                            return Err(BlazeError::InvalidConfig(
                                "rate must be a number".to_owned(),
                            ));
                        }
                    }
                } else if str_eq(t.as_str(), "--max-attempts") || str_eq(t.as_str(), "-a") {
                    match parse_u64(v.as_str()) {
                        Some(x) => {
                            if x <= u32::MAX as u64 {
                                acc.max_attempts = x as u32;
                                i = i + 2;
                            } else {
                                return Err(BlazeError::InvalidConfig(
                                    "max attempts does not fit".to_owned(),
                                ));
                            }
                        }
                        None => {
                            return Err(BlazeError::InvalidConfig(
                                "max attempts must be a number".to_owned(),
                            ));
                        }
                    }
                } else if str_eq(t.as_str(), "--workers") || str_eq(t.as_str(), "-w") {
                    match parse_u64(v.as_str()) {
                        Some(x) => {
                            if x <= usize::MAX as u64 {
                                acc.workers = x as usize;
                                i = i + 2;
                            } else {
                                return Err(BlazeError::InvalidConfig(
                                    "workers does not fit".to_owned(),
                                ));
                            }
                        }
                        None => {
                            return Err(BlazeError::InvalidConfig(
                                "workers must be a number".to_owned(),
                            ));
                        }
                    }
                } else if str_eq(t.as_str(), "--timeout") || str_eq(t.as_str(), "-t") {
                    match parse_u64(v.as_str()) {
                        Some(x) => {
                            acc.timeout = x;
                            i = i + 2;
                        }
                        None => {
                            return Err(BlazeError::InvalidConfig(
                                "timeout must be a number".to_owned(),
                            ));
                        }
                    }
                } else {
                    return Err(BlazeError::InvalidConfig("unknown argument".to_owned()));
                }
            }
        }
        if seen_input {
            Ok(acc)
        } else {
            Err(BlazeError::InvalidConfig("an input path is required".to_owned()))
        }
    }
}

/// An endpoint configuration passes validation: a non-empty URL and a
/// positive weight.
pub open spec fn spec_endpoint_ok(c: EndpointConfig) -> bool {
    c.url@.len() > 0 && c.weight >= 1
}

/// Index of the first endpoint at or after `lo` failing validation;
/// the length when all pass.
pub open spec fn first_bad_endpoint(eps: Seq<EndpointConfig>, lo: int) -> int
    decreases eps.len() - lo,
{
    if lo < 0 || lo >= eps.len() {
        eps.len() as int
    } else if !spec_endpoint_ok(eps[lo]) {
        lo
    } else {
        first_bad_endpoint(eps, lo + 1)
    }
}

/// The whole configuration passes validation.
pub open spec fn spec_config_ok(c: Config) -> bool {
    &&& c.endpoints@.len() > 0
    &&& forall|i: int| 0 <= i < c.endpoints@.len() ==> spec_endpoint_ok(#[trigger] c.endpoints@[i])
    &&& c.request.workers >= 1
}

impl Config {
    /// Validate the configuration: there must be at least one endpoint,
    /// every endpoint needs a non-empty URL and a positive weight, and
    /// at least one worker is required. The first offence, in that
    /// order, names the error.
    pub fn validate(&self) -> (r: Result<(), BlazeError>)
        ensures
            r is Ok <==> spec_config_ok(*self),
            self.endpoints@.len() == 0 ==> (r matches Err(e) && e is NoEndpoints),
            ({
                let fb = first_bad_endpoint(self.endpoints@, 0);
                &&& (self.endpoints@.len() > 0 && fb < self.endpoints@.len()
                    && self.endpoints@[fb].url@.len() == 0) ==> (r matches Err(e)
                    && e matches BlazeError::InvalidConfig(m)
                    && m@ == "endpoint URL cannot be empty"@)
                &&& (self.endpoints@.len() > 0 && fb < self.endpoints@.len()
                    && self.endpoints@[fb].url@.len() > 0) ==> (r matches Err(e)
                    && e matches BlazeError::InvalidConfig(m)
                    && m@ == "endpoint weight must be greater than 0"@)
                &&& (self.endpoints@.len() > 0 && fb == self.endpoints@.len()
                    && self.request.workers == 0) ==> (r matches Err(e)
                    && e matches BlazeError::InvalidConfig(m)
                    && m@ == "workers must be greater than 0"@)
            }),
    {
        let n = self.endpoints.len();
        if n == 0 {
            return Err(BlazeError::NoEndpoints);
        }
        let mut i: usize = 0;
        while i < n
            invariant
                n == self.endpoints@.len(),
                i <= n,
                first_bad_endpoint(self.endpoints@, 0) == first_bad_endpoint(
                    self.endpoints@,
                    i as int,
                ),
                forall|k: int| 0 <= k < i ==> spec_endpoint_ok(#[trigger] self.endpoints@[k]),
            decreases n - i,
        {
            let ep = &self.endpoints[i];
            if ep.url.as_str().is_empty() {
                return Err(BlazeError::InvalidConfig(
                    "endpoint URL cannot be empty".to_owned(),
                ));
            }
            if ep.weight == 0 {
                return Err(BlazeError::InvalidConfig(
                    "endpoint weight must be greater than 0".to_owned(),
                ));
            }
            i = i + 1;
        }
        if self.request.workers == 0 {
            return Err(BlazeError::InvalidConfig("workers must be greater than 0".to_owned()));
        }
        Ok(())
    }

    /// The rate limit, made positive: a configured zero becomes one.
    pub fn rate_limit_nonzero(&self) -> (r: u32)
        ensures
            r == (if self.request.rate_limit == 0 {
                1u32
            } else {
                self.request.rate_limit
            }),
            r >= 1,
    {
        if self.request.rate_limit == 0 {
            1
        } else {
            self.request.rate_limit
        }
    }

    /// Assemble the configuration that the command line asks for. A
    /// loaded configuration file supplies the endpoints and the retry
    /// baseline, with the rate, worker count, timeout and attempt budget
    /// overridden from the arguments; without a file, one endpoint is
    /// built from the caller-supplied environment values, with a local
    /// default URL. The result is validated.
    pub fn from_args(
        args: &Args,
        file_config: Option<Config>,
        env_url: Option<String>,
        env_api_key: Option<String>,
        env_model: Option<String>,
    ) -> (r: Result<Config, BlazeError>)
        requires
            args.timeout <= u64::MAX / 1000,
        ensures
            r matches Ok(c) ==> spec_config_ok(c) && c.request.rate_limit == args.rate
                && c.request.workers == args.workers && c.request.timeout_ms == args.timeout
                * 1000 && c.retry.max_attempts == args.max_attempts,
            file_config matches Some(cfg) ==> (r matches Ok(c) ==> (c.endpoints == cfg.endpoints
                && c.retry == (RetryConfig { max_attempts: args.max_attempts, ..cfg.retry }))),
            file_config matches Some(cfg) ==> ((r is Ok) <==> (cfg.endpoints@.len() > 0 && (
            forall|i: int|
                0 <= i < cfg.endpoints@.len() ==> spec_endpoint_ok(#[trigger] cfg.endpoints@[i]))
                && args.workers >= 1)),
            file_config is None ==> (r matches Ok(c) ==> (c.endpoints@.len() == 1 && (match env_url {
                Some(u) => c.endpoints@[0].url == u,
                None => c.endpoints@[0].url@ == "http://localhost:8080/v1/completions"@,
            }) && c.endpoints@[0].weight == 1 && c.endpoints@[0].api_key == env_api_key
                && c.endpoints@[0].model == env_model && c.endpoints@[0].max_concurrent == 100
                && c.retry == (RetryConfig {
                max_attempts: args.max_attempts,
                initial_backoff_ms: 100,
                max_backoff_ms: 10000,
                multiplier_permille: 2000,
            }))),
            file_config is None ==> ((r is Ok) <==> (args.workers >= 1 && (match env_url {
                Some(u) => u@.len() > 0,
                None => true,
            }))),
    {
        let request = RequestConfig {
            timeout_ms: args.timeout * 1000,
            rate_limit: args.rate,
            workers: args.workers,
        };
        let config = match file_config {
            Some(cfg) => Config {
                endpoints: cfg.endpoints,
                request,
                retry: RetryConfig { max_attempts: args.max_attempts, ..cfg.retry },
            },
            None => {
                let url = match env_url {
                    Some(u) => u,
                    None => "http://localhost:8080/v1/completions".to_owned(),
                };
                proof {
                    reveal_strlit("http://localhost:8080/v1/completions");
                }
                let endpoint = EndpointConfig {
                    url,
                    weight: 1,
                    api_key: env_api_key,
                    model: env_model,
                    max_concurrent: 100,
                };
                Config {
                    endpoints: vec![endpoint],
                    request,
                    retry: RetryConfig {
                        max_attempts: args.max_attempts,
                        initial_backoff_ms: 100,
                        max_backoff_ms: 10000,
                        multiplier_permille: 2000,
                    },
                }
            }
        };
        match config.validate() {
            Ok(_) => Ok(config),
            Err(e) => Err(e),
        }
    }
}

impl Default for RequestConfig {
    /// The default request settings: 30 s timeout, 1000 requests per
    /// second, 50 workers.
    fn default() -> (c: RequestConfig)
        ensures
            c.timeout_ms == 30000,
            c.rate_limit == 1000,
            c.workers == 50,
    {
        RequestConfig { timeout_ms: 30000, rate_limit: 1000, workers: 50 }
    }
}

impl Default for RetryConfig {
    /// The default retry settings: 3 attempts, backoff from 100 ms to 10 s,
    /// doubling each attempt.
    fn default() -> (c: RetryConfig)
        ensures
            c.max_attempts == 3,
            c.initial_backoff_ms == 100,
            c.max_backoff_ms == 10000,
            c.multiplier_permille == 2000,
    {
        RetryConfig {
            max_attempts: 3,
            initial_backoff_ms: 100,
            max_backoff_ms: 10000,
            multiplier_permille: 2000,
        }
    }
}

impl Default for Config {
    /// The default configuration: no endpoints, default request and retry
    /// settings.
    fn default() -> (c: Config)
        ensures
            c.endpoints@.len() == 0,
            c.request == (RequestConfig { timeout_ms: 30000, rate_limit: 1000, workers: 50 }),
            c.retry == (RetryConfig {
                max_attempts: 3,
                initial_backoff_ms: 100,
                max_backoff_ms: 10000,
                multiplier_permille: 2000,
            }),
    {
        Config {
            endpoints: Vec::new(),
            request: RequestConfig::default(),
            retry: RetryConfig::default(),
        }
    }
}

} // verus!
