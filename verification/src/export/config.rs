//! The configuration of an exporter, and why an exporter cannot be installed.

use vstd::prelude::*;

use crate::context::LogAudience;
use crate::schema::LogLevel;
use crate::text;
use crate::time::Duration;

verus! {

/// Which audiences an exporter accepts.
#[derive(Debug, Clone, Copy, PartialEq, Eq, Structural)]
pub struct AudienceFilter {
    /// Accept records for an internal audience.
    pub internal: bool,
    /// Accept records for clients.
    pub client: bool,
    /// Accept records for both.
    pub both: bool,
}

impl AudienceFilter {
    /// Whether records for an audience are accepted.
    pub open spec fn accepts(self, audience: LogAudience) -> bool {
        match audience {
            LogAudience::Internal => self.internal,
            LogAudience::Client => self.client,
            LogAudience::Both => self.both,
        }
    }

    /// Accepts every audience.
    pub fn all() -> (filter: AudienceFilter)
        ensures
            forall|audience: LogAudience| #[trigger] filter.accepts(audience),
    {
        AudienceFilter { internal: true, client: true, both: true }
    }

    /// Accepts records for an internal audience alone.
    pub fn internal_only() -> (filter: AudienceFilter)
        ensures
            forall|audience: LogAudience| #[trigger]
                filter.accepts(audience) <==> audience == LogAudience::Internal,
    {
        AudienceFilter { internal: true, client: false, both: false }
    }

    /// Whether records for an audience are accepted.
    pub fn allows(self, audience: LogAudience) -> (allowed: bool)
        ensures
            allowed == self.accepts(audience),
    {
        match audience {
            LogAudience::Internal => self.internal,
            LogAudience::Client => self.client,
            LogAudience::Both => self.both,
        }
    }
}

impl Default for AudienceFilter {
    fn default() -> (filter: Self)
        ensures
            forall|audience: LogAudience| #[trigger] filter.accepts(audience),
    {
        AudienceFilter::all()
    }
}

/// The rank of a level: higher is more severe.
pub open spec fn rank(level: LogLevel) -> int {
    match level {
        LogLevel::Trace => 0,
        LogLevel::Debug => 1,
        LogLevel::Info => 2,
        LogLevel::Warn => 3,
        LogLevel::Error => 4,
    }
}

fn rank_of(level: LogLevel) -> (r: u8)
    ensures
        r == rank(level),
{
    match level {
        LogLevel::Trace => 0,
        LogLevel::Debug => 1,
        LogLevel::Info => 2,
        LogLevel::Warn => 3,
        LogLevel::Error => 4,
    }
}

/// Whether a level is at least as severe as another.
pub fn at_least(level: LogLevel, threshold: LogLevel) -> (severe: bool)
    ensures
        severe == (rank(level) >= rank(threshold)),
{
    rank_of(level) >= rank_of(threshold)
}

/// TLS material of an OTLP/HTTP client.
#[derive(Clone)]
pub struct OtlpTlsConfig {
    /// Additional PEM bundles of CA certificates.
    pub ca_certificates_pem: Vec<Vec<u8>>,
    /// PEM of a client certificate chain and its private key.
    pub client_identity_pem: Option<Vec<u8>>,
}

/// How OTLP/HTTP requests are sent.
#[derive(Clone)]
pub struct OtlpHttpConfig {
    /// The base endpoint of the collector.
    pub endpoint: String,
    /// The timeout of a request.
    pub timeout: Duration,
    /// Headers of every request.
    pub headers: Vec<(String, String)>,
    /// The size from which requests are compressed.
    pub gzip_threshold: usize,
    /// The size up to which a response is read.
    pub max_response_bytes: usize,
    /// Additional trust roots and the identity of the client.
    pub tls: OtlpTlsConfig,
}

impl OtlpHttpConfig {
    /// The defaults for an endpoint: a timeout of ten seconds, no headers, compression from 1 KiB,
    /// responses up to 64 KiB, and no TLS material.
    pub fn new(endpoint: &str) -> (config: OtlpHttpConfig)
        ensures
            config.endpoint@ == endpoint@,
            config.timeout.spec_nanos() == 10_000_000_000,
            config.headers@.len() == 0,
            config.gzip_threshold == 1024,
            config.max_response_bytes == 65536,
            config.tls.ca_certificates_pem@.len() == 0,
            config.tls.client_identity_pem is None,
    {
        OtlpHttpConfig {
            endpoint: endpoint.to_owned(),
            timeout: Duration::from_secs(10),
            headers: Vec::new(),
            gzip_threshold: 1024,
            max_response_bytes: 65536,
            tls: OtlpTlsConfig { ca_certificates_pem: Vec::new(), client_identity_pem: None },
        }
    }
}

/// What kind of failure a request met.
#[derive(Debug, Clone, Copy, PartialEq, Eq, Structural)]
pub enum OtlpHttpErrorKind {
    /// The endpoint, a header, the timeout or TLS material is invalid.
    Configuration,
    /// The request could not be encoded.
    Encode,
    /// The request could not be sent, or its response could not be read.
    Transport,
    /// The collector returned a status after which a retry is safe.
    RetryableStatus,
    /// The collector refused the payload as invalid or too large.
    InvalidPayload,
    /// The collector returned a permanent status.
    TerminalStatus,
    /// A successful response could not be decoded.
    Decode,
}

/// The failure of a request.
#[derive(Debug)]
pub struct OtlpHttpError {
    pub kind: OtlpHttpErrorKind,
    pub message: String,
    pub status: Option<u16>,
    pub retry_after: Option<Duration>,
}

impl OtlpHttpError {
    /// Whether the request may be sent again.
    pub open spec fn retryable(&self) -> bool {
        self.kind == OtlpHttpErrorKind::Transport || self.kind == OtlpHttpErrorKind::RetryableStatus
    }

    /// The diagnostic: the status, where there is one, and the message.
    pub open spec fn text(&self) -> Seq<char> {
        match self.status {
            Some(status) => "OTLP HTTP "@ + text::decimal(status as int) + ": "@ + self.message@,
            None => self.message@,
        }
    }

    /// Whether the request may be sent again.
    pub fn is_retryable(&self) -> (retryable: bool)
        ensures
            retryable == self.retryable(),
    {
        match self.kind {
            OtlpHttpErrorKind::Transport | OtlpHttpErrorKind::RetryableStatus => true,
            _ => false,
        }
    }

    /// Whether the payload was refused.
    pub fn is_invalid_payload(&self) -> (invalid: bool)
        ensures
            invalid == (self.kind == OtlpHttpErrorKind::InvalidPayload),
    {
        match self.kind {
            OtlpHttpErrorKind::InvalidPayload => true,
            _ => false,
        }
    }

    /// The diagnostic.
    pub fn to_string(&self) -> (text: String)
        ensures
            text@ == self.text(),
    {
        match self.status {
            Some(status) => {
                let mut out = String::new();
                out.append("OTLP HTTP ");
                let digits = text::format_integer(status as i128);
                out.append(digits.as_str());
                out.append(": ");
                out.append(self.message.as_str());
                assert(out@ =~= self.text());
                out
            },
            None => self.message.clone(),
        }
    }
}

/// Why an exporter cannot be installed.
#[derive(Debug)]
pub enum InstallError {
    /// No Tokio runtime is active.
    NoTokioRuntime,
    /// A limit, an identity or a retry delay is invalid.
    InvalidConfig(String),
    /// The OTLP/HTTP client could not be made.
    Transport(OtlpHttpError),
    /// A sink is installed for this type of request fields already.
    SinkAlreadyInstalled,
}

impl InstallError {
    /// The diagnostic.
    pub open spec fn text(&self) -> Seq<char> {
        match self {
            InstallError::NoTokioRuntime => "no Tokio runtime is active"@,
            InstallError::InvalidConfig(message) => "invalid exporter config: "@ + message@,
            InstallError::Transport(error) => "failed to create OTLP client: "@ + error.text(),
            InstallError::SinkAlreadyInstalled =>
                "an eden_logger sink is already installed for this RequestFields type"@,
        }
    }

    /// The diagnostic.
    pub fn to_string(&self) -> (text: String)
        ensures
            text@ == self.text(),
    {
        match self {
            InstallError::NoTokioRuntime => "no Tokio runtime is active".to_owned(),
            InstallError::InvalidConfig(message) => {
                let mut out = "invalid exporter config: ".to_owned();
                out.append(message.as_str());
                out
            },
            InstallError::Transport(error) => {
                let mut out = "failed to create OTLP client: ".to_owned();
                let inner = error.to_string();
                out.append(inner.as_str());
                out
            },
            InstallError::SinkAlreadyInstalled =>
                "an eden_logger sink is already installed for this RequestFields type".to_owned(),
        }
    }
}

impl From<OtlpHttpError> for InstallError {
    fn from(error: OtlpHttpError) -> (converted: InstallError) {
        InstallError::Transport(error)
    }
}

impl vstd::std_specs::convert::FromSpecImpl<OtlpHttpError> for InstallError {
    open spec fn obeys_from_spec() -> bool {
        true
    }

    open spec fn from_spec(error: OtlpHttpError) -> InstallError {
        InstallError::Transport(error)
    }
}

/// How an exporter works.
#[derive(Clone)]
pub struct ExporterConfig {
    /// How requests are sent.
    pub http: OtlpHttpConfig,
    /// The `service.name` of the resource.
    pub service_name: String,
    /// The name of the instrumentation scope.
    pub scope_name: String,
    /// Further attributes of the resource.
    pub resource_attributes: Vec<(String, String)>,
    /// The lowest level that is accepted.
    pub min_level: LogLevel,
    /// The audiences that are accepted.
    pub audiences: AudienceFilter,
    /// The level from which records may fall back to the reserved queue.
    pub priority_threshold: LogLevel,
    /// The capacity of the normal queue, over all threads.
    pub normal_queue_capacity: usize,
    /// The capacity of the reserved queue, over all threads.
    pub reserved_queue_capacity: usize,
    /// The most records of a request.
    pub max_batch_records: usize,
    /// The most encoded bytes of a request.
    pub max_batch_bytes: usize,
    /// How long a batch that is not empty waits for further records.
    pub max_batch_delay: Duration,
    /// The first retry delay, before jitter.
    pub retry_initial: Duration,
    /// The longest retry delay, before jitter.
    pub retry_max: Duration,
    /// The shortest time between two emergency diagnostics.
    pub diagnostic_interval: Duration,
}

/// What is wrong with a configuration: the first fault, in a fixed order.
pub open spec fn config_fault(config: ExporterConfig) -> Option<Seq<char>> {
    if text::trimmed(config.service_name@).len() == 0 {
        Some("service_name must not be empty"@)
    } else if text::trimmed(config.scope_name@).len() == 0 {
        Some("scope_name must not be empty"@)
    } else if config.normal_queue_capacity == 0 || config.reserved_queue_capacity == 0 {
        Some("queue capacities must be greater than zero"@)
    } else if config.max_batch_records == 0 || config.max_batch_bytes == 0
        || config.max_batch_delay.spec_nanos() == 0 {
        Some("batch limits and delay must be greater than zero"@)
    } else if config.retry_initial.spec_nanos() == 0 || config.retry_max.spec_nanos() == 0
        || config.retry_initial.spec_nanos() > config.retry_max.spec_nanos() {
        Some("retry durations must be non-zero and initial must not exceed maximum"@)
    } else if config.diagnostic_interval.spec_nanos() == 0 {
        Some("diagnostic_interval must be greater than zero"@)
    } else {
        None
    }
}

impl ExporterConfig {
    /// The production defaults for an endpoint and a service.
    pub fn new(endpoint: &str, service_name: &str) -> (config: ExporterConfig)
        ensures
            config.http.endpoint@ == endpoint@,
            config.http.timeout.spec_nanos() == 10_000_000_000,
            config.http.headers@.len() == 0,
            config.http.gzip_threshold == 1024,
            config.http.max_response_bytes == 65536,
            config.http.tls.ca_certificates_pem@.len() == 0,
            config.http.tls.client_identity_pem is None,
            config.service_name@ == service_name@,
            config.scope_name@ == "eden_logger"@,
            config.resource_attributes@.len() == 0,
            config.min_level == LogLevel::Trace,
            forall|audience: LogAudience| #[trigger] config.audiences.accepts(audience),
            config.priority_threshold == LogLevel::Warn,
            config.normal_queue_capacity == 61_440,
            config.reserved_queue_capacity == 4_096,
            config.max_batch_records == 512,
            config.max_batch_bytes == 1_048_576,
            config.max_batch_delay.spec_nanos() == 200_000_000,
            config.retry_initial.spec_nanos() == 250_000_000,
            config.retry_max.spec_nanos() == 30_000_000_000,
            config.diagnostic_interval.spec_nanos() == 60_000_000_000,
            text::trimmed(service_name@).len() > 0 ==> config_fault(config) is None,
    {
        let config = ExporterConfig {
            http: OtlpHttpConfig::new(endpoint),
            service_name: service_name.to_owned(),
            scope_name: "eden_logger".to_owned(),
            resource_attributes: Vec::new(),
            min_level: LogLevel::Trace,
            audiences: AudienceFilter::all(),
            priority_threshold: LogLevel::Warn,
            normal_queue_capacity: 61_440,
            reserved_queue_capacity: 4_096,
            max_batch_records: 512,
            max_batch_bytes: 1_048_576,
            max_batch_delay: Duration::from_millis(200),
            retry_initial: Duration::from_millis(250),
            retry_max: Duration::from_secs(30),
            diagnostic_interval: Duration::from_secs(60),
        };
        proof {
            reveal_strlit("eden_logger");
            assert(text::trim_start(config.scope_name@) == config.scope_name@);
            assert(text::trim_end(config.scope_name@) == config.scope_name@);
        }
        config
    }

    /// Sets the name of the instrumentation scope.
    pub fn with_scope_name(self, scope_name: &str) -> (config: Self)
        ensures
            config == (ExporterConfig { scope_name: config.scope_name, ..self }),
            config.scope_name@ == scope_name@,
    {
        let mut config = self;
        config.scope_name = scope_name.to_owned();
        config
    }

    /// Adds an attribute of the resource.
    pub fn with_resource_attribute(self, key: &str, value: &str) -> (config: Self)
        ensures
            config == (ExporterConfig { resource_attributes: config.resource_attributes, ..self }),
            crate::fields::text_pairs(config.resource_attributes@) == crate::fields::text_pairs(
                self.resource_attributes@,
            ).push((key@, value@)),
    {
        let mut config = self;
        config.resource_attributes.push((key.to_owned(), value.to_owned()));
        assert(crate::fields::text_pairs(config.resource_attributes@)
            =~= crate::fields::text_pairs(self.resource_attributes@).push((key@, value@)));
        config
    }

    /// Adds a header of every request.
    pub fn with_header(self, name: &str, value: &str) -> (config: Self)
        ensures
            config == (ExporterConfig {
                http: OtlpHttpConfig { headers: config.http.headers, ..self.http },
                ..self
            }),
            crate::fields::text_pairs(config.http.headers@) == crate::fields::text_pairs(
                self.http.headers@,
            ).push((name@, value@)),
    {
        let mut config = self;
        config.http.headers.push((name.to_owned(), value.to_owned()));
        assert(crate::fields::text_pairs(config.http.headers@) =~= crate::fields::text_pairs(
            self.http.headers@,
        ).push((name@, value@)));
        config
    }

    /// Sets the timeout of a request.
    pub fn with_timeout(self, timeout: Duration) -> (config: Self)
        ensures
            config == (ExporterConfig { http: OtlpHttpConfig { timeout, ..self.http }, ..self }),
    {
        let mut config = self;
        config.http.timeout = timeout;
        config
    }

    /// Adds a PEM bundle of CA certificates.
    pub fn with_ca_certificate_pem(self, pem: Vec<u8>) -> (config: Self)
        ensures
            config.http.tls.ca_certificates_pem@ == self.http.tls.ca_certificates_pem@.push(pem),
            config == (ExporterConfig {
                http: OtlpHttpConfig {
                    tls: OtlpTlsConfig {
                        ca_certificates_pem: config.http.tls.ca_certificates_pem,
                        ..self.http.tls
                    },
                    ..self.http
                },
                ..self
            }),
    {
        let mut config = self;
        config.http.tls.ca_certificates_pem.push(pem);
        config
    }

    /// Sets the PEM of a client certificate chain and its private key.
    pub fn with_client_identity_pem(self, pem: Vec<u8>) -> (config: Self)
        ensures
            config == (ExporterConfig {
                http: OtlpHttpConfig {
                    tls: OtlpTlsConfig { client_identity_pem: Some(pem), ..self.http.tls },
                    ..self.http
                },
                ..self
            }),
    {
        let mut config = self;
        config.http.tls.client_identity_pem = Some(pem);
        config
    }

    /// Sets the lowest level that is accepted.
    pub fn with_min_level(self, min_level: LogLevel) -> (config: Self)
        ensures
            config == (ExporterConfig { min_level, ..self }),
    {
        let mut config = self;
        config.min_level = min_level;
        config
    }

    /// Sets the audiences that are accepted.
    pub fn with_audiences(self, audiences: AudienceFilter) -> (config: Self)
        ensures
            config == (ExporterConfig { audiences, ..self }),
    {
        let mut config = self;
        config.audiences = audiences;
        config
    }

    /// Sets the capacities of the queues.
    pub fn with_queue_capacities(self, normal: usize, reserved: usize) -> (config: Self)
        ensures
            config == (ExporterConfig {
                normal_queue_capacity: normal,
                reserved_queue_capacity: reserved,
                ..self
            }),
    {
        let mut config = self;
        config.normal_queue_capacity = normal;
        config.reserved_queue_capacity = reserved;
        config
    }

    /// Sets the limits of a batch.
    pub fn with_batch_limits(self, records: usize, bytes: usize, delay: Duration) -> (config: Self)
        ensures
            config == (ExporterConfig {
                max_batch_records: records,
                max_batch_bytes: bytes,
                max_batch_delay: delay,
                ..self
            }),
    {
        let mut config = self;
        config.max_batch_records = records;
        config.max_batch_bytes = bytes;
        config.max_batch_delay = delay;
        config
    }

    /// Sets the retry delays.
    pub fn with_retry(self, initial: Duration, maximum: Duration) -> (config: Self)
        ensures
            config == (ExporterConfig { retry_initial: initial, retry_max: maximum, ..self }),
    {
        let mut config = self;
        config.retry_initial = initial;
        config.retry_max = maximum;
        config
    }

    /// Tests the limits, identities and delays.
    pub fn validate(&self) -> (result: Result<(), InstallError>)
        ensures
            match config_fault(*self) {
                None => result is Ok,
                Some(fault) => result matches Err(InstallError::InvalidConfig(message)) && message@
                    == fault,
            },
    {
        if is_blank(self.service_name.as_str()) {
            return invalid("service_name must not be empty");
        }
        if is_blank(self.scope_name.as_str()) {
            return invalid("scope_name must not be empty");
        }
        if self.normal_queue_capacity == 0 || self.reserved_queue_capacity == 0 {
            return invalid("queue capacities must be greater than zero");
        }
        if self.max_batch_records == 0 || self.max_batch_bytes == 0
            || self.max_batch_delay.is_zero() {
            return invalid("batch limits and delay must be greater than zero");
        }
        if self.retry_initial.is_zero() || self.retry_max.is_zero() || self.retry_initial.exceeds(
            &self.retry_max,
        ) {
            return invalid("retry durations must be non-zero and initial must not exceed maximum");
        }
        if self.diagnostic_interval.is_zero() {
            return invalid("diagnostic_interval must be greater than zero");
        }
        Ok(())
    }
}

fn invalid(fault: &str) -> (result: Result<(), InstallError>)
    ensures
        result matches Err(InstallError::InvalidConfig(message)) && message@ == fault@,
{
    Err(InstallError::InvalidConfig(fault.to_owned()))
}

fn is_blank(s: &str) -> (blank: bool)
    ensures
        blank == (text::trimmed(s@).len() == 0),
{
    let chars = text::to_chars(s);
    let inner = text::trim(&chars);
    inner.len() == 0
}

/// A configuration is without fault exactly where its names are not blank, its capacities, limits and
/// delays are not zero, and its first retry delay is not beyond its largest one. Whatever the fault
/// is, the setting that it speaks of is at fault.
pub proof fn law_a_fault_is_that_of_its_setting(config: ExporterConfig)
    ensures
        ({
            let blank_service = text::trimmed(config.service_name@).len() == 0;
            let blank_scope = text::trimmed(config.scope_name@).len() == 0;
            let no_queue = config.normal_queue_capacity == 0 || config.reserved_queue_capacity == 0;
            let no_batch = config.max_batch_records == 0 || config.max_batch_bytes == 0
                || config.max_batch_delay.spec_nanos() == 0;
            let no_retry = config.retry_initial.spec_nanos() == 0 || config.retry_max.spec_nanos()
                < config.retry_initial.spec_nanos();
            let no_interval = config.diagnostic_interval.spec_nanos() == 0;
            let fault = config_fault(config);
            &&& fault is None <==> !(blank_service || blank_scope || no_queue || no_batch || no_retry
                || no_interval)
            &&& fault == Some("service_name must not be empty"@) ==> blank_service
            &&& fault == Some("scope_name must not be empty"@) ==> blank_scope
            &&& fault == Some("queue capacities must be greater than zero"@) ==> no_queue
            &&& fault == Some("batch limits and delay must be greater than zero"@) ==> no_batch
            &&& fault == Some(
                "retry durations must be non-zero and initial must not exceed maximum"@,
            ) ==> no_retry
            &&& fault == Some("diagnostic_interval must be greater than zero"@) ==> no_interval
            &&& blank_service ==> fault == Some("service_name must not be empty"@)
        }),
{
    reveal_strlit("service_name must not be empty");
    reveal_strlit("scope_name must not be empty");
    reveal_strlit("queue capacities must be greater than zero");
    reveal_strlit("batch limits and delay must be greater than zero");
    reveal_strlit("retry durations must be non-zero and initial must not exceed maximum");
    reveal_strlit("diagnostic_interval must be greater than zero");
    assert("service_name must not be empty"@.len() == 30);
    assert("scope_name must not be empty"@.len() == 28);
    assert("queue capacities must be greater than zero"@.len() == 42);
    assert("batch limits and delay must be greater than zero"@.len() == 48);
    assert("retry durations must be non-zero and initial must not exceed maximum"@.len() == 68);
    assert("diagnostic_interval must be greater than zero"@.len() == 45);
}

}
