//! Application configuration: its sections, their defaults and the rules that
//! a configuration must satisfy.
use vstd::prelude::*;
use crate::text::{chars_of, is_blank, owned, push_str, str_eq, strings_view, trim, trim_chars};

verus! {

#[derive(Debug, Clone)]
pub struct StorageConfig {
    pub path: String,
}

impl Default for StorageConfig {
    fn default() -> (r: Self)
        ensures
            r.path@ == ".atlas/atlas.db"@,
    {
        StorageConfig { path: owned(".atlas/atlas.db") }
    }
}

#[derive(Debug, Clone)]
pub struct LoggingConfig {
    pub level: String,
    pub json: bool,
}

impl Default for LoggingConfig {
    fn default() -> (r: Self)
        ensures
            r.level@ == "info"@,
            !r.json,
    {
        LoggingConfig { level: owned("info"), json: false }
    }
}

#[derive(Debug, Clone)]
pub struct TelemetryConfig {
    pub enabled: bool,
}

impl Default for TelemetryConfig {
    fn default() -> (r: Self)
        ensures
            r.enabled,
    {
        TelemetryConfig { enabled: true }
    }
}

#[derive(Debug, Clone)]
pub struct DriftConfig {
    pub persist_by_default: bool,
    pub profile: String,
}

impl Default for DriftConfig {
    fn default() -> (r: Self)
        ensures
            r.persist_by_default,
            r.profile@ == "standard"@,
    {
        DriftConfig { persist_by_default: true, profile: owned("standard") }
    }
}

#[derive(Debug, Clone, Default)]
pub struct PluginConfig {
    pub enabled: Vec<String>,
}

#[derive(Debug, Clone)]
pub struct JobConfig {
    pub default_interval_seconds: u64,
}

impl Default for JobConfig {
    fn default() -> (r: Self)
        ensures
            r.default_interval_seconds == 3600,
    {
        JobConfig { default_interval_seconds: 3600 }
    }
}

#[derive(Debug, Clone)]
pub struct ScanProfile {
    pub name: String,
    pub ports: Vec<u16>,
    pub timeout_ms: u64,
}

impl Default for ScanProfile {
    fn default() -> (r: Self)
        ensures
            r.name@ == "standard"@,
            r.ports@ == seq![80u16, 443u16],
            r.timeout_ms == 3000,
    {
        ScanProfile { name: owned("standard"), ports: vec![80, 443], timeout_ms: 3000 }
    }
}

#[derive(Debug, Clone)]
pub struct ServerConfig {
    pub bind: String,
    pub request_timeout_ms: u64,
}

impl Default for ServerConfig {
    fn default() -> (r: Self)
        ensures
            r.bind@ == "0.0.0.0:8080"@,
            r.request_timeout_ms == 30_000,
    {
        ServerConfig { bind: owned("0.0.0.0:8080"), request_timeout_ms: 30_000 }
    }
}

#[derive(Debug, Clone)]
pub struct ApiKeyConfig {
    pub key_id: String,
    pub secret: String,
    pub tenant_id: String,
    pub project_id: String,
    pub role: String,
    pub enabled: bool,
}

impl Default for ApiKeyConfig {
    fn default() -> (r: Self)
        ensures
            r.key_id@ == "local-admin"@,
            r.secret@ == "atlas-local-admin-key"@,
            r.tenant_id@ == "local"@,
            r.project_id@ == "default"@,
            r.role@ == "admin"@,
            r.enabled,
    {
        ApiKeyConfig {
            key_id: owned("local-admin"),
            secret: owned("atlas-local-admin-key"),
            tenant_id: owned("local"),
            project_id: owned("default"),
            role: owned("admin"),
            enabled: true,
        }
    }
}

#[derive(Debug, Clone)]
pub struct AuthConfig {
    pub issuer: String,
    pub jwt_secret: String,
    pub jwt_expiration_seconds: u64,
    pub bootstrap_token: String,
    pub api_keys: Vec<ApiKeyConfig>,
}

impl Default for AuthConfig {
    fn default() -> (r: Self)
        ensures
            r.issuer@ == "prometheus-atlas"@,
            r.jwt_secret@ == "change-me-super-secret-atlas-key"@,
            r.jwt_expiration_seconds == 86_400,
            r.bootstrap_token@ == "atlas-bootstrap-admin"@,
            r.api_keys@.len() == 1,
            r.api_keys@[0].key_id@ == "local-admin"@,
            r.api_keys@[0].role@ == "admin"@,
    {
        let mut api_keys: Vec<ApiKeyConfig> = Vec::new();
        api_keys.push(ApiKeyConfig::default());
        AuthConfig {
            issuer: owned("prometheus-atlas"),
            jwt_secret: owned("change-me-super-secret-atlas-key"),
            jwt_expiration_seconds: 86_400,
            bootstrap_token: owned("atlas-bootstrap-admin"),
            api_keys,
        }
    }
}

#[derive(Debug, Clone)]
pub struct SaasConfig {
    pub default_tenant_id: String,
    pub default_project_id: String,
    pub default_environment: String,
}

impl Default for SaasConfig {
    fn default() -> (r: Self)
        ensures
            r.default_tenant_id@ == "local"@,
            r.default_project_id@ == "default"@,
            r.default_environment@ == "local"@,
    {
        SaasConfig {
            default_tenant_id: owned("local"),
            default_project_id: owned("default"),
            default_environment: owned("local"),
        }
    }
}

#[derive(Debug, Clone)]
pub struct PaginationConfig {
    pub default_limit: usize,
    pub max_limit: usize,
}

impl Default for PaginationConfig {
    fn default() -> (r: Self)
        ensures
            r.default_limit == 25,
            r.max_limit == 200,
    {
        PaginationConfig { default_limit: 25, max_limit: 200 }
    }
}

#[derive(Debug, Clone)]
pub struct AlertConfig {
    pub enabled: bool,
    pub default_severity_threshold: String,
}

impl Default for AlertConfig {
    fn default() -> (r: Self)
        ensures
            r.enabled,
            r.default_severity_threshold@ == "medium"@,
    {
        AlertConfig { enabled: true, default_severity_threshold: owned("medium") }
    }
}

#[derive(Debug, Clone)]
pub struct AppConfig {
    pub storage: StorageConfig,
    pub logging: LoggingConfig,
    pub telemetry: TelemetryConfig,
    pub drift: DriftConfig,
    pub plugins: PluginConfig,
    pub jobs: JobConfig,
    pub profiles: Vec<ScanProfile>,
    pub server: ServerConfig,
    pub auth: AuthConfig,
    pub saas: SaasConfig,
    pub pagination: PaginationConfig,
    pub alerts: AlertConfig,
}

/// The number of bytes that `c` takes in UTF-8.
pub open spec fn utf8_width(c: char) -> int {
    let u = c as u32;
    if u < 0x80 {
        1
    } else if u < 0x800 {
        2
    } else if u < 0x10000 {
        3
    } else {
        4
    }
}

/// `str::len`: the length in UTF-8 bytes.
pub open spec fn utf8_len(s: Seq<char>) -> int
    decreases s.len(),
{
    if s.len() == 0 {
        0
    } else {
        utf8_len(s.drop_last()) + utf8_width(s.last())
    }
}

proof fn lemma_utf8_len_nonneg(s: Seq<char>)
    ensures
        utf8_len(s) >= 0,
    decreases s.len(),
{
    if s.len() > 0 {
        lemma_utf8_len_nonneg(s.drop_last());
    }
}

proof fn lemma_utf8_len_mono(s: Seq<char>, k: int)
    requires
        0 <= k <= s.len(),
    ensures
        utf8_len(s.take(k)) <= utf8_len(s),
    decreases s.len() - k,
{
    if k < s.len() {
        lemma_utf8_len_mono(s, k + 1);
        assert(s.take(k + 1).drop_last() =~= s.take(k));
    } else {
        assert(s.take(k) =~= s);
    }
}

/// Whether `s` takes fewer than `n` UTF-8 bytes.
fn utf8_shorter_than(s: &[char], n: usize) -> (r: bool)
    requires
        n <= 1000,
    ensures
        r == (utf8_len(s@) < n),
{
    if n == 0 {
        proof {
            lemma_utf8_len_nonneg(s@);
        }
        return false;
    }
    let mut total: usize = 0;
    let mut i: usize = 0;
    assert(s@.take(0) =~= Seq::<char>::empty());
    while i < s.len()
        invariant
            i <= s.len(),
            n <= 1000,
            total == utf8_len(s@.take(i as int)),
            total < n,
        decreases s.len() - i,
    {
        let u = s[i] as u32;
        let w: usize = if u < 0x80 {
            1
        } else if u < 0x800 {
            2
        } else if u < 0x10000 {
            3
        } else {
            4
        };
        proof {
            assert(s@.take(i + 1).drop_last() =~= s@.take(i as int));
        }
        total = total + w;
        i = i + 1;
        if total >= n {
            proof {
                lemma_utf8_len_mono(s@, i as int);
            }
            return false;
        }
    }
    assert(s@.take(s.len() as int) =~= s@);
    true
}

/// The first rule that a configuration breaks, as its message.
pub open spec fn config_error(c: AppConfig) -> Option<Seq<char>> {
    if trim(c.storage.path@).len() == 0 {
        Some("storage.path no puede estar vacío"@)
    } else if c.jobs.default_interval_seconds == 0 {
        Some("jobs.default_interval_seconds debe ser > 0"@)
    } else if trim(c.server.bind@).len() == 0 {
        Some("server.bind no puede estar vacío"@)
    } else if utf8_len(trim(c.auth.jwt_secret@)) < 16 {
        Some("auth.jwt_secret debe tener al menos 16 caracteres"@)
    } else if trim(c.auth.bootstrap_token@).len() == 0 {
        Some("auth.bootstrap_token no puede estar vacío"@)
    } else if c.pagination.default_limit == 0 {
        Some("pagination.default_limit debe ser > 0"@)
    } else if c.pagination.max_limit < c.pagination.default_limit {
        Some("pagination.max_limit debe ser >= pagination.default_limit"@)
    } else if trim(c.saas.default_tenant_id@).len() == 0 {
        Some("saas.default_tenant_id no puede estar vacío"@)
    } else if trim(c.saas.default_project_id@).len() == 0 {
        Some("saas.default_project_id no puede estar vacío"@)
    } else {
        None
    }
}

/// What the default configuration holds.
pub open spec fn default_config_ok(r: AppConfig) -> bool {
    &&& r.storage.path@ == ".atlas/atlas.db"@
    &&& r.jobs.default_interval_seconds == 3600
    &&& r.profiles@.len() == 2
    &&& r.profiles@[0].name@ == "standard"@
    &&& r.profiles@[0].ports@ == seq![80u16, 443u16]
    &&& r.profiles@[0].timeout_ms == 3000
    &&& r.profiles@[1].name@ == "deep"@
    &&& r.profiles@[1].ports@ == seq![80u16, 443u16, 8080u16, 8443u16]
    &&& r.profiles@[1].timeout_ms == 5000
    &&& r.server.bind@ == "0.0.0.0:8080"@
    &&& r.auth.jwt_secret@ == "change-me-super-secret-atlas-key"@
    &&& r.auth.bootstrap_token@ == "atlas-bootstrap-admin"@
    &&& r.saas.default_tenant_id@ == "local"@
    &&& r.saas.default_project_id@ == "default"@
    &&& r.pagination.default_limit == 25
    &&& r.pagination.max_limit == 200
    &&& r.plugins.enabled@.len() == 0
    &&& r.telemetry.enabled
    &&& r.alerts.enabled
}

impl Default for AppConfig {
    fn default() -> (r: Self)
        ensures
            default_config_ok(r),
    {
        let mut profiles: Vec<ScanProfile> = Vec::new();
        profiles.push(ScanProfile { name: owned("standard"), ports: vec![80, 443], timeout_ms: 3000 });
        profiles.push(
            ScanProfile { name: owned("deep"), ports: vec![80, 443, 8080, 8443], timeout_ms: 5000 },
        );
        AppConfig {
            storage: StorageConfig::default(),
            logging: LoggingConfig::default(),
            telemetry: TelemetryConfig::default(),
            drift: DriftConfig::default(),
            plugins: PluginConfig { enabled: Vec::new() },
            jobs: JobConfig::default(),
            profiles,
            server: ServerConfig::default(),
            auth: AuthConfig::default(),
            saas: SaasConfig::default(),
            pagination: PaginationConfig::default(),
            alerts: AlertConfig::default(),
        }
    }
}

impl AppConfig {
    /// The configuration read from `atlas.toml` when that file was found,
    /// else the default one.
    pub fn load_from_default_locations(from_file: Option<AppConfig>) -> (r: AppConfig)
        ensures
            from_file matches Some(c) ==> r == c,
            from_file is None ==> default_config_ok(r),
    {
        match from_file {
            Some(c) => c,
            None => AppConfig::default(),
        }
    }

    /// Checks the configuration's rules in order and reports the first broken one.
    pub fn validate(&self) -> (r: Result<(), String>)
        ensures
            r is Ok <==> config_error(*self) is None,
            r matches Err(e) ==> config_error(*self) == Some(e@),
    {
        if is_blank(self.storage.path.as_str()) {
            return Err(owned("storage.path no puede estar vacío"));
        }
        if self.jobs.default_interval_seconds == 0 {
            return Err(owned("jobs.default_interval_seconds debe ser > 0"));
        }
        if is_blank(self.server.bind.as_str()) {
            return Err(owned("server.bind no puede estar vacío"));
        }
        let secret = trim_chars(self.auth.jwt_secret.as_str());
        if utf8_shorter_than(&secret, 16) {
            return Err(owned("auth.jwt_secret debe tener al menos 16 caracteres"));
        }
        if is_blank(self.auth.bootstrap_token.as_str()) {
            return Err(owned("auth.bootstrap_token no puede estar vacío"));
        }
        if self.pagination.default_limit == 0 {
            return Err(owned("pagination.default_limit debe ser > 0"));
        }
        if self.pagination.max_limit < self.pagination.default_limit {
            return Err(owned("pagination.max_limit debe ser >= pagination.default_limit"));
        }
        if is_blank(self.saas.default_tenant_id.as_str()) {
            return Err(owned("saas.default_tenant_id no puede estar vacío"));
        }
        if is_blank(self.saas.default_project_id.as_str()) {
            return Err(owned("saas.default_project_id no puede estar vacío"));
        }
        Ok(())
    }

    /// The first profile called `name`.
    pub fn profile(&self, name: &str) -> (r: Result<&ScanProfile, String>)
        ensures
            r is Ok <==> exists|i: int| 0 <= i < self.profiles@.len() && self.profiles@[i].name@ == name@,
            r matches Ok(p) ==> exists|i: int|
                0 <= i < self.profiles@.len() && *p == self.profiles@[i] && p.name@ == name@ && forall|
                    j: int,
                | 0 <= j < i ==> self.profiles@[j].name@ != name@,
            r matches Err(e) ==> e@ == "profile no encontrado: "@ + name@,
    {
        let mut i: usize = 0;
        while i < self.profiles.len()
            invariant
                i <= self.profiles.len(),
                forall|j: int| 0 <= j < i ==> self.profiles@[j].name@ != name@,
            decreases self.profiles.len() - i,
        {
            if str_eq(self.profiles[i].name.as_str(), name) {
                return Ok(&self.profiles[i]);
            }
            i = i + 1;
        }
        let mut msg = owned("profile no encontrado: ");
        push_str(&mut msg, name);
        Err(msg)
    }
}

} // verus!
