//! The typed gateway configuration and its validation.

use vstd::prelude::*;

use crate::text::{starts_with_str, str_eq};

verus! {

/// The operating mode named by the configuration. Only `Single` is operative;
/// the other variants are reserved and behave as `Single`.
#[derive(PartialEq, Eq, Structural, Clone, Copy, Debug)]
pub enum LbrpMode {
    Single,
    Supervisor,
    Parent,
    Child,
    OlderBrother,
    YoungerBrother,
}

/// One access tag the auth gate may require: a scope and a name.
pub struct AccessTag {
    pub scope: String,
    pub name: String,
}

/// One proxied service: where requests come from (`Host` value), where they
/// go, and the policies wrapped around them.
pub struct CommonService {
    pub service_name: String,
    pub require_subdomain_auth: Option<Vec<AccessTag>>,
    pub startup_cmd: Option<String>,
    pub working_dir: Option<String>,
    pub wait_after: Option<u64>,
    pub from: String,
    pub to: String,
    pub cors_domains: Option<Vec<String>>,
    pub skip_err_handling: Option<bool>,
    pub provide_ip_as_header: Option<String>,
}

/// The branded error-page bundle: a dist directory and the files served out
/// of it.
pub struct ErrorHandler {
    pub dist_dir: String,
    pub static_files: Vec<String>,
}

/// One static route: a URL path mapped onto a filesystem path.
pub struct StaticRoute {
    pub url_path: String,
    pub fs_path: String,
}

/// A static-file service rooted at `path`.
pub struct CommonStatic {
    pub path: String,
    pub static_routes: Vec<StaticRoute>,
}

/// One configured service.
pub enum Service {
    ErrorHandler(ErrorHandler),
    CommonService(CommonService),
    CommonStatic(CommonStatic),
}

/// The shared CORS option strings, comma-joined header values.
pub struct CorsOpts {
    pub allowed_methods: String,
    pub allowed_client_headers: String,
    pub allowed_headers: String,
}

/// The whole configuration file.
pub struct LbrpConfig {
    pub lbrp_mode: LbrpMode,
    pub services: Vec<Service>,
    pub cors_opts: CorsOpts,
}

/// Why a configuration was rejected.
pub enum ConfigError {
    /// A `common_service.to` does not start with `http://` or `https://`;
    /// the offending value is carried.
    InvalidScheme(String),
    /// Two `common_service.from` hosts are equal; the repeated value is
    /// carried.
    DuplicateFrom(String),
}

impl Default for CorsOpts {
    /// The option strings used when the configuration names none.
    fn default() -> (r: CorsOpts)
        ensures
            r.allowed_methods@ == "GET, POST, PUT, DELETE, PATCH, HEAD, OPTIONS"@,
            r.allowed_client_headers@
                == "Authorization, Set-Cookie, LBRP-Challenge-State, LBRP-Challenge, LBRP-Access, LBRP-Client"@,
            r.allowed_headers@
                == "Authorization, Accept, Access-Control-Allow-Headers, Origin, X-Requested-With, Content-Type, Cookie, Set-Cookie, LBRP-Challenge-State, LBRP-Challenge-Sign, LBRP-Access, LBRP-Client"@,
    {
        CorsOpts {
            allowed_methods: "GET, POST, PUT, DELETE, PATCH, HEAD, OPTIONS".to_owned(),
            allowed_client_headers:
                "Authorization, Set-Cookie, LBRP-Challenge-State, LBRP-Challenge, LBRP-Access, LBRP-Client".to_owned(),
            allowed_headers:
                "Authorization, Accept, Access-Control-Allow-Headers, Origin, X-Requested-With, Content-Type, Cookie, Set-Cookie, LBRP-Challenge-State, LBRP-Challenge-Sign, LBRP-Access, LBRP-Client".to_owned(),
        }
    }
}

/// `s` begins with `prefix`.
pub open spec fn spec_starts_with(s: Seq<char>, prefix: Seq<char>) -> bool {
    s.len() >= prefix.len() && s.subrange(0, prefix.len() as int) == prefix
}

/// The common service held by `s`, if it is one.
pub open spec fn common_of(s: Service) -> Option<CommonService> {
    match s {
        Service::CommonService(c) => Some(c),
        _ => None,
    }
}

/// Whether a service's upstream URL names its scheme.
pub open spec fn scheme_ok(c: CommonService) -> bool {
    spec_starts_with(c.to@, "http://"@) || spec_starts_with(c.to@, "https://"@)
}

/// Every common service in `services` names its scheme.
pub open spec fn all_schemes_ok(services: Seq<Service>) -> bool {
    forall|i: int|
        0 <= i < services.len() ==> match common_of(#[trigger] services[i]) {
            Some(c) => scheme_ok(c),
            None => true,
        }
}

/// The `from` hosts of the common services are pairwise distinct.
pub open spec fn froms_unique(services: Seq<Service>) -> bool {
    forall|i: int, j: int|
        0 <= i < j < services.len() ==> match (
            common_of(#[trigger] services[i]),
            common_of(#[trigger] services[j]),
        ) {
            (Some(a), Some(b)) => a.from@ != b.from@,
            _ => true,
        }
}

impl CommonService {
    /// Whether the reload driver spawns a child process for this service:
    /// it does exactly when both a command and a working directory are given.
    pub fn should_startup(&self) -> (r: bool)
        ensures
            r == (self.startup_cmd is Some && self.working_dir is Some),
    {
        self.startup_cmd.is_some() && self.working_dir.is_some()
    }
}

impl LbrpConfig {
    /// Checks the configuration invariants: every upstream URL names `http`
    /// or `https`, and no two services share a `from` host. Returns `Ok`
    /// exactly on configurations satisfying both; the error carries the first
    /// offending value.
    pub fn validate(&self) -> (r: Result<(), ConfigError>)
        ensures
            r is Ok <==> all_schemes_ok(self.services@) && froms_unique(self.services@),
            match r {
                Ok(()) => true,
                Err(ConfigError::InvalidScheme(t)) => exists|i: int|
                    0 <= i < self.services@.len() && match common_of(#[trigger] self.services@[i]) {
                        Some(c) => !scheme_ok(c) && c.to@ == t@,
                        None => false,
                    },
                Err(ConfigError::DuplicateFrom(f)) => all_schemes_ok(self.services@) && exists|
                    i: int,
                    j: int,
                |
                    0 <= i < j < self.services@.len() && match (
                        common_of(#[trigger] self.services@[i]),
                        common_of(#[trigger] self.services@[j]),
                    ) {
                        (Some(a), Some(b)) => a.from@ == b.from@ && a.from@ == f@,
                        _ => false,
                    },
            },
    {
        let n = self.services.len();
        let mut i: usize = 0;
        while i < n
            invariant
                n == self.services@.len(),
                i <= n,
                forall|k: int|
                    0 <= k < i ==> match common_of(#[trigger] self.services@[k]) {
                        Some(c) => scheme_ok(c),
                        None => true,
                    },
            decreases n - i,
        {
            if let Service::CommonService(c) = &self.services[i] {
                let http = starts_with_str(c.to.as_str(), "http://");
                let https = starts_with_str(c.to.as_str(), "https://");
                if !http && !https {
                    return Err(ConfigError::InvalidScheme(c.to.clone()));
                }
            }
            i += 1;
        }
        let mut i: usize = 0;
        while i < n
            invariant
                n == self.services@.len(),
                i <= n,
                all_schemes_ok(self.services@),
                forall|a: int, b: int|
                    0 <= a < b < self.services@.len() && a < i ==> match (
                        common_of(#[trigger] self.services@[a]),
                        common_of(#[trigger] self.services@[b]),
                    ) {
                        (Some(x), Some(y)) => x.from@ != y.from@,
                        _ => true,
                    },
            decreases n - i,
        {
            if let Service::CommonService(a) = &self.services[i] {
                let mut j: usize = i + 1;
                while j < n
                    invariant
                        n == self.services@.len(),
                        i < j <= n,
                        all_schemes_ok(self.services@),
                        common_of(self.services@[i as int]) == Some(*a),
                        forall|b: int|
                            i < b < j ==> match common_of(#[trigger] self.services@[b]) {
                                Some(y) => a.from@ != y.from@,
                                None => true,
                            },
                    decreases n - j,
                {
                    if let Service::CommonService(b) = &self.services[j] {
                        if str_eq(a.from.as_str(), b.from.as_str()) {
                            proof {
                                let gi = i as int;
                                let gj = j as int;
                                assert(0 <= gi < gj < self.services@.len() && match (
                                    common_of(self.services@[gi]),
                                    common_of(self.services@[gj]),
                                ) {
                                    (Some(x), Some(y)) => x.from@ == y.from@ && x.from@
                                        == a.from@,
                                    _ => false,
                                });
                                assert(!froms_unique(self.services@));
                            }
                            let repeated = a.from.clone();
                            proof {
                                let gi = i as int;
                                let gj = j as int;
                                assert(exists|x: int, y: int|
                                    0 <= x < y < self.services@.len() && match (
                                        common_of(#[trigger] self.services@[x]),
                                        common_of(#[trigger] self.services@[y]),
                                    ) {
                                        (Some(p), Some(q)) => p.from@ == q.from@ && p.from@
                                            == repeated@,
                                        _ => false,
                                    }) by {
                                    assert(0 <= gi < gj < self.services@.len() && match (
                                        common_of(self.services@[gi]),
                                        common_of(self.services@[gj]),
                                    ) {
                                        (Some(p), Some(q)) => p.from@ == q.from@ && p.from@
                                            == repeated@,
                                        _ => false,
                                    });
                                }
                            }
                            return Err(ConfigError::DuplicateFrom(repeated));
                        }
                    }
                    j += 1;
                }
            }
            i += 1;
        }
        Ok(())
    }
}

} // verus!
