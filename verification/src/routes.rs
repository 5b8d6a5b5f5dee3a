//! The route table's shape, computed from the configuration: one entry per
//! proxied service with its middleware policy, the error-page routes, and
//! the reload transition that kills one generation's children and names the
//! next generation's.

use vstd::prelude::*;

use crate::config::{AccessTag, CommonService, ErrorHandler, LbrpConfig, Service};
use crate::text::str_eq;

verus! {

/// A child process the reload driver starts: the command, where to run it,
/// and how long to wait before treating it as ready.
pub struct SpawnSpec {
    pub cmd: String,
    pub working_dir: String,
    pub wait_after: Option<u64>,
}

/// One row of the route table: a `from` host, its upstream, and the
/// middleware wrapped around the proxy call.
pub struct RouteEntry {
    /// The `Host` value this entry answers.
    pub from: String,
    /// The upstream URL proxied to.
    pub to: String,
    /// The `Host` header the upstream sees: the `from` value.
    pub outbound_host: String,
    /// The header the client's address is injected under, if any.
    pub ip_header: Option<String>,
    /// The tags the auth gate requires, if the service is gated.
    pub auth_tags: Option<Vec<AccessTag>>,
    /// The CORS allow-list, if the service carries one.
    pub cors: Option<Vec<String>>,
    /// Whether upstream errors are rewritten onto the error SPA route.
    pub error_intercept: bool,
    /// Whether the shared static routes stand before the proxy.
    pub serves_static: bool,
}

/// The whole table: the error-page routes, the error-handler slot value,
/// and one entry per proxied service.
pub struct RoutePlan {
    pub error_routes: Vec<String>,
    pub err_handler: Option<ErrorHandler>,
    pub entries: Vec<RouteEntry>,
}

/// The `from` hosts of services that skip HTML error handling, in order.
pub open spec fn spec_excluded(services: Seq<Service>) -> Seq<Seq<char>>
    decreases services.len(),
{
    if services.len() == 0 {
        Seq::empty()
    } else {
        let rest = spec_excluded(services.subrange(1, services.len() as int));
        match services[0] {
            Service::CommonService(c) => if c.skip_err_handling == Some(true) {
                seq![c.from@] + rest
            } else {
                rest
            },
            _ => rest,
        }
    }
}

/// Collects the `from` hosts of the services whose errors are returned
/// verbatim rather than as the HTML fallback.
pub fn excluded_from_err_handling(services: &Vec<Service>) -> (r: Vec<String>)
    ensures
        r@.map_values(|s: String| s@) == spec_excluded(services@),
{
    let mut out: Vec<String> = Vec::new();
    let mut i: usize = 0;
    proof {
        assert(services@.subrange(0, services@.len() as int) =~= services@);
    }
    while i < services.len()
        invariant
            i <= services@.len(),
            spec_excluded(services@) =~= out@.map_values(|s: String| s@) + spec_excluded(
                services@.subrange(i as int, services@.len() as int),
            ),
        decreases services@.len() - i,
    {
        let ghost tail = services@.subrange(i as int, services@.len() as int);
        let ghost out0 = out@;
        proof {
            assert(tail.subrange(1, tail.len() as int) =~= services@.subrange(
                i + 1,
                services@.len() as int,
            ));
        }
        if let Service::CommonService(c) = &services[i] {
            let skip = match c.skip_err_handling {
                Some(true) => true,
                _ => false,
            };
            if skip {
                out.push(c.from.clone());
                proof {
                    assert(out@.map_values(|s: String| s@) =~= out0.map_values(|s: String| s@)
                        + seq![c.from@]);
                }
            }
        }
        i += 1;
    }
    proof {
        assert(services@.subrange(services@.len() as int, services@.len() as int)
            =~= Seq::<Service>::empty());
        assert(out@.map_values(|s: String| s@) + Seq::<Seq<char>>::empty() =~= out@.map_values(
            |s: String| s@,
        ));
    }
    out
}

/// The first error handler among the services, if any.
pub open spec fn spec_first_error_handler(services: Seq<Service>) -> Option<ErrorHandler>
    decreases services.len(),
{
    if services.len() == 0 {
        None
    } else {
        match services[0] {
            Service::ErrorHandler(h) => Some(h),
            _ => spec_first_error_handler(services.subrange(1, services.len() as int)),
        }
    }
}

/// Whether any service is a static file service.
pub open spec fn spec_has_common_static(services: Seq<Service>) -> bool {
    exists|i: int| 0 <= i < services.len() && services[i] is CommonStatic
}

/// The common services, in configuration order.
pub open spec fn spec_common_services(services: Seq<Service>) -> Seq<CommonService>
    decreases services.len(),
{
    if services.len() == 0 {
        Seq::empty()
    } else {
        let rest = spec_common_services(services.subrange(1, services.len() as int));
        match services[0] {
            Service::CommonService(c) => seq![c] + rest,
            _ => rest,
        }
    }
}

/// An optional string list, seen as character sequences.
pub open spec fn opt_strings_view(v: Option<Vec<String>>) -> Option<Seq<Seq<char>>> {
    match v {
        Some(l) => Some(l@.map_values(|s: String| s@)),
        None => None,
    }
}

/// An optional string, seen as a character sequence.
pub open spec fn opt_string_view(v: Option<String>) -> Option<Seq<char>> {
    match v {
        Some(s) => Some(s@),
        None => None,
    }
}

/// Tags, seen as pairs of character sequences.
pub open spec fn tags_view(v: Option<Vec<AccessTag>>) -> Option<Seq<(Seq<char>, Seq<char>)>> {
    match v {
        Some(l) => Some(l@.map_values(|t: AccessTag| (t.scope@, t.name@))),
        None => None,
    }
}

/// Whether a route entry carries exactly one service's policy: the hosts and
/// upstream match, the outbound `Host` is the `from` value, and the
/// middleware flags follow the service and the global options.
pub open spec fn entry_matches(
    e: RouteEntry,
    c: CommonService,
    has_err_handler: bool,
    has_static: bool,
) -> bool {
    &&& e.from@ == c.from@
    &&& e.to@ == c.to@
    &&& e.outbound_host@ == c.from@
    &&& opt_string_view(e.ip_header) == opt_string_view(c.provide_ip_as_header)
    &&& tags_view(e.auth_tags) == tags_view(c.require_subdomain_auth)
    &&& opt_strings_view(e.cors) == opt_strings_view(c.cors_domains)
    &&& e.error_intercept == (has_err_handler && c.skip_err_handling != Some(true))
    &&& e.serves_static == has_static
}

/// Whether a plan is the route table that a configuration describes.
pub open spec fn plan_matches_config(plan: RoutePlan, config: LbrpConfig) -> bool {
    let cs = spec_common_services(config.services@);
    let has_err = spec_first_error_handler(config.services@) is Some;
    let has_static = spec_has_common_static(config.services@);
    &&& plan.entries@.len() == cs.len()
    &&& forall|i: int|
        0 <= i < cs.len() ==> entry_matches(#[trigger] plan.entries@[i], cs[i], has_err, has_static)
    &&& match (plan.err_handler, spec_first_error_handler(config.services@)) {
        (Some(ph), Some(h)) => ph.dist_dir@ == h.dist_dir@ && ph.static_files@.len()
            == h.static_files@.len() && forall|i: int|
            0 <= i < h.static_files@.len() ==> (#[trigger] ph.static_files@[i])@ == seq!['/']
                + h.static_files@[i]@,
        (None, None) => true,
        _ => false,
    }
    &&& plan.error_routes@.len() == match spec_first_error_handler(config.services@) {
        Some(h) => 8 + h.static_files@.len(),
        None => 0,
    }
    &&& forall|i: int|
        0 <= i < plan.error_routes@.len() && i < 8 ==> (#[trigger] plan.error_routes@[i])@
            == spec_fixed_error_routes()[i]
    &&& match spec_first_error_handler(config.services@) {
        Some(h) => forall|i: int|
            0 <= i < h.static_files@.len() ==> (#[trigger] plan.error_routes@[8 + i])@
                == seq!['/'] + h.static_files@[i]@,
        None => true,
    }
}

/// The eight fixed error routes, before the handler's own files.
pub open spec fn spec_fixed_error_routes() -> Seq<Seq<char>> {
    seq!["/400"@, "/401"@, "/403"@, "/404"@, "/405"@, "/423"@, "/500"@, "/oops"@]
}

/// The spawns a configuration asks for: one per service naming both a
/// command and a working directory, in order.
pub open spec fn spec_spawns(services: Seq<Service>) -> Seq<(Seq<char>, Seq<char>, Option<u64>)>
    decreases services.len(),
{
    if services.len() == 0 {
        Seq::empty()
    } else {
        let rest = spec_spawns(services.subrange(1, services.len() as int));
        match services[0] {
            Service::CommonService(c) => match (c.startup_cmd, c.working_dir) {
                (Some(cmd), Some(dir)) => seq![(cmd@, dir@, c.wait_after)] + rest,
                _ => rest,
            },
            _ => rest,
        }
    }
}

/// A spawn list, seen as plain values.
pub open spec fn spawns_view(v: Seq<SpawnSpec>) -> Seq<(Seq<char>, Seq<char>, Option<u64>)> {
    v.map_values(|s: SpawnSpec| (s.cmd@, s.working_dir@, s.wait_after))
}

/// Builds one route entry for a service.
fn entry_for(c: &CommonService, has_err_handler: bool, has_static: bool) -> (e: RouteEntry)
    ensures
        entry_matches(e, *c, has_err_handler, has_static),
{
    let ip_header = match &c.provide_ip_as_header {
        Some(h) => Some(h.clone()),
        None => None,
    };
    let auth_tags = match &c.require_subdomain_auth {
        Some(tags) => {
            let mut out: Vec<AccessTag> = Vec::new();
            let mut i: usize = 0;
            while i < tags.len()
                invariant
                    i <= tags@.len(),
                    out@.len() == i,
                    forall|t: int|
                        0 <= t < i ==> (#[trigger] out@[t]).scope@ == tags@[t].scope@
                            && out@[t].name@ == tags@[t].name@,
                decreases tags@.len() - i,
            {
                out.push(AccessTag { scope: tags[i].scope.clone(), name: tags[i].name.clone() });
                i += 1;
            }
            proof {
                assert(out@.map_values(|t: AccessTag| (t.scope@, t.name@)) =~= tags@.map_values(
                    |t: AccessTag| (t.scope@, t.name@),
                ));
            }
            Some(out)
        },
        None => None,
    };
    let cors = match &c.cors_domains {
        Some(ds) => {
            let mut out: Vec<String> = Vec::new();
            let mut i: usize = 0;
            while i < ds.len()
                invariant
                    i <= ds@.len(),
                    out@.len() == i,
                    forall|t: int| 0 <= t < i ==> (#[trigger] out@[t])@ == ds@[t]@,
                decreases ds@.len() - i,
            {
                out.push(ds[i].clone());
                i += 1;
            }
            proof {
                assert(out@.map_values(|s: String| s@) =~= ds@.map_values(|s: String| s@));
            }
            Some(out)
        },
        None => None,
    };
    let skip = match c.skip_err_handling {
        Some(true) => true,
        _ => false,
    };
    RouteEntry {
        from: c.from.clone(),
        to: c.to.clone(),
        outbound_host: c.from.clone(),
        ip_header,
        auth_tags,
        cors,
        error_intercept: has_err_handler && !skip,
        serves_static: has_static,
    }
}

/// Finds the first error handler and whether a static service exists.
fn scan_services(services: &Vec<Service>) -> (r: (Option<ErrorHandler>, bool))
    ensures
        match (r.0, spec_first_error_handler(services@)) {
            (Some(ph), Some(h)) => ph.dist_dir@ == h.dist_dir@ && ph.static_files@.len()
                == h.static_files@.len() && forall|i: int|
                0 <= i < h.static_files@.len() ==> (#[trigger] ph.static_files@[i])@
                    == h.static_files@[i]@,
            (None, None) => true,
            _ => false,
        },
        r.1 == spec_has_common_static(services@),
{
    let mut handler: Option<ErrorHandler> = None;
    let mut has_static = false;
    let mut i: usize = 0;
    proof {
        assert(services@.subrange(0, services@.len() as int) =~= services@);
    }
    while i < services.len()
        invariant
            i <= services@.len(),
            match (handler, spec_first_error_handler(services@)) {
                (Some(ph), Some(h)) => ph.dist_dir@ == h.dist_dir@ && ph.static_files@.len()
                    == h.static_files@.len() && forall|t: int|
                    0 <= t < h.static_files@.len() ==> (#[trigger] ph.static_files@[t])@
                        == h.static_files@[t]@,
                (None, None) => spec_first_error_handler(
                    services@.subrange(i as int, services@.len() as int),
                ) is None,
                (None, Some(_)) => spec_first_error_handler(services@) == spec_first_error_handler(
                    services@.subrange(i as int, services@.len() as int),
                ),
                _ => false,
            },
            has_static == exists|t: int| 0 <= t < i && services@[t] is CommonStatic,
        decreases services@.len() - i,
    {
        let ghost tail = services@.subrange(i as int, services@.len() as int);
        proof {
            assert(tail.subrange(1, tail.len() as int) =~= services@.subrange(
                i + 1,
                services@.len() as int,
            ));
        }
        match &services[i] {
            Service::ErrorHandler(h) => {
                if handler.is_none() {
                    let mut files: Vec<String> = Vec::new();
                    let mut k: usize = 0;
                    while k < h.static_files.len()
                        invariant
                            k <= h.static_files@.len(),
                            files@.len() == k,
                            forall|t: int|
                                0 <= t < k ==> (#[trigger] files@[t])@ == h.static_files@[t]@,
                        decreases h.static_files@.len() - k,
                    {
                        files.push(h.static_files[k].clone());
                        k += 1;
                    }
                    handler = Some(
                        ErrorHandler { dist_dir: h.dist_dir.clone(), static_files: files },
                    );
                }
            },
            Service::CommonStatic(_) => {
                has_static = true;
                assert(services@[i as int] is CommonStatic);
            },
            _ => {},
        }
        i += 1;
    }
    proof {
        assert(services@.subrange(services@.len() as int, services@.len() as int)
            =~= Seq::<Service>::empty());
    }
    (handler, has_static)
}

/// Computes the route table a configuration describes: the error routes and
/// slot value from the first error handler, and one entry per common
/// service, in order.
pub fn route_plan(config: &LbrpConfig) -> (r: RoutePlan)
    ensures
        plan_matches_config(r, *config),
{
    let (handler, has_static) = scan_services(&config.services);
    let has_err = handler.is_some();
    let mut error_routes: Vec<String> = Vec::new();
    let slot: Option<ErrorHandler> = match &handler {
        Some(h) => {
            proof {
                reveal_strlit("/400");
                reveal_strlit("/401");
                reveal_strlit("/403");
                reveal_strlit("/404");
                reveal_strlit("/405");
                reveal_strlit("/423");
                reveal_strlit("/500");
                reveal_strlit("/oops");
                reveal_strlit("/");
            }
            error_routes.push("/400".to_owned());
            error_routes.push("/401".to_owned());
            error_routes.push("/403".to_owned());
            error_routes.push("/404".to_owned());
            error_routes.push("/405".to_owned());
            error_routes.push("/423".to_owned());
            error_routes.push("/500".to_owned());
            error_routes.push("/oops".to_owned());
            let mut slashed: Vec<String> = Vec::new();
            let mut k: usize = 0;
            while k < h.static_files.len()
                invariant
                    k <= h.static_files@.len(),
                    slashed@.len() == k,
                    error_routes@.len() == 8 + k,
                    forall|t: int|
                        0 <= t < 8 ==> (#[trigger] error_routes@[t])@
                            == spec_fixed_error_routes()[t],
                    forall|t: int|
                        0 <= t < k ==> (#[trigger] slashed@[t])@ == seq!['/']
                            + h.static_files@[t]@,
                    forall|t: int|
                        0 <= t < k ==> (#[trigger] error_routes@[8 + t])@ == seq!['/']
                            + h.static_files@[t]@,
                decreases h.static_files@.len() - k,
            {
                proof {
                    reveal_strlit("/");
                }
                let mut route = "/".to_owned();
                route.append(h.static_files[k].as_str());
                proof {
                    assert("/"@ =~= seq!['/']);
                }
                error_routes.push(route.clone());
                slashed.push(route);
                k += 1;
            }
            Some(ErrorHandler { dist_dir: h.dist_dir.clone(), static_files: slashed })
        },
        None => None,
    };
    let mut entries: Vec<RouteEntry> = Vec::new();
    let mut i: usize = 0;
    let ghost cs = spec_common_services(config.services@);
    proof {
        assert(config.services@.subrange(0, config.services@.len() as int) =~= config.services@);
    }
    while i < config.services.len()
        invariant
            i <= config.services@.len(),
            has_err == (spec_first_error_handler(config.services@) is Some),
            has_static == spec_has_common_static(config.services@),
            cs == spec_common_services(config.services@),
            entries@.len() + spec_common_services(
                config.services@.subrange(i as int, config.services@.len() as int),
            ).len() == cs.len(),
            forall|t: int|
                0 <= t < entries@.len() ==> entry_matches(
                    #[trigger] entries@[t],
                    cs[t],
                    has_err,
                    has_static,
                ),
            cs.subrange(entries@.len() as int, cs.len() as int) == spec_common_services(
                config.services@.subrange(i as int, config.services@.len() as int),
            ),
        decreases config.services@.len() - i,
    {
        let ghost tail = config.services@.subrange(i as int, config.services@.len() as int);
        proof {
            assert(tail.subrange(1, tail.len() as int) =~= config.services@.subrange(
                i + 1,
                config.services@.len() as int,
            ));
        }
        if let Service::CommonService(c) = &config.services[i] {
            let ghost done = entries@.len() as int;
            let e = entry_for(c, has_err, has_static);
            entries.push(e);
            proof {
                assert(spec_common_services(tail) == seq![*c] + spec_common_services(
                    tail.subrange(1, tail.len() as int),
                ));
                assert(cs.subrange(done, cs.len() as int) == spec_common_services(tail));
                assert(cs.subrange(done, cs.len() as int).len() >= 1);
                assert(cs.subrange(done, cs.len() as int)[0] == cs[done]);
                assert(cs[done] == *c);
                assert(cs.subrange(done + 1, cs.len() as int) =~= spec_common_services(
                    tail,
                ).subrange(1, spec_common_services(tail).len() as int));
            }
        } else {
            proof {
                assert(spec_common_services(tail) == spec_common_services(
                    tail.subrange(1, tail.len() as int),
                ));
            }
        }
        i += 1;
    }
    proof {
        assert(config.services@.subrange(config.services@.len() as int, config.services@.len() as int)
            =~= Seq::<Service>::empty());
        assert(cs.subrange(entries@.len() as int, cs.len() as int).len() == 0);
        assert(entries@.len() == cs.len());
    }
    RoutePlan { error_routes, err_handler: slot, entries }
}

/// The filesystem path the shared static routes map a URL path onto, if
/// any: the first route whose URL path matches answers.
pub open spec fn spec_static_lookup(routes: Seq<crate::config::StaticRoute>, path: Seq<char>) -> Option<
    Seq<char>,
>
    decreases routes.len(),
{
    if routes.len() == 0 {
        None
    } else if routes[0].url_path@ == path {
        Some(routes[0].fs_path@)
    } else {
        spec_static_lookup(routes.subrange(1, routes.len() as int), path)
    }
}

/// Looks a request path up among the shared static routes.
pub fn static_route_lookup(routes: &Vec<crate::config::StaticRoute>, path: &str) -> (r: Option<
    String,
>)
    ensures
        match r {
            Some(p) => spec_static_lookup(routes@, path@) == Some(p@),
            None => spec_static_lookup(routes@, path@) is None,
        },
{
    let mut i: usize = 0;
    proof {
        assert(routes@.subrange(0, routes@.len() as int) =~= routes@);
    }
    while i < routes.len()
        invariant
            i <= routes@.len(),
            spec_static_lookup(routes@, path@) == spec_static_lookup(
                routes@.subrange(i as int, routes@.len() as int),
                path@,
            ),
        decreases routes@.len() - i,
    {
        proof {
            let tail = routes@.subrange(i as int, routes@.len() as int);
            assert(tail.subrange(1, tail.len() as int) =~= routes@.subrange(
                i + 1,
                routes@.len() as int,
            ));
        }
        if str_eq(routes[i].url_path.as_str(), path) {
            let p = routes[i].fs_path.clone();
            return Some(p);
        }
        i += 1;
    }
    proof {
        assert(routes@.subrange(routes@.len() as int, routes@.len() as int)
            =~= Seq::<crate::config::StaticRoute>::empty());
    }
    None
}

/// What one reload does, as values: the children it kills, the children it
/// spawns, and the table it installs.
pub struct ReloadOutcome {
    pub kill: Vec<u64>,
    pub spawn: Vec<SpawnSpec>,
    pub plan: RoutePlan,
}

/// Whether an outcome is the reload that `children` and `config` describe:
/// every child of the old generation is killed, the spawns are those the
/// configuration asks for, and the plan matches the configuration.
pub open spec fn reload_outcome_ok(
    children: Seq<u64>,
    config: LbrpConfig,
    o: ReloadOutcome,
) -> bool {
    &&& o.kill@ == children
    &&& spawns_view(o.spawn@) == spec_spawns(config.services@)
    &&& plan_matches_config(o.plan, config)
}

/// Computes one reload generation from the configuration: the old children
/// all killed, the configured children spawned, the table rebuilt.
pub fn get_router_from_config(config: &LbrpConfig, children: &Vec<u64>) -> (o: ReloadOutcome)
    ensures
        reload_outcome_ok(children@, *config, o),
{
    let mut kill: Vec<u64> = Vec::new();
    let mut i: usize = 0;
    while i < children.len()
        invariant
            i <= children@.len(),
            kill@ =~= children@.subrange(0, i as int),
        decreases children@.len() - i,
    {
        kill.push(children[i]);
        proof {
            assert(kill@ =~= children@.subrange(0, i + 1));
        }
        i += 1;
    }
    proof {
        assert(children@.subrange(0, children@.len() as int) =~= children@);
    }
    let mut spawn: Vec<SpawnSpec> = Vec::new();
    let mut i: usize = 0;
    proof {
        assert(config.services@.subrange(0, config.services@.len() as int) =~= config.services@);
    }
    while i < config.services.len()
        invariant
            i <= config.services@.len(),
            spec_spawns(config.services@) =~= spawns_view(spawn@) + spec_spawns(
                config.services@.subrange(i as int, config.services@.len() as int),
            ),
        decreases config.services@.len() - i,
    {
        let ghost tail = config.services@.subrange(i as int, config.services@.len() as int);
        let ghost sp0 = spawn@;
        proof {
            assert(tail.subrange(1, tail.len() as int) =~= config.services@.subrange(
                i + 1,
                config.services@.len() as int,
            ));
        }
        if let Service::CommonService(c) = &config.services[i] {
            if c.should_startup() {
                let cmd = match &c.startup_cmd {
                    Some(x) => x.clone(),
                    None => String::new(),
                };
                let dir = match &c.working_dir {
                    Some(x) => x.clone(),
                    None => String::new(),
                };
                spawn.push(SpawnSpec { cmd, working_dir: dir, wait_after: c.wait_after });
                proof {
                    assert(spawns_view(spawn@) =~= spawns_view(sp0) + seq![
                        (
                            spawn@[spawn@.len() - 1].cmd@,
                            spawn@[spawn@.len() - 1].working_dir@,
                            spawn@[spawn@.len() - 1].wait_after,
                        ),
                    ]);
                }
            }
        }
        i += 1;
    }
    proof {
        assert(config.services@.subrange(config.services@.len() as int, config.services@.len() as int)
            =~= Seq::<Service>::empty());
        assert(spawns_view(spawn@) + Seq::<(Seq<char>, Seq<char>, Option<u64>)>::empty()
            =~= spawns_view(spawn@));
    }
    let plan = route_plan(config);
    ReloadOutcome { kill, spawn, plan }
}

/// One route entry, as plain values: what the table's shape holds of it.
pub open spec fn entry_view(e: RouteEntry) -> (
    Seq<char>,
    Seq<char>,
    Seq<char>,
    Option<Seq<char>>,
    Option<Seq<(Seq<char>, Seq<char>)>>,
    Option<Seq<Seq<char>>>,
    bool,
    bool,
) {
    (
        e.from@,
        e.to@,
        e.outbound_host@,
        opt_string_view(e.ip_header),
        tags_view(e.auth_tags),
        opt_strings_view(e.cors),
        e.error_intercept,
        e.serves_static,
    )
}

/// The route table's shape: the error routes, the error-handler slot, and
/// every entry, all as plain values.
pub open spec fn plan_shape(p: RoutePlan) -> (
    Seq<Seq<char>>,
    Option<(Seq<char>, Seq<Seq<char>>)>,
    Seq<
        (
            Seq<char>,
            Seq<char>,
            Seq<char>,
            Option<Seq<char>>,
            Option<Seq<(Seq<char>, Seq<char>)>>,
            Option<Seq<Seq<char>>>,
            bool,
            bool,
        ),
    >,
) {
    (
        p.error_routes@.map_values(|s: String| s@),
        match p.err_handler {
            Some(h) => Some((h.dist_dir@, h.static_files@.map_values(|s: String| s@))),
            None => None,
        },
        p.entries@.map_values(|e: RouteEntry| entry_view(e)),
    )
}

/// Two plans that match one configuration have the same shape.
pub proof fn lemma_plan_shape_determined(p1: RoutePlan, p2: RoutePlan, config: LbrpConfig)
    requires
        plan_matches_config(p1, config),
        plan_matches_config(p2, config),
    ensures
        plan_shape(p1) == plan_shape(p2),
{
    let cs = spec_common_services(config.services@);
    assert forall|t: int| 0 <= t < p1.error_routes@.len() implies (#[trigger] p1.error_routes@[t])@
        == p2.error_routes@[t]@ by {
        if t >= 8 {
            match spec_first_error_handler(config.services@) {
                Some(h) => {
                    let k = t - 8;
                    assert(p1.error_routes@[8 + k]@ == seq!['/'] + h.static_files@[k]@);
                    assert(p2.error_routes@[8 + k]@ == seq!['/'] + h.static_files@[k]@);
                },
                None => {},
            }
        }
    }
    assert(p1.error_routes@.map_values(|s: String| s@) =~= p2.error_routes@.map_values(
        |s: String| s@,
    ));
    match (p1.err_handler, p2.err_handler) {
        (Some(h1), Some(h2)) => {
            assert(h1.static_files@.map_values(|s: String| s@) =~= h2.static_files@.map_values(
                |s: String| s@,
            ));
        },
        _ => {},
    }
    assert forall|i: int| 0 <= i < cs.len() implies entry_view(#[trigger] p1.entries@[i])
        == entry_view(p2.entries@[i]) by {
        assert(entry_matches(p1.entries@[i], cs[i], spec_first_error_handler(config.services@)
            is Some, spec_has_common_static(config.services@)));
        assert(entry_matches(p2.entries@[i], cs[i], spec_first_error_handler(config.services@)
            is Some, spec_has_common_static(config.services@)));
    }
    assert(p1.entries@.map_values(|e: RouteEntry| entry_view(e)) =~= p2.entries@.map_values(
        |e: RouteEntry| entry_view(e),
    ));
}

/// Reload idempotence: with an unchanged configuration, the second reload
/// installs a table of the same shape as the first, asks for the same
/// spawns, and kills exactly the children the first reload's generation
/// started — no child is orphaned and none survives a reload it belongs to.
pub proof fn lemma_reload_idempotent(
    config: LbrpConfig,
    ch0: Seq<u64>,
    o1: ReloadOutcome,
    ch1: Seq<u64>,
    o2: ReloadOutcome,
)
    requires
        reload_outcome_ok(ch0, config, o1),
        // the runtime assigns one process id per spawned child
        ch1.len() == o1.spawn@.len(),
        reload_outcome_ok(ch1, config, o2),
    ensures
        plan_shape(o1.plan) == plan_shape(o2.plan),
        spawns_view(o2.spawn@) == spawns_view(o1.spawn@),
        o2.kill@ == ch1,
{
    lemma_plan_shape_determined(o1.plan, o2.plan, config);
}

/// Every route entry's outbound `Host` is its service's `from` value: with
/// `rewrite_host`, which sets the outbound `Host` header to that value, a
/// request whose `Host` matched a service leaves carrying `Host: from`.
pub proof fn lemma_outbound_host_is_from(plan: RoutePlan, config: LbrpConfig, i: int)
    requires
        plan_matches_config(plan, config),
        0 <= i < plan.entries@.len(),
    ensures
        plan.entries@[i].outbound_host@ == spec_common_services(config.services@)[i].from@,
{
    assert(entry_matches(plan.entries@[i], spec_common_services(config.services@)[i],
        spec_first_error_handler(config.services@) is Some, spec_has_common_static(
            config.services@,
        )));
}

} // verus!
