//! The proxy-side decisions: CORS gating, upgrades, error interception,
//! route planning and reloads, and configuration validation.

use lbrp::config::{
    CommonService, ConfigError, CorsOpts, ErrorHandler, LbrpConfig, LbrpMode, Service,
};
use lbrp::cors::{apply_cors_response, cors_decision, rewrite_origin_for_upstream, CorsAction};
use lbrp::errors::{
    apply_err_redirect, catcher_applies, effective_status, error_file_lookup,
    proxied_error_decision, status_path,
};
use lbrp::http::{header_get, BodyModel, Header, Method, ResponseModel};
use lbrp::proxy::{
    get_upgrade_type, proxy_error_status, rewrite_host, upgrade_decision, ProxyError,
    UpgradeOutcome,
};
use lbrp::routes::{excluded_from_err_handling, get_router_from_config, route_plan};

fn common(from: &str, to: &str) -> CommonService {
    CommonService {
        service_name: from.to_string(),
        require_subdomain_auth: None,
        startup_cmd: None,
        working_dir: None,
        wait_after: None,
        from: from.to_string(),
        to: to.to_string(),
        cors_domains: None,
        skip_err_handling: None,
        provide_ip_as_header: None,
    }
}

fn config_of(services: Vec<Service>) -> LbrpConfig {
    LbrpConfig { lbrp_mode: LbrpMode::Single, services, cors_opts: CorsOpts::default() }
}

fn header(name: &str, value: &str) -> Header {
    Header { name: name.to_string(), value: value.to_string() }
}

#[test]
fn preflight_allowed_origin() {
    let allow = vec!["https://app.example".to_string()];
    let origin = Some("https://app.example".to_string());
    let action = cors_decision(Method::Options, &origin, &allow);
    assert_eq!(action, CorsAction::PreflightAllow);
    let stamped = apply_cors_response(&Vec::new(), action, &CorsOpts::default(), &origin);
    assert_eq!(stamped.len(), 7);
    assert_eq!(
        header_get(&stamped, "Access-Control-Allow-Origin").as_deref(),
        Some("https://app.example")
    );
    assert_eq!(header_get(&stamped, "Access-Control-Allow-Credentials").as_deref(), Some("true"));
    assert_eq!(header_get(&stamped, "Vary").as_deref(), Some("Cookie, Origin"));
    assert_eq!(header_get(&stamped, "Access-Control-Max-Age").as_deref(), Some("86400"));
}

#[test]
fn preflight_rejected_origin() {
    let allow = vec!["https://app.example".to_string()];
    let origin = Some("https://evil.example".to_string());
    let action = cors_decision(Method::Options, &origin, &allow);
    assert_eq!(action, CorsAction::PassThrough);
    let existing = vec![header("Content-Type", "application/json")];
    let stamped = apply_cors_response(&existing, action, &CorsOpts::default(), &origin);
    assert_eq!(stamped.len(), 1);
    assert!(header_get(&stamped, "Access-Control-Allow-Origin").is_none());
    assert!(header_get(&stamped, "Access-Control-Allow-Methods").is_none());
}

#[test]
fn normal_request_allowed_origin_stamps_after() {
    let allow = vec!["https://app.example".to_string()];
    let origin = Some("https://app.example".to_string());
    let action = cors_decision(Method::Post, &origin, &allow);
    assert_eq!(action, CorsAction::StampAfter);
    // the same decision through the per-service filter
    let filter = lbrp::cors::CorsHandler::new(allow, CorsOpts::default());
    assert_eq!(filter.decide(Method::Post, &origin), CorsAction::StampAfter);
    let stamped = filter.stamp(&Vec::new(), CorsAction::StampAfter, &origin);
    assert_eq!(stamped.len(), 7);
}

#[test]
fn missing_origin_passes_through() {
    let allow = vec!["https://app.example".to_string()];
    assert_eq!(cors_decision(Method::Get, &None, &allow), CorsAction::PassThrough);
}

#[test]
fn origin_rewritten_to_host_for_allowed_cross_origin() {
    let allow = vec!["https://app.example".to_string()];
    let headers = vec![header("Origin", "https://app.example"), header("Accept", "*/*")];
    let out = rewrite_origin_for_upstream(&headers, "api.example", &allow);
    assert_eq!(header_get(&out, "Origin").as_deref(), Some("api.example"));
    assert_eq!(header_get(&out, "Accept").as_deref(), Some("*/*"));
}

#[test]
fn origin_not_allowed_left_alone() {
    let allow = vec!["https://app.example".to_string()];
    let headers = vec![header("Origin", "https://evil.example")];
    let out = rewrite_origin_for_upstream(&headers, "api.example", &allow);
    assert_eq!(header_get(&out, "Origin").as_deref(), Some("https://evil.example"));
}

#[test]
fn upgrade_type_needs_connection_token() {
    let headers = vec![header("Connection", "keep-alive, Upgrade"), header("Upgrade", "websocket")];
    assert_eq!(get_upgrade_type(&headers).as_deref(), Some("websocket"));
    let no_upgrade = vec![header("Connection", "keep-alive"), header("Upgrade", "websocket")];
    assert!(get_upgrade_type(&no_upgrade).is_none());
}

#[test]
fn websocket_upgrade_matches() {
    let req_type = Some("websocket".to_string());
    let resp = vec![header("Connection", "upgrade"), header("Upgrade", "WebSocket")];
    assert_eq!(upgrade_decision(&req_type, true, 101, &resp), UpgradeOutcome::DoUpgrade);
}

#[test]
fn upgrade_type_mismatch_fails() {
    let req_type = Some("websocket".to_string());
    let resp = vec![header("Connection", "upgrade"), header("Upgrade", "h2c")];
    assert_eq!(upgrade_decision(&req_type, true, 101, &resp), UpgradeOutcome::TypeMismatch);
}

#[test]
fn upgrade_without_client_extension_fails() {
    let req_type = Some("websocket".to_string());
    let resp = vec![header("Connection", "upgrade"), header("Upgrade", "websocket")];
    assert_eq!(
        upgrade_decision(&req_type, false, 101, &resp),
        UpgradeOutcome::NoUpgradeExtension
    );
}

#[test]
fn non_101_streams_through() {
    let req_type = Some("websocket".to_string());
    assert_eq!(upgrade_decision(&req_type, true, 200, &Vec::new()), UpgradeOutcome::NotUpgraded);
}

#[test]
fn host_header_rewritten_to_service_host() {
    let headers = vec![header("Host", "upstream:9000"), header("Accept", "*/*")];
    let out = rewrite_host(&headers, "api.example");
    assert_eq!(header_get(&out, "Host").as_deref(), Some("api.example"));
    assert_eq!(header_get(&out, "Accept").as_deref(), Some("*/*"));
}

#[test]
fn proxy_error_statuses() {
    assert_eq!(proxy_error_status(ProxyError::UpstreamUnreachable), 502);
    assert_eq!(proxy_error_status(ProxyError::UpgradeTypeMismatch), 500);
    assert_eq!(proxy_error_status(ProxyError::NoUpgradeExtension), 500);
}

#[test]
fn upstream_503_redirected_to_error_route() {
    let decision = proxied_error_decision(Some(503), true, true).expect("must intercept");
    assert_eq!(decision.status, 503);
    assert_eq!(decision.location, "/503");
    let res = ResponseModel {
        status: Some(503),
        headers: vec![header("Content-Length", "120"), header("Content-Type", "text/plain")],
        set_cookies: Vec::new(),
        body: BodyModel::Text("boom".to_string()),
    };
    let out = apply_err_redirect(&res, &decision);
    assert_eq!(out.status, Some(503));
    assert!(matches!(out.body, BodyModel::Empty));
    assert!(header_get(&out.headers, "Content-Length").is_none());
    assert!(header_get(&out.headers, "Content-Type").is_none());
    assert_eq!(header_get(&out.headers, "Location").as_deref(), Some("/503"));
}

#[test]
fn success_not_intercepted() {
    assert!(proxied_error_decision(Some(200), true, true).is_none());
}

#[test]
fn missing_index_not_intercepted() {
    assert!(proxied_error_decision(Some(500), true, false).is_none());
}

#[test]
fn status_paths_render_decimal() {
    assert_eq!(status_path(400), "/400");
    assert_eq!(status_path(503), "/503");
    assert_eq!(effective_status(None), 404);
}

#[test]
fn catcher_skips_excluded_origin() {
    let excluded = vec!["api.example".to_string()];
    let origin = Some("https://api.example".to_string());
    assert!(!catcher_applies(&origin, &excluded, Some(500)));
    let other = Some("https://web.example".to_string());
    assert!(catcher_applies(&other, &excluded, Some(500)));
    assert!(!catcher_applies(&other, &excluded, Some(200)));
}

#[test]
fn error_files_whitelist() {
    let files = vec!["/brand.css".to_string(), "/logo.svg".to_string()];
    assert_eq!(error_file_lookup(&files, "/logo.svg").as_deref(), Some("logo.svg"));
    assert!(error_file_lookup(&files, "/etc/passwd").is_none());
}

#[test]
fn validate_accepts_schemed_upstreams() {
    let cfg = config_of(vec![
        Service::CommonService(common("a.local", "http://127.0.0.1:8001")),
        Service::CommonService(common("b.local", "https://127.0.0.1:8002")),
    ]);
    assert!(cfg.validate().is_ok());
}

#[test]
fn validate_rejects_missing_scheme() {
    let cfg = config_of(vec![Service::CommonService(common("a.local", "127.0.0.1:8001"))]);
    match cfg.validate() {
        Err(ConfigError::InvalidScheme(to)) => assert_eq!(to, "127.0.0.1:8001"),
        _ => panic!("expected the scheme error"),
    }
}

#[test]
fn validate_rejects_duplicate_from() {
    let cfg = config_of(vec![
        Service::CommonService(common("a.local", "http://x:1")),
        Service::CommonService(common("a.local", "http://y:2")),
    ]);
    match cfg.validate() {
        Err(ConfigError::DuplicateFrom(from)) => assert_eq!(from, "a.local"),
        _ => panic!("expected the duplicate error"),
    }
}

#[test]
fn excluded_hosts_from_skip_flag() {
    let mut skipping = common("api.example", "http://x:1");
    skipping.skip_err_handling = Some(true);
    let cfg = vec![
        Service::CommonService(skipping),
        Service::CommonService(common("web.example", "http://y:2")),
    ];
    let excluded = excluded_from_err_handling(&cfg);
    assert_eq!(excluded, ["api.example"]);
}

#[test]
fn route_plan_carries_policies() {
    let mut svc = common("api.example", "http://127.0.0.1:8001");
    svc.cors_domains = Some(vec!["https://app.example".to_string()]);
    svc.provide_ip_as_header = Some("X-Real-IP".to_string());
    let cfg = config_of(vec![
        Service::ErrorHandler(ErrorHandler {
            dist_dir: "err-dist".to_string(),
            static_files: vec!["brand.css".to_string()],
        }),
        Service::CommonService(svc),
    ]);
    let plan = route_plan(&cfg);
    assert_eq!(plan.entries.len(), 1);
    let entry = &plan.entries[0];
    assert_eq!(entry.from, "api.example");
    assert_eq!(entry.outbound_host, "api.example");
    assert_eq!(entry.to, "http://127.0.0.1:8001");
    assert_eq!(entry.ip_header.as_deref(), Some("X-Real-IP"));
    assert!(entry.error_intercept);
    assert_eq!(entry.cors.as_ref().unwrap()[0], "https://app.example");
    assert_eq!(plan.error_routes[0], "/400");
    assert_eq!(plan.error_routes[7], "/oops");
    assert_eq!(plan.error_routes[8], "/brand.css");
    let slot = plan.err_handler.expect("slot must be filled");
    assert_eq!(slot.static_files, ["/brand.css"]);
}

#[test]
fn skip_err_handling_disables_intercept() {
    let mut svc = common("api.example", "http://x:1");
    svc.skip_err_handling = Some(true);
    let cfg = config_of(vec![
        Service::ErrorHandler(ErrorHandler { dist_dir: "d".to_string(), static_files: Vec::new() }),
        Service::CommonService(svc),
    ]);
    let plan = route_plan(&cfg);
    assert!(!plan.entries[0].error_intercept);
}

#[test]
fn reload_with_unchanged_config_is_idempotent() {
    let mut svc = common("a.local", "http://127.0.0.1:8001");
    svc.startup_cmd = Some("./serve".to_string());
    svc.working_dir = Some("/srv/a".to_string());
    let cfg = config_of(vec![Service::CommonService(svc)]);
    let first = get_router_from_config(&cfg, &Vec::new());
    assert!(first.kill.is_empty());
    assert_eq!(first.spawn.len(), 1);
    assert_eq!(first.spawn[0].cmd, "./serve");
    // the runtime hands the spawned child an id; the next reload kills it
    let children = vec![4242u64];
    let second = get_router_from_config(&cfg, &children);
    assert_eq!(second.kill, children);
    assert_eq!(second.spawn.len(), first.spawn.len());
    assert_eq!(second.plan.entries.len(), first.plan.entries.len());
    assert_eq!(second.plan.entries[0].from, first.plan.entries[0].from);
    assert_eq!(second.plan.error_routes.len(), first.plan.error_routes.len());
}

#[test]
fn static_routes_answer_first_match() {
    let routes = vec![
        lbrp::config::StaticRoute { url_path: "/logo.svg".to_string(), fs_path: "assets/logo.svg".to_string() },
        lbrp::config::StaticRoute { url_path: "/app.css".to_string(), fs_path: "assets/app.css".to_string() },
    ];
    assert_eq!(
        lbrp::routes::static_route_lookup(&routes, "/app.css").as_deref(),
        Some("assets/app.css")
    );
    assert!(lbrp::routes::static_route_lookup(&routes, "/other").is_none());
}

#[test]
fn reload_serves_added_service() {
    let cfg_a = config_of(vec![Service::CommonService(common("a.local", "http://x:1"))]);
    let plan_a = route_plan(&cfg_a);
    assert!(plan_a.entries.iter().all(|e| e.from != "b.local"));
    let cfg_ab = config_of(vec![
        Service::CommonService(common("a.local", "http://x:1")),
        Service::CommonService(common("b.local", "http://y:2")),
    ]);
    let outcome = get_router_from_config(&cfg_ab, &Vec::new());
    assert!(outcome.plan.entries.iter().any(|e| e.from == "b.local"));
    assert!(outcome.kill.is_empty());
    assert!(outcome.spawn.is_empty());
}
