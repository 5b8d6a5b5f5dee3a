//! The authorization gate, the challenge headers, the HTML injection, and
//! the client-side flow.

use lbrp::auth::{
    apply_authorize_outcome, auth_route_paths, extract_challenge_headers, extract_signup_hints,
    guard_entry, whitelisted_path, AuthDecision, AuthorizeOutcome, GuardStep,
};
use lbrp::client::{auth_err_decision, client_auth_step, endpoint, ClientAuthStep, LoginResponse};
use lbrp::cookies::TokenTriple;
use lbrp::http::{header_get, Header};
use lbrp::inject::{inject_autoupdater, is_html_content_type, should_inject};
use lbrp::lifecycle::{lifecycle_decision, LifecycleAction, LifecycleEvent};
use lbrp::provision::{provision_step, ProvisionState, StepOutcome};

const LINKS: &str = "<link rel=\"modulepreload\" href=\"/--inner-lbrp-auth/lbrp_cba_autovalidate.js\" crossorigin=\"anonymous\"><link rel=\"preload\" href=\"/--inner-lbrp-auth/lbrp_cba_autovalidate_bg.wasm\" crossorigin=\"anonymous\" as=\"fetch\" type=\"application/wasm\"></head";

const SCRIPT: &str = "<script type=\"module\">import init, * as autoupdBindings from '/--inner-lbrp-auth/lbrp_cba_autovalidate.js'; const wasm = await init({ module_or_path: '/--inner-lbrp-auth/lbrp_cba_autovalidate_bg.wasm' }); window.autoupdBindings = autoupdBindings; autoupdBindings.cba_autovalidate();</script></body";

fn header(name: &str, value: &str) -> Header {
    Header { name: name.to_string(), value: value.to_string() }
}

fn outcome() -> AuthorizeOutcome {
    AuthorizeOutcome {
        approved: true,
        tags_granted: true,
        new_challenge_state: None,
        new_cba_challenge: None,
        new_access_token: None,
        new_cba_token: None,
    }
}

#[test]
fn no_cookies_serves_login_page() {
    // an unauthenticated request to a protected page keeps its URL and gets
    // the auth frontend
    match guard_entry(None, "/dashboard/settings") {
        GuardStep::ServeLoginPage => {},
        _ => panic!("expected the login page"),
    }
}

#[test]
fn no_cookies_whitelisted_path_passes() {
    assert!(whitelisted_path("/--inner-lbrp-auth/sign-in-step1"));
    assert!(whitelisted_path("/favicon.ico"));
    assert!(!whitelisted_path("/dashboard"));
    match guard_entry(None, "/--inner-lbrp-auth/checkup") {
        GuardStep::Forward => {},
        _ => panic!("expected pass-through"),
    }
}

#[test]
fn tokens_go_to_back_channel() {
    let triple = TokenTriple {
        access: "a".to_string(),
        refresh: "r".to_string(),
        cba: None,
    };
    match guard_entry(Some(triple), "/dashboard") {
        GuardStep::Authorize(t) => assert_eq!(t.access, "a"),
        _ => panic!("expected an authorize step"),
    }
}

#[test]
fn denial_is_forbidden() {
    let mut o = outcome();
    o.approved = false;
    assert_eq!(apply_authorize_outcome(&o, 3500).decision, AuthDecision::Forbidden);
    let mut o2 = outcome();
    o2.tags_granted = false;
    assert_eq!(apply_authorize_outcome(&o2, 3500).decision, AuthDecision::Forbidden);
    assert_eq!(apply_authorize_outcome(&outcome(), 3500).decision, AuthDecision::Forward);
}

#[test]
fn new_challenge_travels_base64() {
    let mut o = outcome();
    o.new_challenge_state = Some("state-7".to_string());
    o.new_cba_challenge = Some(vec![104, 105]);
    let update = apply_authorize_outcome(&o, 3500);
    assert_eq!(header_get(&update.headers, "LBRP-Challenge-State").as_deref(), Some("state-7"));
    // "hi" in the standard base64 alphabet
    assert_eq!(header_get(&update.headers, "LBRP-Challenge").as_deref(), Some("aGk="));
}

#[test]
fn refreshed_tokens_become_cookies() {
    let mut o = outcome();
    o.new_access_token = Some("fresh".to_string());
    o.new_cba_token = Some("client".to_string());
    let update = apply_authorize_outcome(&o, 3500);
    let names: Vec<&str> = update.cookies.iter().map(|c| c.name.as_str()).collect();
    assert_eq!(names, ["LBRP-Access", "LBRP-Client"]);
    assert!(update.cookies.iter().all(|c| c.secure && c.http_only && c.path == "/"));
}

#[test]
fn challenge_sign_header_decoded() {
    let headers = vec![
        header("LBRP-Challenge-State", "st"),
        header("LBRP-Challenge-Sign", "aGk="),
    ];
    let (state, sign) = extract_challenge_headers(&headers);
    assert_eq!(state.as_deref(), Some("st"));
    assert_eq!(sign, Some(vec![104, 105]));
}

#[test]
fn bad_challenge_sign_reads_as_absent() {
    let headers = vec![header("LBRP-Challenge-Sign", "!!! not base64 !!!")];
    let (_, sign) = extract_challenge_headers(&headers);
    assert!(sign.is_none());
}

#[test]
fn signup_hints_echoed() {
    let headers = vec![header("SIGNUP_HINTS", "opaque-state")];
    assert_eq!(extract_signup_hints(&headers).as_deref(), Some("opaque-state"));
    assert!(extract_signup_hints(&Vec::new()).is_none());
}

#[test]
fn auth_endpoints_mounted() {
    let paths = auth_route_paths();
    assert_eq!(paths.len(), 6);
    assert_eq!(paths[0], "/--inner-lbrp-auth/sign-up-step1");
    assert_eq!(paths[5], "/--inner-lbrp-auth/revalidate");
}

#[test]
fn injection_inserts_both_payloads_once() {
    let html = "<html><head><title>t</title></head><body><p>x</p></body></html>";
    let out = inject_autoupdater(html);
    let expected = html.replace("</head", LINKS).replace("</body", SCRIPT);
    assert_eq!(out, expected);
    assert_eq!(out.matches("lbrp_cba_autovalidate_bg.wasm' });").count(), 1);
    assert_eq!(out.matches("rel=\"modulepreload\"").count(), 1);
    assert_eq!(out.matches("</body>").count(), 1);
    assert_eq!(out.matches("</head>").count(), 1);
    // the links close the head, the script closes the body
    assert!(out.find("rel=\"modulepreload\"").unwrap() < out.find("</head>").unwrap());
    assert!(out.find("cba_autovalidate();").unwrap() < out.find("</body>").unwrap());
}

#[test]
fn plain_document_left_alone() {
    let text = "no markers here";
    assert_eq!(inject_autoupdater(text), text);
}

#[test]
fn injection_only_into_html() {
    assert!(is_html_content_type("text/html"));
    assert!(is_html_content_type("text/html; charset=utf-8"));
    assert!(is_html_content_type("application/html"));
    assert!(!is_html_content_type("application/json"));
    assert!(!is_html_content_type("html"));
    assert!(should_inject(None, &Some("text/html".to_string())));
    assert!(should_inject(Some(200), &Some("text/html; charset=utf-8".to_string())));
    assert!(!should_inject(Some(500), &Some("text/html".to_string())));
    assert!(!should_inject(Some(200), &Some("application/json".to_string())));
    assert!(!should_inject(Some(200), &None));
}

#[test]
fn endpoint_concatenates() {
    assert_eq!(
        endpoint("https:", "gate.example", "/--inner-lbrp-auth/revalidate"),
        "https://gate.example/--inner-lbrp-auth/revalidate"
    );
}

#[test]
fn client_retries_on_challenge() {
    let headers = vec![header("LBRP-Challenge", "aGk="), header("LBRP-Challenge-State", "s1")];
    match client_auth_step(&headers) {
        ClientAuthStep::SignAndRetry { challenge, state } => {
            assert_eq!(challenge, vec![104, 105]);
            assert_eq!(state, "s1");
        },
        ClientAuthStep::Done => panic!("expected a retry"),
    }
    match client_auth_step(&Vec::new()) {
        ClientAuthStep::Done => {},
        _ => panic!("expected done"),
    }
}

#[test]
fn client_error_reporting() {
    assert!(auth_err_decision(Some(true), None).is_ok());
    assert_eq!(auth_err_decision(Some(false), Some("denied".to_string())), Err("denied".to_string()));
    assert_eq!(auth_err_decision(None, None), Err("Unknown error".to_string()));
}

#[test]
fn login_response_carries_challenge() {
    let resp = LoginResponse { challenge: Some(vec![1, 2, 3]) };
    assert_eq!(resp.challenge.as_deref(), Some(&[1u8, 2, 3][..]));
}

#[test]
fn admin_provisioning_paths() {
    // the happy path of a fresh install: config refused, register, admin
    // missing, sign the admin up under a temporary signup window
    let mut s = ProvisionState::UpdatingConfig;
    s = provision_step(s, StepOutcome::Failed, false);
    assert_eq!(s, ProvisionState::Registering);
    s = provision_step(s, StepOutcome::Succeeded, false);
    assert_eq!(s, ProvisionState::CheckingUser);
    s = provision_step(s, StepOutcome::Failed, false);
    assert_eq!(s, ProvisionState::EnablingSignup);
    for expected in [
        ProvisionState::PreparingSignup,
        ProvisionState::PerformingSignup,
        ProvisionState::DisablingSignup,
        ProvisionState::CheckingTags,
    ] {
        s = provision_step(s, StepOutcome::Succeeded, false);
        assert_eq!(s, expected);
    }
    s = provision_step(s, StepOutcome::Succeeded, false);
    assert_eq!(s, ProvisionState::EditingTags);
    s = provision_step(s, StepOutcome::Succeeded, false);
    assert_eq!(s, ProvisionState::Done);
    // an existing admin with the tag already granted finishes straight away
    let quick = provision_step(
        provision_step(ProvisionState::UpdatingConfig, StepOutcome::Succeeded, false),
        StepOutcome::Succeeded,
        false,
    );
    assert_eq!(quick, ProvisionState::CheckingTags);
    assert_eq!(
        provision_step(quick, StepOutcome::Succeeded, true),
        ProvisionState::Done
    );
    // a failed signup step is fatal
    assert_eq!(
        provision_step(ProvisionState::PerformingSignup, StepOutcome::Failed, false),
        ProvisionState::Failed
    );
}

#[test]
fn reload_and_shutdown_decisions() {
    assert_eq!(
        lifecycle_decision(LifecycleEvent::ConfigChanged),
        LifecycleAction::GracefulRestart { drain_secs: 10 }
    );
    assert_eq!(lifecycle_decision(LifecycleEvent::Interrupt), LifecycleAction::ExitNow);
    assert_eq!(lifecycle_decision(LifecycleEvent::WatcherStopped), LifecycleAction::StopServing);
}
