//! The cookie codec: splitting, uniting, deployment and collection.

use lbrp::cookies::{
    collect_cookies, deploy_triple_to_cookies, numbered_name, split_token, try_collect_from_cookies,
    unite_token, TokenTriple,
};
use lbrp::http::Cookie;

fn jar_of(deployed: &[lbrp::http::SetCookie]) -> Vec<Cookie> {
    deployed
        .iter()
        .map(|sc| Cookie { name: sc.name.clone(), value: sc.value.clone() })
        .collect()
}

#[test]
fn split_token_even_chunks() {
    let parts = split_token("abcdef", 2);
    let views: Vec<&str> = parts.iter().map(|s| s.as_str()).collect();
    assert_eq!(views, ["ab", "cd", "ef"]);
}

#[test]
fn split_token_remainder() {
    let parts = split_token("abcdefg", 3);
    let views: Vec<&str> = parts.iter().map(|s| s.as_str()).collect();
    assert_eq!(views, ["abc", "def", "g"]);
}

#[test]
fn split_token_empty_value() {
    let parts = split_token("", 4);
    assert!(parts.is_empty());
}

#[test]
fn unite_restores_split() {
    let value = "0123456789abcdef0123456789";
    let parts = split_token(value, 7);
    assert_eq!(unite_token(&parts), value);
}

#[test]
fn numbered_names_count_up() {
    assert_eq!(numbered_name("LBRP-Access", 1), "LBRP-Access-1");
    assert_eq!(numbered_name("LBRP-Access", 12), "LBRP-Access-12");
    assert_eq!(numbered_name("LBRP-Client", 305), "LBRP-Client-305");
}

#[test]
fn deploy_short_triple_plain_cookies() {
    let triple = TokenTriple {
        access: "acc".to_string(),
        refresh: "ref".to_string(),
        cba: Some("cli".to_string()),
    };
    let deployed = deploy_triple_to_cookies(&triple, 3500);
    let names: Vec<&str> = deployed.iter().map(|c| c.name.as_str()).collect();
    assert_eq!(names, ["LBRP-Access", "LBRP-Refresh", "LBRP-Client"]);
    assert!(deployed.iter().all(|c| c.secure && c.http_only && c.path == "/"));
}

#[test]
fn deploy_long_access_numbered_cookies() {
    let access: String = "a".repeat(10).to_string();
    let triple = TokenTriple { access, refresh: "r".to_string(), cba: None };
    let deployed = deploy_triple_to_cookies(&triple, 4);
    let names: Vec<&str> = deployed.iter().map(|c| c.name.as_str()).collect();
    assert_eq!(names, ["LBRP-Access-1", "LBRP-Access-2", "LBRP-Access-3", "LBRP-Refresh"]);
    assert_eq!(deployed[0].value, "aaaa");
    assert_eq!(deployed[2].value, "aa");
}

#[test]
fn round_trip_short_triple() {
    let triple = TokenTriple {
        access: "token-a".to_string(),
        refresh: "token-r".to_string(),
        cba: Some("token-c".to_string()),
    };
    let jar = jar_of(&deploy_triple_to_cookies(&triple, 3500));
    let back = try_collect_from_cookies(&jar).expect("triple must come back");
    assert_eq!(back.access, "token-a");
    assert_eq!(back.refresh, "token-r");
    assert_eq!(back.cba.as_deref(), Some("token-c"));
}

#[test]
fn round_trip_64k_access_chunked() {
    let access: String = "x0123456789".chars().cycle().take(65536).collect();
    let cba: String = "y".repeat(9000);
    let triple = TokenTriple { access: access.clone(), refresh: "re".to_string(), cba: Some(cba.clone()) };
    let deployed = deploy_triple_to_cookies(&triple, 3500);
    // 65536 over chunks of 3500: 19 pieces, plus refresh, plus 3 client pieces
    assert_eq!(deployed.len(), 19 + 1 + 3);
    let jar = jar_of(&deployed);
    let back = try_collect_from_cookies(&jar).expect("triple must come back");
    assert_eq!(back.access, access);
    assert_eq!(back.refresh, "re");
    assert_eq!(back.cba.as_deref(), Some(cba.as_str()));
}

#[test]
fn collect_prefers_plain_cookie() {
    let jar = vec![
        Cookie { name: "LBRP-Access".to_string(), value: "plain".to_string() },
        Cookie { name: "LBRP-Access-1".to_string(), value: "part1".to_string() },
    ];
    assert_eq!(collect_cookies(&jar, "LBRP-Access"), "plain");
}

#[test]
fn collect_joins_numbered_in_order() {
    let jar = vec![
        Cookie { name: "LBRP-Access-1".to_string(), value: "ab".to_string() },
        Cookie { name: "LBRP-Access-2".to_string(), value: "cd".to_string() },
        Cookie { name: "LBRP-Access-3".to_string(), value: "e".to_string() },
        Cookie { name: "LBRP-Refresh".to_string(), value: "r".to_string() },
    ];
    assert_eq!(collect_cookies(&jar, "LBRP-Access"), "abcde");
}

#[test]
fn collect_stops_at_first_gap() {
    let jar = vec![
        Cookie { name: "LBRP-Access-1".to_string(), value: "ab".to_string() },
        Cookie { name: "LBRP-Access-3".to_string(), value: "cd".to_string() },
    ];
    assert_eq!(collect_cookies(&jar, "LBRP-Access"), "ab");
}

#[test]
fn cookie_header_parsed_into_jar() {
    let jar = lbrp::http::parse_cookie_header("LBRP-Access=tok-a; LBRP-Refresh=tok-r; flag");
    assert_eq!(jar.len(), 3);
    assert_eq!(jar[0].name, "LBRP-Access");
    assert_eq!(jar[0].value, "tok-a");
    assert_eq!(jar[1].name, "LBRP-Refresh");
    assert_eq!(jar[1].value, "tok-r");
    assert_eq!(jar[2].name, "flag");
    assert_eq!(jar[2].value, "");
    let triple = try_collect_from_cookies(&jar).expect("triple from wire cookies");
    assert_eq!(triple.access, "tok-a");
    assert_eq!(triple.refresh, "tok-r");
}

#[test]
fn no_tokens_without_access() {
    let jar = vec![Cookie { name: "LBRP-Refresh".to_string(), value: "r".to_string() }];
    assert!(try_collect_from_cookies(&jar).is_none());
}

#[test]
fn no_tokens_without_refresh() {
    let jar = vec![Cookie { name: "LBRP-Access".to_string(), value: "a".to_string() }];
    assert!(try_collect_from_cookies(&jar).is_none());
}

#[test]
fn missing_cba_reads_as_none() {
    let jar = vec![
        Cookie { name: "LBRP-Access".to_string(), value: "a".to_string() },
        Cookie { name: "LBRP-Refresh".to_string(), value: "r".to_string() },
    ];
    let back = try_collect_from_cookies(&jar).expect("triple must come back");
    assert!(back.cba.is_none());
}
