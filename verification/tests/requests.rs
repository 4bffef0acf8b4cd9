//! Requests: what to fetch, what to return.

use rand::rngs::StdRng;
use rand::seq::SliceRandom;
use rand::SeedableRng;
use sub_merger::config::generate_full_config;
use sub_merger::request::{
    apply_filters, extract_urls, is_selected, limit_nodes, safe_regex, select_nodes,
    shuffle_nodes, Params,
};
use sub_merger::seen::Seen;
use sub_merger::service::{plan_request, write_reply, Plan};
use sub_merger::subscription::parse_content;

fn params() -> Params {
    Params {
        url: None,
        urls: None,
        types: None,
        include_pattern: None,
        exclude_pattern: None,
        limit: None,
        format: None,
        seed: None,
    }
}

fn list(items: &[&str]) -> Vec<String> {
    items.iter().map(|s| s.to_string()).collect()
}

fn sorted(mut v: Vec<String>) -> Vec<String> {
    v.sort();
    v
}

fn some(s: &str) -> Option<String> {
    Some(s.to_string())
}

fn nodes() -> Vec<String> {
    list(&[
        "vless://a#USA%20Premium",
        "trojan://b#Germany",
        "vmess://c",
        "ss://d#germany%20trial",
        "no link",
    ])
}

#[test]
fn urls_are_split_and_kept_once() {
    let mut p = params();
    assert_eq!(extract_urls(&p), list(&[]));
    p.url = some(" https://a , ,https://b,https://a");
    p.urls = some("https://b,https://c ,");
    assert_eq!(extract_urls(&p), list(&["https://a", "https://b", "https://c"]));
    p.url = None;
    assert_eq!(extract_urls(&p), list(&["https://b", "https://c"]));
}

#[test]
fn a_request_without_urls_gets_the_landing_page() {
    let mut p = params();
    assert!(matches!(plan_request(&p), Plan::Landing));
    p.urls = some(" , ");
    assert!(matches!(plan_request(&p), Plan::Landing));
    p.urls = some("b,a");
    match plan_request(&p) {
        Plan::Merge { urls, key } => {
            assert_eq!(urls, list(&["b", "a"]));
            assert_eq!(key, "a|b");
        }
        Plan::Landing => panic!("nothing to merge"),
    }
}

#[test]
fn no_filters_keep_all() {
    let mut p = params();
    assert_eq!(sorted(apply_filters(nodes(), &p)), sorted(nodes()));
    p.limit = Some(0);
    assert_eq!(sorted(apply_filters(nodes(), &p)), sorted(nodes()));
    assert_eq!(apply_filters(Vec::new(), &p), list(&[]));
}

#[test]
fn types_select_by_scheme() {
    let mut p = params();
    p.types = some("vless, ss ,none");
    assert_eq!(
        sorted(apply_filters(nodes(), &p)),
        list(&["ss://d#germany%20trial", "vless://a#USA%20Premium"])
    );
    p.types = some("");
    assert_eq!(apply_filters(nodes(), &p), list(&[]));
    p.types = some("VLESS");
    assert_eq!(apply_filters(nodes(), &p), list(&[]));
}

#[test]
fn patterns_select_by_name() {
    let mut p = params();
    p.include_pattern = some("germany|premium$");
    assert_eq!(
        sorted(apply_filters(nodes(), &p)),
        list(&["ss://d#germany%20trial", "trojan://b#Germany", "vless://a#USA%20Premium"])
    );
    p.exclude_pattern = some("TRIAL");
    assert_eq!(
        sorted(apply_filters(nodes(), &p)),
        list(&["trojan://b#Germany", "vless://a#USA%20Premium"])
    );
    p.include_pattern = None;
    assert_eq!(
        sorted(apply_filters(nodes(), &p)),
        list(&["no link", "trojan://b#Germany", "vless://a#USA%20Premium", "vmess://c"])
    );
    // An expression that does not compile does not count.
    p.include_pattern = some("(");
    p.exclude_pattern = some("a{1000}{1000}");
    assert_eq!(sorted(apply_filters(nodes(), &p)), sorted(nodes()));
}

#[test]
fn expressions_ignore_case_and_have_a_limit() {
    let re = safe_regex("россия|usa").unwrap();
    assert!(re.is_match("Россия 1"));
    assert!(re.is_match("in the USA"));
    assert!(!re.is_match("US A"));
    assert!(safe_regex("[").is_none());
    assert!(safe_regex("a{1000}{1000}").is_none());
    let kept = select_nodes(nodes(), &None, &safe_regex("^germany"), &None);
    assert_eq!(kept, list(&["trojan://b#Germany", "ss://d#germany%20trial"]));
}

#[test]
fn selection_by_what_was_found() {
    let types = some("ss");
    assert!(is_selected("ss://x", &types, None, None));
    assert!(is_selected("ss://x", &types, Some(true), Some(false)));
    assert!(!is_selected("ss://x", &types, Some(false), None));
    assert!(!is_selected("ss://x", &types, Some(true), Some(true)));
    assert!(!is_selected("vless://x", &types, Some(true), None));
    assert!(!is_selected("ss", &types, None, None));
    assert!(is_selected("ss", &None, None, None));
}

#[test]
fn limits() {
    let mut v = list(&["a", "b", "c"]);
    limit_nodes(&mut v, None);
    limit_nodes(&mut v, Some(0));
    limit_nodes(&mut v, Some(3));
    limit_nodes(&mut v, Some(usize::MAX));
    assert_eq!(v, list(&["a", "b", "c"]));
    limit_nodes(&mut v, Some(2));
    assert_eq!(v, list(&["a", "b"]));
    let mut p = params();
    p.limit = Some(2);
    assert_eq!(apply_filters(nodes(), &p).len(), 2);
}

#[test]
fn a_seed_fixes_the_order() {
    let items: Vec<String> = (0..50).map(|i| format!("ss://{}", i)).collect();
    let mut expected = items.clone();
    expected.shuffle(&mut StdRng::seed_from_u64(42));
    assert_ne!(expected, items);
    let mut v = items.clone();
    shuffle_nodes(&mut v, Some(42));
    assert_eq!(v, expected);
    let mut p = params();
    p.seed = Some(42);
    assert_eq!(apply_filters(items.clone(), &p), expected);
    assert_eq!(apply_filters(items.clone(), &p), expected);
    p.limit = Some(7);
    assert_eq!(apply_filters(items.clone(), &p), expected[..7]);
    p.seed = Some(43);
    p.limit = None;
    assert_ne!(apply_filters(items, &p), expected);
}

#[test]
fn a_seed_fixes_the_order_with_expressions() {
    let items: Vec<String> = (0..60).map(|i| format!("ss://{}#node{}", i, i)).collect();
    let mut p = params();
    p.seed = Some(7);
    p.include_pattern = some("NODE[0-9]$");
    p.exclude_pattern = some("3");
    let mut expected: Vec<String> = (0..10).filter(|i| *i != 3).map(|i| format!("ss://{}#node{}", i, i)).collect();
    expected.shuffle(&mut StdRng::seed_from_u64(7));
    assert_eq!(apply_filters(items.clone(), &p), expected);
    assert_eq!(apply_filters(items, &p), expected);
}

#[test]
fn without_a_seed_the_order_is_random() {
    let items: Vec<String> = (0..50).map(|i| format!("ss://{}", i)).collect();
    let mut v = items.clone();
    shuffle_nodes(&mut v, None);
    let mut w = items.clone();
    shuffle_nodes(&mut w, None);
    assert!(v != items || w != items);
    assert_ne!(v, w);
    assert_eq!(sorted(v), sorted(items.clone()));
    assert_eq!(sorted(w), sorted(items));
}

#[test]
fn replies() {
    let links = list(&["hy2://p@a:1#A", "hy2://p@b:1#B"]);
    let mut p = params();
    let r = write_reply(&p, &links);
    assert_eq!(r.content_type, "text/plain;charset=utf-8");
    assert!(r.chunked);
    assert_eq!(r.count, 2);
    assert_eq!(r.parts, list(&["hy2://p@a:1#A\n", "hy2://p@b:1#B\n"]));
    // The reply is itself a subscription.
    assert_eq!(parse_content(&r.parts.concat(), &mut Seen::new()), links);
    p.format = some("yaml");
    let r = write_reply(&p, &links);
    assert_eq!(r.content_type, "text/yaml;charset=utf-8");
    assert!(!r.chunked);
    assert_eq!(r.count, 2);
    assert_eq!(r.parts, [generate_full_config(&links)]);
    p.format = some("YAML");
    assert!(write_reply(&p, &links).chunked);
}
