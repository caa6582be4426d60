use vcp_plugins::cache::ResponseCache;
use vcp_plugins::network::HttpResponse;
use vcp_plugins::network::{
    admit_request, cache_entry_fresh, cache_expiry, cache_key, cacheable, effective_timeout,
    validate_domain, HttpMethod, HttpRequest,
};
use vcp_plugins::permission::{PermissionManager, PermissionType};
use vcp_plugins::state::PluginError;

fn get(url: &str) -> HttpRequest {
    HttpRequest {
        url: url.to_string(),
        method: HttpMethod::Get,
        headers: Vec::new(),
        body: None,
        timeout_secs: None,
    }
}

#[test]
fn test_cache_key_generation() {
    let req1 = get("https://api.example.com/data");
    let key1 = cache_key(&req1);
    assert_eq!(key1, "GET:https://api.example.com/data");

    let headers = vec![("Authorization".to_string(), "Bearer token123".to_string())];
    let req2 = HttpRequest {
        url: "https://api.example.com/data".to_string(),
        method: HttpMethod::Get,
        headers,
        body: None,
        timeout_secs: None,
    };
    let key2 = cache_key(&req2);
    assert!(key2.contains("auth:Bearer token123"));
    assert_ne!(key1, key2);
}

#[test]
fn test_rate_limit_token_bucket() {
    let mut pm = PermissionManager::new("/tmp/vcp_net_test".to_string());
    let plugin_id = "test-plugin";
    let mut allowed = 0;
    for _ in 0..150 {
        if pm.check_rate_limit(plugin_id) {
            allowed += 1;
        }
    }
    assert!(allowed >= 95 && allowed <= 105, "Expected ~100 allowed requests, got {}", allowed);
}

#[test]
fn network_whitelist() {
    let mut pm = PermissionManager::new("/tmp/app".to_string());
    pm.grant_permission("p", PermissionType::NetworkRequest, "*.example.com".to_string()).unwrap();
    assert_eq!(validate_domain(&mut pm, "p", "https://api.example.com/v1").unwrap(), "api.example.com");
    assert!(matches!(validate_domain(&mut pm, "p", "https://evil.com/"), Err(PluginError::PermissionDenied(_))));
    assert!(matches!(
        validate_domain(&mut pm, "p", "https://notexample.com/"),
        Err(PluginError::PermissionDenied(_))
    ));
    assert!(validate_domain(&mut pm, "p", "https://example.com/").is_ok());
    assert!(matches!(validate_domain(&mut pm, "p", "not a url"), Err(PluginError::PermissionDenied(_))));
}

#[test]
fn rate_limit_scenario() {
    let mut pm = PermissionManager::new("/tmp/app".to_string());
    pm.grant_permission("p", PermissionType::NetworkRequest, "*".to_string()).unwrap();
    let req = get("https://stub.local/x");
    let mut ok = 0;
    let mut limited = 0;
    for _ in 0..150 {
        match admit_request(&mut pm, "p", &req, 1_000) {
            Ok(()) => ok += 1,
            Err(PluginError::PermissionDenied(msg)) => {
                assert!(msg.contains("Rate limit exceeded"));
                limited += 1;
            }
            Err(e) => panic!("unexpected {:?}", e),
        }
    }
    assert_eq!(ok, 100);
    assert_eq!(limited, 50);
    // Tokens come back at 100 per minute.
    assert!(admit_request(&mut pm, "p", &req, 1_000 + 600).is_ok());
    assert!(admit_request(&mut pm, "p", &req, 1_000 + 600).is_err());
}

#[test]
fn options_is_never_sent() {
    let mut pm = PermissionManager::new("/tmp/app".to_string());
    pm.grant_permission("p", PermissionType::NetworkRequest, "*".to_string()).unwrap();
    let mut req = get("https://a.b/");
    req.method = HttpMethod::Options;
    assert!(matches!(admit_request(&mut pm, "p", &req, 0), Err(PluginError::PermissionDenied(_))));
}

#[test]
fn timeouts_and_caching_rules() {
    let mut req = get("https://a.b/");
    assert_eq!(effective_timeout(&req), 30);
    req.timeout_secs = Some(1000);
    assert_eq!(effective_timeout(&req), 300);
    req.timeout_secs = Some(5);
    assert_eq!(effective_timeout(&req), 5);
    assert!(cacheable(&req, 200));
    assert!(!cacheable(&req, 404));
    req.method = HttpMethod::Post;
    assert!(!cacheable(&req, 200));
    assert_eq!(cache_expiry(1_000), 301_000);
    assert!(cache_entry_fresh(301_000, 300_999));
    assert!(!cache_entry_fresh(301_000, 301_000));
    assert_eq!(HttpMethod::Delete.as_str(), "DELETE");
}

#[test]
fn response_cache_serves_fresh_entries_only() {
    let mut cache = ResponseCache::new();
    let req = get("https://api.example.com/data");
    assert!(cache.get_cached(&req, 0).is_none());
    let resp = HttpResponse {
        status: 200,
        headers: vec![("content-type".to_string(), "text/plain".to_string())],
        body: "hello".to_string(),
    };
    cache.cache_response(&req, &resp, 1_000);
    let hit = cache.get_cached(&req, 2_000).unwrap();
    assert_eq!(hit.status, 200);
    assert_eq!(hit.body, "hello");
    assert_eq!(hit.headers, resp.headers);
    let mut other = get("https://api.example.com/data");
    other.headers.push(("Authorization".to_string(), "Bearer t".to_string()));
    assert!(cache.get_cached(&other, 2_000).is_none());
    assert!(cache.get_cached(&req, 301_000).is_none());
    assert!(cache.get_cached(&req, 2_000).is_none());
}

#[test]
fn response_cache_evicts_least_recently_used() {
    let mut cache = ResponseCache::new();
    let resp = HttpResponse { status: 200, headers: Vec::new(), body: "b".to_string() };
    for i in 0..1000 {
        cache.cache_response(&get(&format!("https://h/{}", i)), &resp, 0);
    }
    // Touch the first entry so that the second becomes the least recently used.
    assert!(cache.get_cached(&get("https://h/0"), 1).is_some());
    cache.cache_response(&get("https://h/new"), &resp, 0);
    assert!(cache.get_cached(&get("https://h/1"), 1).is_none());
    assert!(cache.get_cached(&get("https://h/0"), 1).is_some());
    assert!(cache.get_cached(&get("https://h/new"), 1).is_some());
    assert!(cache.get_cached(&get("https://h/999"), 1).is_some());
}
