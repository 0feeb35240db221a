use pdf_transcribe::ollama::{parse_endpoint_token, OllamaClient};
use pdf_transcribe::pool::EndpointPool;
use pdf_transcribe::ConfigError;

#[test]
fn pool_assignment_determinism() {
    let endpoints = vec![
        OllamaClient::from_token("a@2", "m"),
        OllamaClient::from_token("b@1", "m"),
    ];
    let pool = EndpointPool::build(&endpoints).expect("pool should build");
    assert_eq!(pool.len(), 3);
    assert_eq!(pool.assign(0).url(), "a");
    assert_eq!(pool.assign(1).url(), "a");
    assert_eq!(pool.assign(2).url(), "b");
    assert_eq!(pool.assign(3).url(), "a");
}

#[test]
fn pool_assign_page_is_one_based() {
    let endpoints = vec![
        OllamaClient::from_token("a@2", "m"),
        OllamaClient::from_token("b@1", "m"),
    ];
    let pool = EndpointPool::build(&endpoints).expect("pool should build");
    assert_eq!(pool.assign_page(1).url(), "a");
    assert_eq!(pool.assign_page(3).url(), "b");
    assert_eq!(pool.assign_page(4).url(), "a");
}

#[test]
fn pool_empty_is_rejected() {
    let endpoints: Vec<OllamaClient> = Vec::new();
    let r = EndpointPool::build(&endpoints);
    assert!(matches!(r, Err(ConfigError::EmptyPool)));
}

#[test]
fn pool_all_zero_weights_is_rejected() {
    let endpoints = vec![OllamaClient::new("a", "m", 0), OllamaClient::new("b", "m", 0)];
    let r = EndpointPool::build(&endpoints);
    assert!(matches!(r, Err(ConfigError::EmptyPool)));
}

#[test]
fn token_with_weight() {
    let (addr, w) = parse_endpoint_token("http://host:11434@3");
    assert_eq!(addr, "http://host:11434");
    assert_eq!(w, 3);
}

#[test]
fn token_without_weight_defaults_to_one() {
    let (addr, w) = parse_endpoint_token("http://host:11434");
    assert_eq!(addr, "http://host:11434");
    assert_eq!(w, 1);
}

#[test]
fn token_with_empty_weight_defaults_to_one() {
    let (addr, w) = parse_endpoint_token("host@");
    assert_eq!(addr, "host");
    assert_eq!(w, 1);
}

#[test]
fn token_with_malformed_weight_defaults_to_one() {
    let (addr, w) = parse_endpoint_token("host@abc");
    assert_eq!(addr, "host");
    assert_eq!(w, 1);
}

#[test]
fn token_with_zero_weight_defaults_to_one() {
    let (addr, w) = parse_endpoint_token("host@0");
    assert_eq!(addr, "host");
    assert_eq!(w, 1);
}

#[test]
fn token_with_oversized_weight_defaults_to_one() {
    let (addr, w) = parse_endpoint_token("host@99999999999999999999999999");
    assert_eq!(addr, "host");
    assert_eq!(w, 1);
}

#[test]
fn token_splits_on_first_at_sign() {
    let (addr, w) = parse_endpoint_token("http://u@h@5");
    assert_eq!(addr, "http://u");
    assert_eq!(w, 1);
}

#[test]
fn client_getters() {
    let c = OllamaClient::new("http://localhost:11434", "qwen2.5vl:latest", 2);
    assert_eq!(c.url(), "http://localhost:11434");
    assert_eq!(c.model(), "qwen2.5vl:latest");
    assert_eq!(c.count(), 2);
}
