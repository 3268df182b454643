use ttlcache::service::{create_api_client, create_service, ApiClient, Config, DataService};
use ttlcache::strmap::StringMap;

#[test]
fn test_default_config() {
    let config = Config::default();
    assert_eq!(config.api_url, "https://api.example.com");
    assert_eq!(config.timeout_millis, 5000);
    assert_eq!(config.retries, 3);
    assert!(!config.debug);
}

#[test]
fn test_data_service() {
    let mut service: DataService<String> = DataService::with_defaults();
    assert_eq!(service.config().retries, 3);
    service.clear();
    let custom = Config { api_url: "https://x".to_string(), timeout_millis: 1, retries: 0, debug: true };
    let service: DataService<u8> = DataService::new(custom.clone());
    assert_eq!(service.config().api_url, "https://x");
    assert!(service.config().debug);
    let _ = create_service::<u8>();
}

#[test]
fn test_build_url() {
    let client = create_api_client();
    assert_eq!(client.build_url("/users"), "https://api.example.com/users");
    assert_eq!(client.build_url("http://other.example/x"), "http://other.example/x");
    assert_eq!(client.build_url("https://other.example/y"), "https://other.example/y");
}

#[test]
fn test_request_response() {
    let client = ApiClient::new(Config::default());
    let url = client.build_url("/items");
    let response = client.request("GET", &url, None).unwrap();
    assert_eq!(response.get("status"), Some(&"200".to_string()));
    assert_eq!(response.get("method"), Some(&"GET".to_string()));
    assert_eq!(response.get("url"), Some(&"https://api.example.com/items".to_string()));
    let mut data = StringMap::new();
    data.insert("k".to_string(), "v".to_string());
    let posted = client.request("POST", &url, Some(data)).unwrap();
    assert_eq!(posted.get("method"), Some(&"POST".to_string()));
}
