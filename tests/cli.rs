use fred_cal::cache::CacheManager;
use fred_cal::cli::{validate_credentials, Cli, Credentials, CredentialsError};

fn cli(server: &str, user: &str, pass: &str, port: u16) -> Cli {
    Cli { caldav_server: server.to_string(), username: user.to_string(), password: pass.to_string(), port }
}

#[test]
fn test_validate_credentials_success() {
    assert!(validate_credentials("https://caldav.example.com", "user@example.com", "password123").is_ok());
}

#[test]
fn test_validate_credentials_http_success() {
    assert!(validate_credentials("http://caldav.example.com", "user@example.com", "password123").is_ok());
}

#[test]
fn test_validate_credentials_empty_url() {
    let result = validate_credentials("", "user@example.com", "password123");
    assert!(result.is_err());
    if let Err(e) = result {
        assert!(e.message().contains("URL cannot be empty"));
    }
}

#[test]
fn test_validate_credentials_empty_username() {
    let result = validate_credentials("https://caldav.example.com", "", "password123");
    assert!(result.is_err());
    if let Err(e) = result {
        assert!(e.message().contains("Username cannot be empty"));
    }
}

#[test]
fn test_validate_credentials_empty_password() {
    let result = validate_credentials("https://caldav.example.com", "user@example.com", "");
    assert!(result.is_err());
    if let Err(e) = result {
        assert!(e.message().contains("Password cannot be empty"));
    }
}

#[test]
fn test_validate_credentials_invalid_url_scheme() {
    let result = validate_credentials("ftp://caldav.example.com", "user@example.com", "password123");
    assert!(result.is_err());
    if let Err(e) = result {
        assert!(e.message().contains("must start with http"));
    }
}

#[test]
fn test_validate_credentials_no_scheme() {
    let result = validate_credentials("caldav.example.com", "user@example.com", "password123");
    assert!(result.is_err());
    if let Err(e) = result {
        assert!(e.message().contains("must start with http"));
    }
}

#[test]
fn test_load_credentials_with_direct_values() {
    let creds = cli("https://caldav.example.com", "testuser", "testpass", 3000).load_credentials().unwrap();
    assert_eq!(creds.server_url, "https://caldav.example.com");
    assert_eq!(creds.username, "testuser");
    assert_eq!(creds.password, "testpass");
}

#[test]
fn test_load_credentials_invalid_url() {
    assert!(cli("ftp://invalid.com", "user", "pass", 3000).load_credentials().is_err());
}

#[test]
fn test_load_credentials_empty_username() {
    assert_eq!(
        cli("https://caldav.example.com", "", "pass", 3000).load_credentials().unwrap_err(),
        CredentialsError::EmptyUsername
    );
}

#[test]
fn test_load_credentials_empty_password() {
    assert_eq!(
        cli("https://caldav.example.com", "user", "", 3000).load_credentials().unwrap_err(),
        CredentialsError::EmptyPassword
    );
}

#[test]
fn test_load_credentials_empty_server() {
    assert_eq!(cli("", "user", "pass", 3000).load_credentials().unwrap_err(), CredentialsError::EmptyServerUrl);
}

#[test]
fn test_load_credentials_http_url() {
    assert!(cli("http://caldav.example.com", "user", "pass", 3000).load_credentials().is_ok());
}

#[test]
fn test_credentials_clone() {
    let creds = Credentials {
        server_url: "https://example.com".to_string(),
        username: "user".to_string(),
        password: "pass".to_string(),
    };
    let cloned = creds.clone();
    assert_eq!(creds.server_url, cloned.server_url);
    assert_eq!(creds.username, cloned.username);
    assert_eq!(creds.password, cloned.password);
}

#[test]
fn test_cli_debug_format() {
    let debug_str = format!("{:?}", cli("https://example.com", "user", "pass", 8080));
    assert!(debug_str.contains("caldav_server"));
    assert!(debug_str.contains("username"));
    assert!(debug_str.contains("password"));
    assert!(debug_str.contains("8080"));
}

#[test]
fn test_credentials_debug_format() {
    let creds = Credentials {
        server_url: "https://example.com".to_string(),
        username: "user".to_string(),
        password: "pass".to_string(),
    };
    let debug_str = format!("{creds:?}");
    assert!(debug_str.contains("server_url"));
    assert!(debug_str.contains("username"));
    assert!(debug_str.contains("password"));
}

#[test]
fn test_cli_port_field() {
    assert_eq!(cli("https://example.com", "user", "pass", 9999).port, 9999);
}

#[test]
fn test_validate_credentials_various_valid_urls() {
    assert!(validate_credentials("https://example.com", "user", "pass").is_ok());
    assert!(validate_credentials("http://localhost", "user", "pass").is_ok());
    assert!(validate_credentials("https://example.com:8443", "user", "pass").is_ok());
    assert!(validate_credentials("https://example.com/path", "user", "pass").is_ok());
    assert!(validate_credentials("https://sub.example.com", "user", "pass").is_ok());
}

#[test]
fn test_cache_directory_path() {
    let cache = CacheManager::new_with_path("/tmp/fred-cal-cache".to_string());
    assert_eq!(cache.cache_directory(), "/tmp/fred-cal-cache");
}

#[test]
fn test_cache_file_path_location() {
    assert_eq!(
        CacheManager::new_with_path("/data/fred-cal".to_string()).cache_file_path(),
        "/data/fred-cal/calendar_data.json"
    );
    assert_eq!(CacheManager::new_with_path("/data/".to_string()).cache_file_path(), "/data/calendar_data.json");
    assert_eq!(CacheManager::new_with_path(String::new()).cache_file_path(), "calendar_data.json");
}
