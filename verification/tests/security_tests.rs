use rustray::security::{SecurityConfig, SecurityError, TlsConfig};

#[test]
fn test_password_validation() {
    let config = SecurityConfig::default();

    assert!(config.validate_password("Password123!").is_ok());
    assert!(config.validate_password("Pw1!").is_err());
    assert!(config.validate_password("Password!").is_err());
    assert!(config.validate_password("Password123").is_err());
    assert!(config.validate_password("password123!").is_err());
    assert!(config.validate_password("PASSWORD123!").is_err());
}

#[test]
fn test_ip_whitelist() {
    let mut config = SecurityConfig::default();
    config.ip_whitelist = vec!["192.168.1.*".to_string(), "10.0.0.1".to_string()];

    assert!(config.is_ip_allowed("192.168.1.100"));
    assert!(config.is_ip_allowed("192.168.1.200"));
    assert!(config.is_ip_allowed("10.0.0.1"));
    assert!(!config.is_ip_allowed("192.168.2.100"));
    assert!(!config.is_ip_allowed("10.0.0.2"));
}

#[test]
fn test_path_whitelist() {
    let mut config = SecurityConfig::default();
    config.allowed_paths = vec!["/api/v1/*".to_string(), "/health".to_string()];

    assert!(config.is_path_allowed("/api/v1/users"));
    assert!(config.is_path_allowed("/api/v1/tasks"));
    assert!(config.is_path_allowed("/health"));
    assert!(!config.is_path_allowed("/api/v2/users"));
    assert!(!config.is_path_allowed("/metrics"));
}

#[test]
fn password_errors_name_the_first_broken_rule() {
    let config = SecurityConfig::default();
    assert_eq!(config.validate_password("Pw1!"), Err(SecurityError::PasswordTooShort(8)));
    assert_eq!(config.validate_password("Password!"), Err(SecurityError::PasswordMissingNumber));
    assert_eq!(config.validate_password("Password123"), Err(SecurityError::PasswordMissingSpecialChar));
    assert_eq!(config.validate_password("password123!"), Err(SecurityError::PasswordMissingUppercase));
    assert_eq!(config.validate_password("PASSWORD123!"), Err(SecurityError::PasswordMissingLowercase));
    // Too short comes first even when classes are missing too.
    assert_eq!(config.validate_password("abc"), Err(SecurityError::PasswordTooShort(8)));
}

#[test]
fn password_length_counts_bytes() {
    let config = SecurityConfig::default();
    // Seven characters, but "é" takes two bytes: eight bytes in all.
    assert!(config.validate_password("Pé1!abc").is_ok());
    assert_eq!(config.validate_password("Pe1!abc"), Err(SecurityError::PasswordTooShort(8)));
}

#[test]
fn relaxed_policy_accepts_plain_passwords() {
    let mut config = SecurityConfig::default();
    config.require_numbers = false;
    config.require_special_chars = false;
    config.require_uppercase = false;
    assert!(config.validate_password("lowercaseonly").is_ok());
}

#[test]
fn default_secret_is_too_short() {
    let config = SecurityConfig::default();
    assert_eq!(config.validate(), Err(SecurityError::JwtSecretTooShort));
}

#[test]
fn validate_reports_each_policy_rule() {
    let mut config = SecurityConfig::default();
    config.jwt_secret = "0123456789abcdef0123456789abcdef".to_string();
    assert_eq!(config.validate(), Ok(()));
    config.token_expiration = 0;
    assert_eq!(config.validate(), Err(SecurityError::TokenExpirationZero));
    config.token_expiration = 60;
    config.min_password_length = 7;
    assert_eq!(config.validate(), Err(SecurityError::MinPasswordLengthTooSmall));
}

#[test]
fn validate_checks_tls_files() {
    let mut config = SecurityConfig::default();
    config.jwt_secret = "0123456789abcdef0123456789abcdef".to_string();
    config.tls_config = Some(TlsConfig {
        cert_path: "/no/such/cert.pem".to_string(),
        key_path: "/no/such/key.pem".to_string(),
        verify_client: false,
        ca_cert_path: None,
    });
    assert_eq!(config.validate(), Err(SecurityError::CertificateNotFound));
}

#[test]
fn validate_asks_about_each_tls_file() {
    let mut config = SecurityConfig::default();
    config.jwt_secret = "0123456789abcdef0123456789abcdef".to_string();
    config.tls_config = Some(TlsConfig {
        cert_path: "cert.pem".to_string(),
        key_path: "key.pem".to_string(),
        verify_client: true,
        ca_cert_path: Some("ca.pem".to_string()),
    });
    assert_eq!(config.validate_with(|_p: &String| true), Ok(()));
    assert_eq!(config.validate_with(|p: &String| p != "cert.pem"), Err(SecurityError::CertificateNotFound));
    assert_eq!(config.validate_with(|p: &String| p != "key.pem"), Err(SecurityError::PrivateKeyNotFound));
    assert_eq!(config.validate_with(|p: &String| p != "ca.pem"), Err(SecurityError::CaCertificateNotFound));
    if let Some(tls) = config.tls_config.as_mut() {
        tls.verify_client = false;
    }
    assert_eq!(config.validate_with(|p: &String| p != "ca.pem"), Ok(()));
}

#[test]
fn tls_verdict_order() {
    let tls = TlsConfig {
        cert_path: "c".to_string(),
        key_path: "k".to_string(),
        verify_client: true,
        ca_cert_path: Some("ca".to_string()),
    };
    assert_eq!(SecurityConfig::check_tls_files(&tls, false, false, false), Err(SecurityError::CertificateNotFound));
    assert_eq!(SecurityConfig::check_tls_files(&tls, true, false, false), Err(SecurityError::PrivateKeyNotFound));
    assert_eq!(SecurityConfig::check_tls_files(&tls, true, true, false), Err(SecurityError::CaCertificateNotFound));
    assert_eq!(SecurityConfig::check_tls_files(&tls, true, true, true), Ok(()));
}

#[test]
fn empty_whitelists_allow_everything() {
    let config = SecurityConfig::default();
    assert!(config.is_ip_allowed("8.8.8.8"));
    assert!(config.is_path_allowed("/anything"));
}

#[test]
fn to_auth_manager_starts_empty() {
    let config = SecurityConfig::default();
    let mut auth = config.to_auth_manager();
    assert!(auth.take_audit_logs().is_empty());
    assert!(auth.check_permission("nobody", &rustray::security::auth::Permission::Read).is_err());
}

#[test]
fn security_error_messages() {
    let config = SecurityConfig::default();
    assert_eq!(
        config.validate().unwrap_err().message(),
        "JWT secret must be at least 32 characters long"
    );
    assert_eq!(
        config.validate_password("Pw1!").unwrap_err().message(),
        "Password must be at least 8 characters long"
    );
    assert_eq!(SecurityError::PasswordTooShort(0).message(), "Password must be at least 0 characters long");
    assert_eq!(SecurityError::PasswordTooShort(120).message(), "Password must be at least 120 characters long");
    assert_eq!(SecurityError::TokenExpirationZero.message(), "Token expiration must be greater than 0");
    assert_eq!(SecurityError::MinPasswordLengthTooSmall.message(), "Minimum password length must be at least 8");
    assert_eq!(SecurityError::CertificateNotFound.message(), "Certificate file not found");
    assert_eq!(SecurityError::PrivateKeyNotFound.message(), "Private key file not found");
    assert_eq!(SecurityError::CaCertificateNotFound.message(), "CA certificate file not found");
    assert_eq!(SecurityError::PasswordMissingNumber.message(), "Password must contain at least one number");
    assert_eq!(
        SecurityError::PasswordMissingSpecialChar.message(),
        "Password must contain at least one special character"
    );
    assert_eq!(
        SecurityError::PasswordMissingUppercase.message(),
        "Password must contain at least one uppercase letter"
    );
    assert_eq!(
        SecurityError::PasswordMissingLowercase.message(),
        "Password must contain at least one lowercase letter"
    );
}

#[test]
fn validate_asks_only_what_it_needs() {
    let mut config = SecurityConfig::default();
    config.jwt_secret = "0123456789abcdef0123456789abcdef".to_string();
    config.tls_config = Some(TlsConfig {
        cert_path: "cert.pem".to_string(),
        key_path: "key.pem".to_string(),
        verify_client: false,
        ca_cert_path: Some("ca.pem".to_string()),
    });
    let asked = std::cell::RefCell::new(Vec::new());
    let r = config.validate_with(|p: &String| {
        asked.borrow_mut().push(p.clone());
        p != "cert.pem"
    });
    assert_eq!(r, Err(SecurityError::CertificateNotFound));
    assert_eq!(*asked.borrow(), vec!["cert.pem".to_string()]);
    asked.borrow_mut().clear();
    assert_eq!(config.validate_with(|p: &String| {
        asked.borrow_mut().push(p.clone());
        true
    }), Ok(()));
    assert_eq!(*asked.borrow(), vec!["cert.pem".to_string(), "key.pem".to_string()]);
}
