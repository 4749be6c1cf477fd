//! Security configuration: policy validation, password rules and the IP and
//! path whitelists.
use vstd::prelude::*;
use vstd::utf8::encode_utf8;
use crate::text::{
    any_pattern_matches, contains_class, copy_text, decimal, decimal_text, has_class, join_text,
    matches_any_pattern, CharClass,
};

pub mod auth;

verus! {

/// Why a configuration or a password was refused.
#[derive(Debug, Clone, Copy, PartialEq, Eq, Structural)]
pub enum SecurityError {
    /// The JWT secret is shorter than 32 bytes.
    JwtSecretTooShort,
    /// The token lifetime is zero.
    TokenExpirationZero,
    /// The configured minimum password length is below 8.
    MinPasswordLengthTooSmall,
    /// The TLS certificate file does not exist.
    CertificateNotFound,
    /// The TLS private key file does not exist.
    PrivateKeyNotFound,
    /// The CA certificate file does not exist.
    CaCertificateNotFound,
    /// The password is shorter than the minimum length, which it carries.
    PasswordTooShort(usize),
    /// The password holds no numeric character.
    PasswordMissingNumber,
    /// The password holds no special character.
    PasswordMissingSpecialChar,
    /// The password holds no uppercase letter.
    PasswordMissingUppercase,
    /// The password holds no lowercase letter.
    PasswordMissingLowercase,
}

/// The text that describes `e`.
pub open spec fn security_error_text(e: SecurityError) -> Seq<char> {
    match e {
        SecurityError::JwtSecretTooShort => "JWT secret must be at least 32 characters long"@,
        SecurityError::TokenExpirationZero => "Token expiration must be greater than 0"@,
        SecurityError::MinPasswordLengthTooSmall => "Minimum password length must be at least 8"@,
        SecurityError::CertificateNotFound => "Certificate file not found"@,
        SecurityError::PrivateKeyNotFound => "Private key file not found"@,
        SecurityError::CaCertificateNotFound => "CA certificate file not found"@,
        SecurityError::PasswordTooShort(n) => "Password must be at least "@ + decimal(n as nat)
            + " characters long"@,
        SecurityError::PasswordMissingNumber => "Password must contain at least one number"@,
        SecurityError::PasswordMissingSpecialChar => "Password must contain at least one special character"@,
        SecurityError::PasswordMissingUppercase => "Password must contain at least one uppercase letter"@,
        SecurityError::PasswordMissingLowercase => "Password must contain at least one lowercase letter"@,
    }
}

impl SecurityError {
    /// The text that describes the error.
    pub fn message(&self) -> (m: String)
        ensures
            m@ == security_error_text(*self),
    {
        match self {
            SecurityError::JwtSecretTooShort => copy_text("JWT secret must be at least 32 characters long"),
            SecurityError::TokenExpirationZero => copy_text("Token expiration must be greater than 0"),
            SecurityError::MinPasswordLengthTooSmall => copy_text("Minimum password length must be at least 8"),
            SecurityError::CertificateNotFound => copy_text("Certificate file not found"),
            SecurityError::PrivateKeyNotFound => copy_text("Private key file not found"),
            SecurityError::CaCertificateNotFound => copy_text("CA certificate file not found"),
            SecurityError::PasswordTooShort(n) => {
                let head = join_text("Password must be at least ", decimal_text(*n).as_str());
                join_text(head.as_str(), " characters long")
            },
            SecurityError::PasswordMissingNumber => copy_text("Password must contain at least one number"),
            SecurityError::PasswordMissingSpecialChar => copy_text(
                "Password must contain at least one special character",
            ),
            SecurityError::PasswordMissingUppercase => copy_text(
                "Password must contain at least one uppercase letter",
            ),
            SecurityError::PasswordMissingLowercase => copy_text(
                "Password must contain at least one lowercase letter",
            ),
        }
    }
}

/// TLS settings.
#[derive(Debug, Clone)]
pub struct TlsConfig {
    /// Certificate path.
    pub cert_path: String,
    /// Private key path.
    pub key_path: String,
    /// Whether client certificates are verified.
    pub verify_client: bool,
    /// CA certificate path.
    pub ca_cert_path: Option<String>,
}

/// Security settings of the cluster.
#[derive(Debug, Clone)]
pub struct SecurityConfig {
    /// Secret used to sign tokens.
    pub jwt_secret: String,
    /// Token lifetime in seconds.
    pub token_expiration: u64,
    /// Number of failed logins before a lockout.
    pub max_failed_attempts: u32,
    /// Lockout duration in seconds.
    pub lockout_duration: u64,
    /// Minimum password length, in bytes.
    pub min_password_length: usize,
    /// Passwords must hold a numeric character.
    pub require_numbers: bool,
    /// Passwords must hold a special character.
    pub require_special_chars: bool,
    /// Passwords must hold an uppercase letter.
    pub require_uppercase: bool,
    /// Passwords must hold a lowercase letter.
    pub require_lowercase: bool,
    /// Length of the password history.
    pub password_history_length: usize,
    /// TLS settings.
    pub tls_config: Option<TlsConfig>,
    /// Allowed client IPs; a trailing `*` allows a prefix. Empty allows all.
    pub ip_whitelist: Vec<String>,
    /// Allowed API paths; a trailing `*` allows a prefix. Empty allows all.
    pub allowed_paths: Vec<String>,
}

impl Default for SecurityConfig {
    fn default() -> (c: Self)
        ensures
            c.jwt_secret@ == "default_secret_please_change"@,
            c.token_expiration == 3600,
            c.max_failed_attempts == 5,
            c.lockout_duration == 300,
            c.min_password_length == 8,
            c.require_numbers,
            c.require_special_chars,
            c.require_uppercase,
            c.require_lowercase,
            c.password_history_length == 5,
            c.tls_config.is_none(),
            c.ip_whitelist@.len() == 0,
            c.allowed_paths@.len() == 0,
    {
        SecurityConfig {
            jwt_secret: String::from_str("default_secret_please_change"),
            token_expiration: 3600,
            max_failed_attempts: 5,
            lockout_duration: 300,
            min_password_length: 8,
            require_numbers: true,
            require_special_chars: true,
            require_uppercase: true,
            require_lowercase: true,
            password_history_length: 5,
            tls_config: None,
            ip_whitelist: Vec::new(),
            allowed_paths: Vec::new(),
        }
    }
}

/// Calls `std::path::Path::exists`: whether a file is there depends on the
/// disk at the time of the call, so nothing is stated of the result.
#[verifier::external_body]
fn path_exists(path: &str) -> bool {
    std::path::Path::new(path).exists()
}

/// Whether a file exists at `path` (`Path::exists`). It depends on the disk
/// at the time of the call, so nothing is stated of the answer.
pub fn file_exists(path: &String) -> bool {
    path_exists(path.as_str())
}

impl SecurityConfig {
    /// The first policy rule, other than the TLS files, that the
    /// configuration breaks.
    pub open spec fn policy_violation(&self) -> Option<SecurityError> {
        if encode_utf8(self.jwt_secret@).len() < 32 {
            Some(SecurityError::JwtSecretTooShort)
        } else if self.token_expiration == 0 {
            Some(SecurityError::TokenExpirationZero)
        } else if self.min_password_length < 8 {
            Some(SecurityError::MinPasswordLengthTooSmall)
        } else {
            None
        }
    }

    /// The verdict on the TLS files, given which of them exist.
    /// Whether `c`, `k` and `a` are answers `file_exists` gave for the TLS
    /// files, asked in the order the validation asks: the certificate; the
    /// private key only when the certificate exists; the CA certificate only
    /// when both exist, clients are verified and a CA is set.
    pub open spec fn tls_answers<F: Fn(&String) -> bool>(
        file_exists: F,
        tls: TlsConfig,
        c: bool,
        k: bool,
        a: bool,
    ) -> bool {
        &&& file_exists.ensures((&tls.cert_path,), c)
        &&& c ==> file_exists.ensures((&tls.key_path,), k)
        &&& (c && k && tls.verify_client && tls.ca_cert_path is Some) ==> file_exists.ensures(
            (&tls.ca_cert_path->0,),
            a,
        )
    }

    pub open spec fn tls_verdict(
        tls: TlsConfig,
        cert_exists: bool,
        key_exists: bool,
        ca_exists: bool,
    ) -> Result<(), SecurityError> {
        if !cert_exists {
            Err(SecurityError::CertificateNotFound)
        } else if !key_exists {
            Err(SecurityError::PrivateKeyNotFound)
        } else if tls.verify_client && tls.ca_cert_path.is_some() && !ca_exists {
            Err(SecurityError::CaCertificateNotFound)
        } else {
            Ok(())
        }
    }

    /// Checks the TLS files given which of them exist.
    pub fn check_tls_files(tls: &TlsConfig, cert_exists: bool, key_exists: bool, ca_exists: bool)
        -> (r: Result<(), SecurityError>)
        ensures
            r == Self::tls_verdict(*tls, cert_exists, key_exists, ca_exists),
    {
        if !cert_exists {
            Err(SecurityError::CertificateNotFound)
        } else if !key_exists {
            Err(SecurityError::PrivateKeyNotFound)
        } else if tls.verify_client && tls.ca_cert_path.is_some() && !ca_exists {
            Err(SecurityError::CaCertificateNotFound)
        } else {
            Ok(())
        }
    }

    /// Validates the configuration: the JWT secret must be at least 32
    /// bytes long, the token lifetime non-zero, the minimum password
    /// length at least 8, and the TLS files, where TLS is configured, must
    /// exist (the CA file only when clients are verified and a CA is set).
    /// Whether a file exists is asked of `file_exists`, once for each of the
    /// certificate, the private key and, when one is set, the CA certificate.
    pub fn validate_with<F: Fn(&String) -> bool>(&self, file_exists: F) -> (r: Result<(), SecurityError>)
        requires
            forall|p: &String| file_exists.requires((p,)),
        ensures
            self.policy_violation() matches Some(e) ==> r == Err::<(), SecurityError>(e),
            self.policy_violation() is None && self.tls_config is None ==> r is Ok,
            self.policy_violation() is None && self.tls_config is Some ==> exists|
                c: bool,
                k: bool,
                a: bool,
            |
                r == #[trigger] Self::tls_verdict(self.tls_config->0, c, k, a) && Self::tls_answers(
                    file_exists,
                    self.tls_config->0,
                    c,
                    k,
                    a,
                ),
    {
        if self.jwt_secret.as_str().as_bytes().len() < 32 {
            return Err(SecurityError::JwtSecretTooShort);
        }
        if self.token_expiration == 0 {
            return Err(SecurityError::TokenExpirationZero);
        }
        if self.min_password_length < 8 {
            return Err(SecurityError::MinPasswordLengthTooSmall);
        }
        match &self.tls_config {
            None => Ok(()),
            Some(tls) => {
                let c = file_exists(&tls.cert_path);
                if !c {
                    assert(Self::tls_answers(file_exists, *tls, c, false, false));
                    assert(Self::tls_verdict(*tls, c, false, false) == Err::<(), SecurityError>(
                        SecurityError::CertificateNotFound,
                    ));
                    return Err(SecurityError::CertificateNotFound);
                }
                let k = file_exists(&tls.key_path);
                if !k {
                    assert(Self::tls_answers(file_exists, *tls, c, k, false));
                    assert(Self::tls_verdict(*tls, c, k, false) == Err::<(), SecurityError>(
                        SecurityError::PrivateKeyNotFound,
                    ));
                    return Err(SecurityError::PrivateKeyNotFound);
                }
                if tls.verify_client {
                    if let Some(p) = &tls.ca_cert_path {
                        let a = file_exists(p);
                        assert(Self::tls_answers(file_exists, *tls, c, k, a));
                        if !a {
                            assert(Self::tls_verdict(*tls, c, k, a) == Err::<(), SecurityError>(
                                SecurityError::CaCertificateNotFound,
                            ));
                            return Err(SecurityError::CaCertificateNotFound);
                        }
                        assert(Self::tls_verdict(*tls, c, k, a) == Ok::<(), SecurityError>(()));
                        return Ok(());
                    }
                }
                assert(Self::tls_answers(file_exists, *tls, c, k, true));
                assert(Self::tls_verdict(*tls, c, k, true) == Ok::<(), SecurityError>(()));
                Ok(())
            },
        }
    }

    /// Validates the configuration as [`Self::validate_with`] does, asking
    /// the file system ([`file_exists`]) whether each TLS file exists.
    pub fn validate(&self) -> (r: Result<(), SecurityError>)
        ensures
            self.policy_violation() matches Some(e) ==> r == Err::<(), SecurityError>(e),
            self.policy_violation() is None && self.tls_config is None ==> r is Ok,
            self.policy_violation() is None && self.tls_config is Some ==> exists|
                c: bool,
                k: bool,
                a: bool,
            |
                r == #[trigger] Self::tls_verdict(self.tls_config->0, c, k, a) && Self::tls_answers(
                    file_exists,
                    self.tls_config->0,
                    c,
                    k,
                    a,
                ),
    {
        self.validate_with(file_exists)
    }

    /// An authentication manager with this configuration's secret, token
    /// lifetime, failed-attempt limit and lockout duration, and no users.
    pub fn to_auth_manager(&self) -> (m: auth::AuthManager)
        ensures
            m.wf(),
            m.users().len() == 0,
            m.sessions().len() == 0,
            m.audit_trail().len() == 0,
            m.jwt_secret() == self.jwt_secret@,
            m.session_ttl() == self.token_expiration,
            m.max_failed_attempts() == self.max_failed_attempts,
            m.lockout_duration() == self.lockout_duration,
    {
        auth::AuthManager::new(
            self.jwt_secret.clone(),
            self.token_expiration,
            self.max_failed_attempts,
            self.lockout_duration,
        )
    }

    /// The verdict on a password of `byte_len` bytes made of `chars`.
    pub open spec fn password_verdict(&self, byte_len: nat, chars: Seq<char>) -> Result<
        (),
        SecurityError,
    > {
        if byte_len < self.min_password_length {
            Err(SecurityError::PasswordTooShort(self.min_password_length))
        } else if self.require_numbers && !has_class(chars, CharClass::Numeric) {
            Err(SecurityError::PasswordMissingNumber)
        } else if self.require_special_chars && !has_class(chars, CharClass::Special) {
            Err(SecurityError::PasswordMissingSpecialChar)
        } else if self.require_uppercase && !has_class(chars, CharClass::Uppercase) {
            Err(SecurityError::PasswordMissingUppercase)
        } else if self.require_lowercase && !has_class(chars, CharClass::Lowercase) {
            Err(SecurityError::PasswordMissingLowercase)
        } else {
            Ok(())
        }
    }

    /// Checks a password against the policy: its length in bytes first, then
    /// each required character class in the order numbers, special
    /// characters, uppercase, lowercase; the first rule broken is reported.
    pub fn validate_password(&self, password: &str) -> (r: Result<(), SecurityError>)
        ensures
            r == self.password_verdict(encode_utf8(password@).len(), password@),
    {
        if password.as_bytes().len() < self.min_password_length {
            return Err(SecurityError::PasswordTooShort(self.min_password_length));
        }
        if self.require_numbers && !contains_class(password, CharClass::Numeric) {
            return Err(SecurityError::PasswordMissingNumber);
        }
        if self.require_special_chars && !contains_class(password, CharClass::Special) {
            return Err(SecurityError::PasswordMissingSpecialChar);
        }
        if self.require_uppercase && !contains_class(password, CharClass::Uppercase) {
            return Err(SecurityError::PasswordMissingUppercase);
        }
        if self.require_lowercase && !contains_class(password, CharClass::Lowercase) {
            return Err(SecurityError::PasswordMissingLowercase);
        }
        Ok(())
    }

    /// Whether a client IP passes the whitelist: every IP passes an empty
    /// whitelist; otherwise some entry must match it.
    pub fn is_ip_allowed(&self, ip: &str) -> (b: bool)
        ensures
            b == (self.ip_whitelist@.len() == 0 || any_pattern_matches(self.ip_whitelist@, ip@)),
    {
        if self.ip_whitelist.len() == 0 {
            return true;
        }
        matches_any_pattern(&self.ip_whitelist, ip)
    }

    /// Whether an API path passes the allowed paths: every path passes an
    /// empty list; otherwise some entry must match it.
    pub fn is_path_allowed(&self, path: &str) -> (b: bool)
        ensures
            b == (self.allowed_paths@.len() == 0 || any_pattern_matches(
                self.allowed_paths@,
                path@,
            )),
    {
        if self.allowed_paths.len() == 0 {
            return true;
        }
        matches_any_pattern(&self.allowed_paths, path)
    }
}

} // verus!
