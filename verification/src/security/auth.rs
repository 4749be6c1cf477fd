//! Authentication and authorisation: user registration, login sessions,
//! signed tokens, role-based permissions and an audit trail.
use vstd::prelude::*;
use crate::metrics::{counter_bumped, counter_of, MetricsCollector};
use crate::text::{copy_text, join_text, text_eq};
use crate::common::new_uuid_text;

verus! {

/// Role of a user.
#[derive(Debug, Clone, Copy, PartialEq, Eq, Structural)]
pub enum UserRole {
    /// Administrator.
    Admin,
    /// Ordinary user.
    User,
    /// Guest.
    Guest,
}

/// A permission that a role grants.
#[derive(Debug, Clone, Copy, PartialEq, Eq, Structural)]
pub enum Permission {
    /// Read.
    Read,
    /// Write.
    Write,
    /// Execute.
    Execute,
    /// Manage.
    Manage,
}

/// The permissions that each role starts with.
pub open spec fn default_permissions(role: UserRole) -> Seq<Permission> {
    match role {
        UserRole::Admin => seq![
            Permission::Read,
            Permission::Write,
            Permission::Execute,
            Permission::Manage,
        ],
        UserRole::User => seq![Permission::Read, Permission::Write, Permission::Execute],
        UserRole::Guest => seq![Permission::Read],
    }
}

/// The name under which a role is written into a token.
pub open spec fn role_name(role: UserRole) -> Seq<char> {
    match role {
        UserRole::Admin => "Admin"@,
        UserRole::User => "User"@,
        UserRole::Guest => "Guest"@,
    }
}

fn role_text(role: UserRole) -> (s: &'static str)
    ensures
        s@ == role_name(role),
{
    match role {
        UserRole::Admin => "Admin",
        UserRole::User => "User",
        UserRole::Guest => "Guest",
    }
}

/// The default permissions of a role, in the order Read, Write, Execute,
/// Manage.
pub fn get_default_permissions(role: &UserRole) -> (v: Vec<Permission>)
    ensures
        v@ == default_permissions(*role),
{
    match role {
        UserRole::Admin => vec![
            Permission::Read,
            Permission::Write,
            Permission::Execute,
            Permission::Manage,
        ],
        UserRole::User => vec![Permission::Read, Permission::Write, Permission::Execute],
        UserRole::Guest => vec![Permission::Read],
    }
}

/// The contents of a [`User`].
pub struct UserView {
    pub id: Seq<char>,
    pub username: Seq<char>,
    pub password_hash: Seq<char>,
    pub role: UserRole,
    pub permissions: Seq<Permission>,
    pub created_at: u64,
    pub last_login: Option<u64>,
}

/// A registered user.
#[derive(Debug)]
pub struct User {
    /// User id.
    pub id: String,
    /// User name, unique among users.
    pub username: String,
    /// bcrypt hash of the password.
    pub password_hash: String,
    /// Role.
    pub role: UserRole,
    /// Granted permissions.
    pub permissions: Vec<Permission>,
    /// Creation time, in seconds since the Unix epoch.
    pub created_at: u64,
    /// Time of the last successful login.
    pub last_login: Option<u64>,
}

impl View for User {
    type V = UserView;

    open spec fn view(&self) -> UserView {
        UserView {
            id: self.id@,
            username: self.username@,
            password_hash: self.password_hash@,
            role: self.role,
            permissions: self.permissions@,
            created_at: self.created_at,
            last_login: self.last_login,
        }
    }
}

fn copy_permissions(p: &Vec<Permission>) -> (r: Vec<Permission>)
    ensures
        r@ == p@,
{
    let mut r: Vec<Permission> = Vec::new();
    let mut i: usize = 0;
    while i < p.len()
        invariant
            i <= p@.len(),
            r@ == p@.subrange(0, i as int),
        decreases p.len() - i,
    {
        r.push(p[i]);
        i = i + 1;
        assert(r@ =~= p@.subrange(0, i as int));
    }
    assert(p@.subrange(0, p@.len() as int) =~= p@);
    r
}

impl Clone for User {
    fn clone(&self) -> (u: Self)
        ensures
            u@ == self@,
    {
        User {
            id: self.id.clone(),
            username: self.username.clone(),
            password_hash: self.password_hash.clone(),
            role: self.role,
            permissions: copy_permissions(&self.permissions),
            created_at: self.created_at,
            last_login: self.last_login,
        }
    }
}

/// The contents of a [`Session`].
pub struct SessionView {
    pub id: Seq<char>,
    pub user_id: Seq<char>,
    pub created_at: u64,
    pub expires_at: u64,
    pub ip_address: Seq<char>,
    pub user_agent: Seq<char>,
}

/// A login session.
#[derive(Debug)]
pub struct Session {
    /// Session id.
    pub id: String,
    /// Id of the user who logged in.
    pub user_id: String,
    /// Creation time, in seconds since the Unix epoch.
    pub created_at: u64,
    /// Expiry time, in seconds since the Unix epoch.
    pub expires_at: u64,
    /// Client IP address.
    pub ip_address: String,
    /// Client user agent.
    pub user_agent: String,
}

impl View for Session {
    type V = SessionView;

    open spec fn view(&self) -> SessionView {
        SessionView {
            id: self.id@,
            user_id: self.user_id@,
            created_at: self.created_at,
            expires_at: self.expires_at,
            ip_address: self.ip_address@,
            user_agent: self.user_agent@,
        }
    }
}

/// The contents of an [`AuditLog`].
pub struct AuditLogView {
    pub event_id: Seq<char>,
    pub event_type: Seq<char>,
    pub user_id: Seq<char>,
    pub resource: Seq<char>,
    pub action: Seq<char>,
    pub status: Seq<char>,
    pub timestamp: u64,
    pub details: Seq<char>,
}

/// An audit record.
#[derive(Debug)]
pub struct AuditLog {
    /// Event id.
    pub event_id: String,
    /// Event type.
    pub event_type: String,
    /// User concerned.
    pub user_id: String,
    /// Resource concerned.
    pub resource: String,
    /// Action taken.
    pub action: String,
    /// Outcome.
    pub status: String,
    /// Time, in seconds since the Unix epoch.
    pub timestamp: u64,
    /// Details.
    pub details: String,
}

impl View for AuditLog {
    type V = AuditLogView;

    open spec fn view(&self) -> AuditLogView {
        AuditLogView {
            event_id: self.event_id@,
            event_type: self.event_type@,
            user_id: self.user_id@,
            resource: self.resource@,
            action: self.action@,
            status: self.status@,
            timestamp: self.timestamp,
            details: self.details@,
        }
    }
}

/// The audit record `rec` describes the given event.
pub open spec fn audit_describes(
    rec: AuditLogView,
    event_type: Seq<char>,
    user_id: Seq<char>,
    resource: Seq<char>,
    action: Seq<char>,
    status: Seq<char>,
    details: Seq<char>,
) -> bool {
    &&& rec.event_id.len() == 36
    &&& rec.event_type == event_type
    &&& rec.user_id == user_id
    &&& rec.resource == resource
    &&& rec.action == action
    &&& rec.status == status
    &&& rec.details == details
}

// ---------------------------------------------------------------------------
// Calls into outside code.
/// What `bcrypt::verify(password, hash)` returns: `Some(b)` for `Ok(b)`,
/// `None` when the hash cannot be parsed or the cost is refused. It depends on
/// its two arguments alone.
pub uninterp spec fn bcrypt_verify_outcome(password: Seq<char>, hash: Seq<char>) -> Option<bool>;

/// What `jsonwebtoken::encode` returns for an HS256 token (default header)
/// over the claims `sub`, `exp`, `iat` and `role`, signed with `secret`:
/// `Some` of the token text, or `None` where encoding fails.
pub uninterp spec fn jwt_hs256_token(
    sub: Seq<char>,
    exp: u64,
    iat: u64,
    role: Seq<char>,
    secret: Seq<char>,
) -> Option<Seq<char>>;

/// Calls `bcrypt::hash(password, bcrypt::DEFAULT_COST)`. The salt is drawn
/// from the operating system, so the hash itself is not stated; what the
/// source shows is that `bcrypt::verify` accepts the same password against
/// the hash it returns (`verify` re-hashes with the salt and cost that the
/// hash carries). The error text is that of `BcryptError`.
#[verifier::external_body]
fn bcrypt_hash(password: &str) -> (r: Result<String, String>)
    ensures
        r matches Ok(h) ==> bcrypt_verify_outcome(password@, h@) == Some(true),
{
    bcrypt::hash(password, bcrypt::DEFAULT_COST).map_err(|e| e.to_string())
}

/// Calls `bcrypt::verify(password, hash)`; the outcome is named by
/// [`bcrypt_verify_outcome`]. The error text is that of `BcryptError`.
#[verifier::external_body]
fn bcrypt_verify(password: &str, hash: &str) -> (r: Result<bool, String>)
    ensures
        match r {
            Ok(b) => bcrypt_verify_outcome(password@, hash@) == Some(b),
            Err(_) => bcrypt_verify_outcome(password@, hash@) is None,
        },
{
    bcrypt::verify(password, hash).map_err(|e| e.to_string())
}

/// Calls `jsonwebtoken::encode` with the default (HS256) header on the
/// claims `sub`, `exp`, `iat`, `role` (a JSON map that keeps this order),
/// keyed by the bytes of `secret`; the
/// token is named by [`jwt_hs256_token`]. The source shows that this call
/// succeeds: an HMAC key from `from_secret` matches the HS256 family, the
/// header and a map of strings and numbers always serialize, and HMAC
/// signing does not fail.
#[verifier::external_body]
fn jwt_encode(sub: &str, exp: u64, iat: u64, role: &str, secret: &str) -> (r: Result<String, String>)
    ensures
        r is Ok,
        r matches Ok(t) ==> t@.len() > 0,
        match r {
            Ok(t) => jwt_hs256_token(sub@, exp, iat, role@, secret@) == Some(t@),
            Err(_) => jwt_hs256_token(sub@, exp, iat, role@, secret@) is None,
        },
{
    let mut claims = serde_json::Map::new();
    claims.insert("sub".to_string(), serde_json::Value::from(sub));
    claims.insert("exp".to_string(), serde_json::Value::from(exp));
    claims.insert("iat".to_string(), serde_json::Value::from(iat));
    claims.insert("role".to_string(), serde_json::Value::from(role));
    let key = jsonwebtoken::EncodingKey::from_secret(secret.as_bytes());
    jsonwebtoken::encode(&jsonwebtoken::Header::default(), &claims, &key).map_err(|e| e.to_string())
}

/// The claims of a decoded token, each as found in its payload: `None` where
/// the claim is missing or of another JSON type than the one named.
pub struct JwtClaims {
    /// `sub`, a string.
    pub sub: Option<String>,
    /// `exp`, a non-negative integer.
    pub exp: Option<u64>,
    /// `iat`, a non-negative integer.
    pub iat: Option<u64>,
    /// `role`, a string.
    pub role: Option<String>,
}

/// Whether the claims are those that this manager's tokens carry: a subject,
/// an expiry, an issue time and a role that names a [`UserRole`].
pub open spec fn claims_complete(c: JwtClaims) -> bool {
    &&& c.sub is Some
    &&& c.exp is Some
    &&& c.iat is Some
    &&& c.role matches Some(r) && (r@ == role_name(UserRole::Admin) || r@ == role_name(UserRole::User)
        || r@ == role_name(UserRole::Guest))
}

/// What a token whose decoding gave `decoded` is answered, with `users`
/// registered: a decoding error `e` gives "Invalid token: e", incomplete
/// claims "Invalid token: malformed claims", a subject that is no user's id
/// "User not found", and otherwise that user.
pub open spec fn claims_answer(
    users: Seq<UserView>,
    decoded: Result<JwtClaims, String>,
    r: Result<User, String>,
) -> bool {
    match decoded {
        Err(e) => r matches Err(m) && m@ == "Invalid token: "@ + e@,
        Ok(c) => if !claims_complete(c) {
            r matches Err(m) && m@ == "Invalid token: malformed claims"@
        } else if has_user_id(users, c.sub->0@) {
            r matches Ok(u) && u@.id == c.sub->0@ && exists|i: int|
                0 <= i < users.len() && u@ == #[trigger] users[i]
        } else {
            r matches Err(m) && m@ == "User not found"@
        },
    }
}

/// Whether `r`, the outcome of decoding `token` with `secret`, agrees with
/// how the token was signed: a success on a token that [`jwt_hs256_token`]
/// names for some claims and the same secret gives back exactly those claims.
pub open spec fn decoded_as_signed(token: Seq<char>, secret: Seq<char>, r: Result<JwtClaims, String>) -> bool {
    r matches Ok(c) ==> forall|sub: Seq<char>, exp: u64, iat: u64, role: Seq<char>|
        #[trigger] jwt_hs256_token(sub, exp, iat, role, secret) == Some(token) ==> (c.sub matches Some(s)
            && s@ == sub && c.exp == Some(exp) && c.iat == Some(iat) && (c.role matches Some(o) && o@
            == role))
}

/// Calls `jsonwebtoken::decode` with the default validation (HS256, expiry
/// checked against the clock) into a JSON map and hands back the claims
/// `sub`, `exp`, `iat` and `role`. Whether it succeeds depends on the clock,
/// so that is not stated. What is stated is what the source shows of a
/// success on a token that `jwt_encode` made with the same secret: the
/// signature is checked against the payload that was signed, and the payload
/// parses back to the claims that were encoded.
#[verifier::external_body]
fn jwt_decode_claims(token: &str, secret: &str) -> (r: Result<JwtClaims, String>)
    ensures
        decoded_as_signed(token@, secret@, r),
{
    let key = jsonwebtoken::DecodingKey::from_secret(secret.as_bytes());
    let validation = jsonwebtoken::Validation::default();
    let data = jsonwebtoken::decode::<serde_json::Map<String, serde_json::Value>>(token, &key, &validation)
        .map_err(|e| e.to_string())?;
    let c = &data.claims;
    Ok(JwtClaims {
        sub: c.get("sub").and_then(|v| v.as_str()).map(|t| t.to_string()),
        exp: c.get("exp").and_then(|v| v.as_u64()),
        iat: c.get("iat").and_then(|v| v.as_u64()),
        role: c.get("role").and_then(|v| v.as_str()).map(|t| t.to_string()),
    })
}

/// Decodes `token` with `secret`: jsonwebtoken checks the HS256 signature and
/// the expiry against the clock, and the claims come back (see
/// [`JwtClaims`]). Whether it succeeds depends on the clock; a success on a
/// token signed with the same secret gives back the claims it was signed
/// with.
pub fn decode_token(token: &str, secret: &str) -> (r: Result<JwtClaims, String>)
    ensures
        decoded_as_signed(token@, secret@, r),
{
    jwt_decode_claims(token, secret)
}

/// Reads the system clock (`SystemTime::now`): whole seconds since the Unix
/// epoch, zero for a clock set before it. Nothing is stated of the result.
#[verifier::external_body]
pub(crate) fn unix_time_secs() -> u64 {
    std::time::SystemTime::now().duration_since(std::time::UNIX_EPOCH).unwrap_or_default().as_secs()
}

/// The system clock in whole seconds since the Unix epoch (zero for a clock
/// set before it). It depends on the clock, so nothing is stated of it.
pub fn unix_now() -> u64 {
    unix_time_secs()
}

// ---------------------------------------------------------------------------
// Keyed sequences.
/// Index of the user whose name is `name`, if any.
pub open spec fn has_username(users: Seq<UserView>, name: Seq<char>) -> bool {
    exists|i: int| 0 <= i < users.len() && (#[trigger] users[i]).username == name
}

/// Some user has the id `id`.
pub open spec fn has_user_id(users: Seq<UserView>, id: Seq<char>) -> bool {
    exists|i: int| 0 <= i < users.len() && (#[trigger] users[i]).id == id
}

/// The users after `u` is stored under its id: it replaces the user with that
/// id, or is appended.
pub open spec fn store_user(users: Seq<UserView>, u: UserView) -> Seq<UserView> {
    if has_user_id(users, u.id) {
        let i = choose|i: int| 0 <= i < users.len() && (#[trigger] users[i]).id == u.id;
        users.update(i, u)
    } else {
        users.push(u)
    }
}

/// Some session has the id `id`.
pub open spec fn has_session_id(sessions: Seq<SessionView>, id: Seq<char>) -> bool {
    exists|i: int| 0 <= i < sessions.len() && (#[trigger] sessions[i]).id == id
}

/// The sessions after `s` is stored under its id.
pub open spec fn store_session(sessions: Seq<SessionView>, s: SessionView) -> Seq<SessionView> {
    if has_session_id(sessions, s.id) {
        let i = choose|i: int| 0 <= i < sessions.len() && (#[trigger] sessions[i]).id == s.id;
        sessions.update(i, s)
    } else {
        sessions.push(s)
    }
}

/// The sessions without the one whose id is `id`.
pub open spec fn drop_session(sessions: Seq<SessionView>, id: Seq<char>) -> Seq<SessionView> {
    if has_session_id(sessions, id) {
        let i = choose|i: int| 0 <= i < sessions.len() && (#[trigger] sessions[i]).id == id;
        sessions.remove(i)
    } else {
        sessions
    }
}

/// The token that a user with id `user_id` and role `role` gets when it is
/// issued at `iat` and lives `ttl` seconds.
pub open spec fn token_for(
    user_id: Seq<char>,
    role: UserRole,
    secret: Seq<char>,
    ttl: u64,
    iat: u64,
) -> Option<Seq<char>> {
    if iat + ttl <= u64::MAX {
        jwt_hs256_token(user_id, (iat + ttl) as u64, iat, role_name(role), secret)
    } else {
        None
    }
}

/// Ids and names are unique among users; ids are unique among sessions.
pub open spec fn users_unique(users: Seq<UserView>) -> bool {
    forall|i: int, j: int|
        0 <= i < users.len() && 0 <= j < users.len() && i != j ==> (#[trigger] users[i]).id
            != (#[trigger] users[j]).id && users[i].username != users[j].username
}

/// Session ids are unique.
pub open spec fn sessions_unique(sessions: Seq<SessionView>) -> bool {
    forall|i: int, j: int|
        0 <= i < sessions.len() && 0 <= j < sessions.len() && i != j ==> (#[trigger] sessions[i]).id
            != (#[trigger] sessions[j]).id
}

/// The authentication manager.
pub struct AuthManager {
    users: Vec<User>,
    sessions: Vec<Session>,
    jwt_secret: String,
    session_ttl: u64,
    max_failed_attempts: u32,
    lockout_duration: u64,
    audit_log: Vec<AuditLog>,
    metrics: MetricsCollector,
}

impl AuthManager {
    /// The registered users, in registration order.
    pub closed spec fn users(&self) -> Seq<UserView> {
        self.users@.map_values(|u: User| u@)
    }

    /// The open sessions.
    pub closed spec fn sessions(&self) -> Seq<SessionView> {
        self.sessions@.map_values(|s: Session| s@)
    }

    /// The audit records not yet handed out.
    pub closed spec fn audit_trail(&self) -> Seq<AuditLogView> {
        self.audit_log@.map_values(|a: AuditLog| a@)
    }

    /// The token signing secret.
    pub closed spec fn jwt_secret(&self) -> Seq<char> {
        self.jwt_secret@
    }

    /// Session and token lifetime, in seconds.
    pub closed spec fn session_ttl(&self) -> u64 {
        self.session_ttl
    }

    /// Failed logins allowed before a lockout.
    pub closed spec fn max_failed_attempts(&self) -> u32 {
        self.max_failed_attempts
    }

    /// Lockout duration, in seconds.
    pub closed spec fn lockout_duration(&self) -> u64 {
        self.lockout_duration
    }

    /// The manager's counters: "auth.users.registered", "auth.login.success",
    /// "auth.login.failed" and "auth.logout".
    pub closed spec fn counters(&self) -> Seq<(Seq<char>, i64)> {
        self.metrics.counters()
    }

    /// Well-formedness: user ids, user names and session ids are unique.
    pub closed spec fn wf(&self) -> bool {
        users_unique(self.users()) && sessions_unique(self.sessions()) && self.metrics.wf()
    }

    /// The manager's metrics.
    pub fn metrics(&self) -> (m: &MetricsCollector)
        ensures
            m.counters() == self.counters(),
    {
        &self.metrics
    }

    /// A manager with no users and no sessions.
    pub fn new(
        jwt_secret: String,
        session_ttl: u64,
        max_failed_attempts: u32,
        lockout_duration: u64,
    ) -> (m: Self)
        ensures
            m.wf(),
            m.users().len() == 0,
            m.sessions().len() == 0,
            m.audit_trail().len() == 0,
            m.jwt_secret() == jwt_secret@,
            m.session_ttl() == session_ttl,
            m.max_failed_attempts() == max_failed_attempts,
            m.lockout_duration() == lockout_duration,
            forall|k: Seq<char>| #[trigger] counter_of(m.counters(), k) == 0,
    {
        let m = AuthManager {
            users: Vec::new(),
            sessions: Vec::new(),
            jwt_secret,
            session_ttl,
            max_failed_attempts,
            lockout_duration,
            audit_log: Vec::new(),
            metrics: MetricsCollector::new(),
        };
        assert(m.users() =~= Seq::<UserView>::empty());
        assert(m.sessions() =~= Seq::<SessionView>::empty());
        assert(m.audit_trail() =~= Seq::<AuditLogView>::empty());
        m
    }

    fn find_user_by_name(&self, name: &str) -> (r: Option<usize>)
        ensures
            match r {
                Some(i) => i < self.users().len() && self.users()[i as int].username == name@,
                None => !has_username(self.users(), name@),
            },
    {
        let mut i: usize = 0;
        while i < self.users.len()
            invariant
                i <= self.users@.len(),
                forall|j: int| 0 <= j < i ==> (#[trigger] self.users@[j]).username@ != name@,
            decreases self.users.len() - i,
        {
            if text_eq(self.users[i].username.as_str(), name) {
                return Some(i);
            }
            i = i + 1;
        }
        assert forall|j: int| 0 <= j < self.users().len() implies (#[trigger] self.users()[j]).username
            != name@ by {
            assert(self.users@[j].username@ != name@);
        }
        None
    }

    fn find_user_by_id(&self, id: &str) -> (r: Option<usize>)
        ensures
            match r {
                Some(i) => i < self.users().len() && self.users()[i as int].id == id@,
                None => !has_user_id(self.users(), id@),
            },
    {
        let mut i: usize = 0;
        while i < self.users.len()
            invariant
                i <= self.users@.len(),
                forall|j: int| 0 <= j < i ==> (#[trigger] self.users@[j]).id@ != id@,
            decreases self.users.len() - i,
        {
            if text_eq(self.users[i].id.as_str(), id) {
                return Some(i);
            }
            i = i + 1;
        }
        assert forall|j: int| 0 <= j < self.users().len() implies (#[trigger] self.users()[j]).id
            != id@ by {
            assert(self.users@[j].id@ != id@);
        }
        None
    }

    fn find_session(&self, id: &str) -> (r: Option<usize>)
        ensures
            match r {
                Some(i) => i < self.sessions().len() && self.sessions()[i as int].id == id@,
                None => !has_session_id(self.sessions(), id@),
            },
    {
        let mut i: usize = 0;
        while i < self.sessions.len()
            invariant
                i <= self.sessions@.len(),
                forall|j: int| 0 <= j < i ==> (#[trigger] self.sessions@[j]).id@ != id@,
            decreases self.sessions.len() - i,
        {
            if text_eq(self.sessions[i].id.as_str(), id) {
                return Some(i);
            }
            i = i + 1;
        }
        assert forall|j: int| 0 <= j < self.sessions().len() implies (#[trigger] self.sessions()[
            j]).id != id@ by {
            assert(self.sessions@[j].id@ != id@);
        }
        None
    }

    fn record_audit(
        &mut self,
        event_type: &str,
        user_id: &str,
        resource: &str,
        action: &str,
        status: &str,
        details: &str,
    )
        ensures
            final(self).counters() == old(self).counters(),
            final(self).users() == old(self).users(),
            final(self).sessions() == old(self).sessions(),
            final(self).jwt_secret() == old(self).jwt_secret(),
            final(self).session_ttl() == old(self).session_ttl(),
            final(self).max_failed_attempts() == old(self).max_failed_attempts(),
            final(self).lockout_duration() == old(self).lockout_duration(),
            final(self).wf() == old(self).wf(),
            final(self).audit_trail().len() == old(self).audit_trail().len() + 1,
            final(self).audit_trail().drop_last() == old(self).audit_trail(),
            audit_describes(
                final(self).audit_trail().last(),
                event_type@,
                user_id@,
                resource@,
                action@,
                status@,
                details@,
            ),
    {
        let rec = AuditLog {
            event_id: new_uuid_text(),
            event_type: copy_text(event_type),
            user_id: copy_text(user_id),
            resource: copy_text(resource),
            action: copy_text(action),
            status: copy_text(status),
            timestamp: unix_time_secs(),
            details: copy_text(details),
        };
        self.audit_log.push(rec);
        assert(self.audit_trail().drop_last() =~= old(self).audit_trail());
    }

    /// Stores `user` under its id, replacing the user with that id if any.
    fn put_user(&mut self, user: User)
        requires
            old(self).wf(),
            !has_username(old(self).users(), user@.username),
        ensures
            final(self).counters() == old(self).counters(),
            final(self).users() == store_user(old(self).users(), user@),
            final(self).sessions() == old(self).sessions(),
            final(self).audit_trail() == old(self).audit_trail(),
            final(self).jwt_secret() == old(self).jwt_secret(),
            final(self).session_ttl() == old(self).session_ttl(),
            final(self).max_failed_attempts() == old(self).max_failed_attempts(),
            final(self).lockout_duration() == old(self).lockout_duration(),
            final(self).wf(),
    {
        let ghost old_users = self.users();
        let ghost u = user@;
        match self.find_user_by_id(user.id.as_str()) {
            Some(i) => {
                self.users.set(i, user);
                proof {
                    let k = choose|k: int|
                        0 <= k < old_users.len() && (#[trigger] old_users[k]).id == u.id;
                    assert(k == i as int);
                    assert(self.users() =~= old_users.update(i as int, u));
                    assert forall|a: int, b: int|
                        0 <= a < self.users().len() && 0 <= b < self.users().len() && a != b
                            implies (#[trigger] self.users()[a]).id != (#[trigger] self.users()[
                        b]).id && self.users()[a].username != self.users()[b].username by {
                        if a != i && b != i {
                            assert(old_users[a] == self.users()[a]);
                            assert(old_users[b] == self.users()[b]);
                        }
                        if a == i {
                            assert(old_users[b] == self.users()[b]);
                        }
                        if b == i {
                            assert(old_users[a] == self.users()[a]);
                        }
                    }
                }
            },
            None => {
                self.users.push(user);
                proof {
                    assert(self.users() =~= old_users.push(u));
                    assert forall|a: int, b: int|
                        0 <= a < self.users().len() && 0 <= b < self.users().len() && a != b
                            implies (#[trigger] self.users()[a]).id != (#[trigger] self.users()[
                        b]).id && self.users()[a].username != self.users()[b].username by {
                        if a < old_users.len() && b < old_users.len() {
                            assert(old_users[a] == self.users()[a]);
                            assert(old_users[b] == self.users()[b]);
                        } else if a < old_users.len() {
                            assert(old_users[a] == self.users()[a]);
                        } else {
                            assert(old_users[b] == self.users()[b]);
                        }
                    }
                }
            },
        }
    }

    /// Registers a user. A name already taken is refused with "Username
    /// already exists" and nothing changes. Otherwise the password is hashed
    /// with bcrypt; a hashing error is reported as "Failed to hash password:
    /// ..." and nothing changes. On success the user, with a fresh 36-character
    /// id, the default permissions of its role and no last login, is stored
    /// under its id and a "user_registration" audit record is appended.
    pub fn register_user(&mut self, username: String, password: String, role: UserRole) -> (r:
        Result<User, String>)
        requires
            old(self).wf(),
            counter_of(old(self).counters(), "auth.users.registered"@) < i64::MAX,
        ensures
            final(self).wf(),
            r is Err ==> final(self).counters() == old(self).counters(),
            r is Ok ==> counter_bumped(old(self).counters(), final(self).counters(), "auth.users.registered"@),
            final(self).sessions() == old(self).sessions(),
            final(self).jwt_secret() == old(self).jwt_secret(),
            final(self).session_ttl() == old(self).session_ttl(),
            has_username(old(self).users(), username@) ==> (r matches Err(e) && e@
                == "Username already exists"@),
            r is Err ==> final(self).users() == old(self).users() && final(self).audit_trail()
                == old(self).audit_trail(),
            !has_username(old(self).users(), username@) ==> (r matches Err(e) ==> e@
                =~= "Failed to hash password: "@ + e@.skip(25)),
            r matches Ok(u) ==> {
                &&& !has_username(old(self).users(), username@)
                &&& u@.id.len() == 36
                &&& u@.username == username@
                &&& u@.role == role
                &&& u@.permissions == default_permissions(role)
                &&& u@.last_login is None
                &&& bcrypt_verify_outcome(password@, u@.password_hash) == Some(true)
                &&& final(self).users() == store_user(old(self).users(), u@)
                &&& final(self).audit_trail().drop_last() == old(self).audit_trail()
                &&& audit_describes(
                    final(self).audit_trail().last(),
                    "user_registration"@,
                    u@.id,
                    "user"@,
                    "create"@,
                    "success"@,
                    "User registration successful"@,
                )
            },
    {
        if self.find_user_by_name(username.as_str()).is_some() {
            return Err(String::from_str("Username already exists"));
        }
        let password_hash = match bcrypt_hash(password.as_str()) {
            Ok(h) => h,
            Err(e) => {
                let msg = join_text("Failed to hash password: ", e.as_str());
                proof {
                    reveal_strlit("Failed to hash password: ");
                    assert(msg@.skip(25) =~= e@);
                }
                return Err(msg);
            },
        };
        let user = User {
            id: new_uuid_text(),
            username,
            password_hash,
            role,
            permissions: get_default_permissions(&role),
            created_at: unix_time_secs(),
            last_login: None,
        };
        let result = user.clone();
        self.put_user(user);
        let ghost before_audit = self.audit_trail();
        self.record_audit(
            "user_registration",
            result.id.as_str(),
            "user",
            "create",
            "success",
            "User registration successful",
        );
        let _ = self.metrics.increment_counter("auth.users.registered", 1);
        Ok(result)
    }

    /// Starts a session for the user named `username`. An unknown name gives
    /// "User not found"; a hash that bcrypt cannot check gives "Failed to
    /// verify password: ..."; in both cases nothing changes. A wrong password
    /// gives "Invalid password" and appends a "login_failed" audit record.
    /// A right one sets the user's last login to the current time and signs a
    /// token whose claims are the user id, the role, the issue time and the
    /// issue time plus the session lifetime; the new session, which expires
    /// after the same lifetime, is stored under a fresh id, a
    /// "login_success" record is appended, and the session id and the token
    /// come back.
    pub fn login(&mut self, username: &str, password: &str, ip_address: String, user_agent: String)
        -> (r: Result<(String, String), String>)
        requires
            old(self).wf(),
            counter_of(old(self).counters(), "auth.login.success"@) < i64::MAX,
            counter_of(old(self).counters(), "auth.login.failed"@) < i64::MAX,
        ensures
            final(self).wf(),
            r is Ok ==> counter_bumped(old(self).counters(), final(self).counters(), "auth.login.success"@),
            final(self).jwt_secret() == old(self).jwt_secret(),
            final(self).session_ttl() == old(self).session_ttl(),
            final(self).users().len() == old(self).users().len(),
            !has_username(old(self).users(), username@) ==> (r matches Err(e) && e@
                == "User not found"@ && final(self).users() == old(self).users()
                && final(self).sessions() == old(self).sessions() && final(self).audit_trail()
                == old(self).audit_trail() && final(self).counters() == old(self).counters()),
            forall|i: int|
                0 <= i < old(self).users().len() && (#[trigger] old(self).users()[i]).username
                    == username@ ==> {
                    let u = old(self).users()[i];
                    &&& bcrypt_verify_outcome(password@, u.password_hash) is None ==> r is Err
                        && final(self).users() == old(self).users() && final(self).sessions()
                        == old(self).sessions() && final(self).audit_trail()
                        == old(self).audit_trail() && final(self).counters() == old(self).counters()
                    &&& bcrypt_verify_outcome(password@, u.password_hash) == Some(false) ==> {
                        &&& r matches Err(e) && e@ == "Invalid password"@
                        &&& counter_bumped(old(self).counters(), final(self).counters(), "auth.login.failed"@)
                        &&& final(self).users() == old(self).users()
                        &&& final(self).sessions() == old(self).sessions()
                        &&& final(self).audit_trail().drop_last() == old(self).audit_trail()
                        &&& audit_describes(
                            final(self).audit_trail().last(),
                            "login_failed"@,
                            u.id,
                            "session"@,
                            "create"@,
                            "failed"@,
                            "Invalid password"@,
                        )
                    }
                    &&& bcrypt_verify_outcome(password@, u.password_hash) == Some(true) ==> {
                        &&& final(self).users()[i].last_login is Some
                        &&& exists|now: u64|
                            #[trigger] call_ensures(unix_now, (), now) && final(self).users()[i].last_login
                                == Some(now)
                        &&& final(self).users() == old(self).users().update(
                            i,
                            UserView { last_login: final(self).users()[i].last_login, ..u },
                        )
                        &&& r is Err ==> final(self).sessions() == old(self).sessions()
                            && final(self).audit_trail() == old(self).audit_trail()
                            && final(self).counters() == old(self).counters()
                        &&& r matches Err(e) ==> (e@ == "Session expiry overflows"@
                            && final(self).users()[i].last_login->0 + old(self).session_ttl() > u64::MAX)
                            || (e@ == "Token expiry overflows"@ && exists|iat: u64|
                            #[trigger] call_ensures(unix_now, (), iat) && iat + old(self).session_ttl()
                                > u64::MAX)
                        &&& old(self).session_ttl() == 0 ==> r is Ok
                        &&& r matches Ok(p) ==> {
                            let (sid, token) = p;
                            let now = final(self).users()[i].last_login->0;
                            &&& token@.len() > 0
                            &&& exists|iat: u64|
                                #[trigger] call_ensures(unix_now, (), iat) && token_for(
                                    u.id,
                                    u.role,
                                    old(self).jwt_secret(),
                                    old(self).session_ttl(),
                                    iat,
                                ) == Some(token@) && final(self).sessions() == store_session(
                                    old(self).sessions(),
                                    SessionView {
                                        id: sid@,
                                        user_id: u.id,
                                        created_at: now,
                                        expires_at: (now + old(self).session_ttl()) as u64,
                                        ip_address: ip_address@,
                                        user_agent: user_agent@,
                                    },
                                ) && sid@.len() == 36 && final(self).audit_trail().drop_last()
                                    == old(self).audit_trail() && audit_describes(
                                    final(self).audit_trail().last(),
                                    "login_success"@,
                                    u.id,
                                    "session"@,
                                    "create"@,
                                    "success"@,
                                    "User login successful"@,
                                )
                        }
                    }
                },
    {
        let i = match self.find_user_by_name(username) {
            Some(i) => i,
            None => return Err(String::from_str("User not found")),
        };
        let ghost u = self.users()[i as int];
        proof {
            assert forall|j: int|
                0 <= j < self.users().len() && (#[trigger] self.users()[j]).username
                    == username@ implies j == i as int by {
                if j != i as int {
                    assert(self.users()[j].username != self.users()[i as int].username);
                }
            }
        }
        let verified = match bcrypt_verify(password, self.users[i].password_hash.as_str()) {
            Ok(b) => b,
            Err(e) => return Err(join_text("Failed to verify password: ", e.as_str())),
        };
        if !verified {
            let user_id = self.users[i].id.clone();
            self.record_audit(
                "login_failed",
                user_id.as_str(),
                "session",
                "create",
                "failed",
                "Invalid password",
            );
            let _ = self.metrics.increment_counter("auth.login.failed", 1);
            return Err(String::from_str("Invalid password"));
        }
        let now = unix_now();
        let ghost old_users = self.users();
        self.users[i].last_login = Some(now);
        proof {
            assert(self.users() =~= old_users.update(i as int, UserView { last_login: Some(now), ..u }));
            assert forall|a: int, b: int|
                0 <= a < self.users().len() && 0 <= b < self.users().len() && a != b
                    implies (#[trigger] self.users()[a]).id != (#[trigger] self.users()[b]).id
                && self.users()[a].username != self.users()[b].username by {
                assert(old_users[a].id == self.users()[a].id);
                assert(old_users[b].id == self.users()[b].id);
                assert(old_users[a].username == self.users()[a].username);
                assert(old_users[b].username == self.users()[b].username);
            }
        }
        let expires_at = match now.checked_add(self.session_ttl) {
            Some(t) => t,
            None => {
                let e = String::from_str("Session expiry overflows");
                assert(self.users()[i as int].last_login == Some(now));
                assert(now + self.session_ttl > u64::MAX);
                return Err(e);
            },
        };
        let user_id = self.users[i].id.clone();
        let role = self.users[i].role;
        let iat = unix_now();
        let token = match self.generate_token_at(user_id.as_str(), role, iat) {
            Ok(t) => t,
            Err(e) => {
                assert(call_ensures(unix_now, (), iat) && iat + self.session_ttl > u64::MAX);
                return Err(e);
            },
        };
        assert(call_ensures(unix_now, (), iat));
        assert(call_ensures(unix_now, (), now));
        let session_id = new_uuid_text();
        let session = Session {
            id: session_id.clone(),
            user_id: user_id.clone(),
            created_at: now,
            expires_at,
            ip_address,
            user_agent,
        };
        self.put_session(session);
        self.record_audit(
            "login_success",
            user_id.as_str(),
            "session",
            "create",
            "success",
            "User login successful",
        );
        let _ = self.metrics.increment_counter("auth.login.success", 1);
        Ok((session_id, token))
    }

    fn put_session(&mut self, session: Session)
        requires
            old(self).wf(),
        ensures
            final(self).counters() == old(self).counters(),
            final(self).sessions() == store_session(old(self).sessions(), session@),
            final(self).users() == old(self).users(),
            final(self).audit_trail() == old(self).audit_trail(),
            final(self).jwt_secret() == old(self).jwt_secret(),
            final(self).session_ttl() == old(self).session_ttl(),
            final(self).max_failed_attempts() == old(self).max_failed_attempts(),
            final(self).lockout_duration() == old(self).lockout_duration(),
            final(self).wf(),
    {
        let ghost old_s = self.sessions();
        let ghost s = session@;
        match self.find_session(session.id.as_str()) {
            Some(i) => {
                self.sessions.set(i, session);
                proof {
                    let k = choose|k: int| 0 <= k < old_s.len() && (#[trigger] old_s[k]).id == s.id;
                    assert(k == i as int);
                    assert(self.sessions() =~= old_s.update(i as int, s));
                    assert forall|a: int, b: int|
                        0 <= a < self.sessions().len() && 0 <= b < self.sessions().len() && a
                            != b implies (#[trigger] self.sessions()[a]).id != (
                        #[trigger] self.sessions()[b]).id by {
                        if a != i {
                            assert(old_s[a] == self.sessions()[a]);
                        }
                        if b != i {
                            assert(old_s[b] == self.sessions()[b]);
                        }
                    }
                }
            },
            None => {
                self.sessions.push(session);
                proof {
                    assert(self.sessions() =~= old_s.push(s));
                    assert forall|a: int, b: int|
                        0 <= a < self.sessions().len() && 0 <= b < self.sessions().len() && a
                            != b implies (#[trigger] self.sessions()[a]).id != (
                        #[trigger] self.sessions()[b]).id by {
                        if a < old_s.len() {
                            assert(old_s[a] == self.sessions()[a]);
                        }
                        if b < old_s.len() {
                            assert(old_s[b] == self.sessions()[b]);
                        }
                    }
                }
            },
        }
    }

    /// Signs a token for `user_id` and `role`, issued at `iat` and expiring
    /// after the session lifetime: "Token expiry overflows" exactly when that
    /// expiry does not fit in a `u64`.
    fn generate_token_at(&self, user_id: &str, role: UserRole, iat: u64) -> (r: Result<String, String>)
        ensures
            r is Err <==> iat + self.session_ttl() > u64::MAX,
            r matches Ok(t) ==> token_for(user_id@, role, self.jwt_secret(), self.session_ttl(), iat)
                == Some(t@) && t@.len() > 0,
            r matches Err(m) ==> m@ == "Token expiry overflows"@,
    {
        let exp = match iat.checked_add(self.session_ttl) {
            Some(t) => t,
            None => return Err(String::from_str("Token expiry overflows")),
        };
        match jwt_encode(user_id, exp, iat, role_text(role), self.jwt_secret.as_str()) {
            Ok(t) => Ok(t),
            Err(e) => Err(join_text("Failed to generate token: ", e.as_str())),
        }
    }

    /// The user that a decoded token names: a decoding error `e` gives
    /// "Invalid token: e"; claims that are not complete (see
    /// [`claims_complete`]) give "Invalid token: malformed claims"; a subject
    /// that is no user's id gives "User not found"; otherwise a copy of that
    /// user.
    pub fn user_for_subject(&self, decoded: Result<JwtClaims, String>) -> (r: Result<User, String>)
        ensures
            claims_answer(self.users(), decoded, r),
    {
        match decoded {
            Err(e) => Err(join_text("Invalid token: ", e.as_str())),
            Ok(c) => {
                let role_ok = match &c.role {
                    Some(r) => text_eq(r.as_str(), role_text(UserRole::Admin)) || text_eq(
                        r.as_str(),
                        role_text(UserRole::User),
                    ) || text_eq(r.as_str(), role_text(UserRole::Guest)),
                    None => false,
                };
                if !role_ok || c.exp.is_none() || c.iat.is_none() {
                    return Err(String::from_str("Invalid token: malformed claims"));
                }
                match &c.sub {
                    None => Err(String::from_str("Invalid token: malformed claims")),
                    Some(sub) => match self.find_user_by_id(sub.as_str()) {
                        Some(i) => {
                            let u = self.users[i].clone();
                            assert(u@ == self.users()[i as int]);
                            Ok(u)
                        },
                        None => Err(String::from_str("User not found")),
                    },
                }
            },
        }
    }

    /// Decodes `token` with `decode`, handing it the token and the manager's
    /// secret, and answers as [`Self::user_for_subject`] does for what came
    /// back.
    pub fn verify_token_with<F: Fn(&str, &str) -> Result<JwtClaims, String>>(&self, token: &str, decode: F)
        -> (r: Result<User, String>)
        requires
            forall|t: &str, k: &str| decode.requires((t, k)),
        ensures
            exists|k: &str, d: Result<JwtClaims, String>|
                k@ == self.jwt_secret() && #[trigger] decode.ensures((token, k), d) && claims_answer(
                    self.users(),
                    d,
                    r,
                ),
    {
        let secret = self.jwt_secret.as_str();
        let decoded = decode(token, secret);
        let ghost d = decoded;
        let r = self.user_for_subject(decoded);
        assert(decode.ensures((token, secret), d));
        r
    }

    /// Checks a token's signature and expiry with the manager's secret
    /// ([`decode_token`] with the token and the secret) and answers for what
    /// came back as [`Self::user_for_subject`] does: the user whose id is the
    /// token's subject, or the error. Whether a token still passes depends on
    /// the clock; what is done with the outcome does not.
    pub fn verify_token(&self, token: &str) -> (r: Result<User, String>)
        ensures
            exists|k: &str, d: Result<JwtClaims, String>|
                k@ == self.jwt_secret() && #[trigger] call_ensures(decode_token, (token, k), d)
                    && claims_answer(self.users(), d, r),
    {
        let secret = self.jwt_secret.as_str();
        let decoded = decode_token(token, secret);
        let ghost d = decoded;
        let r = self.user_for_subject(decoded);
        assert(call_ensures(decode_token, (token, secret), d));
        r
    }

    /// Whether the user with id `user_id` holds `required`; "User not found"
    /// when no user has that id.
    #[verifier::loop_isolation(false)]
    pub fn check_permission(&self, user_id: &str, required: &Permission) -> (r: Result<bool, String>)
        requires
            self.wf(),
        ensures
            !has_user_id(self.users(), user_id@) ==> (r matches Err(m) && m@ == "User not found"@),
            forall|i: int|
                0 <= i < self.users().len() && (#[trigger] self.users()[i]).id == user_id@
                    ==> r == Ok::<bool, String>(self.users()[i].permissions.contains(*required)),
    {
        match self.find_user_by_id(user_id) {
            None => Err(String::from_str("User not found")),
            Some(i) => {
                proof {
                    assert forall|j: int|
                        0 <= j < self.users().len() && (#[trigger] self.users()[j]).id
                            == user_id@ implies j == i as int by {
                        if j != i as int {
                            assert(self.users()[j].id != self.users()[i as int].id);
                        }
                    }
                }
                let perms = &self.users[i].permissions;
                assert(perms@ == self.users()[i as int].permissions);
                let mut k: usize = 0;
                while k < perms.len()
                    invariant
                        k <= perms@.len(),
                        forall|j: int| 0 <= j < k ==> perms@[j] != *required,
                    decreases perms.len() - k,
                {
                    if perms[k] == *required {
                        assert(perms@[k as int] == *required);
                        return Ok(true);
                    }
                    k = k + 1;
                }
                assert(!perms@.contains(*required));
                Ok(false)
            },
        }
    }

    /// Ends the session with id `session_id`, if there is one, and appends a
    /// "logout" audit record for its user; an unknown id changes nothing.
    pub fn logout(&mut self, session_id: &str) -> (r: Result<(), String>)
        requires
            old(self).wf(),
            counter_of(old(self).counters(), "auth.logout"@) < i64::MAX,
        ensures
            r is Ok,
            !has_session_id(old(self).sessions(), session_id@) ==> final(self).counters()
                == old(self).counters(),
            has_session_id(old(self).sessions(), session_id@) ==> counter_bumped(
                old(self).counters(),
                final(self).counters(),
                "auth.logout"@,
            ),
            final(self).wf(),
            final(self).users() == old(self).users(),
            final(self).jwt_secret() == old(self).jwt_secret(),
            final(self).session_ttl() == old(self).session_ttl(),
            final(self).sessions() == drop_session(old(self).sessions(), session_id@),
            !has_session_id(old(self).sessions(), session_id@) ==> final(self).audit_trail()
                == old(self).audit_trail(),
            forall|i: int|
                0 <= i < old(self).sessions().len() && (#[trigger] old(self).sessions()[i]).id
                    == session_id@ ==> final(self).audit_trail().drop_last()
                    == old(self).audit_trail() && audit_describes(
                    final(self).audit_trail().last(),
                    "logout"@,
                    old(self).sessions()[i].user_id,
                    "session"@,
                    "delete"@,
                    "success"@,
                    "User logout successful"@,
                ),
    {
        match self.find_session(session_id) {
            None => Ok(()),
            Some(i) => {
                let ghost old_s = self.sessions();
                proof {
                    let k = choose|k: int|
                        0 <= k < old_s.len() && (#[trigger] old_s[k]).id == session_id@;
                    if k != i as int {
                        assert(old_s[k].id != old_s[i as int].id);
                    }
                    assert forall|j: int|
                        0 <= j < old_s.len() && (#[trigger] old_s[j]).id == session_id@ implies j
                        == i as int by {
                        if j != i as int {
                            assert(old_s[j].id != old_s[i as int].id);
                        }
                    }
                }
                let s = self.sessions.remove(i);
                proof {
                    assert(self.sessions() =~= old_s.remove(i as int));
                    assert forall|a: int, b: int|
                        0 <= a < self.sessions().len() && 0 <= b < self.sessions().len() && a
                            != b implies (#[trigger] self.sessions()[a]).id != (
                        #[trigger] self.sessions()[b]).id by {
                        let a0 = if a < i { a } else { a + 1 };
                        let b0 = if b < i { b } else { b + 1 };
                        assert(self.sessions()[a] == old_s[a0]);
                        assert(self.sessions()[b] == old_s[b0]);
                    }
                }
                self.record_audit(
                    "logout",
                    s.user_id.as_str(),
                    "session",
                    "delete",
                    "success",
                    "User logout successful",
                );
                let _ = self.metrics.increment_counter("auth.logout", 1);
                Ok(())
            },
        }
    }

    /// Hands out the audit records gathered so far, oldest first, and clears
    /// them.
    pub fn take_audit_logs(&mut self) -> (logs: Vec<AuditLog>)
        ensures
            final(self).counters() == old(self).counters(),
            logs@.map_values(|a: AuditLog| a@) == old(self).audit_trail(),
            final(self).audit_trail().len() == 0,
            final(self).users() == old(self).users(),
            final(self).sessions() == old(self).sessions(),
            final(self).jwt_secret() == old(self).jwt_secret(),
            final(self).session_ttl() == old(self).session_ttl(),
            final(self).wf() == old(self).wf(),
    {
        let mut logs: Vec<AuditLog> = Vec::new();
        std::mem::swap(&mut logs, &mut self.audit_log);
        assert(self.audit_trail() =~= Seq::<AuditLogView>::empty());
        logs
    }
}

/// A user registered with a password is the one user found under its name,
/// and that password passes the check against its stored hash: `login` with
/// the same name and password takes its success branch.
pub proof fn law_registered_password_accepted(users: Seq<UserView>, u: UserView, password: Seq<char>)
    requires
        !has_username(users, u.username),
        bcrypt_verify_outcome(password, u.password_hash) == Some(true),
    ensures
        has_username(store_user(users, u), u.username),
        forall|i: int|
            0 <= i < store_user(users, u).len() && (#[trigger] store_user(users, u)[i]).username == u.username
                ==> store_user(users, u)[i] == u && bcrypt_verify_outcome(
                password,
                store_user(users, u)[i].password_hash,
            ) == Some(true),
{
    let s = store_user(users, u);
    if has_user_id(users, u.id) {
        let k = choose|k: int| 0 <= k < users.len() && (#[trigger] users[k]).id == u.id;
        assert(s[k] == u);
        assert forall|i: int| 0 <= i < s.len() && (#[trigger] s[i]).username == u.username implies s[i] == u by {
            if i != k {
                assert(s[i] == users[i]);
            }
        }
    } else {
        assert(s[users.len() as int] == u);
        assert forall|i: int| 0 <= i < s.len() && (#[trigger] s[i]).username == u.username implies s[i] == u by {
            if i < users.len() {
                assert(s[i] == users[i]);
            }
        }
    }
}

/// An administrator holds every permission; a guest may only read.
pub proof fn law_role_permissions(p: Permission)
    ensures
        default_permissions(UserRole::Admin).contains(p),
        default_permissions(UserRole::Guest).contains(p) <==> p == Permission::Read,
        default_permissions(UserRole::User).contains(p) <==> p != Permission::Manage,
{
    let a = default_permissions(UserRole::Admin);
    let g = default_permissions(UserRole::Guest);
    let us = default_permissions(UserRole::User);
    match p {
        Permission::Read => {
            assert(a[0] == p);
            assert(g[0] == p);
            assert(us[0] == p);
        },
        Permission::Write => {
            assert(a[1] == p);
            assert(us[1] == p);
        },
        Permission::Execute => {
            assert(a[2] == p);
            assert(us[2] == p);
        },
        Permission::Manage => {
            assert(a[3] == p);
        },
    }
}

/// A token issued by `login` names its user: once decoding it with the
/// manager's secret succeeds (it has not expired), `verify_token` answers with
/// that user, as long as the user is still registered.
pub proof fn law_issued_token_names_user(
    users: Seq<UserView>,
    u: UserView,
    secret: Seq<char>,
    ttl: u64,
    iat: u64,
    token: &str,
    key: &str,
    d: Result<JwtClaims, String>,
    r: Result<User, String>,
)
    requires
        users_unique(users),
        users.contains(u),
        token_for(u.id, u.role, secret, ttl, iat) == Some(token@),
        key@ == secret,
        call_ensures(decode_token, (token, key), d),
        d is Ok,
        claims_answer(users, d, r),
    ensures
        r matches Ok(v) && v@ == u,
{
    let c = d->Ok_0;
    assert(decoded_as_signed(token@, key@, d));
    assert(jwt_hs256_token(u.id, (iat + ttl) as u64, iat, role_name(u.role), key@) == Some(token@));
    assert(c.sub->0@ == u.id);
    reveal_strlit("Admin");
    reveal_strlit("User");
    reveal_strlit("Guest");
    assert(claims_complete(c));
    let j = choose|j: int| 0 <= j < users.len() && users[j] == u;
    assert(has_user_id(users, u.id));
    let v = r->Ok_0;
    let i = choose|i: int| 0 <= i < users.len() && v@ == #[trigger] users[i];
    if i != j {
        assert(users[i].id != users[j].id);
    }
}

} // verus!
