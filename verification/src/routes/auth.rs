//! Registration, login and logout: the checks each request goes through,
//! the CSRF and session cookies, and safe redirects.
use vstd::prelude::*;
use crate::formatting::opt_view;
use crate::http::{cookie_is, CookieSpec, HttpStatus};
use crate::routes::wiki::{encode_query_value, url_encoded};
use crate::text::{
    char_is_control, chars_eq, chars_of, has_char, is_control, push_char, string_of, to_lowercase,
    trim, trim_chars, unicode_lowercase,
};

verus! {

/// The cookie that holds a session token.
pub const SESSION_COOKIE: &'static str = "session_id";

/// The cookie that holds the CSRF token.
pub const CSRF_COOKIE: &'static str = "csrf_token";

/// The cookie that remembers which auth form the page shows.
pub const UI_STATE_COOKIE: &'static str = "ui_state";

/// The cookie that names the user in the username sign-in.
pub const USERNAME_COOKIE: &'static str = "username";

/// A signed-in user, as read from the session store.
#[derive(Clone, Debug)]
pub struct CurrentUser {
    pub full_name: String,
    pub email: String,
    pub csrf_token: String,
}

/// The `redirect_to` query parameter.
pub struct RedirectQuery {
    pub redirect_to: Option<String>,
}

/// The registration form.
pub struct RegisterForm {
    pub fullname: String,
    pub email: String,
    pub password: String,
    pub csrf_token: String,
}

/// The login form.
pub struct LoginForm {
    pub email: String,
    pub password: String,
    pub csrf_token: String,
}

/// A form that carries only the CSRF token.
pub struct CsrfForm {
    pub csrf_token: String,
}

// ------------------------------------------------------------------------
// Redirects
// ------------------------------------------------------------------------

/// A local path that is safe to redirect to: it starts with a single `/`
/// and holds neither `:` nor a control character.
pub open spec fn is_safe_redirect(p: Seq<char>) -> bool {
    &&& p.len() > 0
    &&& p[0] == '/'
    &&& !(p.len() > 1 && p[1] == '/')
    &&& !has_char(p, ':')
    &&& forall|k: int| 0 <= k < p.len() ==> !is_control(#[trigger] p[k])
}

/// Where a request asking to go to `redirect_to` is sent: there when it is
/// safe, to `/` otherwise.
pub open spec fn safe_redirect(redirect_to: Option<Seq<char>>) -> Seq<char> {
    match redirect_to {
        Some(p) => if is_safe_redirect(p) {
            p
        } else {
            "/"@
        },
        None => "/"@,
    }
}

fn is_safe_redirect_chars(v: &Vec<char>) -> (b: bool)
    ensures
        b == is_safe_redirect(v@),
{
    if v.len() == 0 || v[0] != '/' {
        return false;
    }
    if v.len() > 1 && v[1] == '/' {
        return false;
    }
    let mut i: usize = 0;
    while i < v.len()
        invariant
            i <= v.len(),
            forall|k: int| 0 <= k < i ==> v@[k] != ':' && !is_control(#[trigger] v@[k]),
        decreases v.len() - i,
    {
        if v[i] == ':' || char_is_control(v[i]) {
            return false;
        }
        i = i + 1;
    }
    true
}

/// The path to redirect to after a form: `redirect_to` when it is a safe
/// local path, `/` otherwise.
pub fn safe_redirect_path(redirect_to: Option<String>) -> (r: String)
    ensures
        r@ == safe_redirect(opt_view(redirect_to)),
{
    match redirect_to {
        None => "/".to_owned(),
        Some(path) => {
            let v = chars_of(path.as_str());
            if is_safe_redirect_chars(&v) {
                path
            } else {
                "/".to_owned()
            }
        },
    }
}

/// Every redirect after a form stays on this site: whatever was asked for,
/// the target is a safe local path.
pub proof fn law_redirect_stays_local(redirect_to: Option<Seq<char>>)
    ensures
        is_safe_redirect(safe_redirect(redirect_to)),
{
    reveal_strlit("/");
    let r = "/"@;
    assert(!has_char(r, ':'));
}

/// Which redirect targets are kept, character by character: a target is
/// kept exactly when it starts with a single `/` and holds no `:` and no
/// control character (U+0000 to U+001F and U+007F to U+009F); every other
/// character, `-`, `.`, `?`, `=`, `&` and `#` among them, is allowed, and
/// any other target is sent to `/`.
pub proof fn law_redirect_targets_kept(p: Seq<char>)
    ensures
        safe_redirect(Some(p)) == p <==> {
            &&& p.len() > 0
            &&& p[0] == '/'
            &&& !(p.len() > 1 && p[1] == '/')
            &&& forall|k: int|
                0 <= k < p.len() ==> {
                    let c = #[trigger] p[k];
                    c != ':' && !(c <= '\u{1f}' || ('\u{7f}' <= c && c <= '\u{9f}'))
                }
        },
        safe_redirect(Some(p)) == p || safe_redirect(Some(p)) == "/"@,
{
    reveal_strlit("/");
    let r = "/"@;
    if p == r {
        assert(p.len() == 1 && p[0] == '/');
        assert(!is_control('/'));
        assert(!has_char(p, ':'));
    }
    if !has_char(p, ':') {
        assert forall|k: int| 0 <= k < p.len() implies #[trigger] p[k] != ':' by {}
    }
}

// ------------------------------------------------------------------------
// CSRF and session cookies
// ------------------------------------------------------------------------

/// A submitted CSRF token is accepted when the CSRF cookie is present and
/// the token is non-empty and equal to it.
pub open spec fn csrf_accepts(cookie: Option<Seq<char>>, submitted: Seq<char>) -> bool {
    match cookie {
        Some(c) => submitted.len() > 0 && submitted == c,
        None => false,
    }
}

/// Checks a submitted CSRF token against the CSRF cookie's value; a
/// mismatch is answered `403 Forbidden`.
pub fn verify_csrf_cookie(cookie: Option<&String>, submitted: &str) -> (r: Result<(), HttpStatus>)
    ensures
        r is Ok <==> csrf_accepts(crate::formatting::opt_ref_view(cookie), submitted@),
        r is Err ==> r == Err::<(), HttpStatus>(HttpStatus::Forbidden),
{
    match cookie {
        None => Err(HttpStatus::Forbidden),
        Some(cookie) => {
            let s = chars_of(submitted);
            let c = chars_of(cookie.as_str());
            if s.len() == 0 || !chars_eq(&s, &c) {
                Err(HttpStatus::Forbidden)
            } else {
                Ok(())
            }
        },
    }
}

/// The session cookie: path `/`, `HttpOnly`, `SameSite=Lax`, `Secure` when
/// the deployment asks for it.
pub fn session_cookie(value: &str, secure: bool) -> (c: CookieSpec)
    ensures
        cookie_is(c, SESSION_COOKIE@, value@, Some("/"@), true, secure, true),
{
    CookieSpec {
        name: SESSION_COOKIE.to_owned(),
        value: value.to_owned(),
        path: Some("/".to_owned()),
        http_only: true,
        secure: secure,
        same_site_lax: true,
    }
}

/// The CSRF cookie, with the same attributes as the session cookie.
pub fn csrf_cookie(value: &str, secure: bool) -> (c: CookieSpec)
    ensures
        cookie_is(c, CSRF_COOKIE@, value@, Some("/"@), true, secure, true),
{
    CookieSpec {
        name: CSRF_COOKIE.to_owned(),
        value: value.to_owned(),
        path: Some("/".to_owned()),
        http_only: true,
        secure: secure,
        same_site_lax: true,
    }
}

/// The cookie handed to the jar to remove the cookie `name` at path `/`.
pub fn removal_cookie(name: &str) -> (c: CookieSpec)
    ensures
        cookie_is(c, name@, Seq::<char>::empty(), Some("/"@), false, false, false),
{
    CookieSpec {
        name: name.to_owned(),
        value: String::new(),
        path: Some("/".to_owned()),
        http_only: false,
        secure: false,
        same_site_lax: false,
    }
}

/// Cookies are marked `Secure` when the `COOKIE_SECURE` setting is `true`
/// or `1`.
pub fn cookie_secure(setting: Option<&String>) -> (b: bool)
    ensures
        b == match crate::formatting::opt_ref_view(setting) {
            Some(v) => v == "true"@ || v == "1"@,
            None => false,
        },
{
    match setting {
        None => false,
        Some(v) => {
            let c = chars_of(v.as_str());
            chars_eq(&c, &chars_of("true")) || chars_eq(&c, &chars_of("1"))
        },
    }
}

// ------------------------------------------------------------------------
// Tokens
// ------------------------------------------------------------------------

/// The lowercase hexadecimal digit of `n < 16`.
pub open spec fn hex_lower(n: u8) -> char {
    if n < 10 {
        ((n + 48) as u8) as char
    } else {
        ((n + 87) as u8) as char
    }
}

/// Bytes written as two lowercase hexadecimal digits each.
pub open spec fn hex_encoded(bytes: Seq<u8>) -> Seq<char>
    decreases bytes.len(),
{
    if bytes.len() == 0 {
        Seq::<char>::empty()
    } else {
        hex_encoded(bytes.drop_last()) + seq![hex_lower(bytes.last() / 16), hex_lower(bytes.last() % 16)]
    }
}

fn hex_digit_lower(n: u8) -> (c: char)
    requires
        n < 16,
    ensures
        c == hex_lower(n),
{
    if n < 10 {
        (n + 48) as char
    } else {
        (n + 87) as char
    }
}

/// The token text of some random bytes: two lowercase hex digits a byte.
pub fn hex_token(bytes: &[u8]) -> (r: String)
    ensures
        r@ == hex_encoded(bytes@),
{
    let mut out = String::new();
    for i in 0..bytes.len()
        invariant
            out@ == hex_encoded(bytes@.take(i as int)),
    {
        assert(bytes@.take(i + 1).drop_last() == bytes@.take(i as int));
        push_char(&mut out, hex_digit_lower(bytes[i] / 16));
        push_char(&mut out, hex_digit_lower(bytes[i] % 16));
    }
    assert(bytes@.take(bytes@.len() as int) == bytes@);
    out
}

/// `rand_core::OsRng::fill_bytes` on a 32-byte buffer: 32 bytes from the
/// operating system's random source. Nothing is claimed about their values.
#[verifier::external_body]
fn os_random_bytes() -> (v: Vec<u8>)
    ensures
        v@.len() == 32,
{
    let mut bytes = [0_u8; 32];
    rand_core::RngCore::fill_bytes(&mut rand_core::OsRng, &mut bytes);
    bytes.to_vec()
}

/// A fresh random token: 32 random bytes in lowercase hex.
pub fn random_token() -> (r: String)
    ensures
        exists|b: Seq<u8>| b.len() == 32 && r@ == hex_encoded(b),
{
    let bytes = os_random_bytes();
    hex_token(bytes.as_slice())
}

// ------------------------------------------------------------------------
// Login and registration forms
// ------------------------------------------------------------------------

/// What the register and login pages show and set: the encoded redirect
/// target, the CSRF token, and the CSRF cookie that carries it.
pub struct AuthFormPage {
    pub redirect_path: String,
    pub csrf_token: String,
    pub csrf_cookie: CookieSpec,
}

/// Keeps the CSRF token of an existing cookie, or makes a fresh one, and
/// returns it with the cookie to set.
pub fn set_csrf_cookie(existing: Option<String>, secure: bool) -> (r: (String, CookieSpec))
    ensures
        existing matches Some(v) ==> r.0@ == v@,
        existing is None ==> exists|b: Seq<u8>| b.len() == 32 && r.0@ == hex_encoded(b),
        cookie_is(r.1, CSRF_COOKIE@, r.0@, Some("/"@), true, secure, true),
{
    let token = match existing {
        Some(v) => v,
        None => random_token(),
    };
    let cookie = csrf_cookie(token.as_str(), secure);
    (token, cookie)
}

/// The register and login pages: `503` without a database; otherwise the
/// redirect target, percent-encoded, and the CSRF token and its cookie.
pub fn prepare_auth_form(
    db_available: bool,
    redirect_to: Option<String>,
    existing_csrf: Option<String>,
    secure: bool,
) -> (r: Result<AuthFormPage, HttpStatus>)
    ensures
        !db_available <==> r == Err::<AuthFormPage, HttpStatus>(HttpStatus::ServiceUnavailable),
        db_available <==> r is Ok,
        r matches Ok(p) ==> {
            &&& p.redirect_path@ == url_encoded(safe_redirect(opt_view(redirect_to)))
            &&& (existing_csrf matches Some(v) ==> p.csrf_token@ == v@)
            &&& (existing_csrf is None ==> exists|b: Seq<u8>|
                b.len() == 32 && p.csrf_token@ == hex_encoded(b))
            &&& cookie_is(p.csrf_cookie, CSRF_COOKIE@, p.csrf_token@, Some("/"@), true, secure, true)
        },
{
    if !db_available {
        return Err(HttpStatus::ServiceUnavailable);
    }
    let redirect_path = encode_query_value(safe_redirect_path(redirect_to).as_str());
    let (csrf_token, csrf_cookie) = set_csrf_cookie(existing_csrf, secure);
    Ok(AuthFormPage { redirect_path, csrf_token, csrf_cookie })
}

// ------------------------------------------------------------------------
// Password hashing
// ------------------------------------------------------------------------

#[verifier::external_type_specification]
#[verifier::external_body]
pub struct ExPasswordHashError(argon2::password_hash::Error);

/// The character of a 6-bit value in the standard Base64 alphabet.
pub open spec fn b64_char(n: int) -> char {
    if n < 26 {
        (n + 65) as char
    } else if n < 52 {
        (n + 71) as char
    } else if n < 62 {
        (n - 4) as char
    } else if n == 62 {
        '+'
    } else {
        '/'
    }
}

/// Standard Base64 without padding: three bytes become four characters, and
/// one or two bytes left over become two or three.
pub open spec fn b64_unpadded(bytes: Seq<u8>) -> Seq<char>
    decreases bytes.len(),
{
    if bytes.len() == 0 {
        Seq::<char>::empty()
    } else if bytes.len() == 1 {
        seq![b64_char(bytes[0] as int / 4), b64_char((bytes[0] as int % 4) * 16)]
    } else if bytes.len() == 2 {
        seq![
            b64_char(bytes[0] as int / 4),
            b64_char((bytes[0] as int % 4) * 16 + bytes[1] as int / 16),
            b64_char((bytes[1] as int % 16) * 4),
        ]
    } else {
        seq![
            b64_char(bytes[0] as int / 4),
            b64_char((bytes[0] as int % 4) * 16 + bytes[1] as int / 16),
            b64_char((bytes[1] as int % 16) * 4 + bytes[2] as int / 64),
            b64_char(bytes[2] as int % 64),
        ] + b64_unpadded(bytes.skip(3))
    }
}

/// A salt as `SaltString::generate` makes one: 16 bytes in unpadded Base64.
pub open spec fn generated_salt(salt: Seq<char>) -> bool {
    exists|b: Seq<u8>| b.len() == 16 && salt == #[trigger] b64_unpadded(b)
}

/// A password Argon2 accepts: at most `0xFFFFFFFF` bytes of UTF-8.
pub open spec fn hashable_password(password: Seq<char>) -> bool {
    vstd::utf8::encode_utf8(password).len() <= 0xFFFF_FFFF
}

/// The name of the PHC string that Argon2 with its default parameters makes
/// of a password and a B64 salt; `None` when the salt cannot be read or
/// hashing fails.
pub uninterp spec fn argon2_hash(password: Seq<char>, salt: Seq<char>) -> Option<Seq<char>>;

/// The name of the outcome of checking a password against a PHC string:
/// `None` when the string does not parse, else whether the password matches.
pub uninterp spec fn argon2_verifies(password: Seq<char>, phc: Seq<char>) -> Option<bool>;

/// `SaltString::from_b64` on `salt`, then `PasswordHasher::hash_password`
/// of `Argon2::default()` on the password's bytes, written out as a PHC
/// string. The result is a function of the two arguments alone (it is named
/// `argon2_hash`); when the salt does not parse, its error is returned. A
/// salt made as `SaltString::generate` makes one (4 to 64 characters of the
/// salt alphabet, decoding to 16 bytes, at least Argon2's 8) and a password
/// of at most `MAX_PWD_LEN` bytes pass every check, so hashing succeeds.
#[verifier::external_body]
fn hash_password(password: &str, salt: &str) -> (r: Result<String, argon2::password_hash::Error>)
    ensures
        r is Ok <==> argon2_hash(password@, salt@) is Some,
        r matches Ok(h) ==> argon2_hash(password@, salt@) == Some(h@),
        generated_salt(salt@) && hashable_password(password@) ==> r is Ok,
{
    match argon2::password_hash::SaltString::from_b64(salt) {
        Ok(salt) => match argon2::PasswordHasher::hash_password(
            &argon2::Argon2::default(),
            password.as_bytes(),
            &salt,
        ) {
            Ok(hash) => Ok(hash.to_string()),
            Err(e) => Err(e),
        },
        Err(e) => Err(e),
    }
}

/// `PasswordHash::new` on `phc` (its error is returned), then
/// `PasswordVerifier::verify_password` of `Argon2::default()`, read as
/// whether it succeeded; named `argon2_verifies`. The verifier recomputes the
/// hash with the salt and parameters that the PHC string records, so a PHC
/// string that `hash_password` made from a password is accepted for it.
#[verifier::external_body]
fn verify_password(password: &str, phc: &str) -> (r: Result<bool, argon2::password_hash::Error>)
    ensures
        r is Err <==> argon2_verifies(password@, phc@) is None,
        r matches Ok(b) ==> argon2_verifies(password@, phc@) == Some(b),
        (exists|salt: Seq<char>| argon2_hash(password@, salt) == Some(phc@)) ==> r matches Ok(true),
{
    match argon2::PasswordHash::new(phc) {
        Ok(parsed) => Ok(
            argon2::PasswordVerifier::verify_password(
                &argon2::Argon2::default(),
                password.as_bytes(),
                &parsed,
            ).is_ok(),
        ),
        Err(e) => Err(e),
    }
}

/// `SaltString::generate(&mut OsRng)`: 16 random bytes from the operating
/// system, encoded in unpadded standard Base64. Which bytes is not claimed.
#[verifier::external_body]
fn generate_salt() -> (s: String)
    ensures
        generated_salt(s@),
{
    argon2::password_hash::SaltString::generate(&mut rand_core::OsRng).as_str().to_string()
}

// ------------------------------------------------------------------------
// Registration
// ------------------------------------------------------------------------

/// A user row to insert: trimmed full name, trimmed and lowercased email,
/// and the PHC string of the password.
pub struct NewUser {
    pub full_name: String,
    pub email: String,
    pub password_hash: String,
}

/// The email as it is stored and looked up: trimmed and lowercased.
pub open spec fn normalised_email(email: Seq<char>) -> Seq<char> {
    unicode_lowercase(trim(email))
}

/// The outcome of a registration with the given salt: `403` for a bad CSRF
/// token, `503` without a database, `400` when a field is empty, `500` when
/// hashing fails, and otherwise the row to insert.
pub open spec fn registration(
    csrf_cookie: Option<Seq<char>>,
    fullname: Seq<char>,
    email: Seq<char>,
    password: Seq<char>,
    csrf_token: Seq<char>,
    db_available: bool,
    salt: Seq<char>,
) -> Result<(Seq<char>, Seq<char>, Seq<char>), HttpStatus> {
    if !csrf_accepts(csrf_cookie, csrf_token) {
        Err(HttpStatus::Forbidden)
    } else if !db_available {
        Err(HttpStatus::ServiceUnavailable)
    } else if trim(fullname).len() == 0 || normalised_email(email).len() == 0 || password.len() == 0 {
        Err(HttpStatus::BadRequest)
    } else {
        match argon2_hash(password, salt) {
            None => Err(HttpStatus::InternalServerError),
            Some(h) => Ok((trim(fullname), normalised_email(email), h)),
        }
    }
}

/// A registration passes its checks: a good CSRF token, a database, and a
/// full name, email and password that are not empty.
pub open spec fn registration_accepted(
    csrf_cookie: Option<Seq<char>>,
    fullname: Seq<char>,
    email: Seq<char>,
    password: Seq<char>,
    csrf_token: Seq<char>,
    db_available: bool,
) -> bool {
    &&& csrf_accepts(csrf_cookie, csrf_token)
    &&& db_available
    &&& trim(fullname).len() > 0
    &&& normalised_email(email).len() > 0
    &&& password.len() > 0
}

pub open spec fn new_user_view(r: Result<NewUser, HttpStatus>) -> Result<
    (Seq<char>, Seq<char>, Seq<char>),
    HttpStatus,
> {
    match r {
        Ok(u) => Ok((u.full_name@, u.email@, u.password_hash@)),
        Err(e) => Err(e),
    }
}

fn normalise_email(email: &str) -> (r: String)
    ensures
        r@ == normalised_email(email@),
{
    to_lowercase(string_of(&trim_chars(&chars_of(email))).as_str())
}

/// Registration with a given salt; the salt only enters the password hash.
pub fn register_with_salt(
    csrf_cookie: Option<&String>,
    form: &RegisterForm,
    db_available: bool,
    salt: &str,
) -> (r: Result<NewUser, HttpStatus>)
    ensures
        new_user_view(r) == registration(
            crate::formatting::opt_ref_view(csrf_cookie),
            form.fullname@,
            form.email@,
            form.password@,
            form.csrf_token@,
            db_available,
            salt@,
        ),
        registration_accepted(
            crate::formatting::opt_ref_view(csrf_cookie),
            form.fullname@,
            form.email@,
            form.password@,
            form.csrf_token@,
            db_available,
        ) && generated_salt(salt@) && hashable_password(form.password@) ==> r is Ok,
{
    verify_csrf_cookie(csrf_cookie, form.csrf_token.as_str())?;
    if !db_available {
        return Err(HttpStatus::ServiceUnavailable);
    }
    let fullname = string_of(&trim_chars(&chars_of(form.fullname.as_str())));
    let email = normalise_email(form.email.as_str());
    if fullname.as_str().is_empty() || email.as_str().is_empty() || form.password.as_str().is_empty() {
        return Err(HttpStatus::BadRequest);
    }
    match hash_password(form.password.as_str(), salt) {
        Ok(password_hash) => Ok(NewUser { full_name: fullname, email, password_hash }),
        Err(_) => Err(HttpStatus::InternalServerError),
    }
}

/// A registration request up to the insert: its checks, then the password
/// hashed with a fresh random salt.
pub fn prepare_registration(
    csrf_cookie: Option<&String>,
    form: &RegisterForm,
    db_available: bool,
) -> (r: Result<NewUser, HttpStatus>)
    ensures
        exists|salt: Seq<char>|
            generated_salt(salt) && new_user_view(r) == #[trigger] registration(
                crate::formatting::opt_ref_view(csrf_cookie),
                form.fullname@,
                form.email@,
                form.password@,
                form.csrf_token@,
                db_available,
                salt,
            ),
        registration_accepted(
            crate::formatting::opt_ref_view(csrf_cookie),
            form.fullname@,
            form.email@,
            form.password@,
            form.csrf_token@,
            db_available,
        ) && hashable_password(form.password@) ==> r is Ok,
{
    let salt = generate_salt();
    register_with_salt(csrf_cookie, form, db_available, salt.as_str())
}

/// How inserting a row went.
#[derive(Debug, Clone, Copy, PartialEq, Eq, Structural)]
pub enum InsertOutcome {
    Inserted,
    Duplicate,
    Failed,
}

/// The answer to a registration after the insert: when the row went in,
/// the removal of the form-state cookie and the redirect target; `409` for
/// an email already taken, `500` otherwise.
pub fn registration_response(outcome: InsertOutcome, redirect_to: Option<String>) -> (r: Result<
    Redirection,
    HttpStatus,
>)
    ensures
        outcome == InsertOutcome::Inserted <==> r is Ok,
        r matches Ok(d) ==> {
            &&& d.cookies@.len() == 0
            &&& d.removed@.len() == 1
            &&& cookie_is(d.removed@[0], UI_STATE_COOKIE@, Seq::<char>::empty(), Some("/"@), false, false, false)
            &&& d.location@ == safe_redirect(opt_view(redirect_to))
        },
        outcome == InsertOutcome::Duplicate ==> r == Err::<Redirection, HttpStatus>(HttpStatus::Conflict),
        outcome == InsertOutcome::Failed ==> r == Err::<Redirection, HttpStatus>(
            HttpStatus::InternalServerError,
        ),
{
    match outcome {
        InsertOutcome::Inserted => Ok(
            Redirection {
                cookies: Vec::new(),
                removed: ui_state_cleared(),
                location: safe_redirect_path(redirect_to),
            },
        ),
        InsertOutcome::Duplicate => Err(HttpStatus::Conflict),
        InsertOutcome::Failed => Err(HttpStatus::InternalServerError),
    }
}

// ------------------------------------------------------------------------
// Login
// ------------------------------------------------------------------------

/// The first checks of a login: `403` for a bad CSRF token, `503` without a
/// database, `401` for an empty email or password; otherwise the email to
/// look up.
pub open spec fn login_start(
    csrf_cookie: Option<Seq<char>>,
    email: Seq<char>,
    password: Seq<char>,
    csrf_token: Seq<char>,
    db_available: bool,
) -> Result<Seq<char>, HttpStatus> {
    if !csrf_accepts(csrf_cookie, csrf_token) {
        Err(HttpStatus::Forbidden)
    } else if !db_available {
        Err(HttpStatus::ServiceUnavailable)
    } else if normalised_email(email).len() == 0 || password.len() == 0 {
        Err(HttpStatus::Unauthorized)
    } else {
        Ok(normalised_email(email))
    }
}

pub open spec fn string_result_view(r: Result<String, HttpStatus>) -> Result<Seq<char>, HttpStatus> {
    match r {
        Ok(s) => Ok(s@),
        Err(e) => Err(e),
    }
}

/// A login request up to the user lookup.
pub fn begin_login(csrf_cookie: Option<&String>, form: &LoginForm, db_available: bool) -> (r: Result<
    String,
    HttpStatus,
>)
    ensures
        string_result_view(r) == login_start(
            crate::formatting::opt_ref_view(csrf_cookie),
            form.email@,
            form.password@,
            form.csrf_token@,
            db_available,
        ),
{
    verify_csrf_cookie(csrf_cookie, form.csrf_token.as_str())?;
    if !db_available {
        return Err(HttpStatus::ServiceUnavailable);
    }
    let email = normalise_email(form.email.as_str());
    if email.as_str().is_empty() || form.password.as_str().is_empty() {
        return Err(HttpStatus::Unauthorized);
    }
    Ok(email)
}

/// A stored user's id and password hash.
pub struct StoredCredentials {
    pub user_id: i64,
    pub password_hash: String,
}

/// How looking a user up by email went.
pub enum LookupOutcome {
    Found(StoredCredentials),
    Missing,
    Failed,
}

/// What registration stores is what login finds: after a registration that
/// produced a row, a login with the same password and an email that
/// normalises to the same address passes its first checks and looks up
/// exactly the stored email, and the stored hash was made from that
/// password, which `check_login_password` then accepts.
pub proof fn law_registered_user_can_log_in(
    csrf_cookie: Option<Seq<char>>,
    fullname: Seq<char>,
    email: Seq<char>,
    password: Seq<char>,
    csrf_token: Seq<char>,
    salt: Seq<char>,
    login_email: Seq<char>,
    login_token: Seq<char>,
)
    requires
        registration(csrf_cookie, fullname, email, password, csrf_token, true, salt) is Ok,
        csrf_accepts(csrf_cookie, login_token),
        normalised_email(login_email) == normalised_email(email),
    ensures
        ({
            let row = registration(csrf_cookie, fullname, email, password, csrf_token, true, salt)->Ok_0;
            &&& login_start(csrf_cookie, login_email, password, login_token, true) == Ok::<
                Seq<char>,
                HttpStatus,
            >(row.1)
            &&& exists|s: Seq<char>| argon2_hash(password, s) == Some(row.2)
        }),
{
    let row = registration(csrf_cookie, fullname, email, password, csrf_token, true, salt)->Ok_0;
    assert(argon2_hash(password, salt) == Some(row.2));
}

/// The password check of a login: `500` when the lookup or the stored hash
/// fails, `401` for an unknown user or a wrong password, the user's id
/// otherwise. A hash made from the submitted password always passes.
pub fn check_login_password(lookup: LookupOutcome, password: &str) -> (r: Result<i64, HttpStatus>)
    ensures
        lookup is Failed ==> r == Err::<i64, HttpStatus>(HttpStatus::InternalServerError),
        lookup is Missing ==> r == Err::<i64, HttpStatus>(HttpStatus::Unauthorized),
        lookup matches LookupOutcome::Found(c) ==> r == match argon2_verifies(
            password@,
            c.password_hash@,
        ) {
            None => Err(HttpStatus::InternalServerError),
            Some(false) => Err(HttpStatus::Unauthorized),
            Some(true) => Ok(c.user_id),
        },
        lookup matches LookupOutcome::Found(c) ==> ((exists|salt: Seq<char>|
            argon2_hash(password@, salt) == Some(c.password_hash@)) ==> r == Ok::<i64, HttpStatus>(
            c.user_id,
        )),
{
    match lookup {
        LookupOutcome::Failed => Err(HttpStatus::InternalServerError),
        LookupOutcome::Missing => Err(HttpStatus::Unauthorized),
        LookupOutcome::Found(c) => match verify_password(password, c.password_hash.as_str()) {
            Err(_) => Err(HttpStatus::InternalServerError),
            Ok(false) => Err(HttpStatus::Unauthorized),
            Ok(true) => Ok(c.user_id),
        },
    }
}

/// The tokens of a new session.
pub struct SessionTokens {
    pub session_token: String,
    pub csrf_token: String,
}

/// Two fresh random tokens for a new session.
pub fn new_session_tokens() -> (t: SessionTokens)
    ensures
        exists|b: Seq<u8>| b.len() == 32 && t.session_token@ == hex_encoded(b),
        exists|b: Seq<u8>| b.len() == 32 && t.csrf_token@ == hex_encoded(b),
{
    let session_token = random_token();
    let csrf_token = random_token();
    SessionTokens { session_token, csrf_token }
}

/// What a successful request answers with: cookies to set and where to go.
pub struct Redirection {
    pub cookies: Vec<CookieSpec>,
    pub removed: Vec<CookieSpec>,
    pub location: String,
}

/// The cookie list that removes only the form-state cookie.
fn ui_state_cleared() -> (v: Vec<CookieSpec>)
    ensures
        v@.len() == 1,
        cookie_is(v@[0], UI_STATE_COOKIE@, Seq::<char>::empty(), Some("/"@), false, false, false),
{
    let mut v: Vec<CookieSpec> = Vec::new();
    v.push(removal_cookie(UI_STATE_COOKIE));
    v
}

/// The end of a login: `500` when the session could not be stored;
/// otherwise the session and CSRF cookies, the removal of the form-state
/// cookie, and the redirect target.
pub fn finish_login(
    session_stored: bool,
    tokens: &SessionTokens,
    secure: bool,
    redirect_to: Option<String>,
) -> (r: Result<Redirection, HttpStatus>)
    ensures
        !session_stored <==> r == Err::<Redirection, HttpStatus>(HttpStatus::InternalServerError),
        session_stored <==> r is Ok,
        r matches Ok(d) ==> {
            &&& d.removed@.len() == 1
            &&& cookie_is(d.removed@[0], UI_STATE_COOKIE@, Seq::<char>::empty(), Some("/"@), false, false, false)
            &&& d.cookies@.len() == 2
            &&& cookie_is(d.cookies@[0], SESSION_COOKIE@, tokens.session_token@, Some("/"@), true, secure, true)
            &&& cookie_is(d.cookies@[1], CSRF_COOKIE@, tokens.csrf_token@, Some("/"@), true, secure, true)
            &&& d.location@ == safe_redirect(opt_view(redirect_to))
        },
{
    if !session_stored {
        return Err(HttpStatus::InternalServerError);
    }
    let mut cookies: Vec<CookieSpec> = Vec::new();
    cookies.push(session_cookie(tokens.session_token.as_str(), secure));
    cookies.push(csrf_cookie(tokens.csrf_token.as_str(), secure));
    Ok(Redirection { cookies, removed: ui_state_cleared(), location: safe_redirect_path(redirect_to) })
}

// ------------------------------------------------------------------------
// Logout
// ------------------------------------------------------------------------

/// What a logout does: the session to delete from the store, if any, the
/// cookies to remove, and where to go.
pub struct LogoutPlan {
    pub delete_session: Option<String>,
    pub removed: Vec<CookieSpec>,
    pub location: String,
}

/// A logout: the form-state cookie is removed whatever the answer; then
/// `403` for a bad CSRF token, and otherwise the session named by the
/// session cookie is deleted when there is a database, and the session and
/// CSRF cookies are removed.
pub fn plan_logout(
    csrf_cookie: Option<&String>,
    submitted: &str,
    db_available: bool,
    session: Option<String>,
    redirect_to: Option<String>,
) -> (r: (CookieSpec, Result<LogoutPlan, HttpStatus>))
    ensures
        cookie_is(r.0, UI_STATE_COOKIE@, Seq::<char>::empty(), Some("/"@), false, false, false),
        !csrf_accepts(crate::formatting::opt_ref_view(csrf_cookie), submitted@) <==> r.1 == Err::<
            LogoutPlan,
            HttpStatus,
        >(HttpStatus::Forbidden),
        csrf_accepts(crate::formatting::opt_ref_view(csrf_cookie), submitted@) <==> r.1 is Ok,
        r.1 matches Ok(p) ==> {
            &&& opt_view(p.delete_session) == (if db_available {
                opt_view(session)
            } else {
                None
            })
            &&& p.removed@.len() == 2
            &&& cookie_is(p.removed@[0], SESSION_COOKIE@, Seq::<char>::empty(), Some("/"@), false, false, false)
            &&& cookie_is(p.removed@[1], CSRF_COOKIE@, Seq::<char>::empty(), Some("/"@), false, false, false)
            &&& p.location@ == safe_redirect(opt_view(redirect_to))
        },
{
    let clear = removal_cookie(UI_STATE_COOKIE);
    match verify_csrf_cookie(csrf_cookie, submitted) {
        Err(e) => (clear, Err(e)),
        Ok(()) => {
            let delete_session = if db_available {
                session
            } else {
                None
            };
            let mut removed: Vec<CookieSpec> = Vec::new();
            removed.push(removal_cookie(SESSION_COOKIE));
            removed.push(removal_cookie(CSRF_COOKIE));
            (clear, Ok(LogoutPlan { delete_session, removed, location: safe_redirect_path(redirect_to) }))
        },
    }
}

// ------------------------------------------------------------------------
// Sign-in by username
// ------------------------------------------------------------------------

/// The username sign-in form.
pub struct UsernameLoginForm {
    pub username: String,
    pub password: String,
}

/// The username sign-up form.
pub struct UsernameRegisterForm {
    pub fullname: String,
    pub email: String,
    pub username: String,
    pub password: String,
}

/// The form that switches which auth form the page shows.
pub struct UiStateForm {
    pub to_state: String,
    pub return_to: Option<String>,
}

/// The answer to a username form: a redirect, with cookies to set and
/// cookies to remove.
pub struct FormRedirect {
    pub set: Vec<CookieSpec>,
    pub removed: Vec<CookieSpec>,
    pub location: String,
}

/// An email address has an `@` with something before and after it.
pub open spec fn plausible_email(email: Seq<char>) -> bool {
    exists|k: int| 0 < k < email.len() - 1 && email[k] == '@'
}

fn is_plausible_email(v: &Vec<char>) -> (b: bool)
    ensures
        b == plausible_email(v@),
{
    let mut k: usize = 1;
    while k < v.len() && k + 1 < v.len()
        invariant
            1 <= k,
            forall|j: int| 0 < j < k && j < v.len() - 1 ==> v@[j] != '@',
        decreases v.len() - k,
    {
        if v[k] == '@' {
            return true;
        }
        k = k + 1;
    }
    false
}

/// A signed-in answer: the `username` cookie (path `/`) set to the name, the
/// form-state cookie removed, and a redirect to `/`.
pub open spec fn signed_in(r: FormRedirect, username: Seq<char>) -> bool {
    &&& r.set@.len() == 1
    &&& cookie_is(r.set@[0], USERNAME_COOKIE@, username, Some("/"@), false, false, false)
    &&& r.removed@.len() == 1
    &&& cookie_is(r.removed@[0], UI_STATE_COOKIE@, Seq::<char>::empty(), Some("/"@), false, false, false)
    &&& r.location@ == "/"@
}

/// A refused answer: no cookie touched and a redirect to `location`.
pub open spec fn sent_back(r: FormRedirect, location: Seq<char>) -> bool {
    r.set@.len() == 0 && r.removed@.len() == 0 && r.location@ == location
}

fn sign_in(username: String) -> (r: FormRedirect)
    ensures
        signed_in(r, username@),
{
    let mut set: Vec<CookieSpec> = Vec::new();
    set.push(CookieSpec {
        name: USERNAME_COOKIE.to_owned(),
        value: username,
        path: Some("/".to_owned()),
        http_only: false,
        secure: false,
        same_site_lax: false,
    });
    FormRedirect { set, removed: ui_state_cleared(), location: "/".to_owned() }
}

fn send_back(location: &str) -> (r: FormRedirect)
    ensures
        sent_back(r, location@),
{
    FormRedirect { set: Vec::new(), removed: Vec::new(), location: location.to_owned() }
}

/// Signing in by username: back to `/login?error=missing_fields` when the
/// trimmed username or the password is empty; otherwise signed in as the
/// trimmed username.
pub fn username_login(form: &UsernameLoginForm) -> (r: FormRedirect)
    ensures
        trim(form.username@).len() == 0 || form.password@.len() == 0 ==> sent_back(
            r,
            "/login?error=missing_fields"@,
        ),
        trim(form.username@).len() > 0 && form.password@.len() > 0 ==> signed_in(r, trim(form.username@)),
{
    let name = trim_chars(&chars_of(form.username.as_str()));
    if name.len() == 0 || form.password.as_str().is_empty() {
        return send_back("/login?error=missing_fields");
    }
    sign_in(string_of(&name))
}

/// Signing up by username: back to `/register?error=missing_fields` when a
/// trimmed field or the password is empty, to
/// `/register?error=invalid_email` when the trimmed email has no `@` with
/// text on both sides; otherwise signed in as the trimmed username.
pub fn username_register(form: &UsernameRegisterForm) -> (r: FormRedirect)
    ensures
        ({
            let missing = trim(form.fullname@).len() == 0 || trim(form.email@).len() == 0 || trim(
                form.username@,
            ).len() == 0 || form.password@.len() == 0;
            &&& missing ==> sent_back(r, "/register?error=missing_fields"@)
            &&& !missing && !plausible_email(trim(form.email@)) ==> sent_back(
                r,
                "/register?error=invalid_email"@,
            )
            &&& !missing && plausible_email(trim(form.email@)) ==> signed_in(r, trim(form.username@))
        }),
{
    let fullname = trim_chars(&chars_of(form.fullname.as_str()));
    let email = trim_chars(&chars_of(form.email.as_str()));
    let name = trim_chars(&chars_of(form.username.as_str()));
    if fullname.len() == 0 || email.len() == 0 || name.len() == 0 || form.password.as_str().is_empty() {
        return send_back("/register?error=missing_fields");
    }
    if !is_plausible_email(&email) {
        return send_back("/register?error=invalid_email");
    }
    sign_in(string_of(&name))
}

/// Switching the auth form: the form-state cookie (path `/`) set to the
/// asked-for state, and a redirect to `return_to` when it is a safe local
/// path, to `/` otherwise.
pub fn set_ui_state(form: &UiStateForm) -> (r: FormRedirect)
    ensures
        r.set@.len() == 1,
        cookie_is(r.set@[0], UI_STATE_COOKIE@, form.to_state@, Some("/"@), false, false, false),
        r.removed@.len() == 0,
        r.location@ == safe_redirect(opt_view(form.return_to)),
{
    let return_to = match &form.return_to {
        Some(p) => Some(p.clone()),
        None => None,
    };
    let mut set: Vec<CookieSpec> = Vec::new();
    set.push(CookieSpec {
        name: UI_STATE_COOKIE.to_owned(),
        value: form.to_state.clone(),
        path: Some("/".to_owned()),
        http_only: false,
        secure: false,
        same_site_lax: false,
    });
    FormRedirect { set, removed: Vec::new(), location: safe_redirect_path(return_to) }
}

} // verus!
