//! Signing in to Google Drive with OAuth and PKCE: the sign-in address,
//! the token requests, and what their answers change in the account state.
use vstd::prelude::*;
use vstd::string::StringSliceAdditionalSpecFns;
use vstd::utf8::encode_utf8;
use base64::Engine;
use sha2::Digest;
use rand::Rng;
use crate::config::{AppConfig, GoogleConfig, SECOND_NANOS, copy_opt_string, is_instant};
use crate::text::{decimal, is_blank, is_blank_seq, join2, push_decimal};
use crate::url::{encode_bytes, encode_component};

verus! {

/// What SHA-256 makes of a byte string.
pub uninterp spec fn sha256(data: Seq<u8>) -> Seq<u8>;

/// The character of the URL-safe base64 alphabet for the six bits `v`:
/// `A`-`Z`, `a`-`z`, `0`-`9`, then `-` and `_`.
pub open spec fn base64_url_char(v: int) -> char {
    if v < 26 {
        (65 + v) as char
    } else if v < 52 {
        (97 + v - 26) as char
    } else if v < 62 {
        (48 + v - 52) as char
    } else if v == 62 {
        '-'
    } else {
        '_'
    }
}

/// URL-safe base64 without padding: each three bytes become four
/// characters of six bits each; two bytes left over become three
/// characters and one byte two, their last bits zero.
pub open spec fn base64_url_no_pad(data: Seq<u8>) -> Seq<char>
    decreases data.len(),
{
    let b0 = data[0] as int;
    let b1 = data[1] as int;
    let b2 = data[2] as int;
    if data.len() == 0 {
        seq![]
    } else if data.len() == 1 {
        seq![base64_url_char(b0 / 4), base64_url_char((b0 % 4) * 16)]
    } else if data.len() == 2 {
        seq![
            base64_url_char(b0 / 4),
            base64_url_char((b0 % 4) * 16 + b1 / 16),
            base64_url_char((b1 % 16) * 4),
        ]
    } else {
        seq![
            base64_url_char(b0 / 4),
            base64_url_char((b0 % 4) * 16 + b1 / 16),
            base64_url_char((b1 % 16) * 4 + b2 / 64),
            base64_url_char(b2 % 64),
        ] + base64_url_no_pad(data.skip(3))
    }
}

/// `sha2::Sha256::digest`: the SHA-256 digest of `data`. Its result is a
/// function of `data` alone, named `sha256`, 32 bytes long (the digest
/// type's fixed size); nothing more is stated of it.
#[verifier::external_body]
fn sha256_digest(data: &[u8]) -> (res: Vec<u8>)
    ensures
        res@ == sha256(data@),
        res@.len() == 32,
{
    sha2::Sha256::digest(data).to_vec()
}

/// `base64::engine::general_purpose::URL_SAFE_NO_PAD.encode`: the
/// URL-safe base64 text of `data`, without `=` padding, as
/// `base64_url_no_pad` states it. The encoder panics only when the length
/// of its output overflows `usize`, which the bound on `data` rules out.
#[verifier::external_body]
fn base64_url_encode(data: &[u8]) -> (res: String)
    requires
        data@.len() <= usize::MAX / 2,
    ensures
        res@ == base64_url_no_pad(data@),
{
    base64::engine::general_purpose::URL_SAFE_NO_PAD.encode(data)
}

/// Whether `c` is an ASCII letter or digit.
pub open spec fn is_ascii_alphanumeric(c: char) -> bool {
    ('A' <= c && c <= 'Z') || ('a' <= c && c <= 'z') || ('0' <= c && c <= '9')
}

/// `len` characters drawn by `rand::thread_rng()` from the
/// `rand::distributions::Alphanumeric` distribution. What is stated holds
/// of every outcome: the length, and that each character is an ASCII
/// letter or digit (the distribution's alphabet). `thread_rng` panics if
/// the system's random source cannot seed it, which no argument governs.
#[verifier::external_body]
fn random_string(len: usize) -> (res: String)
    ensures
        res@.len() == len,
        forall|i: int| 0 <= i < len ==> is_ascii_alphanumeric(#[trigger] res@[i]),
{
    rand::thread_rng().sample_iter(&rand::distributions::Alphanumeric).take(len).map(
        char::from,
    ).collect()
}

/// The PKCE challenge of a verifier: the URL-safe base64 (no padding) of
/// the SHA-256 of its UTF-8 bytes.
pub open spec fn pkce_challenge_spec(verifier: Seq<char>) -> Seq<char> {
    base64_url_no_pad(sha256(encode_utf8(verifier)))
}

/// The PKCE challenge sent with the sign-in request for `verifier`.
pub fn pkce_challenge(verifier: &str) -> (res: String)
    ensures
        res@ == pkce_challenge_spec(verifier@),
        res@ == base64_url_no_pad(sha256(encode_utf8(verifier@))),
{
    let digest = sha256_digest(verifier.as_bytes());
    base64_url_encode(digest.as_slice())
}

/// The percent-encoding of a text.
pub open spec fn enc(s: Seq<char>) -> Seq<char> {
    encode_bytes(encode_utf8(s))
}

/// The Drive permission that the app asks for.
pub open spec fn drive_scope() -> Seq<char> {
    "https://www.googleapis.com/auth/drive.file"@
}

/// The address the browser opens to sign in: Google's authorization
/// endpoint with the client, the redirect, the Drive scope, offline
/// access with consent, the S256 PKCE challenge and the state, each value
/// percent-encoded.
pub open spec fn authorization_url_spec(
    client_id: Seq<char>,
    redirect_uri: Seq<char>,
    challenge: Seq<char>,
    state: Seq<char>,
) -> Seq<char> {
    "https://accounts.google.com/o/oauth2/v2/auth?client_id="@ + enc(client_id)
        + "&redirect_uri="@ + enc(redirect_uri) + "&response_type=code&scope="@ + enc(
        drive_scope(),
    ) + "&access_type=offline&prompt=consent&code_challenge="@ + enc(challenge)
        + "&code_challenge_method=S256&state="@ + enc(state)
}

/// The address the browser opens to sign in.
pub fn authorization_url(client_id: &str, redirect_uri: &str, challenge: &str, state: &str) -> (res:
    String)
    ensures
        res@ == authorization_url_spec(client_id@, redirect_uri@, challenge@, state@),
{
    let mut res = String::from_str("https://accounts.google.com/o/oauth2/v2/auth?client_id=");
    res.append(encode_component(client_id).as_str());
    res.append("&redirect_uri=");
    res.append(encode_component(redirect_uri).as_str());
    res.append("&response_type=code&scope=");
    res.append(encode_component("https://www.googleapis.com/auth/drive.file").as_str());
    res.append("&access_type=offline&prompt=consent&code_challenge=");
    res.append(encode_component(challenge).as_str());
    res.append("&code_challenge_method=S256&state=");
    res.append(encode_component(state).as_str());
    res
}

/// The address Google sends the browser back to: the local listener.
pub open spec fn redirect_uri_spec(port: u16) -> Seq<char> {
    "http://127.0.0.1:"@ + decimal(port as nat)
}

/// A sign-in about to start.
pub struct LoginRequest {
    /// The PKCE verifier, kept to redeem the code.
    pub verifier: String,
    /// The state the redirect must echo.
    pub state: String,
    /// Where Google sends the browser back.
    pub redirect_uri: String,
    /// The address the browser opens.
    pub auth_url: String,
}

/// Prepares a sign-in for a listener on `port`: a fresh 96-character
/// verifier, a fresh 32-character state, the redirect address, and the
/// sign-in address carrying the verifier's challenge.
pub fn begin_login(client_id: &str, port: u16) -> (res: LoginRequest)
    ensures
        res.verifier@.len() == 96,
        forall|i: int| 0 <= i < 96 ==> is_ascii_alphanumeric(#[trigger] res.verifier@[i]),
        res.state@.len() == 32,
        forall|i: int| 0 <= i < 32 ==> is_ascii_alphanumeric(#[trigger] res.state@[i]),
        res.redirect_uri@ == redirect_uri_spec(port),
        res.auth_url@ == authorization_url_spec(
            client_id@,
            res.redirect_uri@,
            pkce_challenge_spec(res.verifier@),
            res.state@,
        ),
{
    let mut redirect_uri = String::from_str("http://127.0.0.1:");
    push_decimal(&mut redirect_uri, port as u64);
    let verifier = random_string(96);
    let challenge = pkce_challenge(verifier.as_str());
    let state = random_string(32);
    let auth_url = authorization_url(
        client_id,
        redirect_uri.as_str(),
        challenge.as_str(),
        state.as_str(),
    );
    LoginRequest { verifier, state, redirect_uri, auth_url }
}

/// Checks that the redirect echoed the state the sign-in was sent with.
pub fn check_returned_state(returned: &Option<String>, expected: &str) -> (res: Result<(), String>)
    ensures
        (returned matches Some(r) && r@ == expected@) ==> res is Ok,
        !(returned matches Some(r) && r@ == expected@) ==> (res matches Err(e) && e@
            == "Resposta OAuth invalida. Tente conectar novamente."@),
{
    match returned {
        Some(r) => {
            let e = String::from_str(expected);
            if *r == e {
                return Ok(());
            }
        },
        None => {},
    }
    Err(String::from_str("Resposta OAuth invalida. Tente conectar novamente."))
}

/// The pairs of a form, as texts.
pub open spec fn form_view(form: Seq<(String, String)>) -> Seq<(Seq<char>, Seq<char>)> {
    form.map_values(|p: (String, String)| (p.0@, p.1@))
}

/// The client secret as a form entry, when there is one.
pub open spec fn secret_entry(secret: Option<String>) -> Seq<(Seq<char>, Seq<char>)> {
    match secret {
        Some(s) => seq![("client_secret"@, s@)],
        None => seq![],
    }
}

fn pair(k: &str, v: &str) -> (res: (String, String))
    ensures
        res.0@ == k@,
        res.1@ == v@,
{
    (String::from_str(k), String::from_str(v))
}

fn push_secret(form: &mut Vec<(String, String)>, secret: &Option<String>)
    ensures
        form_view(final(form)@) == form_view(old(form)@) + secret_entry(*secret),
{
    let ghost before = form@;
    match secret {
        Some(s) => {
            form.push(pair("client_secret", s.as_str()));
        },
        None => {},
    }
    assert(form_view(form@) =~= form_view(before) + secret_entry(*secret));
}

/// The form that redeems an authorization code: client, code, verifier,
/// grant type and redirect, then the client secret when there is one.
pub fn authorization_code_form(
    client_id: &str,
    code: &str,
    verifier: &str,
    redirect_uri: &str,
    secret: &Option<String>,
) -> (res: Vec<(String, String)>)
    ensures
        form_view(res@) == seq![
            ("client_id"@, client_id@),
            ("code"@, code@),
            ("code_verifier"@, verifier@),
            ("grant_type"@, "authorization_code"@),
            ("redirect_uri"@, redirect_uri@),
        ] + secret_entry(*secret),
{
    let mut form: Vec<(String, String)> = Vec::new();
    form.push(pair("client_id", client_id));
    form.push(pair("code", code));
    form.push(pair("code_verifier", verifier));
    form.push(pair("grant_type", "authorization_code"));
    form.push(pair("redirect_uri", redirect_uri));
    assert(form_view(form@) =~= seq![
        ("client_id"@, client_id@),
        ("code"@, code@),
        ("code_verifier"@, verifier@),
        ("grant_type"@, "authorization_code"@),
        ("redirect_uri"@, redirect_uri@),
    ]);
    push_secret(&mut form, secret);
    form
}

/// The form that trades the refresh token for a new access token.
pub fn refresh_token_form(client_id: &str, refresh_token: &str, secret: &Option<String>) -> (res:
    Vec<(String, String)>)
    ensures
        form_view(res@) == seq![
            ("client_id"@, client_id@),
            ("refresh_token"@, refresh_token@),
            ("grant_type"@, "refresh_token"@),
        ] + secret_entry(*secret),
{
    let mut form: Vec<(String, String)> = Vec::new();
    form.push(pair("client_id", client_id));
    form.push(pair("refresh_token", refresh_token));
    form.push(pair("grant_type", "refresh_token"));
    assert(form_view(form@) =~= seq![
        ("client_id"@, client_id@),
        ("refresh_token"@, refresh_token@),
        ("grant_type"@, "refresh_token"@),
    ]);
    push_secret(&mut form, secret);
    form
}

/// The first of three optional values that is present.
pub open spec fn first_present(a: Option<String>, b: Option<String>, c: Option<String>) -> Option<
    String,
> {
    match a {
        Some(x) => Some(x),
        None => match b {
            Some(x) => Some(x),
            None => c,
        },
    }
}

/// The client to sign in with: the configured one, else the one built
/// into the app, else the one in the environment.
pub fn resolve_client_id(
    configured: &Option<String>,
    built_in: &Option<String>,
    environment: &Option<String>,
) -> (res: Result<String, String>)
    ensures
        match first_present(*configured, *built_in, *environment) {
            Some(c) => res == Ok::<String, String>(c),
            None => res matches Err(e) && e@ == "O app ainda nao tem Google OAuth Client ID embutido."@,
        },
{
    match configured {
        Some(c) => Ok(c.clone()),
        None => match built_in {
            Some(c) => Ok(c.clone()),
            None => match environment {
                Some(c) => Ok(c.clone()),
                None => Err(String::from_str("O app ainda nao tem Google OAuth Client ID embutido.")),
            },
        },
    }
}

/// The client secret: the one built into the app, else the one in the
/// environment, unless it is blank.
pub fn resolve_client_secret(built_in: Option<String>, environment: Option<String>) -> (res:
    Option<String>)
    ensures
        ({
            let chosen = match built_in {
                Some(s) => Some(s),
                None => environment,
            };
            match chosen {
                Some(s) => if is_blank_seq(s@) {
                    res is None
                } else {
                    res == Some(s)
                },
                None => res is None,
            }
        }),
{
    let chosen = match built_in {
        Some(s) => Some(s),
        None => environment,
    };
    match chosen {
        Some(s) => if is_blank(s.as_str()) {
            None
        } else {
            Some(s)
        },
        None => None,
    }
}

/// What the token endpoint answers.
pub struct TokenResponse {
    /// The new access token.
    pub access_token: String,
    /// Seconds until it expires, when said.
    pub expires_in: Option<i64>,
    /// A new refresh token, when one is issued.
    pub refresh_token: Option<String>,
}

/// What the token endpoint answers on an error.
pub struct TokenErrorResponse {
    /// The error code.
    pub error: Option<String>,
    /// Its explanation.
    pub error_description: Option<String>,
}

/// `seconds - 60`, held at `i64::MIN`.
pub open spec fn margin_seconds(seconds: i64) -> int {
    if seconds - 60 < i64::MIN {
        i64::MIN as int
    } else {
        seconds - 60
    }
}

/// The largest number of seconds that a time span can hold (the bound of
/// `chrono::TimeDelta::seconds`).
pub const MAX_SPAN_SECONDS: i64 = 9223372036854775;

/// Whether the expiry of a token is a date and time: the span fits a time
/// delta and the sum is an instant.
pub open spec fn expiry_fits(expires_in: Option<i64>, now: i128) -> bool {
    match expires_in {
        Some(s) => {
            let m = margin_seconds(s);
            &&& -MAX_SPAN_SECONDS <= m <= MAX_SPAN_SECONDS
            &&& is_instant(now + m * SECOND_NANOS)
        },
        None => true,
    }
}

/// When a token received at `now` is taken to expire: a minute before the
/// end of its lifetime.
pub open spec fn expiry_after(expires_in: Option<i64>, now: i128) -> Option<i128> {
    match expires_in {
        Some(s) => Some((now + margin_seconds(s) * SECOND_NANOS) as i128),
        None => None,
    }
}

fn expiry_instant(expires_in: Option<i64>, now: i128) -> (res: Option<i128>)
    requires
        expiry_fits(expires_in, now),
    ensures
        res == expiry_after(expires_in, now),
{
    match expires_in {
        Some(s) => {
            let m: i64 = if s < i64::MIN + 60 {
                i64::MIN
            } else {
                s - 60
            };
            assert(m == margin_seconds(s));
            let m: i128 = m as i128;
            assert(-10000000000000000000000000 <= m * SECOND_NANOS <= 10000000000000000000000000)
                by (nonlinear_arith)
                requires
                    -MAX_SPAN_SECONDS <= m <= MAX_SPAN_SECONDS,
            ;
            Some(now + m * SECOND_NANOS)
        },
        None => None,
    }
}

/// Records the tokens that signing in gave at `now`: the access token and
/// its expiry, the new refresh token (or the one already held), and the
/// account as connected. The client and the folder stay.
pub fn apply_login_token(google: &mut GoogleConfig, token: TokenResponse, now: i128)
    requires
        expiry_fits(token.expires_in, now),
    ensures
        final(google).access_token == Some(token.access_token),
        final(google).refresh_token == match token.refresh_token {
            Some(r) => Some(r),
            None => old(google).refresh_token,
        },
        final(google).expires_at == expiry_after(token.expires_in, now),
        final(google).email matches Some(e) && e@ == "Conta conectada"@,
        final(google).client_id == old(google).client_id,
        final(google).drive_folder_id == old(google).drive_folder_id,
{
    google.access_token = Some(token.access_token);
    match token.refresh_token {
        Some(r) => {
            google.refresh_token = Some(r);
        },
        None => {},
    }
    google.expires_at = expiry_instant(token.expires_in, now);
    google.email = Some(String::from_str("Conta conectada"));
}

/// Records a new access token received at `now` and returns it.
pub fn apply_refreshed_token(google: &mut GoogleConfig, token: TokenResponse, now: i128) -> (res:
    String)
    requires
        expiry_fits(token.expires_in, now),
    ensures
        res == token.access_token,
        final(google).access_token == Some(token.access_token),
        final(google).expires_at == expiry_after(token.expires_in, now),
        final(google).refresh_token == old(google).refresh_token,
        final(google).client_id == old(google).client_id,
        final(google).email == old(google).email,
        final(google).drive_folder_id == old(google).drive_folder_id,
{
    let access = token.access_token;
    google.access_token = Some(access.clone());
    google.expires_at = expiry_instant(token.expires_in, now);
    access
}

/// The access token held, while it has not expired at `now`.
pub fn cached_access_token(google: &GoogleConfig, now: i128) -> (res: Option<String>)
    ensures
        ({
            match (google.access_token, google.expires_at) {
                (Some(t), Some(at)) => if at > now {
                    res == Some(t)
                } else {
                    res is None
                },
                _ => res is None,
            }
        }),
{
    match (&google.access_token, google.expires_at) {
        (Some(t), Some(at)) => if at > now {
            Some(t.clone())
        } else {
            None
        },
        _ => None,
    }
}

/// The form that refreshes the access token, or why there is none: the
/// client comes first (as `resolve_client_id` finds it), then the refresh
/// token must be held.
pub fn refresh_request(
    google: &GoogleConfig,
    built_in: &Option<String>,
    environment: &Option<String>,
    secret: &Option<String>,
) -> (res: Result<Vec<(String, String)>, String>)
    ensures
        match first_present(google.client_id, *built_in, *environment) {
            None => res matches Err(e) && e@ == "O app ainda nao tem Google OAuth Client ID embutido."@,
            Some(client) => match google.refresh_token {
                None => res matches Err(e) && e@ == "Conecte sua conta Google primeiro"@,
                Some(r) => res matches Ok(form) && form_view(form@) == seq![
                    ("client_id"@, client@),
                    ("refresh_token"@, r@),
                    ("grant_type"@, "refresh_token"@),
                ] + secret_entry(*secret),
            },
        },
{
    let client_id = resolve_client_id(&google.client_id, built_in, environment)?;
    match &google.refresh_token {
        Some(r) => Ok(refresh_token_form(client_id.as_str(), r.as_str(), secret)),
        None => Err(String::from_str("Conecte sua conta Google primeiro")),
    }
}

/// The message for a refused token request: the status and the error the
/// body names (code, and description when given), or the raw body when it
/// names none.
pub fn token_error_message(status: &str, body: &str, parsed: &Option<TokenErrorResponse>) -> (res:
    String)
    ensures
        ({
            let head = "Google token HTTP "@ + status@ + ": "@;
            match parsed {
                Some(err) => {
                    let code = match err.error {
                        Some(c) => c@,
                        None => "erro_desconhecido"@,
                    };
                    match err.error_description {
                        Some(d) => res@ == head + code + " - "@ + d@,
                        None => res@ == head + code,
                    }
                },
                None => res@ == head + body@,
            }
        }),
{
    let mut res = String::from_str("Google token HTTP ");
    res.append(status);
    res.append(": ");
    match parsed {
        Some(err) => {
            match &err.error {
                Some(c) => res.append(c.as_str()),
                None => res.append("erro_desconhecido"),
            }
            match &err.error_description {
                Some(d) => {
                    res.append(" - ");
                    res.append(d.as_str());
                },
                None => {},
            }
        },
        None => res.append(body),
    }
    res
}

/// Prepares the account state read from disk: the access token never
/// outlives a restart. Returns whether the refresh token must be looked up
/// in the system keyring (when the file held none).
pub fn begin_token_load(google: &mut GoogleConfig) -> (res: bool)
    ensures
        res == old(google).refresh_token is None,
        final(google).access_token is None,
        final(google).expires_at is None,
        final(google).refresh_token == old(google).refresh_token,
        final(google).client_id == old(google).client_id,
        final(google).email == old(google).email,
        final(google).drive_folder_id == old(google).drive_folder_id,
{
    google.access_token = None;
    google.expires_at = None;
    google.refresh_token.is_none()
}

/// Adopts the refresh token found in the keyring, unless it is blank.
pub fn adopt_stored_refresh_token(google: &mut GoogleConfig, token: String)
    ensures
        is_blank_seq(token@) ==> *final(google) == *old(google),
        !is_blank_seq(token@) ==> final(google).refresh_token == Some(token),
        final(google).access_token == old(google).access_token,
        final(google).expires_at == old(google).expires_at,
        final(google).client_id == old(google).client_id,
        final(google).email == old(google).email,
        final(google).drive_folder_id == old(google).drive_folder_id,
{
    if !is_blank(token.as_str()) {
        google.refresh_token = Some(token);
    }
}

/// Records how signing in ended: on success the new account state, on
/// failure the message. Returns whether it succeeded, in which case the
/// settings are saved and `record_login_saved` told how that went.
pub fn record_login_result(config: &mut AppConfig, result: Result<GoogleConfig, String>) -> (res:
    bool)
    ensures
        res == result is Ok,
        result matches Ok(g) ==> final(config).google == g && final(config).last_result
            == old(config).last_result,
        result matches Err(e) ==> final(config).google == old(config).google && (final(config).last_result matches Some(m) && m@ == "Falha no login Google: "@ + e@),
        final(config).minecraft_dir == old(config).minecraft_dir,
        final(config).backup_dir == old(config).backup_dir,
        final(config).selected_worlds == old(config).selected_worlds,
        final(config).interval_minutes == old(config).interval_minutes,
        final(config).auto_enabled == old(config).auto_enabled,
        final(config).last_backup_at == old(config).last_backup_at,
        final(config).next_backup_at == old(config).next_backup_at,
{
    match result {
        Ok(g) => {
            config.google = g;
            true
        },
        Err(e) => {
            config.last_result = Some(join2("Falha no login Google: ", e.as_str()));
            false
        },
    }
}

/// Records how saving a new sign-in went: the account is connected, or,
/// when it could not be saved, it is forgotten and the user told why.
pub fn record_login_saved(config: &mut AppConfig, saved: Result<(), String>)
    ensures
        saved is Ok ==> final(config).google == old(config).google && (final(config).last_result
            matches Some(m) && m@ == "Google Drive conectado"@),
        saved matches Err(e) ==> final(config).google.client_id is None
            && final(config).google.refresh_token is None
            && final(config).google.access_token is None
            && final(config).google.expires_at is None && final(config).google.email is None
            && final(config).google.drive_folder_id is None && (final(config).last_result matches Some(m)
            && m@ == "Falha ao salvar login Google: "@ + e@),
        final(config).minecraft_dir == old(config).minecraft_dir,
        final(config).backup_dir == old(config).backup_dir,
        final(config).selected_worlds == old(config).selected_worlds,
        final(config).interval_minutes == old(config).interval_minutes,
        final(config).auto_enabled == old(config).auto_enabled,
        final(config).last_backup_at == old(config).last_backup_at,
        final(config).next_backup_at == old(config).next_backup_at,
{
    match saved {
        Ok(()) => {
            config.last_result = Some(String::from_str("Google Drive conectado"));
        },
        Err(e) => {
            config.google = GoogleConfig::empty();
            config.last_result = Some(join2("Falha ao salvar login Google: ", e.as_str()));
        },
    }
}

/// The Drive folder already known, if any.
pub fn cached_drive_folder(google: &GoogleConfig) -> (res: Option<String>)
    ensures
        res == google.drive_folder_id,
{
    copy_opt_string(&google.drive_folder_id)
}

/// Remembers the Drive folder found or created, and returns it.
pub fn remember_drive_folder(google: &mut GoogleConfig, folder_id: String) -> (res: String)
    ensures
        res == folder_id,
        final(google).drive_folder_id == Some(folder_id),
        final(google).client_id == old(google).client_id,
        final(google).refresh_token == old(google).refresh_token,
        final(google).access_token == old(google).access_token,
        final(google).expires_at == old(google).expires_at,
        final(google).email == old(google).email,
{
    google.drive_folder_id = Some(folder_id.clone());
    folder_id
}


/// The PKCE challenge of a verifier is the URL-safe base64 (no padding)
/// of the SHA-256 digest of all of its UTF-8 bytes.
pub proof fn law_challenge_digests_the_whole_verifier(verifier: Seq<char>)
    ensures
        pkce_challenge_spec(verifier) == base64_url_no_pad(sha256(encode_utf8(verifier))),
{
}

/// Whether `c` is in the URL-safe base64 alphabet.
pub open spec fn is_base64_url_char(c: char) -> bool {
    is_ascii_alphanumeric(c) || c == '-' || c == '_'
}

/// URL-safe base64 without padding writes `4n/3` characters for `n`
/// bytes, rounded up, all from its alphabet; and bytes that come in whole
/// groups of three are written group by group, so the text of two such
/// runs of bytes is the text of the first followed by that of the second.
pub proof fn law_base64_length_alphabet_and_groups(a: Seq<u8>, b: Seq<u8>)
    ensures
        base64_url_no_pad(a).len() == (4 * a.len() + 2) / 3,
        forall|i: int|
            0 <= i < base64_url_no_pad(a).len() ==> is_base64_url_char(
                #[trigger] base64_url_no_pad(a)[i],
            ),
        a.len() % 3 == 0 ==> base64_url_no_pad(a + b) == base64_url_no_pad(a) + base64_url_no_pad(
            b,
        ),
    decreases a.len(),
{
    if a.len() >= 3 {
        law_base64_length_alphabet_and_groups(a.skip(3), b);
        assert((a + b).skip(3) =~= a.skip(3) + b);
        assert forall|i: int| 0 <= i < base64_url_no_pad(a).len() implies is_base64_url_char(
            #[trigger] base64_url_no_pad(a)[i],
        ) by {
            if i >= 4 {
                assert(base64_url_no_pad(a)[i] == base64_url_no_pad(a.skip(3))[i - 4]);
            } else {
                lemma_base64_url_char_in_alphabet(a[0] as int / 4);
                lemma_base64_url_char_in_alphabet((a[0] as int % 4) * 16 + a[1] as int / 16);
                lemma_base64_url_char_in_alphabet((a[1] as int % 16) * 4 + a[2] as int / 64);
                lemma_base64_url_char_in_alphabet(a[2] as int % 64);
            }
        }
        if a.len() % 3 == 0 {
            assert(base64_url_no_pad(a + b) =~= base64_url_no_pad(a) + base64_url_no_pad(b));
        }
    } else if a.len() > 0 {
        let b0 = a[0] as int;
        lemma_base64_url_char_in_alphabet(b0 / 4);
        lemma_base64_url_char_in_alphabet((b0 % 4) * 16);
        if a.len() == 2 {
            let b1 = a[1] as int;
            lemma_base64_url_char_in_alphabet((b0 % 4) * 16 + b1 / 16);
            lemma_base64_url_char_in_alphabet((b1 % 16) * 4);
        }
    } else {
        assert(a + b =~= b);
        assert(base64_url_no_pad(a) + base64_url_no_pad(b) =~= base64_url_no_pad(b));
    }
}

proof fn lemma_base64_url_char_in_alphabet(v: int)
    requires
        0 <= v < 64,
    ensures
        is_base64_url_char(base64_url_char(v)),
{
}


/// The six bits `v` are written as the `v`-th character of the URL-safe
/// base64 alphabet `A`-`Z`, `a`-`z`, `0`-`9`, `-`, `_`.
pub proof fn law_base64_url_alphabet(v: int)
    requires
        0 <= v < 64,
    ensures
        base64_url_char(v)
            == "ABCDEFGHIJKLMNOPQRSTUVWXYZabcdefghijklmnopqrstuvwxyz0123456789-_"@[v],
{
    reveal_strlit("ABCDEFGHIJKLMNOPQRSTUVWXYZabcdefghijklmnopqrstuvwxyz0123456789-_");
}

} // verus!
