use mine_autobackup::config::{AppConfig, GoogleConfig};
use mine_autobackup::oauth::{
    adopt_stored_refresh_token, apply_login_token, apply_refreshed_token, authorization_code_form,
    authorization_url, begin_login, begin_token_load, cached_access_token, cached_drive_folder,
    check_returned_state, pkce_challenge, record_login_result, record_login_saved,
    refresh_request, refresh_token_form, remember_drive_folder, resolve_client_id,
    resolve_client_secret, token_error_message, TokenErrorResponse, TokenResponse,
};
use mine_autobackup::url::{parse_oauth_callback, query_param};

fn pairs(form: &[(String, String)]) -> Vec<(&str, &str)> {
    form.iter().map(|(k, v)| (k.as_str(), v.as_str())).collect()
}

#[test]
fn pkce_challenges_use_the_url_safe_alphabet() {
    assert_eq!(pkce_challenge(""), "47DEQpj8HBSa-_TImW-5JCeuQeRkm5NMpJWZG3hSuFU");
    assert_eq!(pkce_challenge("a"), "ypeBEsobvcr6wjGzmiPcTaeG7_gUfE5yuYB3ha_uSLs");
    assert_eq!(pkce_challenge("ab"), "-44g_C5MPySMYMOb1lLzwTRymLuXe4tNWQO4UFViBgM");
}

#[test]
fn pkce_challenge_of_the_rfc_example() {
    assert_eq!(pkce_challenge("dBjftJeZ4CVP-mB92K27uhbUJU1p1r_wW1gFWFOEjXk"), "E9Melhoa2OwvFrEMTJguCHaoeK1t8URWbuGJSstw-cM");
}

#[test]
fn authorization_address() {
    let url = authorization_url("id.apps", "http://127.0.0.1:5000", "ch", "st");
    assert_eq!(url, "https://accounts.google.com/o/oauth2/v2/auth?client_id=id.apps&redirect_uri=http%3A%2F%2F127.0.0.1%3A5000&response_type=code&scope=https%3A%2F%2Fwww.googleapis.com%2Fauth%2Fdrive.file&access_type=offline&prompt=consent&code_challenge=ch&code_challenge_method=S256&state=st");
}

#[test]
fn login_request_is_fresh_and_consistent() {
    let req = begin_login("client", 4567);
    assert_eq!(req.verifier.len(), 96);
    assert_eq!(req.state.len(), 32);
    assert!(req.verifier.chars().all(|c| c.is_ascii_alphanumeric()));
    assert!(req.state.chars().all(|c| c.is_ascii_alphanumeric()));
    assert_eq!(req.redirect_uri, "http://127.0.0.1:4567");
    let query = req.auth_url.split_once('?').map(|(_, q)| q).unwrap_or("");
    assert_eq!(query_param(query, "state"), Some(req.state.clone()));
    assert_eq!(query_param(query, "code_challenge"), Some(pkce_challenge(&req.verifier)));
    assert_eq!(query_param(query, "redirect_uri"), Some(req.redirect_uri.clone()));
    let other = begin_login("client", 4567);
    assert_ne!(req.verifier, other.verifier);
}

#[test]
fn returned_state_must_match() {
    assert_eq!(check_returned_state(&Some("abc".to_string()), "abc"), Ok(()));
    let refused = Err("Resposta OAuth invalida. Tente conectar novamente.".to_string());
    assert_eq!(check_returned_state(&Some("abd".to_string()), "abc"), refused);
    assert_eq!(check_returned_state(&None, "abc"), refused);
}

#[test]
fn redirect_round_trip() {
    let req = begin_login("client", 80);
    let request = format!("GET /?code=4%2F0AX&state={} HTTP/1.1\r\n\r\n", req.state);
    let cb = parse_oauth_callback(&request).unwrap_or_else(|_| panic!("not parsed"));
    assert_eq!(check_returned_state(&cb.state, &req.state), Ok(()));
    assert_eq!(cb.code, "4/0AX");
}

#[test]
fn code_form() {
    let form = authorization_code_form("id", "code", "ver", "http://r", &Some("sec".to_string()));
    assert_eq!(pairs(&form), vec![("client_id", "id"), ("code", "code"), ("code_verifier", "ver"), ("grant_type", "authorization_code"), ("redirect_uri", "http://r"), ("client_secret", "sec")]);
    let form = authorization_code_form("id", "code", "ver", "http://r", &None);
    assert_eq!(form.len(), 5);
}

#[test]
fn refresh_form() {
    let form = refresh_token_form("id", "rt", &None);
    assert_eq!(pairs(&form), vec![("client_id", "id"), ("refresh_token", "rt"), ("grant_type", "refresh_token")]);
}

#[test]
fn client_id_resolution() {
    let s = |v: &str| Some(v.to_string());
    assert_eq!(resolve_client_id(&s("a"), &s("b"), &s("c")), Ok("a".to_string()));
    assert_eq!(resolve_client_id(&None, &s("b"), &s("c")), Ok("b".to_string()));
    assert_eq!(resolve_client_id(&None, &None, &s("c")), Ok("c".to_string()));
    assert_eq!(resolve_client_id(&None, &None, &None), Err("O app ainda nao tem Google OAuth Client ID embutido.".to_string()));
}

#[test]
fn client_secret_resolution() {
    let s = |v: &str| Some(v.to_string());
    assert_eq!(resolve_client_secret(s("x"), s("y")), s("x"));
    assert_eq!(resolve_client_secret(None, s("y")), s("y"));
    assert_eq!(resolve_client_secret(s("  \t"), s("y")), None);
    assert_eq!(resolve_client_secret(None, None), None);
}

#[test]
fn login_token_is_recorded() {
    let mut g = GoogleConfig::default();
    g.refresh_token = Some("old".to_string());
    g.drive_folder_id = Some("f".to_string());
    apply_login_token(&mut g, TokenResponse { access_token: "acc".to_string(), expires_in: Some(3600), refresh_token: None }, 1_000);
    assert_eq!(g.access_token.as_deref(), Some("acc"));
    assert_eq!(g.refresh_token.as_deref(), Some("old"));
    assert_eq!(g.expires_at, Some(1_000 + 3540 * 1_000_000_000));
    assert_eq!(g.email.as_deref(), Some("Conta conectada"));
    assert_eq!(g.drive_folder_id.as_deref(), Some("f"));
    apply_login_token(&mut g, TokenResponse { access_token: "a2".to_string(), expires_in: None, refresh_token: Some("new".to_string()) }, 0);
    assert_eq!(g.refresh_token.as_deref(), Some("new"));
    assert_eq!(g.expires_at, None);
}

#[test]
fn short_lifetimes_expire_at_once() {
    let mut g = GoogleConfig::default();
    apply_login_token(&mut g, TokenResponse { access_token: "a".to_string(), expires_in: Some(30), refresh_token: None }, 100_000);
    assert_eq!(g.expires_at, Some(100_000 - 30 * 1_000_000_000));
}

#[test]
fn refreshed_token_and_cache() {
    let mut g = GoogleConfig::default();
    let t = apply_refreshed_token(&mut g, TokenResponse { access_token: "new".to_string(), expires_in: Some(120), refresh_token: Some("ignored".to_string()) }, 0);
    assert_eq!(t, "new");
    assert_eq!(g.refresh_token, None);
    assert_eq!(cached_access_token(&g, 59_999_999_999), Some("new".to_string()));
    assert_eq!(cached_access_token(&g, 60_000_000_000), None);
    assert_eq!(cached_access_token(&GoogleConfig::default(), 0), None);
    g.expires_at = Some(1_000_000_000_000_000_500);
    assert_eq!(cached_access_token(&g, 1_000_000_000_000_000_499), Some("new".to_string()));
    assert_eq!(cached_access_token(&g, 1_000_000_000_000_000_500), None);
}

#[test]
fn refresh_request_needs_client_and_token() {
    let mut g = GoogleConfig::default();
    assert_eq!(refresh_request(&g, &None, &None, &None).err().as_deref(), Some("O app ainda nao tem Google OAuth Client ID embutido."));
    g.client_id = Some("id".to_string());
    assert_eq!(refresh_request(&g, &None, &None, &None).err().as_deref(), Some("Conecte sua conta Google primeiro"));
    g.refresh_token = Some("rt".to_string());
    let form = refresh_request(&g, &None, &None, &Some("s".to_string())).unwrap_or_default();
    assert_eq!(pairs(&form), vec![("client_id", "id"), ("refresh_token", "rt"), ("grant_type", "refresh_token"), ("client_secret", "s")]);
}

#[test]
fn token_error_messages() {
    let err = |e: Option<&str>, d: Option<&str>| Some(TokenErrorResponse { error: e.map(str::to_string), error_description: d.map(str::to_string) });
    assert_eq!(token_error_message("400 Bad Request", "{}", &err(Some("invalid_grant"), Some("Bad"))), "Google token HTTP 400 Bad Request: invalid_grant - Bad");
    assert_eq!(token_error_message("400 Bad Request", "{}", &err(Some("invalid_grant"), None)), "Google token HTTP 400 Bad Request: invalid_grant");
    assert_eq!(token_error_message("401 Unauthorized", "{}", &err(None, None)), "Google token HTTP 401 Unauthorized: erro_desconhecido");
    assert_eq!(token_error_message("502 Bad Gateway", "<html>", &None), "Google token HTTP 502 Bad Gateway: <html>");
}

#[test]
fn keyring_token_loading() {
    let mut g = GoogleConfig::default();
    g.access_token = Some("a".to_string());
    g.expires_at = Some(5);
    assert!(begin_token_load(&mut g));
    assert!(g.access_token.is_none() && g.expires_at.is_none());
    adopt_stored_refresh_token(&mut g, " \n".to_string());
    assert!(g.refresh_token.is_none());
    adopt_stored_refresh_token(&mut g, "rt".to_string());
    assert_eq!(g.refresh_token.as_deref(), Some("rt"));
    assert!(!begin_token_load(&mut g));
}

#[test]
fn login_outcomes() {
    let mut c = AppConfig::initial(None, None);
    assert!(!record_login_result(&mut c, Err("timeout".to_string())));
    assert_eq!(c.last_result.as_deref(), Some("Falha no login Google: timeout"));
    let mut g = GoogleConfig::default();
    g.refresh_token = Some("rt".to_string());
    assert!(record_login_result(&mut c, Ok(g)));
    assert_eq!(c.google.refresh_token.as_deref(), Some("rt"));
    record_login_saved(&mut c, Ok(()));
    assert_eq!(c.last_result.as_deref(), Some("Google Drive conectado"));
    record_login_saved(&mut c, Err("cofre".to_string()));
    assert!(c.google.refresh_token.is_none());
    assert_eq!(c.last_result.as_deref(), Some("Falha ao salvar login Google: cofre"));
}

#[test]
fn drive_folder_is_remembered() {
    let mut g = GoogleConfig::default();
    assert_eq!(cached_drive_folder(&g), None);
    assert_eq!(remember_drive_folder(&mut g, "fid".to_string()), "fid");
    assert_eq!(cached_drive_folder(&g), Some("fid".to_string()));
}
