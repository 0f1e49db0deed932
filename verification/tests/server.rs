use annessaia::admin::{
    admits, ai_at_start, ai_reply, login, set_ai, setup, setup_given, setup_stored, status_reply,
    to_embed, unauthorized, Setup,
};
use annessaia::gossip::Node;
use annessaia::node::{hex_of_nibbles, keep_or_make, node_id, random_hex};
use annessaia::registry::{Files, Registry};
use annessaia::upload::{check_upload, slug, uploaded};

const SELF_URL: &str = "http://localhost:9999";

/// A node with empty files, as a client meets it over HTTP.
struct Site {
    node: Node,
    password: Option<String>,
    sessions: Vec<String>,
    ai: bool,
    ai_file: Option<String>,
}

fn site() -> Site {
    let files = Files {
        approved: String::new(),
        peers: String::new(),
        mine: None,
        ratings: String::new(),
        opens: String::new(),
        published: false,
    };
    let registry = Registry::load(&files, random_hex(32), SELF_URL.to_string());
    Site {
        node: Node { registry, active: Vec::new() },
        password: None,
        sessions: Vec::new(),
        ai: ai_at_start(&None),
        ai_file: None,
    }
}

impl Site {
    fn get(&self, path: &str, token: &str) -> String {
        if !admits(path, &self.sessions, token) {
            return unauthorized();
        }
        match path {
            "/api/admin/status" => status_reply(self.password.is_some()),
            "/api/admin/ai" => ai_reply(self.ai),
            "/api/peers" => self.node.api_peers(),
            "/api/apps" => self.node.registry.index(),
            _ => panic!("no route {path}"),
        }
    }

    fn post(&mut self, path: &str, token: &str, body: &str) -> String {
        if !admits(path, &self.sessions, token) {
            return unauthorized();
        }
        let body = body.as_bytes().to_vec();
        match path {
            "/api/admin/setup" => match setup(&body, self.password.is_some()) {
                Setup::Refused(reply) => reply,
                Setup::Store(hash) => {
                    self.password = Some(hash);
                    setup_stored(&mut self.sessions, true)
                }
            },
            "/api/admin/login" => login(&mut self.sessions, &body, &self.password),
            "/api/admin/ai" => {
                let (reply, file) = set_ai(&mut self.ai, &body);
                if file.is_some() {
                    self.ai_file = file;
                }
                reply
            }
            _ => panic!("no route {path}"),
        }
    }

    fn upload(&self, name: &str, body: Vec<u8>) -> String {
        match check_upload(name, &body) {
            Ok(slug) => uploaded(SELF_URL, &slug),
            Err(reply) => reply,
        }
    }
}

#[test]
fn random_hex_has_requested_length_and_charset() {
    let s = random_hex(32);
    assert_eq!(s.len(), 32);
    assert!(s.chars().all(|c| c.is_ascii_hexdigit()));
}

#[test]
fn random_hex_is_not_constant() {
    let a = random_hex(32);
    let b = random_hex(32);
    assert_ne!(a, b);
}

#[test]
fn status_is_unset_then_set_after_setup() {
    let mut s = site();
    assert_eq!(s.get("/api/admin/status", ""), "0");
    assert!(s.post("/api/admin/setup", "", "hunter2pass").starts_with("ok\t"));
    assert_eq!(s.get("/api/admin/status", ""), "1");
}

#[test]
fn setup_rejects_short_passwords() {
    let mut s = site();
    assert_eq!(
        s.post("/api/admin/setup", "", "short"),
        "err\tpassword must be at least 8 characters"
    );
}

#[test]
fn the_characters_of_a_password_are_counted() {
    let mut s = site();
    let refused = "err\tpassword must be at least 8 characters";
    assert_eq!(s.post("/api/admin/setup", "", "éééé"), refused);
    assert_eq!(s.post("/api/admin/setup", "", "ééééééé"), refused);
    assert_eq!(s.get("/api/admin/status", ""), "0");
    assert!(s.post("/api/admin/setup", "", "éééééééé").starts_with("ok\t"));
}

#[test]
fn setup_is_rejected_once_a_password_already_exists() {
    let mut s = site();
    s.post("/api/admin/setup", "", "firstpassword");
    assert_eq!(
        s.post("/api/admin/setup", "", "secondpassword"),
        "err\tan admin password is already set"
    );
}

#[test]
fn login_succeeds_with_the_right_password_and_fails_with_the_wrong_one() {
    let mut s = site();
    s.post("/api/admin/setup", "", "hunter2pass");
    assert!(s.post("/api/admin/login", "", "hunter2pass").starts_with("ok\t"));
    assert_eq!(s.post("/api/admin/login", "", "wrong"), "err\twrong password");
}

#[test]
fn admin_routes_reject_a_missing_token() {
    let s = site();
    assert_eq!(s.get("/api/peers", ""), "unauthorized");
}

#[test]
fn admin_routes_reject_an_unknown_token() {
    let s = site();
    assert_eq!(s.get("/api/peers", "not-a-real-session"), "unauthorized");
}

#[test]
fn admin_routes_accept_a_valid_session_token() {
    let mut s = site();
    let reply = s.post("/api/admin/setup", "", "hunter2pass");
    let token = reply.strip_prefix("ok\t").unwrap().to_string();
    assert_eq!(s.get("/api/peers", &token), "");
}

#[test]
fn public_routes_do_not_require_a_token() {
    let s = site();
    assert_ne!(s.get("/api/apps", ""), "unauthorized");
}

#[test]
fn ai_toggle_defaults_on_and_persists_the_chosen_state() {
    let mut s = site();
    let reply = s.post("/api/admin/setup", "", "hunter2pass");
    let token = reply.strip_prefix("ok\t").unwrap().to_string();
    assert_eq!(s.get("/api/admin/ai", &token), "1");
    assert_eq!(s.post("/api/admin/ai", &token, "0"), "ok\tAI disabled");
    assert!(!s.ai);
    assert_eq!(s.ai_file.as_ref().unwrap().trim(), "0");
    assert_eq!(s.get("/api/admin/ai", &token), "0");
    assert!(!ai_at_start(&s.ai_file));
}

#[test]
fn ai_toggle_requires_a_session() {
    let s = site();
    assert_eq!(s.get("/api/admin/ai", ""), "unauthorized");
}

#[test]
fn embed_text_short_circuits_when_ai_is_disabled() {
    let mut s = site();
    s.ai = false;
    let result = to_embed(s.ai, "anything".to_string());
    assert!(result.is_none());
    assert_eq!(to_embed(true, "anything".to_string()), Some("anything".to_string()));
}

#[test]
fn upload_accepts_both_bare_wasm_and_wasmpackage_zips() {
    let s = site();

    let mut wasm_body = b"\0asm".to_vec();
    wasm_body.extend_from_slice(&[0u8; 8]);
    assert!(s.upload("my-app", wasm_body).starts_with("ok\t"));

    let mut zip_body = vec![0x50, 0x4B, 0x03, 0x04];
    zip_body.extend_from_slice(&[0u8; 8]);
    assert!(s.upload("my-package", zip_body).starts_with("ok\t"));

    assert_eq!(
        s.upload("garbage", vec![1, 2, 3, 4]),
        "err\tthat is not a .wasm or .wasmpackage file"
    );
}

#[test]
fn upload_accepts_a_wasmh_hash_trailer_without_choking_on_it() {
    let s = site();
    let mut body = b"\0asm".to_vec();
    body.extend_from_slice(&[0u8; 8]);
    body.extend_from_slice(&[0xAB; 32]);
    assert!(s.upload("my-app-wasmh", body).starts_with("ok\t"));
}

#[test]
fn upload_names_and_addresses() {
    let s = site();
    let wasm = b"\0asm\x01\0\0\0".to_vec();
    assert_eq!(slug("  My Great  App!.wasm "), "my-great-app");
    assert_eq!(slug("../../etc/passwd"), "etc-passwd");
    assert_eq!(
        s.upload("my-app", wasm.clone()),
        "ok\thttp://localhost:9999/apps/my-app.wasm"
    );
    assert_eq!(s.upload("", wasm.clone()), "err\tname is required");
    assert_eq!(s.upload("!!!", wasm.clone()), "err\tname is required");
    assert_eq!(s.upload(&"a".repeat(200), wasm), "err\tname is too long");
    let mut large = b"\0asm".to_vec();
    large.resize(32 * 1024 * 1024 + 1, 0);
    assert_eq!(s.upload("big", large), "err\tfile is larger than 32 MB");
}

#[test]
fn every_way_in_which_a_password_is_refused() {
    let mut s = site();
    assert_eq!(
        s.post("/api/admin/login", "", "hunter2pass"),
        "err\tno admin password set yet"
    );
    match setup_given("longenough", false, None) {
        Setup::Refused(reply) => assert_eq!(reply, "err\tcould not hash password"),
        Setup::Store(_) => panic!(),
    }
    assert_eq!(setup_stored(&mut s.sessions, false), "err\tcould not save password");
    assert!(s.sessions.is_empty());
    let mut on = true;
    let (reply, file) = set_ai(&mut on, &b"maybe".to_vec());
    assert_eq!(reply, "err\texpected \"1\" or \"0\"");
    assert!(file.is_none() && on);
}

#[test]
fn tokens_and_identities() {
    assert_eq!(hex_of_nibbles(&vec![0, 9, 10, 15]), "09af");
    assert_eq!(keep_or_make(" abc\n", "fresh".to_string()), ("abc".to_string(), false));
    assert_eq!(keep_or_make(" \n", "fresh".to_string()), ("fresh".to_string(), true));
    assert_eq!(node_id(""), "cbf29ce484222325");
    assert_eq!(node_id("a"), "af63dc4c8601ec8c");
}
