use annessaia::cli::{bundled, command, default_output, done_line, manifest, product, read_args, wrap, wrap_single, Command};
use annessaia::numerals::hex_encode;
use annessaia::package::{
    find_app, hex_to_bytes, identify, is_zip, peeked_hash, resolve_wasm, seal, sha256_hex, strip_hash_trailer,
    unpack, write_package, ArchiveEntry, Asset, Package, PackageError,
};
use annessaia::table::Table;

const ABC: &str = "ba7816bf8f01cfea414140de5dae2223b00361a396177a9cb410ff61f20015ad";

fn asset(path: &str, data: &[u8]) -> Asset {
    Asset { path: path.to_string(), data: data.to_vec() }
}

fn words(s: &[&str]) -> Vec<String> {
    s.iter().map(|x| x.to_string()).collect()
}

#[test]
fn digests_and_hexadecimal() {
    assert_eq!(sha256_hex(&b"abc".to_vec()), ABC);
    assert_eq!(hex_encode(&vec![0, 15, 255]), "000fff");
    assert_eq!(hex_to_bytes("000fFf"), vec![0, 15, 255]);
    assert_eq!(hex_to_bytes(&hex_encode(&vec![7, 200])), vec![7, 200]);
}

#[test]
fn a_sealed_file_gives_back_its_content() {
    let body = b"\0asm and more".to_vec();
    let (raw, hash) = seal(&body);
    assert_eq!(raw.len(), body.len() + 32);
    assert_eq!(hash, sha256_hex(&body));
    let s = strip_hash_trailer(&raw);
    assert_eq!(s.hash, Some(hash.clone()));
    assert_eq!(s.body, body);
    assert_eq!(identify(&raw), (hash.clone(), body.clone()));
    assert_eq!(peeked_hash(206, &raw[raw.len() - 32..].to_vec()), Some(hash));
    assert_eq!(peeked_hash(200, &raw[raw.len() - 32..].to_vec()), None);
    assert_eq!(peeked_hash(206, &raw), None);
    let s = strip_hash_trailer(&body);
    assert_eq!(s.hash, None);
    assert_eq!(s.body, body);
    assert_eq!(identify(&body).0, sha256_hex(&body));
}

#[test]
fn an_archive_gives_back_the_app() {
    let wasm = b"\0asm\x01\0\0\0".to_vec();
    let zip = write_package(&wasm, &vec![asset("a.txt", b"one"), asset("d/b.bin", &[0, 255])]).unwrap();
    assert!(is_zip(&zip));
    let p = unpack(&zip).unwrap();
    assert_eq!(p.wasm, wasm);
    assert_eq!(p.assets.get("a.txt").unwrap(), b"one");
    assert_eq!(p.assets.get("d/b.bin").unwrap(), &vec![0, 255]);
    assert_eq!(p.assets.entries.len(), 2);
    let p = unpack(&wasm).unwrap();
    assert_eq!(p.wasm, wasm);
    assert!(p.assets.entries.is_empty());
    assert!(matches!(unpack(&b"PK\x03\x04junk".to_vec()), Err(PackageError::NotAnArchive)));
}

#[test]
fn an_archive_takes_a_path_once() {
    let wasm = b"\0asm".to_vec();
    assert!(write_package(&wasm, &vec![]).is_some());
    assert!(write_package(&wasm, &vec![asset("a", b"1"), asset("b", b"1")]).is_some());
    assert!(write_package(&wasm, &vec![asset("a", b"1"), asset("b", b"2"), asset("a", b"3")]).is_none());
}

#[test]
fn what_an_archive_must_hold() {
    let entry = |name: &str, is_dir: bool, data: Option<Vec<u8>>| {
        Some(ArchiveEntry { name: name.to_string(), is_dir, data })
    };
    let p = find_app(vec![
        entry("assets/", true, None),
        entry("readme", false, Some(vec![9])),
        entry("assets/x", false, Some(vec![1])),
        entry("app.wasm", false, Some(vec![2])),
    ])
    .unwrap();
    assert_eq!(p.wasm, vec![2]);
    assert_eq!(p.assets.entries.len(), 1);
    assert!(matches!(find_app(vec![entry("x", false, Some(vec![]))]), Err(PackageError::NoModule)));
    assert!(matches!(find_app(vec![None]), Err(PackageError::BadEntry)));
    assert!(matches!(find_app(vec![entry("x", false, None)]), Err(PackageError::BadEntry)));
}

#[test]
fn the_cache_spares_the_unpacking() {
    let wasm = b"\0asm".to_vec();
    let (r, fresh) = resolve_wasm(&wasm, None);
    assert_eq!(r.unwrap().wasm, wasm);
    assert!(fresh);
    let (r, fresh) = resolve_wasm(&wasm, Some(Package { wasm: wasm.clone(), assets: Table::new() }));
    assert_eq!(r.unwrap().wasm, wasm);
    assert!(!fresh);
    let (r, fresh) = resolve_wasm(&b"PK\x03\x04".to_vec(), None);
    assert!(r.is_err() && !fresh);
}

#[test]
fn command_lines() {
    let a = read_args(&words(&["app.rs", "-o", "out.wasm", "-v"])).unwrap();
    assert_eq!(a.input, Some("app.rs".to_string()));
    assert_eq!(a.output, Some("out.wasm".to_string()));
    assert!(a.verbose);
    let a = read_args(&words(&["a.rs", "b.rs", "-o"])).unwrap();
    assert_eq!((a.input, a.output, a.verbose), (Some("a.rs".to_string()), None, false));
    assert_eq!(read_args(&words(&["a.rs", "--what"])).err(), Some("--what".to_string()));
    assert!(matches!(command(&words(&["new", "game"])), Command::New(ref n) if n == "game"));
    assert!(matches!(command(&words(&["new"])), Command::NewWithoutName));
    assert!(matches!(command(&words(&["build"])), Command::Build));
    assert!(matches!(command(&words(&[])), Command::Help));
    assert!(matches!(command(&words(&["fly"])), Command::Unknown(ref w) if w == "fly"));
}

#[test]
fn products_of_a_build() {
    let bytes = b"\0asm".to_vec();
    let p = product(&bytes, false);
    assert_eq!(identify(&p.bytes).1, bytes);
    assert_eq!(p.bytes.len(), bytes.len() + 32);
    assert_eq!(product(&bytes, true).bytes, bytes);
    assert_eq!(p.hash, sha256_hex(&bytes));
    assert_eq!(default_output("game"), "game.wasmh");
    assert_eq!(done_line("o.wasm", 2047, 0, "ab"), "✓ o.wasm (1 KiB, hash ab)");
    assert_eq!(done_line("o.wasm", 2048, 3, "ab"), "✓ o.wasm (2 KiB, 3 asset file(s), hash ab)");
    let m = manifest("game", "/sdk");
    assert!(m.starts_with("[package]\nname = \"game\"\n"));
    assert!(m.contains("annessaia-sdk = { path = \"/sdk\" }\n"));
    assert_eq!(wrap("a.rs", "x"), "use annessaia_sdk::prelude::*;\n\n// ── a.rs ──\n\nx");
    let own = "use annessaia_sdk::prelude::*;\nx";
    assert_eq!(wrap("a.rs", own), format!("// ── a.rs ──\n\n{own}"));
    assert!(wrap_single("a.rs", own).starts_with("use annessaia_sdk::prelude::*;\n\n// ── a.rs ─"));
    assert_eq!(bundled(&words(&["s.png", "README.md", "d/README.md"])), words(&["s.png", "d/README.md"]));
}
