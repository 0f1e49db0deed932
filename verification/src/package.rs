//! App files: a bare module, or an archive of a module and its assets; either of
//! them with the digest of its content at its end.
use vstd::prelude::*;
use vstd::string::{StrSliceExecFns, StringExecFns};
use vstd::utf8::{encode_utf8, is_ascii_chars_encode_utf8};
use std::io::{Cursor, Read, Write};
use sha2::Digest;
use crate::numerals::{hex, hex_char_value, hex_digit, hex_encode, hex_value};
use crate::numerals::lemma_hex_values;
use crate::table::Table;
use crate::text::{begins_with, same, strip_prefix};

verus! {

// ── Digests ──────────────────────────────────────────────────────────────────

/// The name for what `sha2::Sha256::digest` returns: the SHA-256 digest.
pub uninterp spec fn sha256(bytes: Seq<u8>) -> Seq<u8>;

/// Calls `sha2::Sha256::digest`, whose result depends on the bytes alone and has 32
/// bytes.
#[verifier::external_body]
pub(crate) fn sha256_digest(bytes: &Vec<u8>) -> (r: Vec<u8>)
    ensures
        r@ == sha256(bytes@),
        r@.len() == 32,
{
    sha2::Sha256::digest(bytes).to_vec()
}

/// How many bytes a digest takes at the end of a file.
pub const HASH_TRAILER_LEN: usize = 32;

/// Returns the digest of some bytes in hexadecimal.
pub fn sha256_hex(bytes: &Vec<u8>) -> (r: String)
    ensures
        r@ == hex(sha256(bytes@)),
        r@.len() == 64,
{
    let d = sha256_digest(bytes);
    hex_encode(&d)
}

/// Whether the bytes begin as an archive does.
pub open spec fn looks_zipped(bytes: Seq<u8>) -> bool {
    bytes.len() >= 4 && bytes[0] == 0x50 && bytes[1] == 0x4b && bytes[2] == 0x03 && bytes[3] == 0x04
}

/// Whether the bytes begin as an archive does.
pub fn is_zip(bytes: &Vec<u8>) -> (r: bool)
    ensures
        r == looks_zipped(bytes@),
{
    bytes.len() >= 4 && bytes[0] == 0x50 && bytes[1] == 0x4b && bytes[2] == 0x03 && bytes[3] == 0x04
}

fn part(v: &Vec<u8>, from: usize, to: usize) -> (r: Vec<u8>)
    requires
        from <= to <= v@.len(),
    ensures
        r@ == v@.subrange(from as int, to as int),
{
    let mut out: Vec<u8> = Vec::new();
    let mut i: usize = from;
    while i < to
        invariant
            from <= i <= to <= v@.len(),
            out@ == v@.subrange(from as int, i as int),
        decreases to - i,
    {
        out.push(v[i]);
        i += 1;
        assert(out@ =~= v@.subrange(from as int, i as int));
    }
    out
}

fn bytes_same(a: &Vec<u8>, b: &Vec<u8>) -> (r: bool)
    ensures
        r == (a@ == b@),
{
    if a.len() != b.len() {
        return false;
    }
    let mut i: usize = 0;
    while i < a.len()
        invariant
            i <= a@.len() == b@.len(),
            forall|j: int| 0 <= j < i ==> a@[j] == b@[j],
        decreases a.len() - i,
    {
        if a[i] != b[i] {
            return false;
        }
        i += 1;
    }
    assert(a@ =~= b@);
    true
}

/// The content of a file, without the last 32 bytes.
pub open spec fn body_part(raw: Seq<u8>) -> Seq<u8> {
    raw.take(raw.len() - HASH_TRAILER_LEN)
}

/// The last 32 bytes of a file.
pub open spec fn trailer_part(raw: Seq<u8>) -> Seq<u8> {
    raw.skip(raw.len() - HASH_TRAILER_LEN)
}

/// Whether a file ends in the digest of the rest, given that digest.
pub open spec fn has_trailer(raw: Seq<u8>, digest: Seq<u8>) -> bool {
    raw.len() > HASH_TRAILER_LEN && digest == trailer_part(raw)
}

/// Whether a file ends in the digest of the rest.
pub open spec fn is_sealed(raw: Seq<u8>) -> bool {
    raw.len() > HASH_TRAILER_LEN && has_trailer(raw, sha256(body_part(raw)))
}

/// The content of a file, and its digest in hexadecimal if it ends in that.
pub struct Stripped {
    pub hash: Option<String>,
    pub body: Vec<u8>,
}

/// Takes the digest off the end of a file, given the digest of what comes before it.
pub fn strip_given_digest(raw: &Vec<u8>, digest: &Vec<u8>) -> (r: Stripped)
    ensures
        has_trailer(raw@, digest@) ==> r.body@ == body_part(raw@) && r.hash is Some && r.hash->0@
            == hex(trailer_part(raw@)),
        !has_trailer(raw@, digest@) ==> r.body@ == raw@ && r.hash is None,
{
    if raw.len() > HASH_TRAILER_LEN {
        let at: usize = raw.len() - HASH_TRAILER_LEN;
        let trailer = part(raw, at, raw.len());
        assert(trailer@ =~= trailer_part(raw@));
        if bytes_same(digest, &trailer) {
            let body = part(raw, 0, at);
            assert(body@ =~= body_part(raw@));
            return Stripped { hash: Some(hex_encode(&trailer)), body };
        }
    }
    let body = part(raw, 0, raw.len());
    assert(body@ =~= raw@);
    Stripped { hash: None, body }
}

/// Takes the digest off the end of a file that ends in it; another file is left as
/// it is.
pub fn strip_hash_trailer(raw: &Vec<u8>) -> (r: Stripped)
    ensures
        is_sealed(raw@) ==> r.body@ == body_part(raw@) && r.hash is Some && r.hash->0@ == hex(
            sha256(r.body@),
        ),
        !is_sealed(raw@) ==> r.body@ == raw@ && r.hash is None,
{
    if raw.len() <= HASH_TRAILER_LEN {
        let body = part(raw, 0, raw.len());
        assert(body@ =~= raw@);
        return Stripped { hash: None, body };
    }
    let body = part(raw, 0, raw.len() - HASH_TRAILER_LEN);
    assert(body@ =~= body_part(raw@));
    let digest = sha256_digest(&body);
    strip_given_digest(raw, &digest)
}

/// The digest that a file is known by, in hexadecimal: the one at its end, or that of
/// the whole file.
pub open spec fn content_hash(raw: Seq<u8>) -> Seq<char> {
    if is_sealed(raw) {
        hex(sha256(body_part(raw)))
    } else {
        hex(sha256(raw))
    }
}

/// Returns the content of a file and the digest it is known by.
pub fn identify(raw: &Vec<u8>) -> (r: (String, Vec<u8>))
    ensures
        r.0@ == content_hash(raw@),
        r.1@ == if is_sealed(raw@) {
            body_part(raw@)
        } else {
            raw@
        },
{
    let s = strip_hash_trailer(raw);
    match s.hash {
        Some(h) => (h, s.body),
        None => {
            let h = sha256_hex(&s.body);
            (h, s.body)
        },
    }
}

/// The digest in the last bytes of a file, in hexadecimal. A server that was asked for them
/// alone says so with status 206; any other status, or another number of bytes, tells
/// nothing.
pub fn peeked_hash(status: u16, tail: &Vec<u8>) -> (r: Option<String>)
    ensures
        match r {
            Some(h) => status == 206 && tail@.len() == HASH_TRAILER_LEN && h@ == hex(tail@),
            None => status != 206 || tail@.len() != HASH_TRAILER_LEN,
        },
{
    if status == 206 && tail.len() == HASH_TRAILER_LEN {
        Some(hex_encode(tail))
    } else {
        None
    }
}

/// The value of a hexadecimal digit in ASCII.
pub open spec fn hex_byte_value(b: u8) -> Option<nat> {
    hex_value(b as char)
}

/// The number that two bytes of text stand for: two hexadecimal digits, or a plus
/// sign and one digit.
pub open spec fn pair_value(a: u8, b: u8) -> Option<u8> {
    match (hex_byte_value(a), hex_byte_value(b)) {
        (Some(x), Some(y)) => Some((x * 16 + y) as u8),
        (None, Some(y)) => if a == 43 {
            Some(y as u8)
        } else {
            None
        },
        _ => None,
    }
}

/// The bytes that pairs of hexadecimal digits stand for; a pair that is none is left
/// out.
pub open spec fn hex_bytes(s: Seq<u8>) -> Seq<u8>
    decreases s.len(),
{
    if s.len() < 2 {
        Seq::empty()
    } else {
        let n = s.len();
        let rest = hex_bytes(s.take(n - 2));
        match pair_value(s[n - 2], s[n - 1]) {
            Some(x) => rest.push(x),
            None => rest,
        }
    }
}

/// Returns the bytes that a text of hexadecimal digits stands for. The text is taken
/// two bytes at a time.
pub fn hex_to_bytes(hex: &str) -> (r: Vec<u8>)
    requires
        encode_utf8(hex@).len() % 2 == 0,
    ensures
        r@ == hex_bytes(encode_utf8(hex@)),
{
    let v = hex.as_bytes_vec();
    let mut out: Vec<u8> = Vec::new();
    let mut i: usize = 0;
    assert(out@ =~= hex_bytes(v@.take(0)));
    while i < v.len()
        invariant
            i <= v@.len(),
            i % 2 == 0,
            v@.len() % 2 == 0,
            out@ == hex_bytes(v@.take(i as int)),
        decreases v.len() - i,
    {
        let a: u8 = v[i];
        let b: u8 = v[i + 1];
        assert(v@.take(i + 2).take(i as int) =~= v@.take(i as int));
        match (hex_char_value(a as char), hex_char_value(b as char)) {
            (Some(x), Some(y)) => {
                out.push(x * 16 + y);
            },
            (None, Some(y)) => {
                if a == 43 {
                    out.push(y);
                }
            },
            _ => {},
        }
        i += 2;
    }
    assert(v@.take(i as int) =~= v@);
    out
}

/// The text of some bytes in hexadecimal, as ASCII.
pub open spec fn hex_ascii(b: Seq<u8>) -> Seq<u8> {
    Seq::new(hex(b).len(), |i: int| hex(b)[i] as u8)
}

proof fn lemma_hex_is_ascii(b: Seq<u8>)
    ensures
        encode_utf8(hex(b)) == hex_ascii(b),
        encode_utf8(hex(b)).len() == b.len() * 2,
{
    let s = hex(b);
    assert forall|i: int| 0 <= i < s.len() implies '\0' <= #[trigger] s[i] <= '\u{7f}' by {
        lemma_hex_values(b[i / 2]);
    }
    is_ascii_chars_encode_utf8(s);
    assert(encode_utf8(s) =~= hex_ascii(b));
}

/// Bytes written in hexadecimal are read back as they were.
pub proof fn lemma_hex_round_trip(b: Seq<u8>)
    ensures
        hex_bytes(encode_utf8(hex(b))) == b,
        encode_utf8(hex(b)).len() % 2 == 0,
{
    lemma_hex_is_ascii(b);
    lemma_hex_ascii_round_trip(b);
}

proof fn lemma_hex_ascii_round_trip(b: Seq<u8>)
    ensures
        hex_bytes(hex_ascii(b)) == b,
    decreases b.len(),
{
    let s = hex_ascii(b);
    if b.len() == 0 {
        assert(hex_bytes(s) =~= b);
    } else {
        let d = b.drop_last();
        lemma_hex_ascii_round_trip(d);
        assert(s.take(s.len() - 2) =~= hex_ascii(d));
        lemma_hex_values(b.last());
        assert(hex(b)[s.len() - 2] == hex_digit(b.last() as nat / 16));
        assert(hex(b)[s.len() - 1] == hex_digit(b.last() as nat % 16));
        assert(d.push(b.last()) =~= b);
    }
}

/// A file with its digest at the end.
pub open spec fn sealed(body: Seq<u8>) -> Seq<u8> {
    body + sha256(body)
}

/// Returns a file with its digest at the end, and that digest in hexadecimal.
pub fn seal(body: &Vec<u8>) -> (r: (Vec<u8>, String))
    ensures
        r.0@ == sealed(body@),
        r.1@ == hex(sha256(body@)),
        sha256(body@).len() == 32,
{
    let hash = sha256_hex(body);
    proof {
        lemma_hex_round_trip(sha256(body@));
    }
    let digest = hex_to_bytes(hash.as_str());
    let mut out = part(body, 0, body.len());
    assert(out@ =~= body@);
    let mut i: usize = 0;
    while i < digest.len()
        invariant
            i <= digest@.len(),
            digest@ == sha256(body@),
            out@ == body@ + digest@.take(i as int),
        decreases digest.len() - i,
    {
        out.push(digest[i]);
        i += 1;
        assert(out@ =~= body@ + digest@.take(i as int));
    }
    assert(digest@.take(i as int) =~= digest@);
    (out, hash)
}

/// A file with its digest at the end gives back its content, and is known by the
/// digest of that content.
pub proof fn lemma_seal_round_trip(body: Seq<u8>)
    requires
        body.len() > 0,
        sha256(body).len() == HASH_TRAILER_LEN,
    ensures
        is_sealed(sealed(body)),
        body_part(sealed(body)) == body,
        content_hash(sealed(body)) == hex(sha256(body)),
{
    assert(body_part(sealed(body)) =~= body);
    assert(trailer_part(sealed(body)) =~= sha256(body));
}

// ── Archives ─────────────────────────────────────────────────────────────────

/// The outside type `std::io::Cursor`: bytes that are read or written like a file.
#[verifier::external_type_specification]
#[verifier::external_body]
#[verifier::reject_recursive_types(T)]
pub struct ExCursor<T>(std::io::Cursor<T>);

/// The outside type `zip::ZipArchive`: an archive that is open for reading.
#[verifier::external_type_specification]
#[verifier::external_body]
#[verifier::reject_recursive_types(R)]
pub struct ExZipArchive<R>(zip::ZipArchive<R>);

/// The name for the entries of an open archive, in their order: each with its name,
/// whether it is a directory, and its data, if that can be read; nothing for an entry
/// that cannot be opened.
pub uninterp spec fn archive_entries(a: zip::ZipArchive<std::io::Cursor<Vec<u8>>>) -> Seq<
    Option<(Seq<char>, bool, Option<Seq<u8>>)>,
>;

/// The name for what `zip::ZipArchive::new` opens: the entries of the archive in some
/// bytes, or nothing where they hold none.
pub uninterp spec fn zip_entries(bytes: Seq<u8>) -> Option<
    Seq<Option<(Seq<char>, bool, Option<Seq<u8>>)>>,
>;

/// Calls `zip::ZipArchive::new` on bytes in memory. Which entries there are depends on
/// the bytes alone; the error is dropped.
#[verifier::external_body]
fn open_archive(bytes: Vec<u8>) -> (r: Option<zip::ZipArchive<std::io::Cursor<Vec<u8>>>>)
    ensures
        match r {
            Some(a) => zip_entries(bytes@) == Some(archive_entries(a)),
            None => zip_entries(bytes@) is None,
        },
{
    zip::ZipArchive::new(Cursor::new(bytes)).ok()
}

/// Calls `zip::ZipArchive::len`: how many entries there are.
#[verifier::external_body]
fn archive_len(a: &zip::ZipArchive<std::io::Cursor<Vec<u8>>>) -> (n: usize)
    ensures
        n == archive_entries(*a).len(),
{
    a.len()
}

/// One entry of an archive.
pub struct ArchiveEntry {
    pub name: String,
    pub is_dir: bool,
    /// Nothing where the data cannot be read.
    pub data: Option<Vec<u8>>,
}

/// The content of an entry.
pub open spec fn entry_content(e: ArchiveEntry) -> (Seq<char>, bool, Option<Seq<u8>>) {
    (
        e.name@,
        e.is_dir,
        match e.data {
            Some(d) => Some(d@),
            None => None,
        },
    )
}

/// Calls `zip::ZipArchive::by_index` and reads the entry: its name, whether it is a
/// directory, and all of its data. Reading changes no entry.
#[verifier::external_body]
fn archive_entry(a: &mut zip::ZipArchive<std::io::Cursor<Vec<u8>>>, i: usize) -> (r: Option<
    ArchiveEntry,
>)
    requires
        i < archive_entries(*old(a)).len(),
    ensures
        archive_entries(*final(a)) == archive_entries(*old(a)),
        match r {
            Some(e) => archive_entries(*old(a))[i as int] == Some(entry_content(e)),
            None => archive_entries(*old(a))[i as int] is None,
        },
{
    let mut entry = a.by_index(i).ok()?;
    let (name, is_dir) = (entry.name().to_string(), entry.is_dir());
    let mut data = Vec::new();
    let data = entry.read_to_end(&mut data).ok().map(|_| data);
    Some(ArchiveEntry { name, is_dir, data })
}

/// A module and the assets that come with it.
pub struct Package {
    pub wasm: Vec<u8>,
    pub assets: Table<Vec<u8>>,
}

/// Why an archive is no app.
#[derive(Debug, Clone, Copy, PartialEq, Eq, Structural)]
pub enum PackageError {
    /// The bytes are no archive.
    NotAnArchive,
    /// An entry cannot be read.
    BadEntry,
    /// There is no module in it.
    NoModule,
}

/// What the entries of an archive hold so far.
#[verifier::ext_equal]
pub struct Contents {
    pub wasm: Option<Seq<u8>>,
    pub assets: Map<Seq<char>, Seq<u8>>,
}

/// Whether an entry stops the reading: it cannot be opened, or it is a file whose data
/// cannot be read.
pub open spec fn entry_is_bad(e: Option<(Seq<char>, bool, Option<Seq<u8>>)>) -> bool {
    match e {
        Some(t) => !t.1 && t.2 is None,
        None => true,
    }
}

/// What is held after one more entry: directories and files with other names are
/// passed over, and a later file takes the place of an earlier one.
pub open spec fn with_entry(c: Contents, e: (Seq<char>, bool, Option<Seq<u8>>)) -> Contents {
    if e.1 || e.2 is None {
        c
    } else if e.0 == "app.wasm"@ {
        Contents { wasm: e.2, ..c }
    } else if begins_with(e.0, "assets/"@) && e.0.len() > "assets/"@.len() {
        Contents { assets: c.assets.insert(e.0.skip("assets/"@.len() as int), e.2->0), ..c }
    } else {
        c
    }
}

/// What some entries hold; nothing where one of them stops the reading.
pub open spec fn entries_hold(es: Seq<Option<(Seq<char>, bool, Option<Seq<u8>>)>>) -> Option<
    Contents,
>
    decreases es.len(),
{
    if es.len() == 0 {
        Some(Contents { wasm: None, assets: Map::empty() })
    } else {
        match entries_hold(es.drop_last()) {
            Some(c) => if entry_is_bad(es.last()) {
                None
            } else {
                Some(with_entry(c, es.last()->0))
            },
            None => None,
        }
    }
}

/// The app in some entries, or why there is none.
pub open spec fn app_in(es: Seq<Option<(Seq<char>, bool, Option<Seq<u8>>)>>) -> Result<
    (Seq<u8>, Map<Seq<char>, Seq<u8>>),
    PackageError,
> {
    match entries_hold(es) {
        None => Err(PackageError::BadEntry),
        Some(c) => match c.wasm {
            Some(w) => Ok((w, c.assets)),
            None => Err(PackageError::NoModule),
        },
    }
}

/// The app in the content of a file: an archive is unpacked, anything else is the
/// module itself.
pub open spec fn app_of(body: Seq<u8>) -> Result<
    (Seq<u8>, Map<Seq<char>, Seq<u8>>),
    PackageError,
> {
    if !looks_zipped(body) {
        Ok((body, Map::empty()))
    } else {
        match zip_entries(body) {
            Some(es) => app_in(es),
            None => Err(PackageError::NotAnArchive),
        }
    }
}

/// The content of an app that was read, or why there is none.
pub open spec fn package_view(r: Result<Package, PackageError>) -> Result<
    (Seq<u8>, Map<Seq<char>, Seq<u8>>),
    PackageError,
> {
    match r {
        Ok(p) => Ok((p.wasm@, p.assets@)),
        Err(e) => Err(e),
    }
}

proof fn lemma_bad_entry_stops(es: Seq<Option<(Seq<char>, bool, Option<Seq<u8>>)>>, i: int)
    requires
        0 <= i < es.len(),
        entry_is_bad(es[i]),
    ensures
        entries_hold(es) is None,
    decreases es.len(),
{
    if i < es.len() - 1 {
        assert(es.drop_last()[i] == es[i]);
        lemma_bad_entry_stops(es.drop_last(), i);
    }
}

/// What is held while entries are read.
struct Gathered {
    wasm: Option<Vec<u8>>,
    assets: Table<Vec<u8>>,
}

/// What is gathered, as content.
spec fn gathered(g: Gathered) -> Contents {
    Contents {
        wasm: match g.wasm {
            Some(w) => Some(w@),
            None => None,
        },
        assets: g.assets@,
    }
}

/// Takes one entry; a directory or a file with another name is passed over. Returns
/// whether the reading can go on.
fn gather(g: &mut Gathered, entry: ArchiveEntry) -> (fine: bool)
    requires
        old(g).assets.wf(),
    ensures
        final(g).assets.wf(),
        fine == !entry_is_bad(Some(entry_content(entry))),
        fine ==> gathered(*final(g)) == with_entry(gathered(*old(g)), entry_content(entry)),
{
    if entry.is_dir {
        return true;
    }
    match entry.data {
        None => false,
        Some(data) => {
            proof {
                reveal_strlit("assets/");
            }
            if same(entry.name.as_str(), "app.wasm") {
                g.wasm = Some(data);
                assert(gathered(*g) =~= with_entry(gathered(*old(g)), entry_content(entry)));
            } else {
                match strip_prefix(entry.name.as_str(), "assets/") {
                    Some(rel) => {
                        if !rel.as_str().is_empty() {
                            g.assets.set(rel, data);
                        }
                        assert(gathered(*g) =~= with_entry(gathered(*old(g)), entry_content(entry)));
                    },
                    None => {
                        assert(gathered(*g) =~= with_entry(gathered(*old(g)), entry_content(entry)));
                    },
                }
            }
            true
        },
    }
}

/// Finds the app in entries that were read one by one; nothing stands for an entry
/// that could not be opened.
pub fn find_app(entries: Vec<Option<ArchiveEntry>>) -> (r: Result<Package, PackageError>)
    ensures
        package_view(r) == app_in(
            Seq::new(
                entries@.len(),
                |i: int|
                    match entries@[i] {
                        Some(e) => Some(entry_content(e)),
                        None => None,
                    },
            ),
        ),
        r matches Ok(p) ==> p.assets.wf(),
{
    let ghost es = Seq::new(
        entries@.len(),
        |i: int|
            match entries@[i] {
                Some(e) => Some(entry_content(e)),
                None => None,
            },
    );
    let mut g = Gathered { wasm: None, assets: Table::new() };
    let mut rest = entries;
    let mut at: Ghost<int> = Ghost(0);
    let mut queue: Vec<Option<ArchiveEntry>> = Vec::new();
    let n: usize = rest.len();
    let ghost all = rest@;
    while rest.len() > 0
        invariant
            rest@.len() + queue@.len() == n == all.len(),
            rest@ == all.take(rest@.len() as int),
            forall|j: int| 0 <= j < queue@.len() ==> queue@[j] == all[n - 1 - j],
        decreases rest.len(),
    {
        let e = rest.pop().unwrap();
        queue.push(e);
        assert(rest@ =~= all.take(rest@.len() as int));
    }
    assert(gathered(g) =~= Contents { wasm: None, assets: Map::empty() });
    assert(es.take(0) =~= Seq::<Option<(Seq<char>, bool, Option<Seq<u8>>)>>::empty());
    while queue.len() > 0
        invariant
            queue@.len() <= n == all.len() == es.len(),
            at@ == n - queue@.len(),
            all == entries@,
            es == Seq::new(
                entries@.len(),
                |i: int|
                    match entries@[i] {
                        Some(e) => Some(entry_content(e)),
                        None => None,
                    },
            ),
            forall|j: int| 0 <= j < queue@.len() ==> queue@[j] == all[n - 1 - j],
            g.assets.wf(),
            entries_hold(es.take(at@)) == Some(gathered(g)),
        decreases queue.len(),
    {
        let ghost k = at@;
        assert(queue@.last() == all[k]);
        let e = queue.pop().unwrap();
        assert(es.take(k + 1).drop_last() =~= es.take(k));
        assert(es.take(k + 1).last() == es[k]);
        match e {
            None => {
                proof {
                    lemma_bad_entry_stops(es, k);
                }
                return Err(PackageError::BadEntry);
            },
            Some(entry) => {
                if !gather(&mut g, entry) {
                    proof {
                        lemma_bad_entry_stops(es, k);
                    }
                    return Err(PackageError::BadEntry);
                }
            },
        }
        proof {
            at@ = k + 1;
        }
    }
    assert(es.take(at@) =~= es);
    match g.wasm {
        Some(wasm) => Ok(Package { wasm, assets: g.assets }),
        None => Err(PackageError::NoModule),
    }
}

/// Finds the app in the content of a file.
pub fn unpack(body: &Vec<u8>) -> (r: Result<Package, PackageError>)
    ensures
        package_view(r) == app_of(body@),
        r matches Ok(p) ==> p.assets.wf(),
{
    let copy = part(body, 0, body.len());
    assert(copy@ =~= body@);
    if !is_zip(body) {
        return Ok(Package { wasm: copy, assets: Table::new() });
    }
    match open_archive(copy) {
        None => Err(PackageError::NotAnArchive),
        Some(archive) => {
            let mut a = archive;
            let n: usize = archive_len(&a);
            let ghost es = archive_entries(a);
            let mut entries: Vec<Option<ArchiveEntry>> = Vec::new();
            let mut i: usize = 0;
            while i < n
                invariant
                    i <= n == es.len(),
                    archive_entries(a) == es,
                    entries@.len() == i,
                    forall|j: int|
                        0 <= j < i ==> es[j] == match #[trigger] entries@[j] {
                            Some(e) => Some(entry_content(e)),
                            None => None,
                        },
                decreases n - i,
            {
                entries.push(archive_entry(&mut a, i));
                i += 1;
            }
            assert(Seq::new(
                entries@.len(),
                |j: int|
                    match entries@[j] {
                        Some(e) => Some(entry_content(e)),
                        None => None,
                    },
            ) =~= es);
            find_app(entries)
        },
    }
}

/// The app in the content of a file, where a copy of it may lie in the cache.
pub open spec fn resolved(
    body: Seq<u8>,
    cached: Option<(Seq<u8>, Map<Seq<char>, Seq<u8>>)>,
) -> Result<(Seq<u8>, Map<Seq<char>, Seq<u8>>), PackageError> {
    match cached {
        Some(c) => Ok(c),
        None => app_of(body),
    }
}

/// The content of an app in the cache.
pub open spec fn cached_view(c: Option<Package>) -> Option<(Seq<u8>, Map<Seq<char>, Seq<u8>>)> {
    match c {
        Some(p) => Some((p.wasm@, p.assets@)),
        None => None,
    }
}

/// Finds the app in the content of a file. `cached` is what the cache holds under the digest
/// of that content; it spares the unpacking. Returns also whether the app is new to the
/// cache.
pub fn resolve_wasm(body: &Vec<u8>, cached: Option<Package>) -> (r: (
    Result<Package, PackageError>,
    bool,
))
    requires
        cached matches Some(p) ==> p.assets.wf(),
    ensures
        package_view(r.0) == resolved(body@, cached_view(cached)),
        r.0 matches Ok(p) ==> p.assets.wf(),
        r.1 == (cached is None && r.0 is Ok),
{
    match cached {
        Some(p) => (Ok(p), false),
        None => {
            let found = unpack(body);
            let fresh = found.is_ok();
            (found, fresh)
        },
    }
}

/// A cache that holds what was unpacked before changes nothing about the app.
pub proof fn lemma_cache_changes_nothing(body: Seq<u8>, app: (Seq<u8>, Map<Seq<char>, Seq<u8>>))
    requires
        resolved(body, None) == Ok::<(Seq<u8>, Map<Seq<char>, Seq<u8>>), PackageError>(app),
    ensures
        resolved(body, Some(app)) == resolved(body, None),
{
}

// ── Writing archives ─────────────────────────────────────────────────────────

/// An archive that is being written: a `zip::ZipWriter` over a buffer in memory.
#[verifier::external_body]
pub struct ArchiveWriter {
    inner: zip::ZipWriter<std::io::Cursor<Vec<u8>>>,
}

/// The name for the files that were added to an archive so far, in their order.
pub uninterp spec fn files_added(w: ArchiveWriter) -> Seq<(Seq<char>, Seq<u8>)>;

/// Calls `zip::ZipWriter::new` on an empty buffer: no file was added yet.
#[verifier::external_body]
fn new_archive() -> (w: ArchiveWriter)
    ensures
        files_added(w).len() == 0,
{
    ArchiveWriter { inner: zip::ZipWriter::new(Cursor::new(Vec::new())) }
}

/// The most bytes of a file in an archive that is not written for large files.
pub const MAX_FILE: usize = 0xffff_ffff;

/// How many bytes files take in an archive: each has two headers, of 30 and of 46 bytes,
/// with its name in both.
pub open spec fn packed_size(files: Seq<(Seq<char>, Seq<u8>)>) -> nat
    decreases files.len(),
{
    if files.len() == 0 {
        0
    } else {
        packed_size(files.drop_last()) + 76 + 2 * encode_utf8(files.last().0).len()
            + files.last().1.len()
    }
}

/// Whether an archive of these files needs none of the 64-bit records of the format, nor
/// could be taken to have some: there are fewer than 65535 files, and all sizes and offsets
/// are below the greatest 32-bit number.
pub open spec fn is_small_archive(files: Seq<(Seq<char>, Seq<u8>)>) -> bool {
    files.len() < 65535 && packed_size(files) < u32::MAX
}

/// The name for whether `zip::ZipWriter::start_file` and writing the data succeed, on a
/// writer in memory to which these files were added before: whether a further file, of
/// this name and data, is taken into the archive.
pub uninterp spec fn file_taken(
    files: Seq<(Seq<char>, Seq<u8>)>,
    name: Seq<char>,
    data: Seq<u8>,
) -> bool;

/// Calls `zip::ZipWriter::start_file` for an uncompressed file and writes its data.
/// Whether the file is taken depends on it and on the files before it alone. One whose
/// name is there already never is, nor is one of 4 GiB or more. With a new name it is taken
/// as long as the archive stays small: writing to a buffer in memory does not fail. Which
/// files a larger archive takes is left unsaid. A writer that refused a file is dropped. A
/// name of more than 65535 bytes would make the call panic.
#[verifier::external_body]
fn add_file(w: ArchiveWriter, name: &str, data: &Vec<u8>) -> (r: Option<ArchiveWriter>)
    requires
        encode_utf8(name@).len() <= 65535,
    ensures
        match r {
            Some(v) => file_taken(files_added(w), name@, data@) && files_added(v)
                == files_added(w).push((name@, data@)),
            None => !file_taken(files_added(w), name@, data@),
        },
        r is Some ==> data@.len() <= MAX_FILE,
        r is Some ==> forall|i: int|
            0 <= i < files_added(w).len() ==> (#[trigger] files_added(w)[i]).0 != name@,
        is_small_archive(files_added(w).push((name@, data@))) && (forall|i: int|
            0 <= i < files_added(w).len() ==> (#[trigger] files_added(w)[i]).0 != name@)
            ==> r is Some,
{
    let mut w = w;
    let stored = zip::write::SimpleFileOptions::default()
        .compression_method(zip::CompressionMethod::Stored);
    w.inner.start_file(name, stored).ok()?;
    w.inner.write_all(data).ok()?;
    Some(w)
}

/// Whether an archive takes a name for that of a directory.
pub open spec fn names_directory(name: Seq<char>) -> bool {
    name.len() > 0 && (name.last() == '/' || name.last() == '\\')
}

/// The entries of an archive with these files.
pub open spec fn entries_of(files: Seq<(Seq<char>, Seq<u8>)>) -> Seq<
    Option<(Seq<char>, bool, Option<Seq<u8>>)>,
> {
    Seq::new(
        files.len(),
        |i: int| Some((files[i].0, names_directory(files[i].0), Some(files[i].1))),
    )
}

/// The name for whether `zip::ZipWriter::finish` succeeds on a writer in memory to which
/// these files were added.
pub uninterp spec fn archive_closed(files: Seq<(Seq<char>, Seq<u8>)>) -> bool;

/// Calls `zip::ZipWriter::finish` and takes the buffer. Whether it succeeds depends on the
/// files that were added alone, and for a small archive it does. The bytes begin with the signature of a file where there
/// is one, and are an archive whose entries are those files. The latter is left unsaid of
/// an archive that is not small: at exactly 65535 files, or an offset of exactly the
/// greatest 32-bit number, a reader looks for 64-bit records, which the writer leaves out
/// there, and may take other bytes for them.
#[verifier::external_body]
fn finish_archive(w: ArchiveWriter) -> (r: Option<Vec<u8>>)
    ensures
        r is Some == archive_closed(files_added(w)),
        is_small_archive(files_added(w)) ==> r is Some,
        r matches Some(bytes) ==> (is_small_archive(files_added(w)) ==> zip_entries(bytes@)
            == Some(entries_of(files_added(w)))) && (files_added(w).len() > 0 ==> looks_zipped(
            bytes@,
        )),
{
    w.inner.finish().ok().map(|c| c.into_inner())
}

/// An asset on its way into an archive: its path below `assets/`, and its data.
pub struct Asset {
    pub path: String,
    pub data: Vec<u8>,
}

/// The files of an archive with a module and some assets.
pub open spec fn package_files(wasm: Seq<u8>, assets: Seq<Asset>) -> Seq<(Seq<char>, Seq<u8>)> {
    seq![("app.wasm"@, wasm)] + Seq::new(
        assets.len(),
        |i: int| ("assets/"@ + assets[i].path@, assets[i].data@),
    )
}

/// Whether files can be made an archive: each is taken behind those before it, and the
/// archive closes.
pub open spec fn archive_holds(files: Seq<(Seq<char>, Seq<u8>)>) -> bool {
    &&& forall|i: int|
        0 <= i < files.len() ==> file_taken(
            files.take(i),
            (#[trigger] files[i]).0,
            files[i].1,
        )
    &&& archive_closed(files)
}

/// Whether bytes are the archive of a module and its assets: they look like an archive and,
/// where that is small, hold these files.
pub open spec fn is_package(bytes: Seq<u8>, wasm: Seq<u8>, assets: Seq<Asset>) -> bool {
    let files = package_files(wasm, assets);
    looks_zipped(bytes) && (is_small_archive(files) ==> zip_entries(bytes) == Some(
        entries_of(files),
    ))
}

proof fn lemma_small_part(files: Seq<(Seq<char>, Seq<u8>)>, n: int)
    requires
        is_small_archive(files),
        0 <= n <= files.len(),
    ensures
        is_small_archive(files.take(n)),
    decreases files.len(),
{
    if n == files.len() {
        assert(files.take(n) =~= files);
    } else {
        lemma_small_part(files.drop_last(), n);
        assert(files.drop_last().take(n) =~= files.take(n));
    }
}

proof fn lemma_new_name(wasm: Seq<u8>, assets: Seq<Asset>, i: int)
    requires
        paths_distinct(assets),
        0 <= i < assets.len(),
    ensures
        forall|k: int|
            0 <= k <= i ==> (#[trigger] package_files(wasm, assets).take(i + 1)[k]).0
                != "assets/"@ + assets[i].path@,
{
    reveal_strlit("app.wasm");
    reveal_strlit("assets/");
    let files = package_files(wasm, assets);
    let name = "assets/"@ + assets[i].path@;
    assert forall|k: int| 0 <= k <= i implies (#[trigger] files.take(i + 1)[k]).0 != name by {
        if k == 0 {
            assert(files[0].0[1] == 'p' && name[1] == 's');
        } else {
            let other = assets[k - 1].path@;
            assert(files[k].0 == "assets/"@ + other);
            if files[k].0 == name {
                assert(other =~= files[k].0.skip(7));
                assert(assets[i].path@ =~= name.skip(7));
            }
        }
    }
}

/// Whether no two assets have one path.
pub open spec fn paths_distinct(assets: Seq<Asset>) -> bool {
    forall|i: int, j: int|
        0 <= i < j < assets.len() ==> (#[trigger] assets[i]).path@ != (#[trigger] assets[j]).path@
}

/// Bundles a module and its assets into an archive; nothing where the archive refuses
/// one of them, as it does where two assets have one path or a file is too large. A small
/// archive of assets with different paths is always written.
pub fn write_package(wasm: &Vec<u8>, assets: &Vec<Asset>) -> (r: Option<Vec<u8>>)
    requires
        forall|i: int|
            0 <= i < assets@.len() ==> encode_utf8("assets/"@ + (#[trigger] assets@[i]).path@).len()
                <= 65535,
    ensures
        r is Some == archive_holds(package_files(wasm@, assets@)),
        r matches Some(bytes) ==> is_package(bytes@, wasm@, assets@),
        r is Some ==> wasm@.len() <= MAX_FILE,
        r is Some ==> forall|i: int|
            0 <= i < assets@.len() ==> (#[trigger] assets@[i]).data@.len() <= MAX_FILE,
        r is Some ==> paths_distinct(assets@),
        is_small_archive(package_files(wasm@, assets@)) && paths_distinct(assets@) ==> r is Some,
{
    let ghost files = package_files(wasm@, assets@);
    proof {
        reveal_strlit("app.wasm");
        reveal_strlit("assets/");
        is_ascii_chars_encode_utf8("app.wasm"@);
        if is_small_archive(files) {
            lemma_small_part(files, 1);
        }
    }
    let first = new_archive();
    assert(files_added(first) =~= files.take(0));
    assert(files[0] == ("app.wasm"@, wasm@));
    assert(files_added(first).push(files[0]) =~= files.take(1));
    let mut w = match add_file(first, "app.wasm", wasm) {
        Some(v) => v,
        None => {
            return None;
        },
    };
    assert(files_added(w) =~= files.take(1));
    let mut i: usize = 0;
    while i < assets.len()
        invariant
            i <= assets@.len(),
            files == package_files(wasm@, assets@),
            files_added(w) == files.take(i + 1),
            wasm@.len() <= MAX_FILE,
            forall|j: int| 0 <= j < i ==> (#[trigger] assets@[j]).data@.len() <= MAX_FILE,
            forall|k: int|
                0 <= k <= i ==> file_taken(files.take(k), (#[trigger] files[k]).0, files[k].1),
            forall|j: int, k: int|
                0 <= j < k < i ==> (#[trigger] assets@[j]).path@ != (#[trigger] assets@[k]).path@,
            forall|j: int|
                0 <= j < assets@.len() ==> encode_utf8(
                    "assets/"@ + (#[trigger] assets@[j]).path@,
                ).len() <= 65535,
        decreases assets.len() - i,
    {
        let mut name = "assets/".to_owned();
        name.append(assets[i].path.as_str());
        assert(files[i + 1] == (name@, assets@[i as int].data@));
        let ghost before = files_added(w);
        proof {
            assert(before.push(files[i + 1]) =~= files.take(i + 2));
            if is_small_archive(files) {
                lemma_small_part(files, i + 2);
            }
            if paths_distinct(assets@) {
                lemma_new_name(wasm@, assets@, i as int);
            }
        }
        w = match add_file(w, name.as_str(), &assets[i].data) {
            Some(v) => v,
            None => {
                return None;
            },
        };
        assert(files.take(i + 2) =~= files.take(i + 1).push(files[i + 1]));
        assert forall|j: int| 0 <= j < i implies (#[trigger] assets@[j]).path@
            != assets@[i as int].path@ by {
            assert(before[j + 1] == files[j + 1]);
            assert(files[j + 1].0 == "assets/"@ + assets@[j].path@);
        }
        i += 1;
    }
    assert(files.take(i + 1) =~= files);
    finish_archive(w)
}

/// The assets of an archive as a guest finds them: by path, the last of one path
/// counting.
pub open spec fn assets_map(assets: Seq<Asset>) -> Map<Seq<char>, Seq<u8>>
    decreases assets.len(),
{
    if assets.len() == 0 {
        Map::empty()
    } else {
        assets_map(assets.drop_last()).insert(assets.last().path@, assets.last().data@)
    }
}

proof fn lemma_package_entries(wasm: Seq<u8>, assets: Seq<Asset>)
    requires
        forall|i: int|
            0 <= i < assets.len() ==> (#[trigger] assets[i]).path@.len() > 0 && !names_directory(
                assets[i].path@,
            ),
    ensures
        entries_hold(entries_of(package_files(wasm, assets))) == Some(
            Contents { wasm: Some(wasm), assets: assets_map(assets) },
        ),
    decreases assets.len(),
{
    reveal_strlit("app.wasm");
    reveal_strlit("assets/");
    let files = package_files(wasm, assets);
    let es = entries_of(files);
    if assets.len() == 0 {
        assert(es.drop_last() =~= Seq::<Option<(Seq<char>, bool, Option<Seq<u8>>)>>::empty());
        assert(es.last() == Some(("app.wasm"@, false, Some(wasm))));
        reveal_with_fuel(entries_hold, 2);
        assert(with_entry(
            Contents { wasm: None, assets: Map::empty() },
            ("app.wasm"@, false, Some(wasm)),
        ) =~= Contents { wasm: Some(wasm), assets: assets_map(assets) });
    } else {
        let d = assets.drop_last();
        assert forall|i: int| 0 <= i < d.len() implies (#[trigger] d[i]).path@.len() > 0
            && !names_directory(d[i].path@) by {
            assert(d[i] == assets[i]);
        }
        lemma_package_entries(wasm, d);
        assert(es.drop_last() =~= entries_of(package_files(wasm, d)));
        let a = assets.last();
        assert(assets[assets.len() - 1] == a);
        let name = "assets/"@ + a.path@;
        assert(name.last() == a.path@.last());
        assert(es.last() == Some((name, false, Some(a.data@))));
        assert("app.wasm"@[1] == 'p' && name[1] == 's');
        assert(name.subrange(0, "assets/"@.len() as int) =~= "assets/"@);
        assert(name.skip("assets/"@.len() as int) =~= a.path@);
        assert(with_entry(
            Contents { wasm: Some(wasm), assets: assets_map(d) },
            (name, false, Some(a.data@)),
        ) =~= Contents { wasm: Some(wasm), assets: assets_map(assets) });
    }
}

/// A small archive gives back the module and the assets that were bundled into it.
pub proof fn lemma_package_round_trip(wasm: Seq<u8>, assets: Seq<Asset>, bytes: Seq<u8>)
    requires
        is_package(bytes, wasm, assets),
        is_small_archive(package_files(wasm, assets)),
        forall|i: int|
            0 <= i < assets.len() ==> (#[trigger] assets[i]).path@.len() > 0 && !names_directory(
                assets[i].path@,
            ),
    ensures
        app_of(bytes) == Ok::<(Seq<u8>, Map<Seq<char>, Seq<u8>>), PackageError>(
            (wasm, assets_map(assets)),
        ),
{
    lemma_package_entries(wasm, assets);
}

/// What is taken for a trailer is the digest that was given, at the end of the bytes and
/// behind something; a sealed file is its content and the digest of it.
pub proof fn lemma_trailer_is_the_digest(raw: Seq<u8>, digest: Seq<u8>, body: Seq<u8>)
    ensures
        has_trailer(raw, digest) ==> digest.len() == 32 && raw.len() > 32 && raw == body_part(raw)
            + digest,
        body.len() > 0 && digest.len() == 32 ==> has_trailer(body + digest, digest) && body_part(
            body + digest,
        ) == body,
        is_sealed(raw) ==> raw == sealed(body_part(raw)),
{
    if has_trailer(raw, digest) {
        assert(raw =~= body_part(raw) + digest);
    }
    if body.len() > 0 && digest.len() == 32 {
        assert(trailer_part(body + digest) =~= digest);
        assert(body_part(body + digest) =~= body);
    }
    if is_sealed(raw) {
        assert(raw =~= body_part(raw) + trailer_part(raw));
    }
}

/// Of the files of an archive one is the app's module, and those in the directory of its files
/// come with it, by their names there; directories and other files are passed over.
pub proof fn lemma_files_of_an_app(c: Contents, name: Seq<char>, data: Seq<u8>)
    requires
        name.len() > 0,
    ensures
        with_entry(c, ("app.wasm"@, false, Some(data))) == (Contents { wasm: Some(data), ..c }),
        with_entry(c, ("assets/"@ + name, false, Some(data))) == (Contents {
            assets: c.assets.insert(name, data),
            ..c
        }),
        with_entry(c, (name, true, Some(data))) == c,
        with_entry(c, (name, false, None)) == c,
        with_entry(c, ("assets/"@, false, Some(data))) == c,
        name != "app.wasm"@ && !begins_with(name, "assets/"@) ==> with_entry(
            c,
            (name, false, Some(data)),
        ) == c,
{
    reveal_strlit("app.wasm");
    reveal_strlit("assets/");
    let p = "assets/"@ + name;
    assert(p[1] == 's' && "app.wasm"@[1] == 'p');
    assert(p.subrange(0, 7) =~= "assets/"@);
    assert(p.skip(7) =~= name);
    assert("assets/"@.len() == 7 && "app.wasm"@.len() == 8);
}

} // verus!
