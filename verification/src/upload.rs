//! Taking in app files: the name they get, and what is accepted.
use vstd::prelude::*;
use vstd::string::StringExecFns;
use crate::package::{is_zip, looks_zipped};
use crate::replies::{err, err_reply, ok, ok_reply};
use crate::storage::ascii_alphanumeric;
use crate::text::{
    chars_of, filled, filled_parts, join, joined, split, split_str, trim, trim_suffixes,
    trim_trailing, trimmed, without_suffixes, without_trailing,
};
use crate::registry::{hosted_name, lemma_deleted_file_is_hosted_here};
use crate::text::{ends_in, has_substring, stands_at};
use crate::text::{lemma_split_join, lemma_split_shape, lemma_trim_fixed};

verus! {

/// The most characters of a file's name.
pub const MAX_SLUG: usize = 64;

/// The most bytes of a file.
pub const MAX_UPLOAD: usize = 33554432;

/// A character as it stands in a file's name: letters and digits in lower case,
/// everything else a dash.
pub open spec fn slug_char(c: char) -> char {
    if 'A' <= c <= 'Z' {
        (c as u32 + 32) as char
    } else if ascii_alphanumeric(c) {
        c
    } else {
        '-'
    }
}

/// A text with every character as it stands in a file's name.
pub open spec fn dashed(s: Seq<char>) -> Seq<char> {
    Seq::new(s.len(), |i: int| slug_char(s[i]))
}

/// The name of a file for what the user calls it: runs of dashes become one, and none
/// stands at an end.
pub open spec fn slug_of(raw: Seq<char>) -> Seq<char> {
    joined(filled(split(dashed(without_suffixes(trimmed(raw), ".wasm"@)), '-')), "-"@)
}

/// Whether a character can stand in the name of a file.
pub open spec fn is_slug_char(c: char) -> bool {
    'a' <= c <= 'z' || '0' <= c <= '9' || c == '-'
}

fn to_slug_char(c: char) -> (r: char)
    ensures
        r == slug_char(c),
{
    if 'A' <= c && c <= 'Z' {
        ((c as u32 + 32) as u8) as char
    } else if ('a' <= c && c <= 'z') || ('0' <= c && c <= '9') {
        c
    } else {
        '-'
    }
}

/// Returns the name of a file for what the user calls it.
pub fn slug(raw: &str) -> (r: String)
    ensures
        r@ == slug_of(raw@),
{
    let t = trim(raw);
    proof {
        reveal_strlit(".wasm");
    }
    let stem = trim_suffixes(t.as_str(), ".wasm");
    let v = chars_of(stem.as_str());
    let mut d: String = String::new();
    let mut i: usize = 0;
    while i < v.len()
        invariant
            i <= v@.len(),
            v@ == stem@,
            d@ == dashed(stem@).take(i as int),
        decreases v.len() - i,
    {
        d.push(to_slug_char(v[i]));
        i += 1;
        assert(d@ =~= dashed(stem@).take(i as int));
    }
    assert(d@ =~= dashed(stem@));
    let out = filled_parts(&split_str(d.as_str(), '-'));
    join(&out, "-")
}

/// Whether every character of a text satisfies what a name's characters do.
pub open spec fn all_slug_chars(s: Seq<char>) -> bool {
    forall|i: int| 0 <= i < s.len() ==> is_slug_char(#[trigger] s[i])
}

proof fn lemma_split_slug_chars(s: Seq<char>, sep: char)
    requires
        all_slug_chars(s),
    ensures
        forall|i: int| 0 <= i < split(s, sep).len() ==> all_slug_chars(#[trigger] split(s, sep)[i]),
    decreases s.len(),
{
    lemma_split_shape(s, sep);
    if s.len() > 0 {
        let d = s.drop_last();
        assert(all_slug_chars(d));
        lemma_split_slug_chars(d, sep);
        lemma_split_shape(d, sep);
        let p = split(d, sep);
        let q = split(s, sep);
        assert(is_slug_char(s[s.len() - 1]));
        assert forall|i: int| 0 <= i < q.len() implies all_slug_chars(#[trigger] q[i]) by {
            if s.last() == sep {
                if i < p.len() {
                    assert(q[i] == p[i]);
                }
            } else if i < p.len() - 1 {
                assert(q[i] == p[i]);
            } else {
                assert(all_slug_chars(p[p.len() - 1]));
                assert(q[i] == p.last().push(s.last()));
            }
        }
    }
}

proof fn lemma_filled_slug_chars(p: Seq<Seq<char>>)
    requires
        forall|i: int| 0 <= i < p.len() ==> all_slug_chars(#[trigger] p[i]),
    ensures
        forall|i: int| 0 <= i < filled(p).len() ==> all_slug_chars(#[trigger] filled(p)[i]),
    decreases p.len(),
{
    if p.len() > 0 {
        let d = p.drop_last();
        assert forall|i: int| 0 <= i < d.len() implies all_slug_chars(#[trigger] d[i]) by {
            assert(d[i] == p[i]);
        }
        lemma_filled_slug_chars(d);
        assert(all_slug_chars(p[p.len() - 1]));
        assert forall|i: int| 0 <= i < filled(p).len() implies all_slug_chars(
            #[trigger] filled(p)[i],
        ) by {
            if i < filled(d).len() {
                assert(filled(p)[i] == filled(d)[i]);
            }
        }
    }
}

proof fn lemma_joined_slug_chars(p: Seq<Seq<char>>)
    requires
        forall|i: int| 0 <= i < p.len() ==> all_slug_chars(#[trigger] p[i]),
    ensures
        all_slug_chars(joined(p, "-"@)),
    decreases p.len(),
{
    reveal_strlit("-");
    if p.len() == 1 {
        assert(all_slug_chars(p[0]));
    } else if p.len() > 1 {
        let d = p.drop_last();
        assert forall|i: int| 0 <= i < d.len() implies all_slug_chars(#[trigger] d[i]) by {
            assert(d[i] == p[i]);
        }
        lemma_joined_slug_chars(d);
        assert(all_slug_chars(p[p.len() - 1]));
        let a = joined(d, "-"@);
        let s = joined(p, "-"@);
        assert forall|i: int| 0 <= i < s.len() implies is_slug_char(#[trigger] s[i]) by {
            if i < a.len() {
                assert(s[i] == a[i]);
            } else if i == a.len() {
                assert(s[i] == '-');
            } else {
                assert(s[i] == p.last()[i - a.len() - 1]);
            }
        }
    }
}

/// A file's name holds lowercase letters, digits and dashes only, so it is safe in a
/// path and in an address.
pub proof fn lemma_slug_is_safe(raw: Seq<char>)
    ensures
        all_slug_chars(slug_of(raw)),
        !slug_of(raw).contains('/'),
        !slug_of(raw).contains('.'),
{
    let stem = without_suffixes(trimmed(raw), ".wasm"@);
    let d = dashed(stem);
    assert forall|i: int| 0 <= i < d.len() implies is_slug_char(#[trigger] d[i]) by {
        let c = stem[i];
        if 'A' <= c <= 'Z' {
            assert(65 <= c as u32 <= 90);
        }
    }
    lemma_split_slug_chars(d, '-');
    lemma_filled_slug_chars(split(d, '-'));
    lemma_joined_slug_chars(filled(split(d, '-')));
    let s = slug_of(raw);
    if s.contains('/') {
        let i = choose|i: int| 0 <= i < s.len() && s[i] == '/';
        assert(is_slug_char(s[i]));
    }
    if s.contains('.') {
        let i = choose|i: int| 0 <= i < s.len() && s[i] == '.';
        assert(is_slug_char(s[i]));
    }
}

/// Whether the bytes begin as a module does.
pub open spec fn looks_wasm(b: Seq<u8>) -> bool {
    b.len() >= 8 && b[0] == 0 && b[1] == 0x61 && b[2] == 0x73 && b[3] == 0x6d
}

/// Whether the bytes begin as a module does.
pub fn is_wasm(b: &Vec<u8>) -> (r: bool)
    ensures
        r == looks_wasm(b@),
{
    b.len() >= 8 && b[0] == 0 && b[1] == 0x61 && b[2] == 0x73 && b[3] == 0x6d
}

/// Why a file is not taken in.
pub open spec fn upload_obstacle(name: Seq<char>, body: Seq<u8>) -> Option<Seq<char>> {
    if slug_of(name).len() == 0 {
        Some("name is required"@)
    } else if slug_of(name).len() > MAX_SLUG {
        Some("name is too long"@)
    } else if body.len() > MAX_UPLOAD {
        Some("file is larger than 32 MB"@)
    } else if !looks_wasm(body) && !looks_zipped(body) {
        Some("that is not a .wasm or .wasmpackage file"@)
    } else {
        None
    }
}

/// Decides on a file: the name it is stored under, or the reply that refuses it.
pub fn check_upload(name: &str, body: &Vec<u8>) -> (r: Result<String, String>)
    ensures
        match r {
            Ok(s) => upload_obstacle(name@, body@) is None && s@ == slug_of(name@),
            Err(m) => upload_obstacle(name@, body@) is Some && m@ == err_reply(
                upload_obstacle(name@, body@)->0,
            ),
        },
{
    let s = slug(name);
    if s.as_str().is_empty() {
        return Err(err("name is required"));
    }
    let v = chars_of(s.as_str());
    if v.len() > MAX_SLUG {
        return Err(err("name is too long"));
    }
    if body.len() > MAX_UPLOAD {
        return Err(err("file is larger than 32 MB"));
    }
    if !is_wasm(body) && !is_zip(body) {
        return Err(err("that is not a .wasm or .wasmpackage file"));
    }
    Ok(s)
}

/// The address of a file that was taken in.
pub open spec fn upload_url(self_url: Seq<char>, slug: Seq<char>) -> Seq<char> {
    without_trailing(self_url, '/') + "/apps/"@ + slug + ".wasm"@
}

/// The reply for a file that was taken in: its address.
pub fn uploaded(self_url: &str, slug: &str) -> (r: String)
    ensures
        r@ == ok_reply(upload_url(self_url@, slug@)),
{
    let mut u = trim_trailing(self_url, '/');
    u.append("/apps/");
    u.append(slug);
    u.append(".wasm");
    ok(u.as_str())
}

/// A digest at its end does not change whether a file is taken in, unless it makes the
/// file too large.
pub proof fn lemma_trailer_changes_nothing(name: Seq<char>, body: Seq<u8>, trailer: Seq<u8>)
    requires
        upload_obstacle(name, body) is None,
        body.len() + trailer.len() <= MAX_UPLOAD,
    ensures
        upload_obstacle(name, body + trailer) is None,
{
}

proof fn lemma_joined_words(p: Seq<Seq<char>>)
    requires
        forall|i: int| 0 <= i < p.len() ==> (#[trigger] p[i]).len() > 0,
    ensures
        filled(p) == p,
    decreases p.len(),
{
    if p.len() > 0 {
        let d = p.drop_last();
        assert forall|i: int| 0 <= i < d.len() implies (#[trigger] d[i]).len() > 0 by {
            assert(d[i] == p[i]);
        }
        lemma_joined_words(d);
        assert(p[p.len() - 1] == p.last());
        assert(d.push(p.last()) =~= p);
    } else {
        assert(filled(p) =~= p);
    }
}

/// Words of lowercase letters and digits with dashes between them are a file's name as they
/// are, and with the ending of an app's file behind them.
pub proof fn lemma_slug_of_a_slug(p: Seq<Seq<char>>)
    requires
        p.len() > 0,
        forall|i: int|
            0 <= i < p.len() ==> (#[trigger] p[i]).len() > 0 && all_slug_chars(p[i])
                && !p[i].contains('-'),
    ensures
        slug_of(joined(p, "-"@)) == joined(p, "-"@),
        slug_of(joined(p, "-"@) + ".wasm"@) == joined(p, "-"@),
{
    reveal_strlit("-");
    reveal_strlit(".wasm");
    assert("-"@ =~= seq!['-']);
    let s = joined(p, "-"@);
    lemma_joined_slug_chars(p);
    lemma_joined_words(p);
    lemma_split_join(p, '-');
    lemma_joined_fills(p);
    assert(is_slug_char(s[0]) && is_slug_char(s[s.len() - 1]));
    lemma_trim_fixed(s);
    assert(dashed(s) =~= s) by {
        assert forall|i: int| 0 <= i < s.len() implies slug_char(s[i]) == s[i] by {
            assert(is_slug_char(s[i]));
        }
    }
    assert(without_suffixes(s, ".wasm"@) == s) by {
        if ends_in(s, ".wasm"@) {
            assert(s.subrange(s.len() - 5, s.len() as int)[0] == '.');
            assert(is_slug_char(s[s.len() - 5]));
        }
    }
    let t = s + ".wasm"@;
    assert(t[0] == s[0] && t.last() == 'm');
    lemma_trim_fixed(t);
    assert(t.subrange(t.len() - 5, t.len() as int) =~= ".wasm"@);
    assert(t.take(t.len() - 5) =~= s);
}

proof fn lemma_joined_fills(p: Seq<Seq<char>>)
    requires
        p.len() > 0,
        forall|i: int| 0 <= i < p.len() ==> (#[trigger] p[i]).len() > 0,
    ensures
        joined(p, "-"@).len() > 0,
{
    assert(p[p.len() - 1].len() > 0);
}

/// Letters of either case and what stands between them make the same name: upper case is
/// taken for lower case, and what is neither letter nor digit for a dash.
pub proof fn lemma_dashed(s: Seq<char>)
    ensures
        dashed(s).len() == s.len(),
        forall|i: int|
            0 <= i < s.len() && ('a' <= s[i] <= 'z' || '0' <= s[i] <= '9') ==> #[trigger] dashed(
                s,
            )[i] == s[i],
        forall|i: int|
            0 <= i < s.len() && 'A' <= s[i] <= 'Z' ==> #[trigger] dashed(s)[i] as u32 == s[i] as u32
                + 32,
        forall|i: int|
            0 <= i < s.len() && !('a' <= s[i] <= 'z' || '0' <= s[i] <= '9' || 'A' <= s[i] <= 'Z')
                ==> #[trigger] dashed(s)[i] == '-',
{
}

/// A file is taken exactly where its name leaves one to sixty-four characters, it is no larger
/// than thirty-two mebibytes, and it begins as a module or as an archive does.
pub proof fn lemma_upload_is_taken(name: Seq<char>, body: Seq<u8>)
    ensures
        upload_obstacle(name, body) is None <==> 1 <= slug_of(name).len() <= 64 && body.len()
            <= 32 * 1024 * 1024 && ((body.len() >= 8 && body.take(4) == seq![
            0u8,
            0x61u8,
            0x73u8,
            0x6du8,
        ]) || (body.len() >= 4 && body.take(4) == seq![0x50u8, 0x4bu8, 0x03u8, 0x04u8])),
{
    if body.len() >= 4 {
        let t = body.take(4);
        assert(t[0] == body[0] && t[1] == body[1] && t[2] == body[2] && t[3] == body[3]);
        assert(looks_zipped(body) ==> t =~= seq![0x50u8, 0x4bu8, 0x03u8, 0x04u8]);
        assert(looks_wasm(body) ==> t =~= seq![0u8, 0x61u8, 0x73u8, 0x6du8]);
    }
}

/// What was uploaded to a node is found among its files by the address it was given.
pub proof fn lemma_uploaded_file_is_hosted_here(self_url: Seq<char>, raw: Seq<char>)
    ensures
        hosted_name(self_url, upload_url(self_url, slug_of(raw))) == Some(slug_of(raw) + ".wasm"@),
{
    reveal_strlit(".wasm");
    reveal_strlit("..");
    lemma_slug_is_safe(raw);
    let s = slug_of(raw);
    let n = s + ".wasm"@;
    assert(!n.contains('/')) by {
        if n.contains('/') {
            let i = choose|i: int| 0 <= i < n.len() && n[i] == '/';
            if i < s.len() {
                assert(is_slug_char(s[i]));
            }
        }
    }
    assert(!has_substring(n, ".."@)) by {
        if has_substring(n, ".."@) {
            let i = choose|i: int| stands_at(n, ".."@, i);
            assert(n.subrange(i, i + 2)[0] == '.' && n.subrange(i, i + 2)[1] == '.');
            assert(n[i] == '.' && n[i + 1] == '.');
            if i < s.len() {
                assert(is_slug_char(s[i]));
            } else {
                assert(".wasm"@[i - s.len()] == '.' && ".wasm"@[i + 1 - s.len()] == '.');
            }
        }
    }
    lemma_deleted_file_is_hosted_here(self_url, upload_url(self_url, s));
    assert(upload_url(self_url, s) =~= without_trailing(self_url, '/') + "/apps/"@ + n);
}

} // verus!
