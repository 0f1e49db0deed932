//! The command line tool: reading its arguments, and what it writes.
use vstd::prelude::*;
use vstd::string::StringExecFns;
use crate::names::{names_without, without_name};
use crate::numerals::{decimal, format_u64, hex};
use crate::package::{seal, sealed, sha256};
use crate::text::{
    begins_with, contains, ends_in, has_substring, same, stands_at, starts_with, texts,
};

verus! {

// ── Arguments ────────────────────────────────────────────────────────────────

/// What a build was asked for.
pub struct BuildArgs {
    pub input: Option<String>,
    pub output: Option<String>,
    pub verbose: bool,
}

/// The content of [`BuildArgs`].
pub struct Given {
    pub input: Option<Seq<char>>,
    pub output: Option<Seq<char>>,
    pub verbose: bool,
}

impl View for BuildArgs {
    type V = Given;

    open spec fn view(&self) -> Given {
        Given {
            input: crate::gossip::seen(self.input),
            output: crate::gossip::seen(self.output),
            verbose: self.verbose,
        }
    }
}

/// What arguments ask for, on top of what earlier ones did: the first that is no flag is
/// the input, what follows `--out` is the output, and a flag that is not known is an
/// error.
pub open spec fn understood(args: Seq<Seq<char>>, so_far: Given) -> Result<Given, Seq<char>>
    decreases args.len(),
{
    if args.len() == 0 {
        Ok(so_far)
    } else {
        let a = args[0];
        let rest = args.skip(1);
        if a == "--out"@ || a == "-o"@ {
            if rest.len() == 0 {
                Ok(so_far)
            } else {
                understood(rest.skip(1), Given { output: Some(rest[0]), ..so_far })
            }
        } else if a == "--verbose"@ || a == "-v"@ {
            understood(rest, Given { verbose: true, ..so_far })
        } else if !begins_with(a, "-"@) {
            understood(
                rest,
                Given {
                    input: if so_far.input is None {
                        Some(a)
                    } else {
                        so_far.input
                    },
                    ..so_far
                },
            )
        } else {
            Err(a)
        }
    }
}

/// What was asked for before any argument is read.
pub open spec fn nothing_given() -> Given {
    Given { input: None, output: None, verbose: false }
}

/// Reads the arguments of a build. The error is the flag that is not known.
pub fn read_args(args: &Vec<String>) -> (r: Result<BuildArgs, String>)
    ensures
        match r {
            Ok(b) => understood(texts(args@), nothing_given()) == Ok::<Given, Seq<char>>(b@),
            Err(f) => understood(texts(args@), nothing_given()) == Err::<Given, Seq<char>>(f@),
        },
{
    let ghost all = texts(args@);
    let mut b = BuildArgs { input: None, output: None, verbose: false };
    let mut i: usize = 0;
    assert(all.skip(0) =~= all);
    while i < args.len()
        invariant
            i <= args@.len(),
            all == texts(args@),
            understood(all, nothing_given()) == understood(all.skip(i as int), b@),
        decreases args.len() - i,
    {
        let ghost here = all.skip(i as int);
        assert(here[0] == args@[i as int]@);
        assert(here.skip(1) =~= all.skip(i + 1));
        let a = args[i].as_str();
        if same(a, "--out") || same(a, "-o") {
            i += 1;
            if i < args.len() {
                assert(here.skip(1)[0] == args@[i as int]@);
                assert(here.skip(1).skip(1) =~= all.skip(i + 1));
                b.output = Some(args[i].clone());
            } else {
                assert(here.skip(1) =~= Seq::empty());
                return Ok(b);
            }
        } else if same(a, "--verbose") || same(a, "-v") {
            b.verbose = true;
        } else if !starts_with(a, "-") {
            if b.input.is_none() {
                b.input = Some(args[i].clone());
            }
        } else {
            return Err(args[i].clone());
        }
        i += 1;
    }
    assert(all.skip(i as int) =~= Seq::empty());
    Ok(b)
}

/// What the tool is asked to do.
pub enum Command {
    New(String),
    /// A project without a name.
    NewWithoutName,
    /// A name that looks like a flag.
    BadName(String),
    Build,
    Help,
    Unknown(String),
}

/// Returns what the tool is asked to do, by the arguments after its own name.
pub fn command(args: &Vec<String>) -> (c: Command)
    ensures
        ({
            let t = texts(args@);
            if t.len() == 0 || t[0] == "--help"@ || t[0] == "-h"@ {
                c is Help
            } else if t[0] == "new"@ {
                if t.len() == 1 {
                    c is NewWithoutName
                } else if begins_with(t[1], "-"@) {
                    c matches Command::BadName(n) && n@ == t[1]
                } else {
                    c matches Command::New(n) && n@ == t[1]
                }
            } else if t[0] == "build"@ {
                c is Build
            } else {
                c matches Command::Unknown(n) && n@ == t[0]
            }
        }),
{
    let ghost t = texts(args@);
    proof {
        reveal_strlit("--help");
        reveal_strlit("-h");
        reveal_strlit("new");
        reveal_strlit("build");
    }
    if args.len() == 0 {
        return Command::Help;
    }
    assert(t[0] == args@[0]@);
    let a = args[0].as_str();
    if same(a, "--help") || same(a, "-h") {
        return Command::Help;
    }
    if same(a, "new") {
        if args.len() == 1 {
            return Command::NewWithoutName;
        }
        assert(t[1] == args@[1]@);
        if starts_with(args[1].as_str(), "-") {
            return Command::BadName(args[1].clone());
        }
        return Command::New(args[1].clone());
    }
    if same(a, "build") {
        return Command::Build;
    }
    Command::Unknown(args[0].clone())
}

// ── Files ────────────────────────────────────────────────────────────────────

/// The manifest of a project that uses the kit at `sdk`.
pub open spec fn manifest_text(name: Seq<char>, sdk: Seq<char>) -> Seq<char> {
    "[package]\nname = \""@ + name
        + "\"\nversion = \"0.1.0\"\nedition = \"2021\"\n\n[lib]\ncrate-type = [\"cdylib\"]\n\n[dependencies]\nannessaia-sdk = { path = \""@
        + sdk
        + "\" }\n\n[profile.release]\nopt-level = \"s\"\nlto = true\nstrip = true\n"@
}

/// Returns the manifest of a project that uses the kit at `sdk`.
pub fn manifest(name: &str, sdk: &str) -> (r: String)
    ensures
        r@ == manifest_text(name@, sdk@),
{
    let mut r = "[package]\nname = \"".to_owned();
    r.append(name);
    r.append(
        "\"\nversion = \"0.1.0\"\nedition = \"2021\"\n\n[lib]\ncrate-type = [\"cdylib\"]\n\n[dependencies]\nannessaia-sdk = { path = \"",
    );
    r.append(sdk);
    r.append("\" }\n\n[profile.release]\nopt-level = \"s\"\nlto = true\nstrip = true\n");
    r
}

/// A source file as it is compiled: with the import of the kit, unless it has one.
pub open spec fn wrapped(path: Seq<char>, source: Seq<char>) -> Seq<char> {
    (if has_substring(source, "use annessaia_sdk::prelude"@) {
        ""@
    } else {
        "use annessaia_sdk::prelude::*;\n\n"@
    }) + "// ── "@ + path + " ──\n\n"@ + source
}

/// Returns a source file as it is compiled.
pub fn wrap(path: &str, source: &str) -> (r: String)
    ensures
        r@ == wrapped(path@, source@),
{
    let mut r = if contains(source, "use annessaia_sdk::prelude") {
        "".to_owned()
    } else {
        "use annessaia_sdk::prelude::*;\n\n".to_owned()
    };
    r.append("// ── ");
    r.append(path);
    r.append(" ──\n\n");
    r.append(source);
    r
}

/// Returns a single source file as it is compiled: always with the import of the kit.
pub fn wrap_single(path: &str, source: &str) -> (r: String)
    ensures
        r@ == "use annessaia_sdk::prelude::*;\n\n// ── "@ + path@
            + " ──────────────────────────────────────────────────────\n\n"@ + source@,
{
    let mut r = "use annessaia_sdk::prelude::*;\n\n// ── ".to_owned();
    r.append(path);
    r.append(" ──────────────────────────────────────────────────────\n\n");
    r.append(source);
    r
}

/// Returns the files to bundle: all but the note that a new project comes with.
pub fn bundled(files: &Vec<String>) -> (r: Vec<String>)
    ensures
        texts(r@) == without_name(texts(files@), "README.md"@),
{
    names_without(files, "README.md")
}

/// What a build writes, its digest, and what it says when it is done.
pub struct Product {
    pub bytes: Vec<u8>,
    pub hash: String,
}

/// Returns what a build writes: the bytes as they are where the path was given, else with
/// their digest at the end.
pub fn product(bytes: &Vec<u8>, path_given: bool) -> (p: Product)
    ensures
        p.hash@ == hex(sha256(bytes@)),
        p.bytes@ == if path_given {
            bytes@
        } else {
            sealed(bytes@)
        },
{
    let (with_digest, hash) = seal(bytes);
    if path_given {
        Product { bytes: bytes.clone(), hash }
    } else {
        Product { bytes: with_digest, hash }
    }
}

/// The name of what a build writes where no path was given.
pub fn default_output(stem: &str) -> (r: String)
    ensures
        r@ == stem@ + ".wasmh"@,
{
    let mut r = stem.to_owned();
    r.append(".wasmh");
    r
}

/// What a build says when it is done.
pub open spec fn done_text(path: Seq<char>, len: nat, assets: nat, hash: Seq<char>) -> Seq<char> {
    "✓ "@ + path + " ("@ + decimal(len / 1024) + " KiB, "@ + (if assets > 0 {
        decimal(assets) + " asset file(s), "@
    } else {
        ""@
    }) + "hash "@ + hash + ")"@
}

/// Returns what a build says when it is done.
pub fn done_line(path: &str, len: usize, assets: usize, hash: &str) -> (r: String)
    ensures
        r@ == done_text(path@, len as nat, assets as nat, hash@),
{
    proof {
        reveal_strlit("");
    }
    let mut r = "✓ ".to_owned();
    r.append(path);
    r.append(" (");
    r.append(format_u64((len / 1024) as u64).as_str());
    r.append(" KiB, ");
    if assets > 0 {
        r.append(format_u64(assets as u64).as_str());
        r.append(" asset file(s), ");
    }
    r.append("hash ");
    r.append(hash);
    r.append(")");
    assert(r@ =~= done_text(path@, len as nat, assets as nat, hash@));
    r
}

/// An output that is named with `-o` has no digest, and one that is not has.
pub proof fn lemma_only_default_output_is_sealed(bytes: Seq<u8>)
    requires
        sha256(bytes).len() == 32,
    ensures
        sealed(bytes).len() == bytes.len() + 32,
        sealed(bytes).take(bytes.len() as int) == bytes,
        sealed(bytes) != bytes,
{
    assert(sealed(bytes).take(bytes.len() as int) =~= bytes);
}

/// What is built, where to and how loudly are understood in any order; the first path is the
/// one to build, and a flag that is not known is refused.
pub proof fn lemma_arguments_in_any_order(path: Seq<char>, out: Seq<char>, second: Seq<char>)
    requires
        !begins_with(path, "-"@) && !begins_with(second, "-"@),
    ensures
        ({
            let all = Ok::<Given, Seq<char>>(
                Given { input: Some(path), output: Some(out), verbose: true },
            );
            &&& understood(seq![path, "--out"@, out, "--verbose"@], nothing_given()) == all
            &&& understood(seq![path, "-o"@, out, "-v"@], nothing_given()) == all
            &&& understood(seq!["-v"@, "-o"@, out, path], nothing_given()) == all
            &&& understood(seq!["-o"@, out, path, second, "-v"@], nothing_given()) == all
        }),
        understood(seq![path], nothing_given()) == Ok::<Given, Seq<char>>(
            Given { input: Some(path), output: None, verbose: false },
        ),
        understood(seq![path, "-x"@], nothing_given()) == Err::<Given, Seq<char>>("-x"@),
{
    reveal_strlit("-");
    reveal_strlit("--out");
    reveal_strlit("-o");
    reveal_strlit("--verbose");
    reveal_strlit("-v");
    reveal_strlit("-x");
    assert("-"@ =~= seq!['-']);
    lemma_flag("--out"@);
    lemma_flag("-o"@);
    lemma_flag("--verbose"@);
    lemma_flag("-v"@);
    lemma_flag("-x"@);
    assert("-v"@[1] == 'v' && "-o"@[1] == 'o' && "-x"@[1] == 'x');
    assert("--out"@.len() == 5 && "--verbose"@.len() == 9 && "-v"@.len() == 2 && "-o"@.len() == 2
        && "-x"@.len() == 2);
    reveal_with_fuel(understood, 6);
    let g = nothing_given();
    let i = Given { input: Some(path), ..g };
    let io = Given { output: Some(out), ..i };
    let none = Seq::<Seq<char>>::empty();
    let v1 = seq!["--verbose"@];
    assert(v1.skip(1) =~= none);
    let a1 = seq!["--out"@, out, "--verbose"@];
    assert(a1.skip(1).skip(1) =~= v1);
    assert(seq![path, "--out"@, out, "--verbose"@].skip(1) =~= a1);
    let v2 = seq!["-v"@];
    assert(v2.skip(1) =~= none);
    let a2 = seq!["-o"@, out, "-v"@];
    assert(a2.skip(1).skip(1) =~= v2);
    assert(seq![path, "-o"@, out, "-v"@].skip(1) =~= a2);
    let p3 = seq![path];
    assert(p3.skip(1) =~= none);
    let a3 = seq!["-o"@, out, path];
    assert(a3.skip(1).skip(1) =~= p3);
    assert(seq!["-v"@, "-o"@, out, path].skip(1) =~= a3);
    let b4 = seq![second, "-v"@];
    assert(b4.skip(1) =~= v2);
    let a4 = seq![path, second, "-v"@];
    assert(a4.skip(1) =~= b4);
    assert(seq!["-o"@, out, path, second, "-v"@].skip(1).skip(1) =~= a4);
    let x5 = seq!["-x"@];
    assert(seq![path, "-x"@].skip(1) =~= x5);
}

proof fn lemma_flag(s: Seq<char>)
    requires
        s.len() > 0 && s[0] == '-',
    ensures
        begins_with(s, "-"@),
{
    reveal_strlit("-");
    assert(s.subrange(0, 1) =~= "-"@);
}

/// A file that is wrapped ends with its source, names its path before it, and imports what it
/// needs exactly where the source does not.
pub proof fn lemma_wrapped_source(path: Seq<char>, source: Seq<char>)
    ensures
        ends_in(wrapped(path, source), source),
        has_substring(source, "use annessaia_sdk::prelude"@) ==> wrapped(path, source)
            == "// ── "@ + path + " ──\n\n"@ + source,
        !has_substring(source, "use annessaia_sdk::prelude"@) ==> wrapped(path, source)
            == "use annessaia_sdk::prelude::*;\n\n"@ + "// ── "@ + path + " ──\n\n"@ + source,
{
    reveal_strlit("");
    let w = wrapped(path, source);
    assert(w.subrange(w.len() - source.len(), w.len() as int) =~= source);
    if has_substring(source, "use annessaia_sdk::prelude"@) {
        assert(w =~= "// ── "@ + path + " ──\n\n"@ + source);
    }
}

/// The manifest of a new project has its name and the path of the library, each where it
/// belongs.
pub proof fn lemma_manifest_names_the_project(name: Seq<char>, sdk: Seq<char>)
    ensures
        ({
            let m = manifest_text(name, sdk);
            &&& begins_with(m, "[package]\nname = \""@ + name + "\"\n"@)
            &&& has_substring(m, "annessaia-sdk = { path = \""@ + sdk + "\" }\n"@)
        }),
{
    reveal_strlit("[package]\nname = \"");
    reveal_strlit("\"\n");
    reveal_strlit(
        "\"\nversion = \"0.1.0\"\nedition = \"2021\"\n\n[lib]\ncrate-type = [\"cdylib\"]\n\n[dependencies]\nannessaia-sdk = { path = \"",
    );
    reveal_strlit("annessaia-sdk = { path = \"");
    reveal_strlit("\" }\n");
    reveal_strlit(
        "\" }\n\n[profile.release]\nopt-level = \"s\"\nlto = true\nstrip = true\n",
    );
    let m = manifest_text(name, sdk);
    let front = "[package]\nname = \""@ + name + "\"\n"@;
    assert(m.subrange(0, front.len() as int) =~= front);
    let mid =
        "\"\nversion = \"0.1.0\"\nedition = \"2021\"\n\n[lib]\ncrate-type = [\"cdylib\"]\n\n[dependencies]\nannessaia-sdk = { path = \""@;
    let part = "annessaia-sdk = { path = \""@ + sdk + "\" }\n"@;
    let at = "[package]\nname = \""@.len() + name.len() + mid.len() - 26;
    assert("annessaia-sdk = { path = \""@.len() == 26);
    assert(m.subrange(at, at + part.len()) =~= part);
    assert(stands_at(m, part, at));
}

/// What is said of a finished build ends with the hash, and speaks of further files exactly
/// where there are some.
pub proof fn lemma_build_tells_its_hash(path: Seq<char>, len: nat, assets: nat, hash: Seq<char>)
    ensures
        ends_in(done_text(path, len, assets, hash), "hash "@ + hash + ")"@),
        assets > 0 ==> done_text(path, len, assets, hash) == "✓ "@ + path + " ("@ + decimal(len / 1024)
            + " KiB, "@ + decimal(assets) + " asset file(s), "@ + "hash "@ + hash + ")"@,
        assets == 0 ==> done_text(path, len, assets, hash) == "✓ "@ + path + " ("@ + decimal(
            len / 1024,
        ) + " KiB, "@ + "hash "@ + hash + ")"@,
{
    reveal_strlit("");
    let d = done_text(path, len, assets, hash);
    let e = "hash "@ + hash + ")"@;
    assert(d.subrange(d.len() - e.len(), d.len() as int) =~= e);
    if assets > 0 {
        assert(d =~= "✓ "@ + path + " ("@ + decimal(len / 1024) + " KiB, "@ + decimal(assets)
            + " asset file(s), "@ + "hash "@ + hash + ")"@);
    } else {
        assert(d =~= "✓ "@ + path + " ("@ + decimal(len / 1024) + " KiB, "@ + "hash "@ + hash
            + ")"@);
    }
}

} // verus!
