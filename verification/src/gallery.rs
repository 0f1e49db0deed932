//! The widget gallery: how it describes itself to the public index, the sound that it
//! plays, and its counter.
use vstd::prelude::*;
use vstd::string::StringExecFns;
use crate::requests::{ask, ask_post, asks, Ask, Ended, Request};

verus! {

// ── Describing itself ────────────────────────────────────────────────────────

/// The gallery's name in the index.
pub const SELF_NAME: &'static str = "Widget Gallery";

/// The gallery's description in the index.
pub const SELF_DESC: &'static str =
    "Every widget the SDK offers: buttons, sliders, cards, rows and columns.";

pub const SELF_AUTHOR: &'static str = "annessaia";

pub const SELF_TAGS: &'static str = "demo, reference";

/// Where the gallery is served from.
pub const SELF_URL: &'static str = "https://bootstrap.annessaia.workers.dev/widgets.wasm";

/// The node that is told.
pub const SERVER: &'static str = "https://bootstrap.annessaia.workers.dev";

/// The preview: one chunk for the gallery and one for each widget.
pub const DOC_SNIPPET: &'static str =
    "Widget Gallery — every widget the SDK offers, with a live example and copyable code for each.\u{1e}\
     heading — a large, bold title. heading(\"Section title\");\u{1e}\
     label — the default body text style. label(\"Regular body text.\");\u{1e}\
     small — dimmer, smaller captions and fine print. small(\"A quieter caption.\");\u{1e}\
     colored — a label in an arbitrary color. colored(text, color);\u{1e}\
     text — size and color set explicitly, not tied to a fixed style. text(s, size, color);\u{1e}\
     code — monospace, for snippets. code(\"let x = 1 + 1;\");\u{1e}\
     badge — a small colored pill, usually next to a label. badge(\"NEW\", color);\u{1e}\
     button — returns true on the frame it was clicked.\u{1e}\
     button_success / button_danger / button_ghost — pre-styled variants for common intents.\u{1e}\
     button_styled — full control over foreground, background, and border color.\u{1e}\
     checkbox — toggles and returns its new state.\u{1e}\
     slider — drag to change; returns the current value every frame.\u{1e}\
     text_field — a single-line editable field; returns its current text.\u{1e}\
     progress / progress_bar — a fill bar, with or without a label.\u{1e}\
     row — lays out whatever the closure draws left to right instead of stacked.\u{1e}\
     columns2 / columns3 / columns4 — side-by-side panes, each with its own closure.\u{1e}\
     space — a fixed gap, in logical pixels.\u{1e}\
     separator — a thin horizontal rule.\u{1e}\
     card — a bordered panel with default styling.\u{1e}\
     card_color — same as card, with a custom background — used for alerts, warnings, highlights.\u{1e}\
     sound::play — fire-and-forget playback, several can overlap. Decoding happens on the host.\u{1e}\
     sound::play_looped / sound::stop / sound::set_volume — loops until stopped; the handle also adjusts volume.";

/// What the gallery is about, in full; only a vector of it ever leaves the machine.
pub const DOC_TEXT: &'static str =
    "Text widgets: heading, a large bold title. label, the default body \
     text style. small, dimmer smaller captions and fine print. colored, \
     label in an arbitrary color. text, size and color set explicitly. \
     code, monospace for snippets. badge, a small colored pill. \
     Buttons: button, returns true on the frame it was clicked. \
     button_success, button_danger, button_ghost, pre-styled variants for \
     common intents. button_styled, full control over foreground, \
     background, and border color. \
     Input: checkbox, toggles and returns its new state. slider, drag to \
     change, returns the current value. text_field, a single-line editable \
     field. progress, progress_bar, a fill bar with or without a label. \
     Layout: row, lays out side by side. columns2, columns3, columns4, \
     side-by-side panes. space, a fixed gap. separator, a thin horizontal \
     rule. \
     Containers: card, a bordered panel. card_color, the same with a \
     custom background. \
     Sound: sound::play, fire-and-forget one-shot playback, several can \
     overlap. sound::play_looped, sound::stop, sound::set_volume, loop a \
     clip until stopped and adjust its volume.";

/// The number of the request for the vector.
pub const SELF_EMBED_ID: i32 = 9001;

/// The number of the request that tells the node.
pub const SELF_SUBMIT_ID: i32 = 9002;

/// How far describing itself has come.
#[derive(Clone, Copy, Debug, PartialEq, Eq, Structural)]
pub enum Report {
    Idle,
    Embedding,
    Submitting,
    /// It was told, or there was no vector.
    Over,
}

/// What the gallery tells the node.
pub open spec fn report_body(vec: Seq<char>) -> Seq<char> {
    SELF_NAME@ + "\t"@ + SELF_DESC@ + "\t"@ + SELF_URL@ + "\t"@ + SELF_AUTHOR@ + "\t"@ + SELF_TAGS@
        + "\t"@ + DOC_SNIPPET@ + "\t"@ + vec
}

fn report_text(vec: &str) -> (r: String)
    ensures
        r@ == report_body(vec@),
{
    let mut r = SELF_NAME.to_owned();
    r.append("\t");
    r.append(SELF_DESC);
    r.append("\t");
    r.append(SELF_URL);
    r.append("\t");
    r.append(SELF_AUTHOR);
    r.append("\t");
    r.append(SELF_TAGS);
    r.append("\t");
    r.append(DOC_SNIPPET);
    r.append("\t");
    r.append(vec);
    r
}

/// What the gallery keeps.
pub struct Gallery {
    pub report: Report,
    pub counter: i32,
    /// The sound that is being looped.
    pub looping: Option<i32>,
}

impl Gallery {
    /// The gallery when it is opened. Asks for the vector of what it is about.
    pub fn new(out: &mut Vec<Request>) -> (g: Gallery)
        ensures
            g.report == Report::Embedding && g.counter == 0 && g.looping is None,
            asks(final(out)@) == asks(old(out)@).push(Ask::EmbedDoc(SELF_EMBED_ID, DOC_TEXT@)),
    {
        ask(out, Request::EmbedDoc { id: SELF_EMBED_ID, text: DOC_TEXT.to_owned() });
        Gallery { report: Report::Embedding, counter: 0, looping: None }
    }

    /// The vector came, or cannot be had.
    pub fn embedded(&mut self, ended: Ended, out: &mut Vec<Request>)
        ensures
            old(self).report != Report::Embedding ==> *final(self) == *old(self) && asks(final(out)@)
                == asks(old(out)@),
            old(self).report == Report::Embedding ==> match ended {
                Ended::Failed => *final(self) == (Gallery { report: Report::Over, ..*old(self) })
                    && asks(final(out)@) == asks(old(out)@),
                Ended::Done(vec) => *final(self) == (Gallery {
                    report: Report::Submitting,
                    ..*old(self)
                }) && asks(final(out)@) == asks(old(out)@).push(
                    Ask::Post(SELF_SUBMIT_ID, SERVER@ + "/api/submit"@, report_body(vec@)),
                ),
            },
    {
        match self.report {
            Report::Embedding => match ended {
                Ended::Failed => {
                    self.report = Report::Over;
                },
                Ended::Done(vec) => {
                    let mut u = SERVER.to_owned();
                    u.append("/api/submit");
                    ask_post(out, SELF_SUBMIT_ID, u, report_text(vec.as_str()));
                    self.report = Report::Submitting;
                },
            },
            _ => {},
        }
    }

    /// The node was told.
    pub fn submitted(&mut self)
        ensures
            *final(self) == (Gallery {
                report: if old(self).report == Report::Submitting {
                    Report::Over
                } else {
                    old(self).report
                },
                ..*old(self)
            }),
    {
        match self.report {
            Report::Submitting => {
                self.report = Report::Over;
            },
            _ => {},
        }
    }

    /// The counter is pushed up or down. It goes round at its ends.
    pub fn count(&mut self, up: bool)
        ensures
            *final(self) == (Gallery { counter: final(self).counter, ..*old(self) }),
            final(self).counter == if up {
                if old(self).counter == i32::MAX {
                    i32::MIN as int
                } else {
                    old(self).counter + 1
                }
            } else {
                if old(self).counter == i32::MIN {
                    i32::MAX as int
                } else {
                    old(self).counter - 1
                }
            },
    {
        self.counter = if up {
            if self.counter == i32::MAX {
                i32::MIN
            } else {
                self.counter + 1
            }
        } else {
            if self.counter == i32::MIN {
                i32::MAX
            } else {
                self.counter - 1
            }
        };
    }

    /// The counter starts over.
    pub fn reset(&mut self)
        ensures
            *final(self) == (Gallery { counter: 0, ..*old(self) }),
    {
        self.counter = 0;
    }

    /// A loop was started; the host gives a negative number where it could not.
    pub fn loop_started(&mut self, handle: i32)
        ensures
            *final(self) == (Gallery {
                looping: if handle >= 0 {
                    Some(handle)
                } else {
                    None
                },
                ..*old(self)
            }),
    {
        self.looping = if handle >= 0 {
            Some(handle)
        } else {
            None
        };
    }

    /// Stops the loop. Returns which sound to stop.
    pub fn stop_loop(&mut self) -> (r: Option<i32>)
        ensures
            r == old(self).looping,
            *final(self) == (Gallery { looping: None, ..*old(self) }),
    {
        let r = self.looping;
        self.looping = None;
        r
    }
}

// ── Sound files ──────────────────────────────────────────────────────────────

/// Samples per second.
pub const SAMPLE_RATE: u32 = 44100;

/// The four bytes of a number, the least significant first.
pub open spec fn le32(n: int) -> Seq<u8> {
    seq![
        (n % 256) as u8,
        (n / 256 % 256) as u8,
        (n / 65536 % 256) as u8,
        (n / 16777216 % 256) as u8,
    ]
}

/// The two bytes of a number, the least significant first.
pub open spec fn le16(n: int) -> Seq<u8> {
    seq![(n % 256) as u8, (n / 256 % 256) as u8]
}

/// The bytes of samples; a negative one by its complement.
pub open spec fn sample_bytes(s: Seq<i16>) -> Seq<u8>
    decreases s.len(),
{
    if s.len() == 0 {
        Seq::empty()
    } else {
        sample_bytes(s.drop_last()) + le16(s.last() as int % 65536)
    }
}

/// The header of a sound file with so many bytes of samples: one channel of sixteen bits.
pub open spec fn wav_header(len: int) -> Seq<u8> {
    seq![0x52u8, 0x49u8, 0x46u8, 0x46u8] + le32(36 + len) + seq![
        0x57u8,
        0x41u8,
        0x56u8,
        0x45u8,
        0x66u8,
        0x6Du8,
        0x74u8,
        0x20u8,
    ] + le32(16) + le16(1) + le16(1) + le32(SAMPLE_RATE as int) + le32(SAMPLE_RATE * 2) + le16(2)
        + le16(16) + seq![0x64u8, 0x61u8, 0x74u8, 0x61u8] + le32(len)
}

fn put32(out: &mut Vec<u8>, n: u32)
    ensures
        final(out)@ == old(out)@ + le32(n as int),
{
    let ghost before = out@;
    out.push((n % 256) as u8);
    out.push((n / 256 % 256) as u8);
    out.push((n / 65536 % 256) as u8);
    out.push((n / 16777216 % 256) as u8);
    assert(out@ =~= before + le32(n as int));
}

fn put16(out: &mut Vec<u8>, n: u16)
    ensures
        final(out)@ == old(out)@ + le16(n as int),
{
    let ghost before = out@;
    out.push((n % 256) as u8);
    out.push((n / 256 % 256) as u8);
    assert(out@ =~= before + le16(n as int));
}

fn put_four(out: &mut Vec<u8>, a: u8, b: u8, c: u8, d: u8)
    ensures
        final(out)@ == old(out)@ + seq![a, b, c, d],
{
    let ghost before = out@;
    out.push(a);
    out.push(b);
    out.push(c);
    out.push(d);
    assert(out@ =~= before + seq![a, b, c, d]);
}

/// Returns the sound file of samples.
pub fn wav(samples: &Vec<i16>) -> (out: Vec<u8>)
    requires
        36 + 2 * samples@.len() <= u32::MAX,
    ensures
        out@ == wav_header(2 * samples@.len() as int) + sample_bytes(samples@),
{
    let len: u32 = 2 * samples.len() as u32;
    let mut out: Vec<u8> = Vec::new();
    put_four(&mut out, 0x52, 0x49, 0x46, 0x46);
    put32(&mut out, 36 + len);
    put_four(&mut out, 0x57, 0x41, 0x56, 0x45);
    put_four(&mut out, 0x66, 0x6D, 0x74, 0x20);
    put32(&mut out, 16);
    put16(&mut out, 1);
    put16(&mut out, 1);
    put32(&mut out, SAMPLE_RATE);
    put32(&mut out, SAMPLE_RATE * 2);
    put16(&mut out, 2);
    put16(&mut out, 16);
    put_four(&mut out, 0x64, 0x61, 0x74, 0x61);
    put32(&mut out, len);
    assert(out@ =~= wav_header(len as int));
    let ghost head = out@;
    let mut i: usize = 0;
    assert(samples@.take(0) =~= Seq::empty());
    assert(out@ =~= head + sample_bytes(samples@.take(0)));
    while i < samples.len()
        invariant
            i <= samples@.len(),
            out@ == head + sample_bytes(samples@.take(i as int)),
        decreases samples.len() - i,
    {
        assert(samples@.take(i + 1).drop_last() =~= samples@.take(i as int));
        let s: i16 = samples[i];
        let n: u16 = if s >= 0 {
            s as u16
        } else {
            (s as i32 + 65536) as u16
        };
        assert(n == s as int % 65536);
        put16(&mut out, n);
        i += 1;
        assert(out@ =~= head + sample_bytes(samples@.take(i as int)));
    }
    assert(samples@.take(i as int) =~= samples@);
    out
}

/// The header always takes as many bytes.
pub proof fn lemma_wav_header_len(len: int)
    ensures
        wav_header(len).len() == 44,
{
}

proof fn lemma_sample_bytes(s: Seq<i16>, i: int)
    ensures
        sample_bytes(s).len() == 2 * s.len(),
        0 <= i < s.len() ==> sample_bytes(s)[2 * i] + 256 * sample_bytes(s)[2 * i + 1] == s[i] as int
            % 65536,
    decreases s.len(),
{
    if s.len() > 0 {
        let d = s.drop_last();
        lemma_sample_bytes(d, i);
        if 0 <= i < d.len() {
            assert(d[i] == s[i]);
        } else if i == d.len() {
            let n = s[i] as int % 65536;
            assert(n == n % 256 + 256 * (n / 256 % 256));
        }
    }
}

/// The number that four bytes stand for, the least first.
pub open spec fn four_bytes(b: Seq<u8>, at: int) -> int {
    b[at] + b[at + 1] * 256 + b[at + 2] * 65536 + b[at + 3] * 16777216
}

proof fn lemma_four_bytes(n: int)
    requires
        0 <= n <= u32::MAX,
    ensures
        four_bytes(le32(n), 0) == n,
{
    assert(n == n % 256 + n / 256 % 256 * 256 + n / 65536 % 256 * 65536 + n / 16777216 % 256
        * 16777216);
}

/// A sound's file says how long it is, how long its samples are and how many it has in a
/// second, and holds each sample at its place, in two bytes with the least first.
pub proof fn lemma_sound_is_in_its_file(s: Seq<i16>, i: int)
    requires
        36 + 2 * s.len() <= u32::MAX,
        0 <= i < s.len(),
    ensures
        ({
            let b = wav_header(2 * s.len() as int) + sample_bytes(s);
            &&& b.len() == 44 + 2 * s.len()
            &&& four_bytes(b, 4) == b.len() - 8
            &&& four_bytes(b, 40) == 2 * s.len()
            &&& four_bytes(b, 24) == 44100
            &&& b[22] + 256 * b[23] == 1 && b[34] + 256 * b[35] == 16
            &&& b[44 + 2 * i] + 256 * b[45 + 2 * i] == s[i] as int % 65536
        }),
{
    let n = 2 * s.len() as int;
    let h = wav_header(n);
    let b = h + sample_bytes(s);
    lemma_sample_bytes(s, i);
    lemma_four_bytes(36 + n);
    lemma_four_bytes(n);
    lemma_four_bytes(44100);
    assert(h.subrange(4, 8) =~= le32(36 + n));
    assert(h.subrange(40, 44) =~= le32(n));
    assert(h.subrange(24, 28) =~= le32(44100));
    assert(h.subrange(22, 24) =~= le16(1));
    assert(h.subrange(34, 36) =~= le16(16));
    assert(b[4] == h.subrange(4, 8)[0] && b[5] == h.subrange(4, 8)[1] && b[6] == h.subrange(4, 8)[2]
        && b[7] == h.subrange(4, 8)[3]);
    assert(b[40] == h.subrange(40, 44)[0] && b[41] == h.subrange(40, 44)[1] && b[42]
        == h.subrange(40, 44)[2] && b[43] == h.subrange(40, 44)[3]);
    assert(b[24] == h.subrange(24, 28)[0] && b[25] == h.subrange(24, 28)[1] && b[26]
        == h.subrange(24, 28)[2] && b[27] == h.subrange(24, 28)[3]);
    assert(b[22] == h.subrange(22, 24)[0] && b[23] == h.subrange(22, 24)[1]);
    assert(b[34] == h.subrange(34, 36)[0] && b[35] == h.subrange(34, 36)[1]);
    assert(b[44 + 2 * i] == sample_bytes(s)[2 * i] && b[45 + 2 * i] == sample_bytes(s)[2 * i + 1]);
}

} // verus!
