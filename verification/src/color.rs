//! Colors: four channels of one byte each, packed into an integer.
use vstd::prelude::*;

verus! {

/// A color packed as `0xRRGGBBAA`, held in the signed integer that guests and host
/// exchange.
#[derive(Clone, Copy, Debug, PartialEq, Eq, Structural)]
pub struct Color(pub i32);

/// The four channels packed, red first and alpha last.
pub open spec fn packed(r: u8, g: u8, b: u8, a: u8) -> i32 {
    ((r as u32) << 24 | (g as u32) << 16 | (b as u32) << 8 | a as u32) as i32
}

/// The red channel of a packed color.
pub open spec fn red(c: i32) -> u8 {
    ((c as u32) >> 24) as u8
}

/// The green channel of a packed color.
pub open spec fn green(c: i32) -> u8 {
    ((c as u32) >> 16) as u8
}

/// The blue channel of a packed color.
pub open spec fn blue(c: i32) -> u8 {
    ((c as u32) >> 8) as u8
}

/// The alpha channel of a packed color.
pub open spec fn alpha(c: i32) -> u8 {
    (c as u32) as u8
}

/// Unpacking gives back the channels that were packed.
pub proof fn lemma_packed_channels(r: u8, g: u8, b: u8, a: u8)
    ensures
        red(packed(r, g, b, a)) == r,
        green(packed(r, g, b, a)) == g,
        blue(packed(r, g, b, a)) == b,
        alpha(packed(r, g, b, a)) == a,
{
    let p: i32 = packed(r, g, b, a);
    assert(((p as u32) >> 24) as u8 == r && ((p as u32) >> 16) as u8 == g && ((p as u32) >> 8) as u8
        == b && (p as u32) as u8 == a) by (bit_vector)
        requires
            p == ((r as u32) << 24 | (g as u32) << 16 | (b as u32) << 8 | a as u32) as i32,
    ;
}

/// A color is what its four channels pack to.
pub proof fn lemma_color_is_its_channels(c: i32)
    ensures
        packed(red(c), green(c), blue(c), alpha(c)) == c,
{
    let r: u8 = red(c);
    let g: u8 = green(c);
    let b: u8 = blue(c);
    let a: u8 = alpha(c);
    assert(((r as u32) << 24 | (g as u32) << 16 | (b as u32) << 8 | a as u32) as i32 == c)
        by (bit_vector)
        requires
            r == ((c as u32) >> 24) as u8,
            g == ((c as u32) >> 16) as u8,
            b == ((c as u32) >> 8) as u8,
            a == (c as u32) as u8,
    ;
}

impl Color {
    /// Packs four channels.
    pub fn rgba(r: u8, g: u8, b: u8, a: u8) -> (c: Color)
        ensures
            c.0 == packed(r, g, b, a),
            red(c.0) == r,
            green(c.0) == g,
            blue(c.0) == b,
            alpha(c.0) == a,
    {
        proof {
            lemma_packed_channels(r, g, b, a);
        }
        Color(
            #[verifier::truncate]
            (((r as u32) << 24 | (g as u32) << 16 | (b as u32) << 8 | a as u32) as i32),
        )
    }

    /// Packs three channels, fully opaque.
    pub fn rgb(r: u8, g: u8, b: u8) -> (c: Color)
        ensures
            c.0 == packed(r, g, b, 255),
            red(c.0) == r,
            green(c.0) == g,
            blue(c.0) == b,
            alpha(c.0) == 255,
    {
        Color::rgba(r, g, b, 255)
    }

    /// This color with another alpha.
    pub fn with_alpha(self, a: u8) -> (c: Color)
        ensures
            c.0 == packed(red(self.0), green(self.0), blue(self.0), a),
            red(c.0) == red(self.0),
            green(c.0) == green(self.0),
            blue(c.0) == blue(self.0),
            alpha(c.0) == a,
    {
        let p = self.parts();
        Color::rgba(p.0, p.1, p.2, a)
    }

    /// The four channels.
    pub fn parts(self) -> (p: (u8, u8, u8, u8))
        ensures
            p == (red(self.0), green(self.0), blue(self.0), alpha(self.0)),
    {
        let c: u32 = #[verifier::truncate] (self.0 as u32);
        (
            #[verifier::truncate] ((c >> 24) as u8),
            #[verifier::truncate] ((c >> 16) as u8),
            #[verifier::truncate] ((c >> 8) as u8),
            #[verifier::truncate] (c as u8),
        )
    }

    /// The named color black.
    pub fn black() -> (c: Color)
        ensures
            c.0 == packed(0, 0, 0, 255),
    {
        Color::rgb(0, 0, 0)
    }

    /// The named color white.
    pub fn white() -> (c: Color)
        ensures
            c.0 == packed(255, 255, 255, 255),
    {
        Color::rgb(255, 255, 255)
    }

    /// The named color red.
    pub fn red() -> (c: Color)
        ensures
            c.0 == packed(239, 68, 68, 255),
    {
        Color::rgb(239, 68, 68)
    }

    /// The named color green.
    pub fn green() -> (c: Color)
        ensures
            c.0 == packed(74, 222, 128, 255),
    {
        Color::rgb(74, 222, 128)
    }

    /// The named color blue.
    pub fn blue() -> (c: Color)
        ensures
            c.0 == packed(96, 165, 250, 255),
    {
        Color::rgb(96, 165, 250)
    }

    /// The named color cyan.
    pub fn cyan() -> (c: Color)
        ensures
            c.0 == packed(56, 189, 248, 255),
    {
        Color::rgb(56, 189, 248)
    }

    /// The named color magenta.
    pub fn magenta() -> (c: Color)
        ensures
            c.0 == packed(248, 113, 163, 255),
    {
        Color::rgb(248, 113, 163)
    }

    /// The named color yellow.
    pub fn yellow() -> (c: Color)
        ensures
            c.0 == packed(250, 204, 21, 255),
    {
        Color::rgb(250, 204, 21)
    }

    /// The named color orange.
    pub fn orange() -> (c: Color)
        ensures
            c.0 == packed(251, 146, 60, 255),
    {
        Color::rgb(251, 146, 60)
    }

    /// No color at all.
    pub fn transparent() -> (c: Color)
        ensures
            c.0 == packed(0, 0, 0, 0),
    {
        Color::rgba(0, 0, 0, 0)
    }
}

/// Changing the alpha twice is changing it once, and the rest of the color stays.
pub proof fn lemma_last_alpha_wins(c: i32, a: u8, b: u8)
    ensures
        ({
            let once = packed(red(c), green(c), blue(c), a);
            packed(red(once), green(once), blue(once), b) == packed(red(c), green(c), blue(c), b)
        }),
{
    lemma_packed_channels(red(c), green(c), blue(c), a);
}

} // verus!
