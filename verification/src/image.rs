//! Pictures that a guest decoded, by the numbers that the host gave them.
use vstd::prelude::*;
use crate::slots::Slots;

verus! {

/// A picture that a guest can draw.
#[derive(Copy, Clone, Debug, PartialEq, Eq, Structural)]
pub struct Image {
    pub id: i32,
    pub width: i32,
    pub height: i32,
}

/// A decoded picture: its size, and four bytes for each pixel.
pub struct Picture {
    pub width: u32,
    pub height: u32,
    pub rgba: Vec<u8>,
}

/// The content of a [`Picture`].
pub struct Pixels {
    pub width: u32,
    pub height: u32,
    pub rgba: Seq<u8>,
}

impl View for Picture {
    type V = Pixels;

    open spec fn view(&self) -> Pixels {
        Pixels { width: self.width, height: self.height, rgba: self.rgba@ }
    }
}

impl Picture {
    /// Whether there are four bytes for each pixel.
    pub open spec fn wf(self) -> bool {
        self@.whole()
    }
}

impl Pixels {
    /// Whether there are four bytes for each pixel.
    pub open spec fn whole(self) -> bool {
        self.rgba.len() == 4 * (self.width * self.height)
    }
}

/// The name for what `image::load_from_memory` finds in a file: the width, the height and
/// the pixels of a picture, or nothing where it cannot be decoded.
pub uninterp spec fn decoded_picture(bytes: Seq<u8>) -> Option<(u32, u32, Seq<u8>)>;

/// Calls `image::load_from_memory` and converts the result with `to_rgba8`. What comes of it
/// depends on the bytes alone, and every pixel has four bytes; the error is dropped.
#[verifier::external_body]
fn load_picture(bytes: &Vec<u8>) -> (r: Option<Picture>)
    ensures
        match r {
            Some(p) => decoded_picture(bytes@) == Some((p.width, p.height, p.rgba@)) && p.wf(),
            None => decoded_picture(bytes@) is None,
        },
{
    let rgba = image::load_from_memory(bytes).ok()?.to_rgba8();
    Some(Picture { width: rgba.width(), height: rgba.height(), rgba: rgba.into_raw() })
}

/// The picture in a file, or nothing where there is none.
pub open spec fn picture_in(bytes: Seq<u8>) -> Option<Pixels> {
    match decoded_picture(bytes) {
        Some(p) => Some(Pixels { width: p.0, height: p.1, rgba: p.2 }),
        None => None,
    }
}

/// The pictures of a guest.
pub struct Pictures {
    pub shown: Slots<Picture>,
    /// The number of the next picture.
    pub next_id: i32,
}

/// The width or height of a picture as a guest learns it: by the bits of the number.
pub open spec fn side(n: u32) -> i32 {
    n as i32
}

impl Pictures {
    /// Whether no number was given twice, none is negative, and every picture is whole.
    pub open spec fn wf(self) -> bool {
        &&& 0 <= self.next_id
        &&& forall|id: i32| #[trigger]
            self.shown@.contains_key(id) ==> 0 <= id < self.next_id && self.shown@[id].whole()
    }

    /// Without any picture.
    pub fn new() -> (r: Pictures)
        ensures
            r.wf(),
            r.shown@ == Map::<i32, Pixels>::empty(),
            r.next_id == 0,
    {
        Pictures { shown: Slots::new(), next_id: 0 }
    }

    /// Whether a picture got the next number, or there was none.
    pub open spec fn kept(self, before: Pictures, picture: Option<Pixels>, r: i32) -> bool {
        match picture {
            Some(p) => self.shown@ == before.shown@.insert(before.next_id, p) && self.next_id
                == before.next_id + 1 && r == before.next_id,
            None => self.shown@ == before.shown@ && self.next_id == before.next_id && r == -1,
        }
    }

    /// Whether a file was decoded: the picture that it holds got the next number, or there
    /// was none.
    pub open spec fn decoded(self, before: Pictures, bytes: Seq<u8>, r: i32) -> bool {
        self.kept(before, picture_in(bytes), r)
    }

    /// Gives a decoded picture the next number. Returns it, or -1 where there is none.
    pub fn keep(&mut self, picture: Option<Picture>) -> (r: i32)
        requires
            old(self).wf(),
            old(self).next_id < i32::MAX,
            picture matches Some(p) ==> p.wf(),
        ensures
            final(self).wf(),
            final(self).kept(
                *old(self),
                match picture {
                    Some(p) => Some(p@),
                    None => None,
                },
                r,
            ),
    {
        match picture {
            Some(p) => {
                let id: i32 = self.next_id;
                self.next_id = id + 1;
                self.shown.set(id, p);
                id
            },
            None => -1,
        }
    }

    /// Decodes a picture and gives it the next number.
    pub fn decode(&mut self, bytes: &Vec<u8>) -> (r: i32)
        requires
            old(self).wf(),
            old(self).next_id < i32::MAX,
        ensures
            final(self).wf(),
            final(self).decoded(*old(self), bytes@, r),
    {
        let p = load_picture(bytes);
        self.keep(p)
    }

    /// The width of a picture, or -1 where there is none with that number.
    pub fn width(&self, id: i32) -> (r: i32)
        requires
            self.wf(),
        ensures
            r == if self.shown@.contains_key(id) {
                side(self.shown@[id].width)
            } else {
                -1i32
            },
    {
        match self.shown.get(id) {
            Some(p) => p.width as i32,
            None => -1,
        }
    }

    /// The height of a picture, or -1 where there is none with that number.
    pub fn height(&self, id: i32) -> (r: i32)
        requires
            self.wf(),
        ensures
            r == if self.shown@.contains_key(id) {
                side(self.shown@[id].height)
            } else {
                -1i32
            },
    {
        match self.shown.get(id) {
            Some(p) => p.height as i32,
            None => -1,
        }
    }
}

/// Decodes a picture for a guest. Nothing comes of bytes that are no picture.
pub fn decode(pictures: &mut Pictures, bytes: &Vec<u8>) -> (r: Option<Image>)
    requires
        old(pictures).wf(),
        old(pictures).next_id < i32::MAX,
    ensures
        final(pictures).wf(),
        match picture_in(bytes@) {
            Some(p) => r == Some(
                Image {
                    id: old(pictures).next_id,
                    width: side(p.width),
                    height: side(p.height),
                },
            ) && final(pictures).decoded(*old(pictures), bytes@, old(pictures).next_id),
            None => r is None && final(pictures).decoded(*old(pictures), bytes@, -1i32),
        },
{
    let id: i32 = pictures.decode(bytes);
    if id < 0 {
        return None;
    }
    let width: i32 = pictures.width(id);
    let height: i32 = pictures.height(id);
    Some(Image { id, width, height })
}

/// Decoding one more picture leaves all others as they are.
pub proof fn lemma_pictures_stay(
    before: Pictures,
    after: Pictures,
    picture: Option<Pixels>,
    r: i32,
    id: i32,
)
    requires
        before.wf(),
        after.kept(before, picture, r),
        before.shown@.contains_key(id),
    ensures
        after.shown@.contains_key(id),
        after.shown@[id] == before.shown@[id],
        id != r,
{
}

} // verus!
