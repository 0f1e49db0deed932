//! What an app reads of the clipboard, of chosen files, of the history and of the files
//! that came with it.
use vstd::prelude::*;
use vstd::string::StrSliceExecFns;
use vstd::utf8::encode_utf8;
use crate::host::{picked_content, Host, PickedFile};
use crate::memory::guest_text;
use crate::storage::{clip, clipped, maybe_text, text_from, utf8_text};
use crate::table::Table;
use crate::text::utf8_lossy;

verus! {

/// The most bytes that an app reads of the clipboard.
pub const MAX_CLIPBOARD: usize = 4096;

/// The most bytes that an app reads of an address or a file name.
pub const MAX_NAME: usize = 512;

/// The most bytes that an app reads of a file that came with it.
pub const MAX_ASSET: usize = 8388608;

/// The text of the clipboard: nothing where it is empty or cannot be had, or where the
/// part that is read is not valid UTF-8.
pub fn paste(clipboard: &Option<String>) -> (r: Option<String>)
    ensures
        maybe_text(r) == match clipboard {
            Some(t) => if t@.len() == 0 {
                None
            } else {
                utf8_text(clipped(encode_utf8(t@), MAX_CLIPBOARD as int))
            },
            None => None,
        },
{
    match clipboard {
        Some(t) => {
            if t.as_str().is_empty() {
                return None;
            }
            let all = t.as_str().as_bytes_vec();
            text_from(clip(&all, MAX_CLIPBOARD))
        },
        None => None,
    }
}

/// The name and the content of the file that the user chose; nothing where none was.
pub fn pick_file(file: &Option<PickedFile>) -> (r: Option<(String, Vec<u8>)>)
    ensures
        match picked_content(*file) {
            Some(f) => r matches Some(g) && g.0@ == utf8_lossy(
                clipped(encode_utf8(f.0), MAX_NAME as int),
            ) && g.1@ == f.1 && (encode_utf8(f.0).len() <= MAX_NAME ==> g.0@ == f.0),
            None => r is None,
        },
{
    match file {
        Some(f) => Some((guest_text(f.name.as_str(), MAX_NAME), clip(&f.data, f.data.len()))),
        None => None,
    }
}

/// The address at a place in the history: nothing where there is none, or where the part
/// that is read is not valid UTF-8.
pub fn history_entry(host: &Host, idx: i32) -> (r: Option<String>)
    ensures
        maybe_text(r) == if 0 <= idx < host.history@.len() {
            utf8_text(clipped(encode_utf8(host.history@[idx as int]@), MAX_NAME as int))
        } else {
            None
        },
{
    if idx >= 0 && (idx as usize) < host.history.len() {
        let all = host.history[idx as usize].as_str().as_bytes_vec();
        text_from(clip(&all, MAX_NAME))
    } else {
        None
    }
}

/// The content of a file that came with the app.
pub fn load(assets: &Table<Vec<u8>>, name: &str) -> (r: Option<Vec<u8>>)
    requires
        assets.wf(),
    ensures
        match r {
            Some(b) => assets@.contains_key(name@) && b@ == clipped(
                assets@[name@],
                MAX_ASSET as int,
            ),
            None => !assets@.contains_key(name@),
        },
{
    match assets.get(name) {
        Some(d) => Some(clip(d, MAX_ASSET)),
        None => None,
    }
}

} // verus!
