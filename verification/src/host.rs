//! What the host keeps for a guest, and the functions that a guest calls. A guest hands
//! over pointers and lengths into its memory, and gets numbers back.
use vstd::prelude::*;
use vstd::string::StrSliceExecFns;
use vstd::utf8::encode_utf8;
use crate::color::Color;
use crate::image::{Pictures, Pixels};
use crate::input::{button_clicked, button_down, holds_code, Input};
use crate::memory::{
    fitting, handed, lemma_read_back, pointed_at, reaches, read_bytes, read_str, write_bytes,
};
use crate::nav::NavRequest;
use crate::net::{begin, Fetch, FetchResult, Fetches};
use crate::slots::Slots;
use crate::storage::{clip, Store};
use crate::table::Table;
use crate::text::{comma_list, filled_lines, split, texts, utf8_lossy};
use crate::widget::{
    begin_frame, button, button_added, button_styled, checkbox, code, colored, heading, kept, label,
    new_ui, slider, small, text_edit, times, was_clicked, Float, Ui, WidgetCmd,
};

verus! {

/// A shape that a guest draws.
pub enum GpuCmd {
    Clear(Color),
    Rect { x: Float, y: Float, w: Float, h: Float, rounding: Float, color: Color },
    Circle { cx: Float, cy: Float, r: Float, color: Color },
    CircleStroke { cx: Float, cy: Float, r: Float, color: Color, thickness: Float },
    Line { x1: Float, y1: Float, x2: Float, y2: Float, color: Color, thickness: Float },
    Triangle {
        x1: Float,
        y1: Float,
        x2: Float,
        y2: Float,
        x3: Float,
        y3: Float,
        color: Color,
    },
    Text { x: Float, y: Float, s: String, size: Float, color: Color },
    Image { id: i32, x: Float, y: Float, w: Float, h: Float },
}

/// A file that is offered to the user.
pub struct SaveRequest {
    pub data: Vec<u8>,
    pub name: String,
}

/// A file that the user chose.
pub struct PickedFile {
    pub name: String,
    pub data: Vec<u8>,
}

/// What the host keeps for a guest.
pub struct Host {
    pub ui: Ui,
    /// The shapes of this frame.
    pub gpu: Vec<GpuCmd>,
    pub store: Store,
    pub fetches: Fetches,
    /// Where the guest wants to go.
    pub nav_request: Option<NavRequest>,
    /// The addresses that were visited.
    pub history: Vec<String>,
    pub pending_save: Option<SaveRequest>,
    pub picked: Option<PickedFile>,
    pub pictures: Pictures,
    /// The files that came with the app.
    pub assets: Table<Vec<u8>>,
}

/// The text that a guest points at.
pub open spec fn text_at(mem: Seq<u8>, ptr: i32, len: i32) -> Seq<char> {
    utf8_lossy(pointed_at(mem, ptr, len))
}

/// A truth value as a guest is told.
pub open spec fn flag(b: bool) -> i32 {
    if b {
        1
    } else {
        0
    }
}

fn as_flag(b: bool) -> (r: i32)
    ensures
        r == flag(b),
{
    if b {
        1
    } else {
        0
    }
}

impl Host {
    /// Whether the parts are in order.
    pub open spec fn wf(self) -> bool {
        &&& self.ui.wf()
        &&& self.store.wf()
        &&& self.pictures.wf()
        &&& self.assets.wf()
    }

    /// The host for an app with these files.
    pub fn new(assets: Table<Vec<u8>>) -> (h: Host)
        requires
            assets.wf(),
        ensures
            h.wf(),
            h.assets == assets,
            h.store@ == Map::<Seq<char>, Seq<u8>>::empty(),
            h.fetches@ == Map::<i32, Fetch>::empty(),
            h.pictures.shown@ == Map::<i32, Pixels>::empty(),
            h.nav_request is None && h.pending_save is None && h.picked is None,
            h.history@.len() == 0,
            h.ui.widgets@.len() == 0,
            h.gpu@.len() == 0,
    {
        Host {
            ui: new_ui(),
            gpu: Vec::new(),
            store: Table::new(),
            fetches: Slots::new(),
            nav_request: None,
            history: Vec::new(),
            pending_save: None,
            picked: None,
            pictures: Pictures::new(),
            assets,
        }
    }

    /// Begins a frame: what the last one asked for is forgotten.
    pub fn begin(&mut self)
        requires
            old(self).wf(),
        ensures
            final(self).wf(),
            *final(self) == (Host {
                ui: final(self).ui,
                gpu: final(self).gpu,
                nav_request: None,
                pending_save: None,
                ..*old(self)
            }),
            final(self).gpu@.len() == 0,
            final(self).ui.widgets@.len() == 0,
            final(self).ui.seen@ == Map::<Seq<char>, u32>::empty(),
            final(self).ui.clicked_prev == old(self).ui.clicked_curr,
            final(self).ui.clicked_curr@.len() == 0,
            final(self).ui.checkbox_states == old(self).ui.checkbox_states,
            final(self).ui.slider_states == old(self).ui.slider_states,
            final(self).ui.text_states == old(self).ui.text_states,
    {
        begin_frame(&mut self.ui);
        self.gpu = Vec::new();
        self.nav_request = None;
        self.pending_save = None;
    }
}

/// What a guest asked for in a frame.
pub struct FrameOutput {
    pub widgets: Vec<WidgetCmd>,
    pub gpu: Vec<GpuCmd>,
    pub nav_request: Option<NavRequest>,
    pub pending_save: Option<SaveRequest>,
}

impl Host {
    /// Ends a frame: hands out what the guest asked for.
    pub fn end(&mut self) -> (f: FrameOutput)
        requires
            old(self).wf(),
        ensures
            final(self).wf(),
            f.widgets@ == old(self).ui.widgets@,
            f.gpu@ == old(self).gpu@,
            f.nav_request == old(self).nav_request,
            f.pending_save == old(self).pending_save,
            *final(self) == (Host {
                ui: (Ui { widgets: final(self).ui.widgets, ..old(self).ui }),
                gpu: final(self).gpu,
                nav_request: None,
                pending_save: None,
                ..*old(self)
            }),
            final(self).ui.widgets@.len() == 0,
            final(self).gpu@.len() == 0,
    {
        let mut widgets: Vec<WidgetCmd> = Vec::new();
        std::mem::swap(&mut widgets, &mut self.ui.widgets);
        let mut gpu: Vec<GpuCmd> = Vec::new();
        std::mem::swap(&mut gpu, &mut self.gpu);
        let nav_request = self.nav_request.take();
        let pending_save = self.pending_save.take();
        FrameOutput { widgets, gpu, nav_request, pending_save }
    }

    /// Draws a shape.
    pub fn draw(&mut self, shape: GpuCmd)
        requires
            old(self).wf(),
        ensures
            final(self).wf(),
            final(self).gpu@ == old(self).gpu@.push(shape),
            *final(self) == (Host { gpu: final(self).gpu, ..*old(self) }),
    {
        self.gpu.push(shape);
    }

    /// Draws a text.
    pub fn gpu_text(&mut self, mem: &[u8], at: (Float, Float), text: (i32, i32), size: Float, color: Color)
        requires
            old(self).wf(),
        ensures
            final(self).wf(),
            final(self).gpu@.len() == old(self).gpu@.len() + 1,
            final(self).gpu@.drop_last() == old(self).gpu@,
            final(self).gpu@.last() matches GpuCmd::Text { x: a, y: b, s: t, size: z, color: c } && a
                == at.0 && b == at.1 && t@ == text_at(mem@, text.0, text.1) && z == size && c
                == color,
            *final(self) == (Host { gpu: final(self).gpu, ..*old(self) }),
    {
        let ghost before = self.gpu@;
        let s = read_str(mem, text.0, text.1);
        self.gpu.push(GpuCmd::Text { x: at.0, y: at.1, s, size, color });
        assert(self.gpu@.drop_last() =~= before);
    }
}

/// The pictures that the shapes of a frame draw, in their order.
pub open spec fn images_in(shapes: Seq<GpuCmd>) -> Seq<i32>
    decreases shapes.len(),
{
    if shapes.len() == 0 {
        Seq::empty()
    } else {
        match shapes.last() {
            GpuCmd::Image { id, .. } => images_in(shapes.drop_last()).push(id),
            _ => images_in(shapes.drop_last()),
        }
    }
}

/// Returns the pictures that the shapes of a frame draw.
pub fn drawn_images(shapes: &Vec<GpuCmd>) -> (r: Vec<i32>)
    ensures
        r@ == images_in(shapes@),
{
    let mut out: Vec<i32> = Vec::new();
    let mut i: usize = 0;
    let ghost all = shapes@;
    assert(all.take(0) =~= Seq::empty());
    while i < shapes.len()
        invariant
            i <= shapes@.len(),
            all == shapes@,
            out@ == images_in(all.take(i as int)),
        decreases shapes.len() - i,
    {
        assert(all.take(i + 1).drop_last() =~= all.take(i as int));
        match &shapes[i] {
            GpuCmd::Image { id, .. } => out.push(*id),
            _ => {},
        }
        i += 1;
    }
    assert(all.take(i as int) =~= all);
    out
}

// ── Widgets ──────────────────────────────────────────────────────────────────

impl Host {
    /// A heading.
    pub fn ui_heading(&mut self, mem: &[u8], ptr: i32, len: i32)
        requires
            old(self).wf(),
        ensures
            final(self).wf(),
            final(self).ui.widgets@.len() > 0,
            final(self).ui.emitted(old(self).ui, final(self).ui.widgets@.last()),
            final(self).ui.widgets@.last() matches WidgetCmd::Heading(t) && t@ == text_at(
                mem@,
                ptr,
                len,
            ),
            *final(self) == (Host { ui: final(self).ui, ..*old(self) }),
    {
        let s = read_str(mem, ptr, len);
        heading(&mut self.ui, s.as_str());
    }

    /// A line of text.
    pub fn ui_label(&mut self, mem: &[u8], ptr: i32, len: i32)
        requires
            old(self).wf(),
        ensures
            final(self).wf(),
            final(self).ui.widgets@.len() > 0,
            final(self).ui.emitted(old(self).ui, final(self).ui.widgets@.last()),
            final(self).ui.widgets@.last() matches WidgetCmd::Label(t) && t@ == text_at(
                mem@,
                ptr,
                len,
            ),
            *final(self) == (Host { ui: final(self).ui, ..*old(self) }),
    {
        let s = read_str(mem, ptr, len);
        label(&mut self.ui, s.as_str());
    }

    /// A line of small text.
    pub fn ui_small(&mut self, mem: &[u8], ptr: i32, len: i32)
        requires
            old(self).wf(),
        ensures
            final(self).wf(),
            final(self).ui.widgets@.len() > 0,
            final(self).ui.emitted(old(self).ui, final(self).ui.widgets@.last()),
            final(self).ui.widgets@.last() matches WidgetCmd::Small(t) && t@ == text_at(
                mem@,
                ptr,
                len,
            ),
            *final(self) == (Host { ui: final(self).ui, ..*old(self) }),
    {
        let s = read_str(mem, ptr, len);
        small(&mut self.ui, s.as_str());
    }

    /// A line of code.
    pub fn ui_code(&mut self, mem: &[u8], ptr: i32, len: i32)
        requires
            old(self).wf(),
        ensures
            final(self).wf(),
            final(self).ui.widgets@.len() > 0,
            final(self).ui.emitted(old(self).ui, final(self).ui.widgets@.last()),
            final(self).ui.widgets@.last() matches WidgetCmd::Code(t) && t@ == text_at(
                mem@,
                ptr,
                len,
            ),
            *final(self) == (Host { ui: final(self).ui, ..*old(self) }),
    {
        let s = read_str(mem, ptr, len);
        code(&mut self.ui, s.as_str());
    }

    /// A line of text in a color.
    pub fn ui_colored_label(&mut self, mem: &[u8], ptr: i32, len: i32, color: Color)
        requires
            old(self).wf(),
        ensures
            final(self).wf(),
            final(self).ui.widgets@.len() > 0,
            final(self).ui.emitted(old(self).ui, final(self).ui.widgets@.last()),
            final(self).ui.widgets@.last() matches WidgetCmd::ColoredLabel(t, c) && t@ == text_at(
                mem@,
                ptr,
                len,
            ) && c == color,
            *final(self) == (Host { ui: final(self).ui, ..*old(self) }),
    {
        let s = read_str(mem, ptr, len);
        colored(&mut self.ui, s.as_str(), color);
    }

    /// A button in given colors. Returns whether it was clicked in the frame before.
    pub fn ui_button_styled(
        &mut self,
        mem: &[u8],
        ptr: i32,
        len: i32,
        fg: Color,
        bg: Color,
        border: Color,
    ) -> (r: i32)
        requires
            old(self).wf(),
            times(old(self).ui.seen@, text_at(mem@, ptr, len)) < u32::MAX,
        ensures
            final(self).wf(),
            r == flag(was_clicked(old(self).ui, text_at(mem@, ptr, len))),
            button_added(final(self).ui, old(self).ui, text_at(mem@, ptr, len)),
            final(self).ui.widgets@.last() matches WidgetCmd::ButtonStyled {
                fg: f,
                bg: b,
                border: e,
                ..
            } && f == fg && b == bg && e == border,
            *final(self) == (Host { ui: final(self).ui, ..*old(self) }),
    {
        let s = read_str(mem, ptr, len);
        let clicked = button_styled(&mut self.ui, s.as_str(), fg, bg, border);
        as_flag(clicked)
    }

    /// A slider. Returns its value.
    pub fn ui_slider(
        &mut self,
        mem: &[u8],
        id: i32,
        ptr: i32,
        len: i32,
        range: (Float, Float),
        default: Float,
    ) -> (value: Float)
        requires
            old(self).wf(),
        ensures
            final(self).wf(),
            value == kept(old(self).ui.slider_states@, id, default),
            final(self).ui.widgets@.len() > 0,
            final(self).ui.emitted(old(self).ui, final(self).ui.widgets@.last()),
            final(self).ui.widgets@.last() matches WidgetCmd::Slider {
                id: i,
                label: l,
                min: a,
                max: b,
                value: v,
            } && i == id && l@ == text_at(mem@, ptr, len) && a == range.0 && b == range.1 && v
                == value,
            *final(self) == (Host { ui: final(self).ui, ..*old(self) }),
    {
        let s = read_str(mem, ptr, len);
        slider(&mut self.ui, id, s.as_str(), range.0, range.1, default)
    }

    /// A button. Returns whether it was clicked in the frame before.
    pub fn ui_button(&mut self, mem: &[u8], ptr: i32, len: i32) -> (r: i32)
        requires
            old(self).wf(),
            times(old(self).ui.seen@, text_at(mem@, ptr, len)) < u32::MAX,
        ensures
            final(self).wf(),
            r == flag(was_clicked(old(self).ui, text_at(mem@, ptr, len))),
            button_added(final(self).ui, old(self).ui, text_at(mem@, ptr, len)),
            final(self).ui.widgets@.last() is Button,
            *final(self) == (Host { ui: final(self).ui, ..*old(self) }),
    {
        let label = read_str(mem, ptr, len);
        let clicked = button(&mut self.ui, label.as_str());
        as_flag(clicked)
    }

    /// A checkbox. Returns whether it is checked.
    pub fn ui_checkbox(&mut self, mem: &[u8], id: i32, ptr: i32, len: i32) -> (r: i32)
        requires
            old(self).wf(),
        ensures
            final(self).wf(),
            r == flag(kept(old(self).ui.checkbox_states@, id, false)),
            final(self).ui.widgets@.len() == old(self).ui.widgets@.len() + 1,
            final(self).ui.emitted(old(self).ui, final(self).ui.widgets@.last()),
            final(self).ui.widgets@.last() matches WidgetCmd::Checkbox { id: i, label: l, checked: c }
                && i == id && l@ == text_at(mem@, ptr, len) && flag(c) == r,
            *final(self) == (Host { ui: final(self).ui, ..*old(self) }),
    {
        let label = read_str(mem, ptr, len);
        let checked = checkbox(&mut self.ui, id, label.as_str());
        as_flag(checked)
    }

    /// A field to type in. Its text is handed to the guest; -1 says that there is none.
    pub fn ui_text_edit(
        &mut self,
        mem: &mut [u8],
        id: i32,
        hint: (i32, i32),
        secret: bool,
        op: i32,
        om: i32,
    ) -> (r: i32)
        requires
            old(self).wf(),
        ensures
            final(self).wf(),
            ({
                let text = kept(old(self).ui.text_states@, id, Seq::empty());
                (final(mem)@, r) == if text.len() == 0 {
                    (old(mem)@, -1i32)
                } else {
                    handed(old(mem)@, op, om, encode_utf8(text))
                }
            }),
            final(self).ui.widgets@.len() == old(self).ui.widgets@.len() + 1,
            final(self).ui.emitted(old(self).ui, final(self).ui.widgets@.last()),
            final(self).ui.widgets@.last() matches WidgetCmd::TextEdit { id: i, hint: h, secret: s }
                && i == id && h@ == text_at(old(mem)@, hint.0, hint.1) && s == secret,
            *final(self) == (Host { ui: final(self).ui, ..*old(self) }),
    {
        let h = read_str(mem, hint.0, hint.1);
        let t = text_edit(&mut self.ui, id, h.as_str(), secret);
        if t.as_str().is_empty() {
            return -1;
        }
        write_bytes(mem, op, om, &t.as_str().as_bytes_vec())
    }
}

// ── Storage ──────────────────────────────────────────────────────────────────

impl Host {
    /// Gives a name its value. Returns both, for the disk.
    pub fn storage_set(&mut self, mem: &[u8], key: (i32, i32), val: (i32, i32)) -> (r: (
        String,
        Vec<u8>,
    ))
        requires
            old(self).wf(),
        ensures
            final(self).wf(),
            r.0@ == text_at(mem@, key.0, key.1),
            r.1@ == pointed_at(mem@, val.0, val.1),
            final(self).store@ == old(self).store@.insert(r.0@, r.1@),
            *final(self) == (Host { store: final(self).store, ..*old(self) }),
    {
        let k = read_str(mem, key.0, key.1);
        let v = read_bytes(mem, val.0, val.1);
        self.store.set(k.clone(), clip(&v, v.len()));
        (k, v)
    }

    /// Whether the value of a name is in memory, so that the disk need not be asked.
    pub fn storage_cached(&self, key: &str) -> (r: bool)
        requires
            self.wf(),
        ensures
            r == self.store@.contains_key(key@),
    {
        self.store.has(key)
    }

    /// Hands the value of a name to the guest. `disk` is what the disk holds under it, and
    /// counts where memory holds nothing; it is then kept in memory.
    pub fn storage_get(
        &mut self,
        mem: &mut [u8],
        key: &str,
        disk: Option<Vec<u8>>,
        op: i32,
        om: i32,
    ) -> (r: i32)
        requires
            old(self).wf(),
        ensures
            final(self).wf(),
            ({
                let m = old(self).store@;
                let found = if m.contains_key(key@) {
                    Some(m[key@])
                } else {
                    match disk {
                        Some(v) => Some(v@),
                        None => None,
                    }
                };
                match found {
                    Some(v) => (final(mem)@, r) == handed(old(mem)@, op, om, v)
                        && final(self).store@ == m.insert(key@, v),
                    None => final(mem)@ == old(mem)@ && r == -1 && final(self).store@ == m,
                }
            }),
            *final(self) == (Host { store: final(self).store, ..*old(self) }),
    {
        let ghost m = self.store@;
        match self.store.get(key) {
            Some(v) => {
                assert(m.insert(key@, m[key@]) =~= m);
                write_bytes(mem, op, om, v)
            },
            None => match disk {
                Some(v) => {
                    let r = write_bytes(mem, op, om, &v);
                    self.store.set(key.to_owned(), v);
                    r
                },
                None => -1,
            },
        }
    }

    /// Whether a name has a value, in memory or on the disk.
    pub fn storage_has(&self, key: &str, on_disk: bool) -> (r: i32)
        requires
            self.wf(),
        ensures
            r == flag(self.store@.contains_key(key@) || on_disk),
    {
        as_flag(self.store.has(key) || on_disk)
    }

    /// Forgets a name. Returns it, for the disk.
    pub fn storage_delete(&mut self, mem: &[u8], kp: i32, kl: i32) -> (key: String)
        requires
            old(self).wf(),
        ensures
            final(self).wf(),
            key@ == text_at(mem@, kp, kl),
            final(self).store@ == old(self).store@.remove(key@),
            *final(self) == (Host { store: final(self).store, ..*old(self) }),
    {
        let k = read_str(mem, kp, kl);
        let _ = self.store.take(k.as_str());
        k
    }

    /// Forgets every name.
    pub fn storage_clear(&mut self)
        requires
            old(self).wf(),
        ensures
            final(self).wf(),
            final(self).store@ == Map::<Seq<char>, Seq<u8>>::empty(),
            *final(self) == (Host { store: final(self).store, ..*old(self) }),
    {
        self.store = Table::new();
    }
}

// ── Files ────────────────────────────────────────────────────────────────────

/// The name and the content of a chosen file.
pub open spec fn picked_content(p: Option<PickedFile>) -> Option<(Seq<char>, Seq<u8>)> {
    match p {
        Some(f) => Some((f.name@, f.data@)),
        None => None,
    }
}

impl Host {
    /// Offers a file to the user at the end of the frame.
    pub fn file_save(&mut self, mem: &[u8], data: (i32, i32), name: (i32, i32))
        requires
            old(self).wf(),
        ensures
            final(self).wf(),
            final(self).pending_save matches Some(s) && s.data@ == pointed_at(mem@, data.0, data.1)
                && s.name@ == text_at(mem@, name.0, name.1),
            *final(self) == (Host { pending_save: final(self).pending_save, ..*old(self) }),
    {
        self.pending_save = Some(
            SaveRequest {
                data: read_bytes(mem, data.0, data.1),
                name: read_str(mem, name.0, name.1),
            },
        );
    }

    /// The endings that a guest wants the user to choose from.
    pub fn file_filters(mem: &[u8], fp: i32, fl: i32) -> (r: Vec<String>)
        ensures
            texts(r@) == filled_lines(split(text_at(mem@, fp, fl), ',')),
    {
        let f = read_str(mem, fp, fl);
        comma_list(f.as_str())
    }

    /// Takes note of what the user chose. Returns how many bytes it has, or -1 where
    /// nothing was chosen.
    pub fn file_picked(&mut self, file: Option<PickedFile>) -> (r: i32)
        requires
            old(self).wf(),
        ensures
            final(self).wf(),
            r == match file {
                Some(f) => f.data.len() as i32,
                None => -1i32,
            },
            *final(self) == (Host { picked: file, ..*old(self) }),
    {
        let r: i32 = match &file {
            Some(f) => f.data.len() as i32,
            None => -1,
        };
        self.picked = file;
        r
    }

    /// Hands the content of the chosen file to the guest.
    pub fn file_pick_data(&self, mem: &mut [u8], op: i32, om: i32) -> (r: i32)
        ensures
            match picked_content(self.picked) {
                Some(f) => (final(mem)@, r) == handed(old(mem)@, op, om, f.1),
                None => final(mem)@ == old(mem)@ && r == -1,
            },
    {
        match &self.picked {
            Some(f) => write_bytes(mem, op, om, &f.data),
            None => -1,
        }
    }

    /// Hands the name of the chosen file to the guest.
    pub fn file_pick_name(&self, mem: &mut [u8], op: i32, om: i32) -> (r: i32)
        ensures
            match picked_content(self.picked) {
                Some(f) => (final(mem)@, r) == handed(old(mem)@, op, om, encode_utf8(f.0)),
                None => final(mem)@ == old(mem)@ && r == -1,
            },
    {
        match &self.picked {
            Some(f) => write_bytes(mem, op, om, &f.name.as_str().as_bytes_vec()),
            None => -1,
        }
    }

    /// Hands a file that came with the app to the guest.
    pub fn asset_load(&self, mem: &mut [u8], name: (i32, i32), op: i32, om: i32) -> (r: i32)
        requires
            self.wf(),
        ensures
            ({
                let n = text_at(old(mem)@, name.0, name.1);
                if self.assets@.contains_key(n) {
                    (final(mem)@, r) == handed(old(mem)@, op, om, self.assets@[n])
                } else {
                    final(mem)@ == old(mem)@ && r == -1
                }
            }),
    {
        let n = read_str(mem, name.0, name.1);
        match self.assets.get(n.as_str()) {
            Some(d) => write_bytes(mem, op, om, d),
            None => -1,
        }
    }

    /// Hands the text of the clipboard to the guest; -1 says that it is empty or cannot be
    /// had.
    pub fn clipboard_read(mem: &mut [u8], text: &Option<String>, op: i32, om: i32) -> (r: i32)
        ensures
            (final(mem)@, r) == match text {
                Some(t) => if t@.len() == 0 {
                    (old(mem)@, -1i32)
                } else {
                    handed(old(mem)@, op, om, encode_utf8(t@))
                },
                None => (old(mem)@, -1i32),
            },
    {
        match text {
            Some(t) => if t.as_str().is_empty() {
                -1
            } else {
                write_bytes(mem, op, om, &t.as_str().as_bytes_vec())
            },
            None => -1,
        }
    }
}

// ── Moving ───────────────────────────────────────────────────────────────────

impl Host {
    /// The guest wants to go to an address.
    pub fn nav_push(&mut self, mem: &[u8], ptr: i32, len: i32)
        requires
            old(self).wf(),
        ensures
            final(self).wf(),
            final(self).nav_request matches Some(NavRequest::Push(u)) && u@ == text_at(
                mem@,
                ptr,
                len,
            ),
            *final(self) == (Host { nav_request: final(self).nav_request, ..*old(self) }),
    {
        self.nav_request = Some(NavRequest::Push(read_str(mem, ptr, len)));
    }

    /// The guest wants to go back.
    pub fn nav_back(&mut self)
        requires
            old(self).wf(),
        ensures
            final(self).wf(),
            *final(self) == (Host { nav_request: Some(NavRequest::Back), ..*old(self) }),
    {
        self.nav_request = Some(NavRequest::Back);
    }

    /// The guest wants to go forward.
    pub fn nav_forward(&mut self)
        requires
            old(self).wf(),
        ensures
            final(self).wf(),
            *final(self) == (Host { nav_request: Some(NavRequest::Forward), ..*old(self) }),
    {
        self.nav_request = Some(NavRequest::Forward);
    }

    /// How many addresses were visited.
    pub fn history_len(&self) -> (r: i32)
        ensures
            r == self.history.len() as i32,
    {
        self.history.len() as i32
    }

    /// Hands an address that was visited to the guest.
    pub fn history_get(&self, mem: &mut [u8], idx: i32, op: i32, om: i32) -> (r: i32)
        ensures
            if 0 <= idx < self.history@.len() {
                (final(mem)@, r) == handed(
                    old(mem)@,
                    op,
                    om,
                    encode_utf8(self.history@[idx as int]@),
                )
            } else {
                final(mem)@ == old(mem)@ && r == -1
            },
    {
        if idx >= 0 && (idx as usize) < self.history.len() {
            write_bytes(mem, op, om, &self.history[idx as usize].as_str().as_bytes_vec())
        } else {
            -1
        }
    }
}

// ── Requests ─────────────────────────────────────────────────────────────────

impl Host {
    /// Takes note that a request has begun. Returns the address.
    pub fn fetch_start(&mut self, mem: &[u8], id: i32, up: i32, ul: i32) -> (url: String)
        requires
            old(self).wf(),
        ensures
            final(self).wf(),
            url@ == text_at(mem@, up, ul),
            final(self).fetches@ == old(self).fetches@.insert(id, Fetch::Pending),
            *final(self) == (Host { fetches: final(self).fetches, ..*old(self) }),
    {
        begin(&mut self.fetches, id);
        read_str(mem, up, ul)
    }

    /// Takes note that a request with a body has begun. Returns the address and the body.
    pub fn fetch_post(&mut self, mem: &[u8], id: i32, url: (i32, i32), body: (i32, i32)) -> (r: (
        String,
        Vec<u8>,
    ))
        requires
            old(self).wf(),
        ensures
            final(self).wf(),
            r.0@ == text_at(mem@, url.0, url.1),
            r.1@ == pointed_at(mem@, body.0, body.1),
            final(self).fetches@ == old(self).fetches@.insert(id, Fetch::Pending),
            *final(self) == (Host { fetches: final(self).fetches, ..*old(self) }),
    {
        begin(&mut self.fetches, id);
        (read_str(mem, url.0, url.1), read_bytes(mem, body.0, body.1))
    }

    /// Hands a reply that the guest waited for to it; -2 says that there is none.
    pub fn fetch_sync(mem: &mut [u8], reply: &Option<Vec<u8>>, op: i32, om: i32) -> (r: i32)
        ensures
            match reply {
                Some(b) => (final(mem)@, r) == handed(old(mem)@, op, om, b@),
                None => final(mem)@ == old(mem)@ && r == -2,
            },
    {
        match reply {
            Some(b) => write_bytes(mem, op, om, b),
            None => -2,
        }
    }

    /// Hands the reply to a request to the guest, once. Returns -1 while there is none, and
    /// -2 where there will be none.
    pub fn fetch_poll(&mut self, mem: &mut [u8], id: i32, op: i32, om: i32) -> (r: i32)
        requires
            old(self).wf(),
        ensures
            final(self).wf(),
            ({
                let m = old(self).fetches@;
                if !m.contains_key(id) || m[id] is Pending {
                    final(mem)@ == old(mem)@ && r == -1 && final(self).fetches@ == m
                } else {
                    final(self).fetches@ == m.remove(id) && match m[id] {
                        Fetch::Done(b) => (final(mem)@, r) == handed(old(mem)@, op, om, b),
                        _ => final(mem)@ == old(mem)@ && r == -2,
                    }
                }
            }),
            *final(self) == (Host { fetches: final(self).fetches, ..*old(self) }),
    {
        let pending = match self.fetches.get(id) {
            None => true,
            Some(f) => match f {
                FetchResult::Pending => true,
                _ => false,
            },
        };
        if pending {
            return -1;
        }
        match self.fetches.take(id) {
            Some(FetchResult::Done(b)) => write_bytes(mem, op, om, &b),
            _ => -2,
        }
    }

    /// Decodes a picture. Returns its number, or -1 where it is none.
    pub fn image_decode(&mut self, mem: &[u8], ptr: i32, len: i32) -> (r: i32)
        requires
            old(self).wf(),
            old(self).pictures.next_id < i32::MAX,
        ensures
            final(self).wf(),
            final(self).pictures.decoded(old(self).pictures, pointed_at(mem@, ptr, len), r),
            *final(self) == (Host { pictures: final(self).pictures, ..*old(self) }),
    {
        let b = read_bytes(mem, ptr, len);
        self.pictures.decode(&b)
    }
}

// ── Input ────────────────────────────────────────────────────────────────────

/// Whether a key is held, by its number.
pub fn input_key_down(i: &Input, code: i32) -> (r: i32)
    ensures
        r == flag(i.keys_down@.contains(code)),
{
    as_flag(holds_code(&i.keys_down, code))
}

/// Whether a key went down in this frame, by its number.
pub fn input_key_pressed(i: &Input, code: i32) -> (r: i32)
    ensures
        r == flag(i.keys_pressed@.contains(code)),
{
    as_flag(holds_code(&i.keys_pressed, code))
}

/// Whether a key went up in this frame, by its number.
pub fn input_key_released(i: &Input, code: i32) -> (r: i32)
    ensures
        r == flag(i.keys_released@.contains(code)),
{
    as_flag(holds_code(&i.keys_released, code))
}

/// Whether a mouse button is held.
pub fn input_mouse_down(i: &Input, button: i32) -> (r: i32)
    ensures
        r == flag(
            button == 0 && i.buttons.left_down || button == 1 && i.buttons.right_down || button == 2
                && i.buttons.middle_down,
        ),
{
    as_flag(button_down(&i.buttons, button))
}

/// Whether a mouse button was clicked.
pub fn input_mouse_clicked(i: &Input, button: i32) -> (r: i32)
    ensures
        r == flag(
            button == 0 && i.buttons.left_clicked || button == 1 && i.buttons.right_clicked,
        ),
{
    as_flag(button_clicked(&i.buttons, button))
}

/// Hands what was typed in this frame to the guest.
pub fn input_text(mem: &mut [u8], i: &Input, op: i32, om: i32) -> (r: i32)
    ensures
        (final(mem)@, r) == handed(old(mem)@, op, om, encode_utf8(i.typed@)),
{
    write_bytes(mem, op, om, &i.typed.as_str().as_bytes_vec())
}

// ── Pixels ───────────────────────────────────────────────────────────────────

/// Returns the pixels of a frame of `w` by `h` that a guest keeps at `ptr`; nothing where
/// they do not all lie in its memory.
pub fn pixel_frame(mem: &[u8], ptr: i32, w: u32, h: u32) -> (r: Option<Vec<u8>>)
    ensures
        match r {
            Some(b) => 0 <= ptr && ptr + w * h * 4 <= mem@.len() && b@ == mem@.subrange(
                ptr as int,
                ptr + w * h * 4,
            ),
            None => !(0 <= ptr && ptr + w * h * 4 <= mem@.len()),
        },
{
    if ptr < 0 {
        return None;
    }
    assert(0 <= w * h <= 0xFFFF_FFFE_0000_0001) by (nonlinear_arith)
        requires
            0 <= w <= 0xFFFF_FFFF,
            0 <= h <= 0xFFFF_FFFF,
    ;
    let need: u128 = w as u128 * h as u128 * 4;
    let from: usize = ptr as usize;
    if from > mem.len() || need > (mem.len() - from) as u128 {
        return None;
    }
    let n: usize = need as usize;
    let mut out: Vec<u8> = Vec::new();
    let mut i: usize = 0;
    assert(out@ =~= mem@.subrange(from as int, from as int));
    while i < n
        invariant
            i <= n,
            from + n <= mem@.len(),
            mem@.len() == mem.len(),
            out@ == mem@.subrange(from as int, from + i),
        decreases n - i,
    {
        out.push(mem[from + i]);
        i += 1;
        assert(out@ =~= mem@.subrange(from as int, from + i));
    }
    Some(out)
}

/// Returns why a guest cannot run, if it exports nothing that draws.
pub fn export_obstacle(render: bool, render_pixels: bool, render_gpu: bool) -> (r: Option<String>)
    ensures
        match r {
            None => render || render_pixels || render_gpu,
            Some(m) => !render && !render_pixels && !render_gpu && m@
                == "WASM must export render(), render_gpu(), or render_pixels(w,h)"@,
        },
{
    if render || render_pixels || render_gpu {
        None
    } else {
        Some("WASM must export render(), render_gpu(), or render_pixels(w,h)".to_owned())
    }
}

/// A guest cannot make the host write outside the buffer that it names.
pub proof fn lemma_handing_over_stays_in_buffer(
    mem: Seq<u8>,
    dst: i32,
    max: i32,
    src: Seq<u8>,
    i: int,
)
    requires
        0 <= max,
        0 <= i < mem.len(),
        i < dst || i >= dst + max,
    ensures
        handed(mem, dst, max, src).0.len() == mem.len(),
        handed(mem, dst, max, src).0[i] == mem[i],
{
}

/// What a guest stores under a name is handed back to it when it asks for that name with a
/// buffer that is large enough.
pub proof fn lemma_stored_value_comes_back(
    m: Map<Seq<char>, Seq<u8>>,
    key: Seq<char>,
    val: Seq<u8>,
    mem: Seq<u8>,
    op: i32,
    om: i32,
)
    requires
        val.len() <= om,
        reaches(mem.len(), op, om),
    ensures
        ({
            let (now, told) = handed(mem, op, om, m.insert(key, val)[key]);
            told == val.len() && pointed_at(now, op, told) == val
        }),
{
    assert(fitting(val.len(), om) == val.len());
    lemma_read_back(mem, op, om, val);
    assert(val.take(val.len() as int) =~= val);
}

/// The pictures that shapes show are those of the first ones, then those of the others; only
/// a picture shows one.
pub proof fn lemma_images_in_order(a: Seq<GpuCmd>, b: Seq<GpuCmd>, c: GpuCmd)
    ensures
        images_in(a + b) == images_in(a) + images_in(b),
        images_in(seq![c]) == match c {
            GpuCmd::Image { id, .. } => seq![id],
            _ => Seq::empty(),
        },
    decreases b.len(),
{
    assert(seq![c].drop_last() =~= Seq::<GpuCmd>::empty());
    assert(images_in(Seq::<GpuCmd>::empty()) =~= Seq::empty());
    assert(images_in(seq![c]) =~= match c {
        GpuCmd::Image { id, .. } => seq![id],
        _ => Seq::empty(),
    });
    if b.len() == 0 {
        assert(a + b =~= a);
        assert(images_in(a) + images_in(b) =~= images_in(a));
    } else {
        assert((a + b).drop_last() =~= a + b.drop_last());
        lemma_images_in_order(a, b.drop_last(), c);
        assert(images_in(a + b) =~= images_in(a) + images_in(b));
    }
}

/// A guest hears one for yes and zero for no.
pub proof fn lemma_flags(b: bool)
    ensures
        flag(b) == 1 <==> b,
        flag(b) == 0 <==> !b,
{
}

} // verus!
