use annessaia::browser::{Arrival, Browser, Load};
use annessaia::color::Color;
use annessaia::host::{
    drawn_images, export_obstacle, input_key_down, input_mouse_down, input_text, pixel_frame, GpuCmd, Host,
    PickedFile,
};
use annessaia::image::{decode, Pictures};
use annessaia::input::{
    axis, key_down, key_pressed, key_released, left_clicked, left_down, shift, snapshot, Buttons,
    Input, Key, KeyboardEvent, Modifiers,
};
use annessaia::layout::{draw_steps, Step};
use annessaia::memory::{guest_text, read_bytes, read_str, write_bytes};
use annessaia::nav::{home_url, images_needed, is_remote, read_history, Nav, NavRequest, Screen};
use annessaia::net::{begin, fetch_str, finish, poll, poll_result, poll_result_str, Fetches, Poll, PollStr};
use annessaia::png::encode_png;
use annessaia::prelude::{clip_read, http_poll, load_str, store_str};
use annessaia::storage::{clear, del, get, get_parsed, get_str, has, safe_key, set_str, Store};
use annessaia::sys::{history_entry, load, paste, pick_file};
use annessaia::table::Table;
use annessaia::widget::{
    apply_widget_updates, begin_frame, button, checkbox, emit, heading, new_ui, slider, text_field, Float,
    WidgetCmd, WidgetUpdates,
};

fn memory(text: &str) -> Vec<u8> {
    let mut m = text.as_bytes().to_vec();
    m.resize(64, 0);
    m
}

fn host() -> Host {
    Host::new(Table::new())
}

fn no_buttons() -> Buttons {
    Buttons {
        left_down: false,
        right_down: false,
        middle_down: false,
        left_clicked: false,
        right_clicked: false,
    }
}

fn input(held: &Vec<Key>, events: &Vec<KeyboardEvent>) -> Input {
    let m = Modifiers { shift: true, ctrl: false, alt: true, cmd: false };
    snapshot(held, events, m, no_buttons())
}

#[test]
fn pointers_reach_no_further_than_the_memory() {
    let mut m = memory("hello");
    assert_eq!(read_str(&m, 0, 5), "hello");
    assert_eq!(read_str(&m, 60, 5), "");
    assert_eq!(read_bytes(&m, -1, 2), Vec::<u8>::new());
    assert_eq!(read_str(&vec![0xff, b'a'], 0, 2), "\u{fffd}a");
    assert_eq!(write_bytes(&mut m, 10, 3, &b"abcdef".to_vec()), 3);
    assert_eq!(&m[8..15], &[0, 0, b'a', b'b', b'c', 0, 0]);
    assert_eq!(write_bytes(&mut m, 62, 10, &b"abcdef".to_vec()), -1);
    assert_eq!(m[62], 0);
    assert_eq!(guest_text("grün", 3), "gr\u{fffd}");
    assert_eq!(guest_text("grün", 4096), "grün");
}

#[test]
fn stored_values_come_back() {
    let mut h = host();
    let mut m = memory("keyvalue");
    let (k, v) = h.storage_set(&m, (0, 3), (3, 5));
    assert_eq!((k.as_str(), v.as_slice()), ("key", b"value".as_slice()));
    assert!(h.storage_cached("key"));
    assert_eq!(h.storage_get(&mut m, "key", None, 20, 10), 5);
    assert_eq!(&m[20..25], b"value");
    assert_eq!(h.storage_get(&mut m, "other", None, 20, 10), -1);
    assert_eq!(h.storage_get(&mut m, "other", Some(b"disk".to_vec()), 30, 2), 2);
    assert_eq!(&m[30..33], b"di\0");
    assert!(h.storage_cached("other"));
    assert_eq!(h.storage_has("third", true), 1);
    assert_eq!(h.storage_has("third", false), 0);
    assert_eq!(h.storage_delete(&m, 0, 3), "key");
    assert_eq!(h.storage_has("key", false), 0);
    h.storage_clear();
    assert!(!h.storage_cached("other"));
}

#[test]
fn apps_read_what_they_stored() {
    let mut s: Store = Table::new();
    set_str(&mut s, "a", "12");
    annessaia::storage::set(&mut s, "b", &vec![0xff, 0xfe]);
    set_str(&mut s, "long", &"x".repeat(70000));
    assert_eq!(get_str(&s, "a"), Some("12".to_string()));
    assert_eq!(get_parsed::<u32>(&s, "a"), Some(12));
    assert_eq!(get_parsed::<u8>(&s, "b"), None);
    assert_eq!(get(&s, "b"), Some(vec![0xff, 0xfe]));
    assert_eq!(get_str(&s, "b"), None);
    assert_eq!(get(&s, "long").unwrap().len(), 65536);
    assert_eq!(load_str(&s, "long").unwrap().len(), 4096);
    assert_eq!(load_str(&s, "none"), None);
    store_str(&mut s, "a", "13");
    assert_eq!(get_parsed::<u64>(&s, "a"), Some(13));
    assert!(has(&s, "a"));
    del(&mut s, "a");
    assert!(!has(&s, "a"));
    clear(&mut s);
    assert!(!has(&s, "b"));
}

#[test]
fn keys_become_file_names() {
    for key in ["plain", "a b/c", "../up", "größe.ä", "x_y-z.1"] {
        let expected: String = key
            .chars()
            .map(|c| if c.is_alphanumeric() || c == '-' || c == '_' || c == '.' { c } else { '_' })
            .collect();
        assert_eq!(safe_key(key), expected);
    }
}

#[test]
fn replies_are_handed_out_once() {
    let mut f = Fetches::new();
    begin(&mut f, 1);
    assert!(matches!(poll_result(&mut f, 1), Poll::Pending));
    finish(&mut f, 1, Some(b"hi".to_vec()));
    assert_eq!(http_poll(&mut f, 1), Some(b"hi".to_vec()));
    assert!(matches!(poll_result(&mut f, 1), Poll::Pending));
    finish(&mut f, 2, None);
    assert!(matches!(poll_result_str(&mut f, 2), PollStr::Failed));
    finish(&mut f, 3, Some(vec![0xff]));
    assert!(matches!(poll_result_str(&mut f, 3), PollStr::Failed));
    finish(&mut f, 4, Some(vec![1; 5000000]));
    assert_eq!(poll(&mut f, 4).unwrap().len(), 4194304);
    assert_eq!(fetch_str(&Some(b"ok".to_vec())), Some("ok".to_string()));
    assert_eq!(fetch_str(&None), None);
}

#[test]
fn requests_of_a_guest() {
    let mut h = host();
    let mut m = memory("http://abody");
    assert_eq!(h.fetch_start(&m, 7, 0, 8), "http://a");
    assert_eq!(h.fetch_poll(&mut m, 7, 20, 10), -1);
    finish(&mut h.fetches, 7, Some(b"reply".to_vec()));
    assert_eq!(h.fetch_poll(&mut m, 7, 20, 10), 5);
    assert_eq!(&m[20..25], b"reply");
    assert_eq!(h.fetch_poll(&mut m, 7, 20, 10), -1);
    let (u, b) = h.fetch_post(&m, 8, (0, 8), (8, 4));
    assert_eq!((u.as_str(), b.as_slice()), ("http://a", b"body".as_slice()));
    finish(&mut h.fetches, 8, None);
    assert_eq!(h.fetch_poll(&mut m, 8, 20, 10), -2);
    assert_eq!(Host::fetch_sync(&mut m, &None, 20, 10), -2);
    assert_eq!(Host::fetch_sync(&mut m, &Some(b"xy".to_vec()), 20, 10), 2);
}

#[test]
fn files_clipboard_and_history() {
    let mut h = host();
    let mut m = memory("datan.txt png, jpg ,,http://x");
    h.file_save(&m, (0, 4), (4, 5));
    let s = h.pending_save.as_ref().unwrap();
    assert_eq!((s.name.as_str(), s.data.as_slice()), ("n.txt", b"data".as_slice()));
    assert_eq!(Host::file_filters(&m, 10, 11), vec!["png".to_string(), "jpg".to_string()]);
    assert_eq!(h.file_pick_data(&mut m, 40, 4), -1);
    assert_eq!(h.file_picked(None), -1);
    assert_eq!(h.file_picked(Some(PickedFile { name: "p.png".to_string(), data: vec![1, 2, 3] })), 3);
    assert_eq!(h.file_pick_data(&mut m, 40, 4), 3);
    assert_eq!(&m[40..43], &[1, 2, 3]);
    assert_eq!(h.file_pick_name(&mut m, 44, 9), 5);
    assert_eq!(pick_file(&h.picked), Some(("p.png".to_string(), vec![1, 2, 3])));
    assert_eq!(pick_file(&None), None);
    assert_eq!(Host::clipboard_read(&mut m, &None, 50, 4), -1);
    assert_eq!(Host::clipboard_read(&mut m, &Some(String::new()), 50, 4), -1);
    assert_eq!(paste(&Some(String::new())), None);
    assert_eq!(Host::clipboard_read(&mut m, &Some("clip".to_string()), 50, 4), 4);
    assert_eq!(paste(&Some("clip".to_string())), Some("clip".to_string()));
    assert_eq!(clip_read(&None), None);
    h.history = vec!["http://a".to_string(), "http://b".to_string()];
    assert_eq!(h.history_len(), 2);
    assert_eq!(h.history_get(&mut m, 1, 0, 20), 8);
    assert_eq!(&m[0..8], b"http://b");
    assert_eq!(h.history_get(&mut m, 2, 0, 20), -1);
    assert_eq!(history_entry(&h, 0), Some("http://a".to_string()));
    assert_eq!(history_entry(&h, -1), None);
}

#[test]
fn a_frame_begins_empty_and_hands_out_what_was_asked() {
    let mut h = host();
    let mut m = memory("Go");
    h.begin();
    assert_eq!(h.ui_button(&m, 0, 2), 0);
    assert_eq!(h.ui_button(&m, 0, 2), 0);
    h.ui_heading(&m, 0, 2);
    assert_eq!(h.ui_checkbox(&m, 3, 0, 2), 0);
    assert_eq!(h.ui_text_edit(&mut m, 4, (0, 2), true, 10, 5), -1);
    h.draw(GpuCmd::Image { id: 9, x: Float(0), y: Float(0), w: Float(0), h: Float(0) });
    h.gpu_text(&m, (Float(1), Float(2)), (0, 2), Float(3), Color::white());
    h.nav_push(&m, 0, 2);
    let f = h.end();
    assert_eq!(f.widgets.len(), 5);
    assert_eq!(drawn_images(&f.gpu), vec![9]);
    assert!(matches!(f.nav_request, Some(NavRequest::Push(ref u)) if u == "Go"));
    assert!(h.nav_request.is_none() && h.gpu.is_empty());
    // The second button was clicked.
    let key = match &f.widgets[1] {
        WidgetCmd::Button { key, .. } => key.clone(),
        _ => panic!(),
    };
    let upd = WidgetUpdates {
        clicks: vec![key],
        checkboxes: vec![(3, true)],
        sliders: vec![],
        texts: vec![(4, "typed".to_string())],
    };
    apply_widget_updates(&mut h.ui, upd);
    h.begin();
    assert_eq!(h.ui_button(&m, 0, 2), 0);
    assert_eq!(h.ui_button(&m, 0, 2), 1);
    assert_eq!(h.ui_checkbox(&m, 3, 0, 2), 1);
    assert_eq!(h.ui_text_edit(&mut m, 4, (0, 2), false, 10, 3), 3);
    assert_eq!(&m[10..14], b"typ\0");
    h.begin();
    h.ui_button(&m, 0, 2);
    assert_eq!(h.ui_button(&m, 0, 2), 0);
}

#[test]
fn widgets_keep_their_state() {
    let mut ui = new_ui();
    begin_frame(&mut ui);
    assert_eq!(slider(&mut ui, 1, "v", Float(0), Float(9), Float(5)), Float(5));
    assert!(!checkbox(&mut ui, 1, "c"));
    assert_eq!(text_field(&mut ui, 1, "hint"), "");
    assert!(!button(&mut ui, "b"));
    apply_widget_updates(
        &mut ui,
        WidgetUpdates { clicks: vec![], checkboxes: vec![], sliders: vec![(1, Float(7))], texts: vec![(1, "t".to_string())] },
    );
    begin_frame(&mut ui);
    assert_eq!(slider(&mut ui, 1, "v", Float(0), Float(9), Float(5)), Float(7));
    assert_eq!(text_field(&mut ui, 1, "hint"), "t");
}

#[test]
fn containers_are_drawn_in_order_and_closed() {
    let mut ui = new_ui();
    heading(&mut ui, "h");
    emit(&mut ui, WidgetCmd::RowBegin);
    heading(&mut ui, "a");
    emit(&mut ui, WidgetCmd::CardBegin);
    heading(&mut ui, "b");
    emit(&mut ui, WidgetCmd::CardEnd);
    emit(&mut ui, WidgetCmd::RowEnd);
    emit(&mut ui, WidgetCmd::ColumnsBegin(2));
    heading(&mut ui, "c");
    emit(&mut ui, WidgetCmd::ColumnNext);
    heading(&mut ui, "d");
    emit(&mut ui, WidgetCmd::ColumnsEnd);
    let s = draw_steps(&ui.widgets);
    let opened = s.iter().filter(|x| matches!(x, Step::Open(_) | Step::Column)).count();
    let closed = s.iter().filter(|x| matches!(x, Step::Close)).count();
    assert_eq!(opened, closed);
    let drawn: Vec<usize> =
        s.iter().filter_map(|x| if let Step::Draw(i) = x { Some(*i) } else { None }).collect();
    assert_eq!(drawn, vec![0, 2, 4, 8, 10]);
}

#[test]
fn an_open_container_ends_with_the_frame() {
    let mut ui = new_ui();
    emit(&mut ui, WidgetCmd::RowBegin);
    heading(&mut ui, "a");
    let s = draw_steps(&ui.widgets);
    assert_eq!(s, vec![Step::Open(0), Step::Draw(1), Step::Close]);
}

#[test]
fn keys_and_buttons() {
    let i = input(
        &vec![Key::A, Key::Up],
        &vec![
            KeyboardEvent::Change(Key::A, true, false),
            KeyboardEvent::Change(Key::B, true, true),
            KeyboardEvent::Change(Key::C, false, false),
            KeyboardEvent::Typed("ä".to_string()),
            KeyboardEvent::Typed("b".to_string()),
        ],
    );
    assert!(key_down(&i, Key::A) && !key_down(&i, Key::B));
    assert!(key_pressed(&i, Key::A) && !key_pressed(&i, Key::B));
    assert!(key_released(&i, Key::C) && !key_released(&i, Key::A));
    assert_eq!(i.typed, "äb");
    assert_eq!(i.modifiers, 5);
    assert!(shift(&i) && !annessaia::input::ctrl(&i));
    assert!(annessaia::input::alt(&i) && !annessaia::input::cmd(&i));
    assert_eq!(axis(&i), (-1, -1));
    assert_eq!(input_key_down(&i, 0), 1);
    assert_eq!(Key::F12.code(), 81);
    assert!(!left_down(&i) && !left_clicked(&i));
    assert_eq!(input_mouse_down(&i, 7), 0);
    let mut m = vec![0u8; 8];
    assert_eq!(input_text(&mut m, &i, 1, 2), 2);
    assert_eq!(m, [0, 0xc3, 0xa4, 0, 0, 0, 0, 0]);
}

#[test]
fn pictures_are_decoded() {
    let mut p = Pictures::new();
    let png = encode_png(2, 1, &vec![1, 2, 3, 255, 4, 5, 6, 255]);
    assert!(decode(&mut p, &b"no picture".to_vec()).is_none());
    let a = decode(&mut p, &png).unwrap();
    let b = decode(&mut p, &png).unwrap();
    assert_eq!((a.id, a.width, a.height), (0, 2, 1));
    assert_eq!(b.id, 1);
    assert_eq!(p.shown.get(0).unwrap().rgba, vec![1, 2, 3, 255, 4, 5, 6, 255]);
    assert_eq!(p.width(5), -1);
    let mut h = host();
    assert_eq!(h.image_decode(&png, 0, png.len() as i32), 0);
    assert_eq!(h.image_decode(&png, 0, 4), -1);
    assert_eq!(h.pictures.height(0), 1);
}

#[test]
fn assets_are_found_by_name() {
    let mut t: Table<Vec<u8>> = Table::new();
    t.set("sfx/hit.wav".to_string(), vec![9, 8]);
    assert_eq!(load(&t, "sfx/hit.wav"), Some(vec![9, 8]));
    assert_eq!(load(&t, "hit.wav"), None);
    let h = Host::new(t);
    let mut m = memory("sfx/hit.wav");
    assert_eq!(h.asset_load(&mut m, (0, 11), 20, 5), 2);
    assert_eq!(&m[20..22], &[9, 8]);
    assert_eq!(h.asset_load(&mut m, (0, 3), 20, 5), -1);
}

#[test]
fn pixels_of_a_frame_lie_in_the_memory() {
    let m: Vec<u8> = (0..32).collect();
    assert_eq!(pixel_frame(&m, 8, 2, 1).unwrap(), (8..16).collect::<Vec<u8>>());
    assert!(pixel_frame(&m, 8, 2, 4).is_none());
    assert!(pixel_frame(&m, -8, 1, 1).is_none());
    assert!(pixel_frame(&m, 0, u32::MAX, u32::MAX).is_none());
    assert!(export_obstacle(false, true, false).is_none());
    assert_eq!(
        export_obstacle(false, false, false).unwrap(),
        "WASM must export render(), render_gpu(), or render_pixels(w,h)"
    );
}

#[test]
fn the_history_is_walked() {
    let mut n = Nav::new(vec!["old".to_string()]);
    assert!(!n.can_back() && !n.can_forward());
    n.push("a");
    n.push("b");
    assert_eq!(n.back(), Some("a".to_string()));
    assert_eq!(n.forward(), Some("b".to_string()));
    assert_eq!(n.forward(), None);
    n.back();
    n.push("c");
    assert_eq!(n.history, vec!["old".to_string(), "a".to_string(), "c".to_string()]);
    assert!(!n.can_forward());
    assert_eq!(n.entry(0), Some("old".to_string()));
    assert_eq!(n.entry(3), None);
    assert_eq!(read_history("a\n\nb\n"), vec!["a".to_string(), "b".to_string()]);
}

#[test]
fn where_a_session_begins() {
    let s = |x: &str| Some(x.to_string());
    assert_eq!(home_url(&s(" http://h "), &s("http://n/")), "http://h");
    assert_eq!(home_url(&s(" "), &s("http://n// ")), "http://n/search.wasm");
    assert_eq!(home_url(&None, &None), "https://bootstrap.annessaia.workers.dev/search.wasm");
    assert!(is_remote("https://x") && !is_remote("app.wasm"));
}

#[test]
fn the_question_comes_first_and_once() {
    let (mut b, l) = Browser::new(vec![], &Some("app.wasm".to_string()), &None, &None, &None);
    assert!(l.is_none());
    assert_eq!(b.shown(), Screen::Setup);
    assert!(b.ai_on());
    let (file, l) = b.choose_ai(false);
    assert!(matches!(l, Some(Load::Open(ref u)) if u == "app.wasm"));
    assert!(!b.ai_on());
    let (b, l) = Browser::new(vec![], &None, &Some("http://h".to_string()), &None, &Some(file));
    assert!(matches!(l, Some(Load::Fetch(ref u)) if u == "http://h"));
    assert_eq!(b.shown(), Screen::Loading);
    assert!(!b.ai_on());
}

#[test]
fn loads_arrive_fail_and_break() {
    let (mut b, _) = Browser::new(vec![], &Some("http://a".to_string()), &None, &None, &Some("1".to_string()));
    b.arrived(Arrival::App);
    assert_eq!(b.shown(), Screen::App);
    b.broke("trap".to_string());
    assert_eq!(b.shown(), Screen::Failed);
    b.path_input = "  http://b ".to_string();
    assert!(matches!(b.load(), Load::Fetch(ref u) if u == "http://b"));
    b.arrived(Arrival::Failed("fetch".to_string()));
    assert_eq!(b.shown(), Screen::Failed);
    assert!(matches!(b.nav_back(), Some(Load::Fetch(ref u)) if u == "http://a"));
    assert!(b.nav_back().is_none());
    b.arrived(Arrival::Nothing);
    assert_eq!(b.shown(), Screen::Welcome);
    let (moved, l) = b.follow(&Some(NavRequest::Forward));
    assert!(moved && l.is_some());
    assert!(b.nav_forward().is_none());
    let (moved, l) = b.follow(&None);
    assert!(!moved && l.is_none());
    b.load_url("c.wasm");
    assert_eq!(b.nav.history.len(), 3);
}

#[test]
fn every_picture_of_a_frame_is_needed_once() {
    let mut ui = new_ui();
    emit(&mut ui, WidgetCmd::Image { id: 4, w: Float(0), h: Float(0) });
    emit(&mut ui, WidgetCmd::Image { id: 1, w: Float(0), h: Float(0) });
    assert_eq!(images_needed(&vec![9, 4, 9], &ui.widgets), vec![1, 4, 9]);
}
