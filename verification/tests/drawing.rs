use annessaia::canvas::{export_ppm, load_canvas, save_canvas, Canvas, Rgb, CANVAS_CELLS};
use annessaia::canvas_view::{compose, layout, render_pixels, Pointer, MIN_H, MIN_W};
use annessaia::color::Color;
use annessaia::image::{decode, Pictures};
use annessaia::paint::{
    bar_item, export_png, flood_cells, line_cells, palette, palette_parts, stamp_cells, BarAction, BarItem,
    Paint, Tool, BAR_ITEMS, CELLS, GH, GW,
};
use annessaia::pixel::{circle, empty, fill, get, hline, put, rect, resize, vline};
use annessaia::png::{adler32, chunk, crc32, encode_png, zlib_stored};
use annessaia::prelude::{px_circle, px_clear, px_rect, px_resize, px_set, rgba};
use annessaia::scene::{draw, Patch};

#[test]
fn colors_are_packed() {
    let c = Color::rgba(1, 2, 3, 4);
    assert_eq!(c.0, 0x01020304);
    assert_eq!(c.parts(), (1, 2, 3, 4));
    assert_eq!(Color::rgb(239, 68, 68), Color::red());
    assert_eq!(c.with_alpha(9).with_alpha(7).parts(), (1, 2, 3, 7));
    assert_eq!(rgba(255, 255, 255, 255), -1);
    assert_eq!(Color::transparent().0, 0);
}

#[test]
fn pixels_are_clipped() {
    let mut fb = empty();
    resize(&mut fb, 4, 3);
    fill(&mut fb, Color::black());
    put(&mut fb, 1, 1, Color::red());
    put(&mut fb, 4, 0, Color::red());
    put(&mut fb, -1, 0, Color::red());
    assert_eq!(get(&fb, 1, 1), Color::red());
    assert_eq!(fb.bytes.iter().filter(|b| **b == 239).count(), 1);
    rect(&mut fb, 2, 2, 10, 10, Color::white());
    assert_eq!(get(&fb, 3, 2), Color::white());
    assert_eq!(get(&fb, 1, 2), Color::black());
    hline(&mut fb, 0, 0, 2, Color::blue());
    assert_eq!(get(&fb, 0, 0), Color::blue());
    vline(&mut fb, 3, 0, 1, Color::green());
    assert_eq!(get(&fb, 3, 0), Color::green());
    fill(&mut fb, Color::black());
    circle(&mut fb, 1, 1, 1, Color::white());
    let lit: Vec<(i32, i32)> = (0..3)
        .flat_map(|y| (0..4).map(move |x| (x, y)))
        .filter(|(x, y)| get(&fb, *x, *y) == Color::white())
        .collect();
    assert_eq!(lit, vec![(1, 0), (0, 1), (1, 1), (2, 1), (1, 2)]);
}

#[test]
fn bytes_of_pixels() {
    let mut fb: Vec<u8> = Vec::new();
    px_resize(&mut fb, 2, 2);
    assert_eq!(fb.len(), 16);
    px_clear(&mut fb, 2, 2, 1, 2, 3);
    assert_eq!(&fb[0..8], &[1, 2, 3, 255, 1, 2, 3, 255]);
    px_set(&mut fb, 2, 1, 1, 9, 8, 7, 6);
    assert_eq!(&fb[12..16], &[9, 8, 7, 6]);
    px_set(&mut fb, 2, 2, 0, 9, 8, 7, 6);
    px_rect(&mut fb, 2, 2, -5, 0, 6, 1, 4, 4, 4, 4);
    assert_eq!(&fb[0..8], &[4, 4, 4, 4, 1, 2, 3, 255]);
    px_circle(&mut fb, 2, 2, 1, 1, 0, 5, 5, 5, 5);
    assert_eq!(&fb[12..16], &[5, 5, 5, 5]);
}

#[test]
fn checksums() {
    assert_eq!(crc32(&b"123456789".to_vec()), 0xCBF43926);
    assert_eq!(adler32(&b"Wikipedia".to_vec()), 0x11E60398);
    assert_eq!(adler32(&vec![]), 1);
    let mut out = Vec::new();
    chunk(&mut out, &b"IEND".to_vec(), &vec![]);
    assert_eq!(out, [0, 0, 0, 0, b'I', b'E', b'N', b'D', 0xAE, 0x42, 0x60, 0x82]);
    assert_eq!(zlib_stored(&vec![7]), [0x78, 0x01, 1, 1, 0, 0xFE, 0xFF, 7, 0, 8, 0, 8]);
}

#[test]
fn pictures_come_back_from_png() {
    // More than one stored block.
    let bytes: Vec<u8> = (0..200 * 100 * 4).map(|i| (i * 7 % 256) as u8).collect();
    let mut p = Pictures::new();
    let i = decode(&mut p, &encode_png(200, 100, &bytes)).unwrap();
    assert_eq!((i.width, i.height), (200, 100));
    assert_eq!(p.shown.get(i.id).unwrap().rgba, bytes);
}

#[test]
fn a_stroke_has_no_gaps() {
    let mut cells = vec![0u8; CELLS];
    line_cells(&mut cells, 0, 0, 10, 4, 0, 3);
    let lit: Vec<(i32, i32)> = (0..GH)
        .flat_map(|y| (0..GW).map(move |x| (x, y)))
        .filter(|(x, y)| cells[(y * GW + x) as usize] == 3)
        .collect();
    assert!(lit.contains(&(0, 0)) && lit.contains(&(10, 4)));
    assert_eq!(lit.len(), 11);
    let mut by_x = lit.clone();
    by_x.sort();
    for w in by_x.windows(2) {
        assert!((w[1].0 - w[0].0).abs() <= 1 && (w[1].1 - w[0].1).abs() <= 1);
    }
    let mut cells = vec![0u8; CELLS];
    stamp_cells(&mut cells, 0, 0, 1, 2);
    assert!(cells[0] == 2 && cells[1] == 2 && cells[GW as usize] == 2);
}

#[test]
fn filling_stays_within_the_border() {
    let mut cells = vec![0u8; CELLS];
    for y in 0..GH {
        cells[(y * GW + 5) as usize] = 1;
    }
    flood_cells(&mut cells, 0, 0, 0, 9);
    assert_eq!(cells.iter().filter(|c| **c == 9).count(), 5 * GH as usize);
    assert_eq!(cells[6], 0);
}

#[test]
fn tools_of_the_painter() {
    let mut p = Paint::new();
    p.tap(BarItem::Swatch(4));
    p.tap(BarItem::Size(2));
    p.drag(10, 10);
    p.drag(12, 10);
    assert_eq!(p.cells[10 * GW as usize + 11], 4);
    assert!(p.settle(true).is_none());
    let stored = p.settle(false).unwrap();
    assert_eq!(stored, p.cells);
    p.lift();
    p.tap(BarItem::Tool(Tool::Pick));
    p.drag(11, 10);
    assert_eq!(p.color, 4);
    p.tap(BarItem::Tool(Tool::Fill));
    p.drag(0, 0);
    assert_eq!(p.cells[0], 4);
    p.tap(BarItem::Tool(Tool::Eraser));
    p.drag(0, 0);
    assert_eq!(p.cells[0], 0);
    let was = p.grid;
    p.tap(BarItem::Grid);
    assert_eq!(p.grid, !was);
    match p.tap(BarItem::Save) {
        BarAction::SaveImage(png) => assert_eq!(&png[1..4], b"PNG"),
        _ => panic!(),
    }
    assert!(matches!(p.tap(BarItem::Clear), BarAction::Store(_)));
    assert!(p.cells.iter().all(|c| *c == 0));
    let mut q = Paint::new();
    q.load(&stored);
    assert_eq!(q.cells, stored);
    q.load(&vec![1, 2, 3]);
    assert_eq!(q.cells, stored);
}

#[test]
fn an_exported_painting_shows_the_cells() {
    let mut cells = vec![0u8; CELLS];
    cells[0] = 5;
    assert_eq!(palette_parts(0), (24, 30, 46));
    assert_eq!(palette_parts(5), (239, 68, 68));
    assert_eq!(palette(2), Color::white());
    let mut p = Pictures::new();
    let i = decode(&mut p, &export_png(&cells)).unwrap();
    assert_eq!((i.width, i.height), (GW * 8, GH * 8));
    let px = &p.shown.get(i.id).unwrap().rgba;
    assert_eq!(&px[0..4], &[239, 68, 68, 255]);
    assert_eq!(px[7 * 4], 239);
    assert_eq!(&px[8 * 4..8 * 4 + 4], &[0, 0, 0, 0]);
}

#[test]
fn the_toolbar_has_no_overlaps() {
    for i in 0..BAR_ITEMS {
        for j in i + 1..BAR_ITEMS {
            let (a, b) = (bar_item(i).1, bar_item(j).1);
            assert!(a.x + a.w <= b.x || b.x + b.w <= a.x || a.y + a.h <= b.y || b.y + b.h <= a.y);
        }
    }
}

#[test]
fn a_canvas_survives_being_stored() {
    let mut c = Canvas::new(&None);
    c.pick(0, 1);
    c.paint(3, 4);
    let saved = save_canvas(&c.cells);
    assert_eq!(saved.len(), CANVAS_CELLS * 4);
    assert_eq!(load_canvas(&saved).unwrap(), c.cells);
    assert!(load_canvas(&vec![0; 7]).is_none());
    let again = Canvas::new(&Some(saved));
    assert_eq!(again.cells, c.cells);
    assert_ne!(again.cells[4 * 32 + 3], 0);
    let ppm = export_ppm(&c.cells);
    assert!(ppm.starts_with(b"P6\n"));
    let b = c.clear();
    assert!(b.iter().all(|x| *x == 0) && c.cells.iter().all(|x| *x == 0));
    assert_eq!(Rgb { r: 1, g: 2, b: 3 }.g, 2);
}

#[test]
fn a_canvas_is_stored_now_and_then() {
    let mut c = Canvas::new(&None);
    c.paint(0, 0);
    let stored = (0..200).filter(|_| c.tick().is_some()).count();
    assert_eq!(stored, 1);
}

#[test]
fn the_window_of_the_canvas_is_covered() {
    let c = Canvas::new(&None);
    let p = Pointer { over_export: false, over_clear: true, cell: Some((2, 2)) };
    for (w, h) in [(MIN_W, MIN_H), (640, 480)] {
        let mut fb = empty();
        render_pixels(&mut fb, &c, &p, w, h);
        assert_eq!((fb.w, fb.h), (w, h));
        assert!((0..w).all(|x| (0..h).all(|y| get(&fb, x, y).parts().3 == 255)));
        assert!(!compose(layout(w, h), &c, &p).is_empty());
    }
}

#[test]
fn later_patches_lie_over_earlier_ones() {
    let mut fb = empty();
    resize(&mut fb, 3, 1);
    let patch = |x: i32, w: i32, color: Color| Patch { x, y: 0, w, h: 1, color };
    draw(&mut fb, &vec![patch(0, 3, Color::red()), patch(1, 9, Color::blue())]);
    assert_eq!(get(&fb, 0, 0), Color::red());
    assert_eq!(get(&fb, 2, 0), Color::blue());
}
