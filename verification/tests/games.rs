use annessaia::calculator::{key_of, trim_noise, type_size, Calc, Key, Number};
use annessaia::chance::{draw, quarter};
use annessaia::demos::{bar_steps, clicks_text, key_look, theme_rgb, Keyboard, KeyLook, Mark, Panel};
use annessaia::digits::{digit_count, digits_of, is_lit, segments};
use annessaia::gallery::{wav, Gallery, Report};
use annessaia::nova::{
    mote_of, multiplier_of, read_scores, record_run, IntroStep, MenuChoice, Mote, Nova, Phase,
};
use annessaia::prism::{
    breakable_left, build_level, leaves_power_up, power_up_of, split_balls, strike, strike_all, Brick, Fall,
    Hit, Pow, Prism,
};
use annessaia::requests::{Ended, Request};

fn number(v: f64) -> Number {
    Number(v.to_bits())
}

/// Types keys as a user does; the arithmetic is that of `f64`.
fn calculate(keys: &str) -> String {
    let mut c = Calc::new(number(0.0));
    let value = |c: &Calc| number(c.entry.parse::<f64>().unwrap_or(0.0));
    let run = |c: &mut Calc, o: annessaia::calculator::Operation| {
        let (l, r) = (f64::from_bits(o.lhs.0), f64::from_bits(o.rhs.0));
        let v = match o.op {
            '+' => l + r,
            '-' => l - r,
            '*' => l * r,
            '/' => l / r,
            _ => r,
        };
        c.computed(o, number(v), trim_noise(&format!("{v:.12}")));
    };
    for k in keys.chars() {
        match key_of(k) {
            Key::Digit(d) => c.digit(d),
            Key::Negate => c.negate(),
            Key::Clear => c.clear(number(0.0)),
            Key::Percent => {
                let v = f64::from_bits(value(&c).0) / 100.0;
                c.percent(trim_noise(&format!("{v:.12}")));
            }
            Key::Equals => {
                if let Some(o) = c.equals(value(&c)) {
                    run(&mut c, o);
                }
            }
            Key::Op(o) => {
                let fold = c.fold(value(&c));
                let folded = fold.is_some();
                if let Some(f) = fold {
                    run(&mut c, f);
                }
                c.op(o, folded, value(&c), number(0.0));
            }
            Key::Other => {}
        }
    }
    c.show()
}

#[test]
fn calculations() {
    assert_eq!(calculate(""), "0");
    assert_eq!(calculate("12"), "12");
    assert_eq!(calculate(".5"), "0.5");
    assert_eq!(calculate("1.2.3"), "1.23");
    assert_eq!(calculate("2+3="), "5");
    assert_eq!(calculate("2+3+4="), "9");
    assert_eq!(calculate(".1+.2="), "0.3");
    assert_eq!(calculate("2*3=="), "18");
    assert_eq!(calculate("5~"), "-5");
    assert_eq!(calculate("5~~"), "5");
    assert_eq!(calculate("50%"), "0.5");
    assert_eq!(calculate("9C"), "0");
    assert_eq!(calculate("1234567890123456"), "12345678901234");
    assert_eq!(trim_noise("1.500"), "1.5");
    assert_eq!(trim_noise("100"), "100");
    assert_eq!(trim_noise("2.000"), "2");
    assert_eq!((type_size("12345678"), type_size("123456789"), type_size("123456789012")), (40, 32, 26));
}

#[test]
fn the_memo_shows_the_pending_operation() {
    let mut c = Calc::new(number(0.0));
    c.digit('7');
    c.op('+', false, number(7.0), number(0.0));
    c.remember("7", '+');
    assert_eq!(c.memo, "7 +");
}

#[test]
fn a_run_through_nova() {
    let mut g = Nova::new(&Some("50".to_string()), &Some("50,x,20".to_string()));
    assert_eq!(g.best, 50);
    assert_eq!(g.top_scores, vec![50, 20]);
    assert_eq!(g.intro(true, true, false), IntroStep::Skip);
    assert_eq!(g.phase, Phase::Menu);
    assert_eq!(g.menu(false, false, false), MenuChoice::Nothing);
    assert_eq!(g.menu(true, false, false), MenuChoice::Start);
    g.start();
    assert_eq!(g.phase, Phase::Play);
    for _ in 0..5 {
        g.collect(Mote::Blue);
    }
    // Four at the first multiplier, the fifth at the second.
    assert_eq!(g.score, 4 * 10 + 20);
    g.collect(Mote::Gold);
    assert_eq!(g.score, 60 + 50);
    g.destroy(2);
    assert_eq!(g.score, 140);
    g.combo_ends();
    g.collect(Mote::Teleport);
    assert_eq!(g.score, 175);
    let (best, top) = g.die();
    assert_eq!(best, Some("175".to_string()));
    assert_eq!(top, "175,50,20");
    assert_eq!(g.phase, Phase::Dead);
    assert!(!g.dead(true, false));
    assert!(g.dead(true, true));
    assert_eq!(multiplier_of(99), 20);
}

#[test]
fn the_ten_best_runs_are_kept() {
    let mut top = Vec::new();
    for s in [5, 1, 9, 9, 3, 7, 2, 8, 6, 4, 0, 10] {
        top = record_run(&top, s);
    }
    assert_eq!(top, vec![10, 9, 9, 8, 7, 6, 5, 4, 3, 2]);
    assert_eq!(read_scores("3,2,,x,1"), vec![3, 2, 1]);
}

#[test]
fn walls_of_prism() {
    let one = build_level(1);
    assert_eq!(one.len(), 66);
    assert!(one.iter().all(|b| b.hp == 1 && !b.steel));
    let two = build_level(2);
    assert!(two.iter().all(|b| (b.row + b.col) % 2 == 0));
    assert!(two.iter().any(|b| b.hp == 2));
    let three = build_level(3);
    assert_eq!(three.iter().filter(|b| b.row == 0).count(), 1);
    let four = build_level(4);
    let steel: Vec<u32> = four.iter().filter(|b| b.steel).map(|b| b.col).collect();
    assert_eq!(steel, vec![2, 7]);
    assert_eq!(breakable_left(&four), four.len() - 2);
    for level in 1..30 {
        assert!(breakable_left(&build_level(level)) > 0);
    }
}

#[test]
fn bricks_crack_break_and_stay() {
    let brick = |hp: u8, steel: bool, tone: u32| Brick { row: 0, col: 0, hp, tone, steel };
    let mut b = vec![brick(2, false, 3), brick(255, true, 0), brick(1, false, 5)];
    assert_eq!(strike(&mut b, 0), Hit::Cracked(3));
    assert_eq!(strike(&mut b, 1), Hit::Steel);
    assert_eq!(strike(&mut b, 7), Hit::Missed);
    assert_eq!(strike_all(&mut b, &vec![2, 0]), vec![Hit::Broken(5), Hit::Broken(3)]);
    assert_eq!(b, vec![brick(255, true, 0)]);
}

#[test]
fn a_run_through_prism() {
    let mut g = Prism::new(&Some("5".to_string()));
    g.new_run();
    g.launch();
    for _ in 0..9 {
        g.reward();
    }
    assert_eq!(g.score, 10 * (1 + 2 + 3 + 4 + 5 + 6 + 7 + 8 + 8));
    g.catch_power_up(Pow::Life);
    assert_eq!((g.lives, g.score), (4, 440 + 40));
    assert!(matches!(g.balls_left(1), Fall::Nothing));
    assert!(matches!(g.balls_left(0), Fall::Serve));
    assert_eq!(g.combo, 0);
    g.balls_left(0);
    g.balls_left(0);
    match g.balls_left(0) {
        Fall::Over(best) => assert_eq!(best, Some("480".to_string())),
        _ => panic!(),
    }
    g.new_run();
    assert!(!g.check_clear());
    g.bricks.clear();
    assert!(g.check_clear());
    assert_eq!(g.score, 250);
    g.next_level();
    assert_eq!(g.level, 2);
    assert!(!g.bricks.is_empty());
    assert_eq!((split_balls(1), split_balls(5), split_balls(12)), (3, 12, 12));
}

#[test]
fn chance_never_runs_dry() {
    let mut seed = 0x9E3779B9;
    let mut seen = Vec::new();
    for _ in 0..1000 {
        seen.push(draw(&mut seed));
        assert_ne!(seed, 0);
    }
    seen.sort();
    seen.dedup();
    assert!(seen.len() > 900);
    assert!(seen.iter().all(|n| quarter(*n) < 4));
    assert!(seen.iter().any(|n| leaves_power_up(*n)));
    assert!(seen.iter().any(|n| power_up_of(*n) == Pow::Multi));
    assert!(seen.iter().any(|n| mote_of(*n) == Mote::Blue));
}

#[test]
fn numbers_are_shown_by_segments() {
    for n in [0u32, 7, 10, 99, 1234567890, u32::MAX] {
        let text = n.to_string();
        assert_eq!(digit_count(n), text.len());
        let d: Vec<u8> = text.bytes().map(|b| b - b'0').collect();
        assert_eq!(digits_of(n), d);
    }
    assert_eq!((0..7).filter(|s| is_lit(8, *s)).count(), 7);
    assert_eq!((0..7).filter(|s| is_lit(1, *s)).count(), 2);
    let mut all: Vec<u8> = (0..10).map(segments).collect();
    all.sort();
    all.dedup();
    assert_eq!(all.len(), 10);
}

#[test]
fn typing_on_the_keyboard_page() {
    let mut k = Keyboard::new();
    k.frame(None, false, false, &"ab".repeat(40));
    assert_eq!(k.text.chars().count(), 48);
    k.frame(None, true, false, "");
    assert_eq!(k.text.chars().count(), 47);
    for i in 0..60 {
        k.frame(Some(Mark { x: i, y: 0 }), false, false, "");
    }
    assert_eq!(k.marks.len(), 40);
    k.frame(None, false, true, "");
    assert!(k.text.is_empty() && k.marks.is_empty());
    assert_eq!(key_look(true, true, false), KeyLook::Hit);
    assert_eq!(key_look(false, false, false), KeyLook::Idle);
    assert!(bar_steps('a') > 0);
}

#[test]
fn the_panel_remembers() {
    let mut p = Panel::new(7);
    let was = p.playing;
    p.toggle();
    assert_eq!(p.playing, !was);
    p.set_theme(2);
    p.slide(true, true, 9);
    assert!(p.persist(true).1.is_none());
    p.set_theme(1);
    p.set_theme(2);
    p.saved_theme = None;
    p.slide(false, false, 0);
    let (theme, speed) = p.persist(false);
    assert_eq!(theme.clone().unwrap(), b"2".to_vec());
    let bits = Panel::stored_speed(&speed.unwrap()).unwrap();
    assert_eq!(bits, 9);
    let mut q = Panel::new(7);
    q.load_theme(&theme.unwrap());
    q.load_speed(bits, bits);
    assert_eq!((q.theme, q.speed), (2, 9));
    let (t, s) = p.persist(false);
    assert!(t.is_none() && s.is_none());
    assert_ne!(theme_rgb(0), theme_rgb(1));
    assert!(clicks_text(3).contains('3'));
}

#[test]
fn the_gallery_reports_itself_once() {
    let mut out: Vec<Request> = Vec::new();
    let mut g = Gallery::new(&mut out);
    assert!(matches!(out[0], Request::EmbedDoc { id: 9001, .. }));
    assert_eq!(g.report, Report::Embedding);
    g.embedded(Ended::Done("AAEC".to_string()), &mut out);
    match &out[1] {
        Request::Post { id: 9002, body, .. } => assert!(body.starts_with("Widget Gallery\t") && body.ends_with("\tAAEC")),
        _ => panic!(),
    }
    g.submitted();
    assert_eq!(g.report, Report::Over);
    g.count(true);
    g.count(true);
    g.count(false);
    assert_eq!(g.counter, 1);
    g.reset();
    assert_eq!(g.counter, 0);
    g.loop_started(-1);
    assert_eq!(g.stop_loop(), None);
    g.loop_started(3);
    assert_eq!(g.stop_loop(), Some(3));
    assert_eq!(g.stop_loop(), None);
}

#[test]
fn sound_files_have_a_header() {
    let w = wav(&vec![0, 1, -1]);
    assert_eq!(w.len(), 44 + 6);
    assert_eq!(&w[0..4], b"RIFF");
    assert_eq!(w[4], 36 + 6);
    assert_eq!(&w[8..16], b"WAVEfmt ");
    assert_eq!(&w[24..28], &44100u32.to_le_bytes());
    assert_eq!(&w[28..32], &88200u32.to_le_bytes());
    assert_eq!(&w[36..44], b"data\x06\0\0\0");
    assert_eq!(&w[44..], &[0, 0, 1, 0, 255, 255]);
}
