use matrix_rain::column::Column;
use matrix_rain::renderer::{
    cell_of, compose_frame, key_of, pulse_phase, CellStyle, CellUpdate, Frame, Renderer, Rgb, TrailCell,
};

fn column(x: u16, glyphs: &str, active: bool) -> Column {
    let trail: Vec<char> = glyphs.chars().collect();
    let n = trail.len();
    Column { x, trail, trail_length: n, active, delay: 0 }
}

fn green(g: u8) -> Rgb {
    Rgb { r: 0, g, b: 0 }
}

#[test]
fn keys_round_trip() {
    assert_eq!(key_of(0, 0), 0);
    assert_eq!(key_of(1, 2), 65538);
    assert_eq!(cell_of(key_of(513, 77)), (513, 77));
    assert_eq!(cell_of(u32::MAX), (65535, 65535));
}

#[test]
fn visible_cells_clip_to_screen() {
    let r = Renderer::new(10, 5);
    let cols = vec![column(2, "ABCDEFGH", true), column(3, "XYZ", false), column(12, "QQ", true)];
    let heads = vec![3, 4, 1];
    let cells = r.visible_cells(&cols, &heads);
    // rows 3, 2, 1, 0 are on screen for depths 0 to 3; the rest are above it
    assert_eq!(cells.len(), 4);
    for (i, c) in cells.iter().enumerate() {
        assert_eq!(c.x, 2);
        assert_eq!(c.y as usize, 3 - i);
        assert_eq!(c.depth, i);
        assert_eq!(c.trail_length, 8);
        assert_eq!(c.glyph, "ABCD".chars().nth(i).unwrap());
    }
}

#[test]
fn visible_cells_below_and_above() {
    let r = Renderer::new(10, 5);
    let cols = vec![column(0, "ABCDEFGH", true), column(1, "ABC", true)];
    let heads = vec![7, -2];
    let cells = r.visible_cells(&cols, &heads);
    // head at row 7 is below a 5-row screen: depths 3 to 7 give rows 4 to 0
    assert_eq!(cells.len(), 5);
    assert_eq!(cells[0].y, 4);
    assert_eq!(cells[0].depth, 3);
    assert_eq!(cells[4].y, 0);
    assert_eq!(cells[4].glyph, 'H');
}

#[test]
fn visible_cells_short_trail() {
    let r = Renderer::new(10, 10);
    let mut c = column(4, "AB", true);
    c.trail_length = 5;
    let cells = r.visible_cells(&vec![c], &vec![6]);
    assert_eq!(cells.len(), 2);
}

#[test]
fn compose_later_cells_win_and_head_is_bold() {
    let cells = vec![
        TrailCell { x: 1, y: 1, glyph: 'a', depth: 0, trail_length: 8 },
        TrailCell { x: 1, y: 2, glyph: 'b', depth: 1, trail_length: 8 },
        TrailCell { x: 1, y: 1, glyph: 'c', depth: 4, trail_length: 8 },
    ];
    let f = compose_frame(&cells, &vec![green(1), green(2), green(3)]);
    assert_eq!(f.len(), 2);
    assert_eq!(f.get(1, 1), Some(CellStyle { glyph: 'c', color: green(3), bold: false }));
    assert_eq!(f.get(1, 2), Some(CellStyle { glyph: 'b', color: green(2), bold: false }));
    assert_eq!(f.get(0, 0), None);
    let f = compose_frame(&cells[..1].to_vec(), &vec![green(9)]);
    assert_eq!(f.get(1, 1), Some(CellStyle { glyph: 'a', color: green(9), bold: true }));
}

fn sorted(mut ups: Vec<CellUpdate>) -> Vec<CellUpdate> {
    ups.sort_by_key(|u| (u.x, u.y));
    ups
}

#[test]
fn first_frame_draws_everything() {
    let r = Renderer::new(20, 20);
    let mut f = Frame::new();
    let s = CellStyle { glyph: 'x', color: green(100), bold: true };
    f.set(1, 1, s);
    f.set(2, 3, s);
    let ups = sorted(r.changes(&f));
    assert_eq!(
        ups,
        vec![
            CellUpdate { x: 1, y: 1, style: Some(s) },
            CellUpdate { x: 2, y: 3, style: Some(s) }
        ]
    );
}

#[test]
fn only_changed_cells_are_redrawn() {
    let mut r = Renderer::new(20, 20);
    let a = CellStyle { glyph: 'a', color: green(100), bold: false };
    let b = CellStyle { glyph: 'b', color: green(100), bold: false };
    let mut f = Frame::new();
    f.set(1, 1, a);
    f.set(1, 2, a);
    f.set(1, 3, a);
    r.commit(f);
    let mut g = Frame::new();
    g.set(1, 1, a);
    g.set(1, 2, b);
    g.set(1, 4, a);
    let ups = sorted(r.changes(&g));
    assert_eq!(
        ups,
        vec![
            CellUpdate { x: 1, y: 2, style: Some(b) },
            CellUpdate { x: 1, y: 3, style: None },
            CellUpdate { x: 1, y: 4, style: Some(a) },
        ]
    );
    r.commit(g);
    let mut same = Frame::new();
    same.set(1, 1, a);
    same.set(1, 2, b);
    same.set(1, 4, a);
    assert!(r.changes(&same).is_empty());
}

#[test]
fn resize_redraws_whole_frame() {
    let mut r = Renderer::new(20, 20);
    let a = CellStyle { glyph: 'a', color: green(7), bold: false };
    let mut f = Frame::new();
    f.set(5, 5, a);
    r.commit(f);
    let mut g = Frame::new();
    g.set(5, 5, a);
    assert!(r.changes(&g).is_empty());
    r.resize(30, 10);
    assert_eq!(r.changes(&g), vec![CellUpdate { x: 5, y: 5, style: Some(a) }]);
    let cells = r.visible_cells(&vec![column(25, "AB", true)], &vec![9]);
    assert_eq!(cells.len(), 2);
}

#[test]
fn frame_counter_counts() {
    let mut r = Renderer::new(1, 1);
    assert_eq!(r.begin_frame(), 1);
    assert_eq!(r.begin_frame(), 2);
    r.resize(2, 2);
    assert_eq!(r.begin_frame(), 3);
}

#[test]
fn pulse_phase_travels() {
    assert_eq!(pulse_phase(0, 0, 0), 0);
    assert_eq!(pulse_phase(1, 2, 3), (1 + 6 + 15) % 24);
    assert_eq!(pulse_phase(24, 0, 0), 0);
    assert_eq!(pulse_phase(100, 7, 11), (100 + 21 + 55) % 24);
}

#[test]
fn drawing_updates_gives_new_frame() {
    check_screen_follows_frames();
}

fn check_screen_follows_frames() {
    let mut rng_state: u32 = 12345;
    let mut next = || {
        rng_state = rng_state.wrapping_mul(1103515245).wrapping_add(12345);
        (rng_state >> 16) % 8
    };
    let mut r = Renderer::new(8, 8);
    let mut screen = std::collections::HashMap::new();
    for _round in 0..20 {
        let mut f = Frame::new();
        let mut expected = std::collections::HashMap::new();
        for _ in 0..10 {
            let (x, y) = (next() as u16, next() as u16);
            let s = CellStyle { glyph: 'a', color: green(next() as u8), bold: next() == 0 };
            f.set(x, y, s);
            expected.insert((x, y), s);
        }
        for u in r.changes(&f) {
            match u.style {
                Some(s) => {
                    screen.insert((u.x, u.y), s);
                }
                None => {
                    screen.remove(&(u.x, u.y));
                }
            }
        }
        assert_eq!(screen, expected);
        r.commit(f);
    }
}
