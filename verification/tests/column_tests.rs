use matrix_rain::column::{
    glyph_at, glyph_count, random_char, set_for_roll_of, Column, GlyphSet, GlyphStyle, TickPhase,
    GLYPH_STYLE, MAX_TRAIL, MIN_TRAIL,
};

fn alphabet(set: GlyphSet) -> Vec<char> {
    (0..glyph_count(set)).map(|i| glyph_at(set, i)).collect()
}

fn style_alphabet(style: GlyphStyle) -> Vec<char> {
    let mut all = Vec::new();
    for b in 0..10 {
        all.extend(alphabet(set_for_roll_of(style, b)));
    }
    all
}

fn check_column(c: &Column) {
    assert!(MIN_TRAIL <= c.trail_length && c.trail_length <= MAX_TRAIL);
    assert_eq!(c.trail.len(), c.trail_length);
    let allowed = style_alphabet(GLYPH_STYLE);
    for ch in &c.trail {
        assert!(allowed.contains(ch), "{:?} is not a glyph of the style", ch);
    }
}

#[test]
fn alphabets() {
    assert_eq!(glyph_count(GlyphSet::Symbols), 8);
    assert_eq!(glyph_count(GlyphSet::Digits), 10);
    assert_eq!(glyph_count(GlyphSet::Latin), 24);
    assert_eq!(glyph_count(GlyphSet::Katakana), 45);
    assert_eq!(alphabet(GlyphSet::Symbols).iter().collect::<String>(), "!@#$%^&*");
    assert_eq!(alphabet(GlyphSet::Digits).iter().collect::<String>(), "0123456789");
    assert_eq!(
        alphabet(GlyphSet::Latin).iter().collect::<String>(),
        "ABCDEFGHJKLMNPQRSTUVWXYZ"
    );
    assert_eq!(glyph_at(GlyphSet::Katakana, 0), '\u{FF71}');
    assert_eq!(glyph_at(GlyphSet::Katakana, 44), '\u{FF9D}');
}

#[test]
fn rolls_pick_alphabets() {
    let classic: Vec<GlyphSet> = (0..10).map(|b| set_for_roll_of(GlyphStyle::ClassicMatrix, b)).collect();
    assert_eq!(classic[..7], [GlyphSet::Katakana; 7]);
    assert_eq!(classic[7..9], [GlyphSet::Digits; 2]);
    assert_eq!(classic[9], GlyphSet::Symbols);
    let balanced: Vec<GlyphSet> = (0..10).map(|b| set_for_roll_of(GlyphStyle::Balanced, b)).collect();
    assert_eq!(balanced[..4], [GlyphSet::Katakana; 4]);
    assert_eq!(balanced[4..7], [GlyphSet::Digits; 3]);
    assert_eq!(balanced[7..9], [GlyphSet::Latin; 2]);
    assert_eq!(balanced[9], GlyphSet::Symbols);
    let ascii: Vec<GlyphSet> = (0..10).map(|b| set_for_roll_of(GlyphStyle::AsciiGlitch, b)).collect();
    assert_eq!(ascii[..5], [GlyphSet::Digits; 5]);
    assert_eq!(ascii[5..9], [GlyphSet::Latin; 4]);
    assert_eq!(ascii[9], GlyphSet::Symbols);
}

#[test]
fn random_char_stays_in_style() {
    let mut rng = rand::thread_rng();
    for style in [GlyphStyle::ClassicMatrix, GlyphStyle::Balanced, GlyphStyle::AsciiGlitch] {
        let allowed = style_alphabet(style);
        for _ in 0..500 {
            assert!(allowed.contains(&random_char(style, &mut rng)));
        }
    }
    let ascii = style_alphabet(GlyphStyle::AsciiGlitch);
    assert!(ascii.iter().all(|c| c.is_ascii()));
}

#[test]
fn new_column_waits() {
    let mut rng = rand::thread_rng();
    for x in 0..200u16 {
        let c = Column::new(x, &mut rng);
        assert_eq!(c.x, x);
        assert!(!c.active);
        assert!(c.delay < 72);
        check_column(&c);
    }
}

#[test]
fn reset_fall_starts_over() {
    let mut rng = rand::thread_rng();
    let mut c = Column::new(7, &mut rng);
    for _ in 0..200 {
        c.active = true;
        c.reset_fall(&mut rng);
        assert_eq!(c.x, 7);
        assert!(!c.active);
        assert!(4 <= c.delay && c.delay < 96);
        check_column(&c);
    }
}

#[test]
fn tick_delay_counts_down_then_starts() {
    let mut c = Column { x: 3, trail: vec!['A'; 8], trail_length: 8, active: false, delay: 2 };
    assert_eq!(c.tick_delay(), TickPhase::Waiting);
    assert_eq!(c.delay, 1);
    assert_eq!(c.tick_delay(), TickPhase::Waiting);
    assert_eq!(c.delay, 0);
    assert!(!c.active);
    assert_eq!(c.tick_delay(), TickPhase::Started);
    assert!(c.active);
    assert_eq!(c.tick_delay(), TickPhase::Falling);
    assert!(c.active);
    assert_eq!(c.delay, 0);
    assert_eq!(c.trail, vec!['A'; 8]);
}

#[test]
fn mutate_keeps_shape() {
    let mut rng = rand::thread_rng();
    let mut c = Column::new(1, &mut rng);
    c.active = true;
    let allowed = style_alphabet(GLYPH_STYLE);
    for _ in 0..200 {
        let before = c.clone();
        c.mutate(&mut rng);
        assert_eq!(c.trail.len(), before.trail.len());
        assert_eq!(c.trail_length, before.trail_length);
        assert!(allowed.contains(&c.trail[0]));
        check_column(&c);
    }
}

#[test]
fn mutate_replaces_head_of_foreign_trail() {
    let mut rng = rand::thread_rng();
    let mut c = Column { x: 0, trail: vec!['~'; 8], trail_length: 8, active: true, delay: 0 };
    c.mutate(&mut rng);
    assert_ne!(c.trail[0], '~');
    for ch in &c.trail[1..] {
        assert!(*ch == '~' || style_alphabet(GLYPH_STYLE).contains(ch));
    }
}
