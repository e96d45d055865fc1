//! The state of one column of falling glyphs, and the glyph alphabets.

use vstd::prelude::*;
use crate::text::text_is;
use rand::Rng;
use rand::rngs::ThreadRng;

verus! {

/// Which alphabets the rain draws its glyphs from.
#[derive(Clone, Copy, Debug, PartialEq, Eq, Structural)]
pub enum GlyphStyle {
    ClassicMatrix,
    Balanced,
    AsciiGlitch,
}

/// The name under which each glyph style is given on the command line.
pub open spec fn glyph_style_name(g: GlyphStyle) -> Seq<char> {
    match g {
        GlyphStyle::ClassicMatrix => "classic"@,
        GlyphStyle::Balanced => "balanced"@,
        GlyphStyle::AsciiGlitch => "ascii"@,
    }
}

/// The glyph style whose name is `s`, if any.
pub open spec fn glyph_style_named(s: Seq<char>) -> Option<GlyphStyle> {
    if s == glyph_style_name(GlyphStyle::ClassicMatrix) {
        Some(GlyphStyle::ClassicMatrix)
    } else if s == glyph_style_name(GlyphStyle::Balanced) {
        Some(GlyphStyle::Balanced)
    } else if s == glyph_style_name(GlyphStyle::AsciiGlitch) {
        Some(GlyphStyle::AsciiGlitch)
    } else {
        None
    }
}

impl GlyphStyle {
    /// The style named by `value` ("classic", "balanced" or "ascii"), or `None`.
    pub fn from_str(value: &str) -> (r: Option<GlyphStyle>)
        ensures
            r == glyph_style_named(value@),
    {
        if text_is(value, "classic") {
            Some(GlyphStyle::ClassicMatrix)
        } else if text_is(value, "balanced") {
            Some(GlyphStyle::Balanced)
        } else if text_is(value, "ascii") {
            Some(GlyphStyle::AsciiGlitch)
        } else {
            None
        }
    }

    /// The command-line name of this style.
    pub fn as_str(self) -> (r: &'static str)
        ensures
            r@ == glyph_style_name(self),
    {
        match self {
            GlyphStyle::ClassicMatrix => "classic",
            GlyphStyle::Balanced => "balanced",
            GlyphStyle::AsciiGlitch => "ascii",
        }
    }
}

/// The shortest trail a column draws.
pub const MIN_TRAIL: usize = 8;

/// The longest trail a column draws.
pub const MAX_TRAIL: usize = 22;

/// The glyph style the columns use.
pub const GLYPH_STYLE: GlyphStyle = GlyphStyle::Balanced;

/// One of the alphabets that glyphs are drawn from.
#[derive(Clone, Copy, Debug, PartialEq, Eq, Structural)]
pub enum GlyphSet {
    Katakana,
    Digits,
    Latin,
    Symbols,
}

/// The punctuation glyphs.
pub open spec fn symbol_glyphs() -> Seq<char> {
    seq!['!', '@', '#', '$', '%', '^', '&', '*']
}

/// The decimal digits.
pub open spec fn digit_glyphs() -> Seq<char> {
    seq!['0', '1', '2', '3', '4', '5', '6', '7', '8', '9']
}

/// The capital Latin letters, without `I` and `O`.
pub open spec fn latin_glyphs() -> Seq<char> {
    seq!['A', 'B', 'C', 'D', 'E', 'F', 'G', 'H', 'J', 'K', 'L', 'M', 'N', 'P', 'Q', 'R', 'S', 'T', 'U', 'V', 'W', 'X', 'Y', 'Z']
}

/// The half-width katakana from `ｱ` to `ﾝ`.
pub open spec fn katakana_glyphs() -> Seq<char> {
    seq!['ｱ', 'ｲ', 'ｳ', 'ｴ', 'ｵ', 'ｶ', 'ｷ', 'ｸ', 'ｹ', 'ｺ', 'ｻ', 'ｼ', 'ｽ', 'ｾ', 'ｿ', 'ﾀ', 'ﾁ', 'ﾂ', 'ﾃ', 'ﾄ', 'ﾅ', 'ﾆ', 'ﾇ', 'ﾈ', 'ﾉ', 'ﾊ', 'ﾋ', 'ﾌ', 'ﾍ', 'ﾎ', 'ﾏ', 'ﾐ', 'ﾑ', 'ﾒ', 'ﾓ', 'ﾔ', 'ﾕ', 'ﾖ', 'ﾗ', 'ﾘ', 'ﾙ', 'ﾚ', 'ﾛ', 'ﾜ', 'ﾝ']
}

/// The glyphs of an alphabet.
pub open spec fn glyphs_of(set: GlyphSet) -> Seq<char> {
    match set {
        GlyphSet::Katakana => katakana_glyphs(),
        GlyphSet::Digits => digit_glyphs(),
        GlyphSet::Latin => latin_glyphs(),
        GlyphSet::Symbols => symbol_glyphs(),
    }
}

/// Which alphabet a style draws from for a roll `bucket` out of 0 to 9:
/// the classic style gives katakana for 0 to 6, digits for 7 and 8; the
/// balanced style katakana for 0 to 3, digits for 4 to 6, Latin for 7 and
/// 8; the ASCII style digits for 0 to 4, Latin for 5 to 8; every style
/// gives symbols for the rest.
pub open spec fn set_for_roll(style: GlyphStyle, bucket: int) -> GlyphSet {
    match style {
        GlyphStyle::ClassicMatrix => if 0 <= bucket <= 6 {
            GlyphSet::Katakana
        } else if 7 <= bucket <= 8 {
            GlyphSet::Digits
        } else {
            GlyphSet::Symbols
        },
        GlyphStyle::Balanced => if 0 <= bucket <= 3 {
            GlyphSet::Katakana
        } else if 4 <= bucket <= 6 {
            GlyphSet::Digits
        } else if 7 <= bucket <= 8 {
            GlyphSet::Latin
        } else {
            GlyphSet::Symbols
        },
        GlyphStyle::AsciiGlitch => if 0 <= bucket <= 4 {
            GlyphSet::Digits
        } else if 5 <= bucket <= 8 {
            GlyphSet::Latin
        } else {
            GlyphSet::Symbols
        },
    }
}

/// Whether `c` is a glyph that `style` can draw: one of the alphabet that
/// some roll from 0 to 9 selects.
pub open spec fn in_alphabet(style: GlyphStyle, c: char) -> bool {
    exists|b: int| 0 <= b < 10 && #[trigger] glyphs_of(set_for_roll(style, b)).contains(c)
}

/// Every glyph of the ASCII style is an ASCII character, so it shows in
/// any terminal font.
pub proof fn lemma_ascii_style_is_ascii(c: char)
    requires
        in_alphabet(GlyphStyle::AsciiGlitch, c),
    ensures
        (c as u32) < 128,
{
    let b = choose|b: int| 0 <= b < 10 && #[trigger] glyphs_of(set_for_roll(GlyphStyle::AsciiGlitch, b)).contains(c);
    let set = glyphs_of(set_for_roll(GlyphStyle::AsciiGlitch, b));
    let i = choose|i: int| 0 <= i < set.len() && set[i] == c;
    assert(forall|j: int| 0 <= j < digit_glyphs().len() ==> (#[trigger] digit_glyphs()[j] as u32) < 128);
    assert(forall|j: int| 0 <= j < latin_glyphs().len() ==> (#[trigger] latin_glyphs()[j] as u32) < 128);
    assert(forall|j: int| 0 <= j < symbol_glyphs().len() ==> (#[trigger] symbol_glyphs()[j] as u32) < 128);
}

/// The alphabet that `style` draws from for the roll `bucket` (0 to 9).
pub fn set_for_roll_of(style: GlyphStyle, bucket: usize) -> (r: GlyphSet)
    ensures
        r == set_for_roll(style, bucket as int),
{
    match style {
        GlyphStyle::ClassicMatrix => if bucket <= 6 {
            GlyphSet::Katakana
        } else if bucket <= 8 {
            GlyphSet::Digits
        } else {
            GlyphSet::Symbols
        },
        GlyphStyle::Balanced => if bucket <= 3 {
            GlyphSet::Katakana
        } else if bucket <= 6 {
            GlyphSet::Digits
        } else if bucket <= 8 {
            GlyphSet::Latin
        } else {
            GlyphSet::Symbols
        },
        GlyphStyle::AsciiGlitch => if bucket <= 4 {
            GlyphSet::Digits
        } else if bucket <= 8 {
            GlyphSet::Latin
        } else {
            GlyphSet::Symbols
        },
    }
}

/// How many glyphs an alphabet has.
pub fn glyph_count(set: GlyphSet) -> (n: usize)
    ensures
        n == glyphs_of(set).len(),
        n > 0,
{
    match set {
        GlyphSet::Katakana => 45,
        GlyphSet::Digits => 10,
        GlyphSet::Latin => 24,
        GlyphSet::Symbols => 8,
    }
}

/// The glyph at position `i` of an alphabet.
pub fn glyph_at(set: GlyphSet, i: usize) -> (c: char)
    requires
        i < glyphs_of(set).len(),
    ensures
        c == glyphs_of(set)[i as int],
{
    match set {
        GlyphSet::Katakana => {
            let table: [char; 45] = ['ｱ', 'ｲ', 'ｳ', 'ｴ', 'ｵ', 'ｶ', 'ｷ', 'ｸ', 'ｹ', 'ｺ', 'ｻ', 'ｼ', 'ｽ', 'ｾ', 'ｿ', 'ﾀ', 'ﾁ', 'ﾂ', 'ﾃ', 'ﾄ', 'ﾅ', 'ﾆ', 'ﾇ', 'ﾈ', 'ﾉ', 'ﾊ', 'ﾋ', 'ﾌ', 'ﾍ', 'ﾎ', 'ﾏ', 'ﾐ', 'ﾑ', 'ﾒ', 'ﾓ', 'ﾔ', 'ﾕ', 'ﾖ', 'ﾗ', 'ﾘ', 'ﾙ', 'ﾚ', 'ﾛ', 'ﾜ', 'ﾝ'];
            proof {
                assert(table@ =~= katakana_glyphs());
            }
            table[i]
        },
        GlyphSet::Digits => {
            let table: [char; 10] = ['0', '1', '2', '3', '4', '5', '6', '7', '8', '9'];
            proof {
                assert(table@ =~= digit_glyphs());
            }
            table[i]
        },
        GlyphSet::Latin => {
            let table: [char; 24] = ['A', 'B', 'C', 'D', 'E', 'F', 'G', 'H', 'J', 'K', 'L', 'M', 'N', 'P', 'Q', 'R', 'S', 'T', 'U', 'V', 'W', 'X', 'Y', 'Z'];
            proof {
                assert(table@ =~= latin_glyphs());
            }
            table[i]
        },
        GlyphSet::Symbols => {
            let table: [char; 8] = ['!', '@', '#', '$', '%', '^', '&', '*'];
            proof {
                assert(table@ =~= symbol_glyphs());
            }
            table[i]
        },
    }
}

/// A source of random numbers: rand's thread-local generator.
#[verifier::external_type_specification]
#[verifier::external_body]
pub struct ExThreadRng(ThreadRng);

/// Draws a number from `low` up to but not including `high` with rand's
/// `Rng::gen_range`, which panics on an empty range and otherwise returns a
/// number in the range. Which number comes out is chance: the contract says
/// only that it lies in the range.
#[verifier::external_body]
fn gen_range(rng: &mut ThreadRng, low: usize, high: usize) -> (r: usize)
    requires
        low < high,
    ensures
        low <= r < high,
{
    rng.gen_range(low..high)
}

/// Draws `true` with probability `numerator / denominator` with rand's
/// `Rng::gen_ratio`, which panics when the denominator is 0 or below the
/// numerator, always gives `true` when they are equal and always `false`
/// when the numerator is 0. Otherwise the outcome is chance, and the
/// contract says no more.
#[verifier::external_body]
fn gen_ratio(rng: &mut ThreadRng, numerator: u32, denominator: u32) -> (r: bool)
    requires
        0 < denominator,
        numerator <= denominator,
    ensures
        numerator == 0 ==> !r,
        numerator == denominator ==> r,
{
    rng.gen_ratio(numerator, denominator)
}

/// A random glyph of `style`: a roll from 0 to 9 picks the alphabet, and a
/// second roll the glyph in it.
pub fn random_char(style: GlyphStyle, rng: &mut ThreadRng) -> (c: char)
    ensures
        in_alphabet(style, c),
{
    let bucket = gen_range(rng, 0, 10);
    let set = set_for_roll_of(style, bucket);
    let n = glyph_count(set);
    let i = gen_range(rng, 0, n);
    let c = glyph_at(set, i);
    proof {
        assert(glyphs_of(set_for_roll(style, bucket as int))[i as int] == c);
        assert(glyphs_of(set_for_roll(style, bucket as int)).contains(c));
    }
    c
}

/// The part of a falling column that is not its position or speed: where
/// it stands, the glyphs of its trail (head first), and whether it is
/// falling or still waiting `delay` more frames to start.
#[derive(Clone, Debug)]
pub struct Column {
    pub x: u16,
    pub trail: Vec<char>,
    pub trail_length: usize,
    pub active: bool,
    pub delay: u32,
}

/// What a frame does to a column that waits or falls.
#[derive(Clone, Copy, Debug, PartialEq, Eq, Structural)]
pub enum TickPhase {
    /// The column is still waiting; its delay went down by one.
    Waiting,
    /// The delay ran out: the column starts to fall this frame, from just
    /// above the screen.
    Started,
    /// The column was already falling.
    Falling,
}

/// One frame of a column's wait, on whether it falls and on its delay: a
/// falling column keeps falling; a waiting one counts its delay down, and
/// starts to fall in the frame after the delay reached 0.
pub open spec fn delay_step(active: bool, delay: u32) -> (bool, u32, TickPhase) {
    if active {
        (true, delay, TickPhase::Falling)
    } else if delay > 0 {
        (false, (delay - 1) as u32, TickPhase::Waiting)
    } else {
        (true, 0, TickPhase::Started)
    }
}

/// Whether a column falls, and its delay, after `n` frames.
pub open spec fn after_frames(active: bool, delay: u32, n: nat) -> (bool, u32)
    decreases n,
{
    if n == 0 {
        (active, delay)
    } else {
        let s = after_frames(active, delay, (n - 1) as nat);
        let t = delay_step(s.0, s.1);
        (t.0, t.1)
    }
}

/// A column that waits with delay `d` keeps waiting for `d` frames, its
/// delay going down by one each frame, and falls from frame `d + 1` on.
pub proof fn lemma_waits_for_delay(d: u32, n: nat)
    ensures
        n <= d ==> after_frames(false, d, n) == (false, (d - n) as u32),
        n > d ==> after_frames(false, d, n).0,
    decreases n,
{
    if n > 0 {
        lemma_waits_for_delay(d, (n - 1) as nat);
    }
}

/// Whether every glyph of `trail` belongs to `style`.
pub open spec fn trail_in_alphabet(style: GlyphStyle, trail: Seq<char>) -> bool {
    forall|i: int| 0 <= i < trail.len() ==> in_alphabet(style, #[trigger] trail[i])
}

impl Column {
    /// A well-formed column: the trail holds `trail_length` glyphs of the
    /// column style, and `trail_length` is from `MIN_TRAIL` to `MAX_TRAIL`.
    pub open spec fn wf(&self) -> bool {
        &&& self.trail@.len() == self.trail_length
        &&& MIN_TRAIL <= self.trail_length <= MAX_TRAIL
        &&& trail_in_alphabet(GLYPH_STYLE, self.trail@)
    }

    /// A new waiting column at `x`: a random trail length from `MIN_TRAIL`
    /// to `MAX_TRAIL`, random glyphs, and a random delay below 72 frames.
    pub fn new(x: u16, rng: &mut ThreadRng) -> (c: Column)
        ensures
            c.wf(),
            c.x == x,
            !c.active,
            c.delay < 72,
    {
        let trail_length = gen_range(rng, MIN_TRAIL, MAX_TRAIL + 1);
        let trail = vec![' '; trail_length];
        let delay = gen_range(rng, 0, 72) as u32;
        let mut column = Column { x, trail, trail_length, active: false, delay };
        column.randomize_trail(rng);
        column
    }

    /// Starts the column over once it has fallen past the bottom: a new
    /// random trail length and glyphs, waiting again for 4 to 95 frames.
    pub fn reset_fall(&mut self, rng: &mut ThreadRng)
        ensures
            final(self).wf(),
            final(self).x == old(self).x,
            !final(self).active,
            4 <= final(self).delay < 96,
    {
        self.trail_length = gen_range(rng, MIN_TRAIL, MAX_TRAIL + 1);
        self.trail.resize(self.trail_length, ' ');
        self.randomize_trail(rng);
        self.active = false;
        self.delay = gen_range(rng, 4, 96) as u32;
    }

    /// Counts the frame against the delay of a waiting column: one frame
    /// less to wait, or, when none is left, the column starts to fall. A
    /// falling column is left as it is.
    pub fn tick_delay(&mut self) -> (p: TickPhase)
        ensures
            final(self).x == old(self).x,
            final(self).trail == old(self).trail,
            final(self).trail_length == old(self).trail_length,
            (final(self).active, final(self).delay, p) == delay_step(old(self).active, old(self).delay),
            old(self).wf() ==> final(self).wf(),
    {
        if !self.active {
            if self.delay > 0 {
                self.delay = self.delay - 1;
                return TickPhase::Waiting;
            }
            self.active = true;
            return TickPhase::Started;
        }
        TickPhase::Falling
    }

    /// Gives every glyph of the trail a new random glyph.
    fn randomize_trail(&mut self, rng: &mut ThreadRng)
        ensures
            final(self).x == old(self).x,
            final(self).trail_length == old(self).trail_length,
            final(self).active == old(self).active,
            final(self).delay == old(self).delay,
            final(self).trail@.len() == old(self).trail@.len(),
            trail_in_alphabet(GLYPH_STYLE, final(self).trail@),
    {
        let n = self.trail.len();
        for i in 0..n
            invariant
                n == self.trail.len(),
                self.x == old(self).x,
                self.trail_length == old(self).trail_length,
                self.active == old(self).active,
                self.delay == old(self).delay,
                self.trail@.len() == old(self).trail@.len(),
                forall|j: int| 0 <= j < i ==> in_alphabet(GLYPH_STYLE, #[trigger] self.trail@[j]),
        {
            let c = random_char(GLYPH_STYLE, rng);
            self.trail.set(i, c);
        }
    }

    /// The flicker of a falling column: the head always takes a new random
    /// glyph, and each glyph of the trail takes one with a chance of 14 in
    /// 100. Every glyph is afterwards either the one it was or a glyph of
    /// the column style.
    pub fn mutate(&mut self, rng: &mut ThreadRng)
        ensures
            final(self).x == old(self).x,
            final(self).trail_length == old(self).trail_length,
            final(self).active == old(self).active,
            final(self).delay == old(self).delay,
            final(self).trail@.len() == old(self).trail@.len(),
            old(self).trail@.len() > 0 ==> in_alphabet(GLYPH_STYLE, final(self).trail@[0]),
            forall|i: int|
                0 <= i < final(self).trail@.len() ==> #[trigger] final(self).trail@[i] == old(
                    self,
                ).trail@[i] || in_alphabet(GLYPH_STYLE, final(self).trail@[i]),
            old(self).wf() ==> final(self).wf(),
    {
        let n = self.trail.len();
        let head = if n > 0 {
            random_char(GLYPH_STYLE, rng)
        } else {
            ' '
        };
        let mut redraws: Vec<Option<char>> = Vec::new();
        for i in 0..n
            invariant
                n > 0 ==> in_alphabet(GLYPH_STYLE, head),
                redraws@.len() == i,
                forall|j: int|
                    0 <= j < i ==> (#[trigger] redraws@[j] matches Some(c) ==> in_alphabet(
                        GLYPH_STYLE,
                        c,
                    )),
        {
            if gen_ratio(rng, 14, 100) {
                redraws.push(Some(random_char(GLYPH_STYLE, rng)));
            } else {
                redraws.push(None);
            }
        }
        self.flicker(head, &redraws);
        proof {
            assert forall|i: int| 0 <= i < self.trail@.len() implies #[trigger] self.trail@[i]
                == old(self).trail@[i] || in_alphabet(GLYPH_STYLE, self.trail@[i]) by {
                let r = redraws@[i];
            }
            if n > 0 {
                let r = redraws@[0];
            }
            if old(self).wf() {
                assert forall|i: int| 0 <= i < self.trail@.len() implies in_alphabet(
                    GLYPH_STYLE,
                    #[trigger] self.trail@[i],
                ) by {
                    let r = redraws@[i];
                    assert(in_alphabet(GLYPH_STYLE, old(self).trail@[i]));
                }
            }
        }
    }

    /// Draws one frame of flicker from draws already made: the head shows
    /// `head`, then each position `i` whose redraw is `Some(c)` shows `c`,
    /// and every other position below the head keeps its glyph.
    pub fn flicker(&mut self, head: char, redraws: &Vec<Option<char>>)
        requires
            redraws@.len() == old(self).trail@.len(),
        ensures
            final(self).x == old(self).x,
            final(self).trail_length == old(self).trail_length,
            final(self).active == old(self).active,
            final(self).delay == old(self).delay,
            final(self).trail@.len() == old(self).trail@.len(),
            old(self).trail@.len() > 0 ==> final(self).trail@[0] == (match redraws@[0] {
                Some(c) => c,
                None => head,
            }),
            forall|i: int|
                1 <= i < final(self).trail@.len() ==> #[trigger] final(self).trail@[i] == (
                match redraws@[i] {
                    Some(c) => c,
                    None => old(self).trail@[i],
                }),
    {
        let n = self.trail.len();
        if n > 0 {
            self.trail.set(0, head);
        }
        let ghost first = self.trail@;
        for i in 0..n
            invariant
                n == self.trail.len(),
                n == redraws@.len(),
                self.x == old(self).x,
                self.trail_length == old(self).trail_length,
                self.active == old(self).active,
                self.delay == old(self).delay,
                first.len() == n,
                n > 0 ==> first[0] == head,
                forall|j: int| 1 <= j < n ==> #[trigger] first[j] == old(self).trail@[j],
                forall|j: int| i <= j < n ==> #[trigger] self.trail@[j] == first[j],
                forall|j: int|
                    0 <= j < i ==> #[trigger] self.trail@[j] == (match redraws@[j] {
                        Some(c) => c,
                        None => first[j],
                    }),
        {
            match redraws[i] {
                Some(c) => {
                    self.trail.set(i, c);
                },
                None => {},
            }
        }
    }
}

} // verus!
