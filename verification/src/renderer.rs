//! The frame-to-frame renderer: which cells the falling columns light up,
//! how they are styled, and which terminal cells must be redrawn.

use vstd::prelude::*;
use std::collections::HashMap;
use crate::column::Column;
use vstd::std_specs::iter::IteratorSpec;

verus! {

broadcast use vstd::std_specs::hash::group_hash_axioms;

/// A true colour.
#[derive(Clone, Copy, Debug, PartialEq, Eq, Structural)]
pub struct Rgb {
    pub r: u8,
    pub g: u8,
    pub b: u8,
}

/// What one terminal cell shows.
#[derive(Clone, Copy, Debug, PartialEq, Eq, Structural)]
pub struct CellStyle {
    pub glyph: char,
    pub color: Rgb,
    pub bold: bool,
}

/// A cell lit by a falling column: where it is, its glyph, how far behind
/// the head it is (`depth`, 0 for the head) and the length of its trail.
#[derive(Clone, Copy, Debug, PartialEq, Eq, Structural)]
pub struct TrailCell {
    pub x: u16,
    pub y: u16,
    pub glyph: char,
    pub depth: usize,
    pub trail_length: usize,
}

/// The key of the cell at column `x`, row `y`.
pub open spec fn cell_key(x: u16, y: u16) -> u32 {
    (x as int * 65536 + y as int) as u32
}

/// The column of the cell whose key is `k`.
pub open spec fn key_x(k: u32) -> u16 {
    (k / 65536) as u16
}

/// The row of the cell whose key is `k`.
pub open spec fn key_y(k: u32) -> u16 {
    (k % 65536) as u16
}

/// The key of the cell at column `x`, row `y`.
pub fn key_of(x: u16, y: u16) -> (k: u32)
    ensures
        k == cell_key(x, y),
        key_x(k) == x,
        key_y(k) == y,
{
    x as u32 * 65536 + y as u32
}

/// The column and row of the cell whose key is `k`.
pub fn cell_of(k: u32) -> (xy: (u16, u16))
    ensures
        xy.0 == key_x(k),
        xy.1 == key_y(k),
        cell_key(xy.0, xy.1) == k,
{
    ((k / 65536) as u16, (k % 65536) as u16)
}

/// The cells of one frame, each with what it shows, by cell key.
pub struct Frame {
    cells: HashMap<u32, CellStyle>,
}

impl View for Frame {
    type V = Map<u32, CellStyle>;

    closed spec fn view(&self) -> Map<u32, CellStyle> {
        self.cells@
    }
}

impl Frame {
    /// A frame with no lit cell.
    pub fn new() -> (f: Frame)
        ensures
            f@ == Map::<u32, CellStyle>::empty(),
    {
        Frame { cells: HashMap::new() }
    }

    /// Lights the cell at `x`, `y` with `style`, replacing what it showed.
    pub fn set(&mut self, x: u16, y: u16, style: CellStyle)
        ensures
            final(self)@ == old(self)@.insert(cell_key(x, y), style),
    {
        self.cells.insert(key_of(x, y), style);
    }

    /// What the cell at `x`, `y` shows, if it is lit.
    pub fn get(&self, x: u16, y: u16) -> (r: Option<CellStyle>)
        ensures
            r == (if self@.contains_key(cell_key(x, y)) {
                Some(self@[cell_key(x, y)])
            } else {
                None
            }),
    {
        match self.cells.get(&key_of(x, y)) {
            Some(s) => Some(*s),
            None => None,
        }
    }

    /// How many cells are lit.
    pub fn len(&self) -> (n: usize)
        ensures
            n == self@.len(),
    {
        self.cells.len()
    }
}

/// The style of a lit cell: its glyph in `color`, bold for the head only.
pub open spec fn style_of(cell: TrailCell, color: Rgb) -> CellStyle {
    CellStyle { glyph: cell.glyph, color, bold: cell.depth == 0 }
}

/// The frame that the first `n` cells give, each with its colour, a later
/// cell taking the place of an earlier one at the same position.
pub open spec fn composed(cells: Seq<TrailCell>, colors: Seq<Rgb>, n: nat) -> Map<u32, CellStyle>
    decreases n,
{
    if n == 0 {
        Map::empty()
    } else {
        let c = cells[n - 1];
        composed(cells, colors, (n - 1) as nat).insert(
            cell_key(c.x, c.y),
            style_of(c, colors[n - 1]),
        )
    }
}

/// The frame of the lit cells, `colors[i]` being the colour of `cells[i]`.
pub fn compose_frame(cells: &Vec<TrailCell>, colors: &Vec<Rgb>) -> (f: Frame)
    requires
        cells.len() == colors.len(),
    ensures
        f@ == composed(cells@, colors@, cells@.len()),
        forall|k: u32|
            f@.contains_key(k) <==> exists|i: int|
                0 <= i < cells@.len() && cell_key(cells@[i].x, cells@[i].y) == k,
        forall|i: int|
            0 <= i < cells@.len() && (forall|j: int|
                i < j < cells@.len() ==> cell_key(cells@[j].x, cells@[j].y) != cell_key(
                    cells@[i].x,
                    cells@[i].y,
                )) ==> f@[cell_key(cells@[i].x, cells@[i].y)] == (CellStyle {
                glyph: cells@[i].glyph,
                color: colors@[i],
                bold: cells@[i].depth == 0,
            }),
{
    let mut f = Frame::new();
    let mut i: usize = 0;
    while i < cells.len()
        invariant
            cells.len() == colors.len(),
            i <= cells.len(),
            f@ == composed(cells@, colors@, i as nat),
        decreases cells.len() - i,
    {
        let c = cells[i];
        f.set(c.x, c.y, CellStyle { glyph: c.glyph, color: colors[i], bold: c.depth == 0 });
        i = i + 1;
    }
    proof {
        lemma_composed_cells(cells@, colors@, cells@.len());
    }
    f
}

impl Frame {
    /// The keys of the lit cells, each once, in no particular order.
    fn keys(&self) -> (ks: Vec<u32>)
        ensures
            ks@.no_duplicates(),
            forall|k: u32| self@.contains_key(k) <==> ks@.contains(k),
    {
        let mut ks: Vec<u32> = Vec::new();
        let ghost all = self.cells.keys().remaining().unref();
        for k in it: self.cells.keys()
            invariant
                it.seq().unref() == all,
                all.no_duplicates(),
                all.to_set() == self@.dom(),
                ks@ == all.take(it.index()),
        {
            ks.push(*k);
            proof {
                assert(all.take(it.index() + 1) =~= all.take(it.index()).push(*k));
            }
        }
        proof {
            assert(all.take(all.len() as int) =~= all);
            assert forall|k: u32| self@.contains_key(k) <==> ks@.contains(k) by {
                if self@.contains_key(k) {
                    assert(all.to_set().contains(k));
                }
                if ks@.contains(k) {
                    assert(all.to_set().contains(k));
                }
            }
        }
        ks
    }
}

/// What a cell shows in a frame, or `None` when it is dark.
pub open spec fn shown(m: Map<u32, CellStyle>, k: u32) -> Option<CellStyle> {
    if m.contains_key(k) {
        Some(m[k])
    } else {
        None
    }
}

/// A cell to redraw: at `x`, `y`, with `style`, or blanked when `None`.
#[derive(Clone, Copy, Debug, PartialEq, Eq, Structural)]
pub struct CellUpdate {
    pub x: u16,
    pub y: u16,
    pub style: Option<CellStyle>,
}

/// The key of the cell that an update redraws.
pub open spec fn update_key(u: CellUpdate) -> u32 {
    cell_key(u.x, u.y)
}

/// Whether `ups` redraws exactly the cells that differ between the frames
/// `prev` and `cur`: each such cell once, with what `cur` shows there, and
/// no other cell.
pub open spec fn is_redraw(prev: Map<u32, CellStyle>, cur: Map<u32, CellStyle>, ups: Seq<
    CellUpdate,
>) -> bool {
    &&& forall|i: int|
        0 <= i < ups.len() ==> shown(prev, update_key(#[trigger] ups[i])) != shown(
            cur,
            update_key(ups[i]),
        ) && ups[i].style == shown(cur, update_key(ups[i]))
    &&& forall|i: int, j: int|
        0 <= i < j < ups.len() ==> update_key(#[trigger] ups[i]) != update_key(#[trigger] ups[j])
    &&& forall|k: u32|
        #[trigger] shown(prev, k) != shown(cur, k) ==> exists|i: int|
            0 <= i < ups.len() && update_key(#[trigger] ups[i]) == k
}

/// The screen after the updates `ups` are drawn, one after another, on a
/// screen that shows `screen`.
pub open spec fn apply_updates(screen: Map<u32, CellStyle>, ups: Seq<CellUpdate>) -> Map<
    u32,
    CellStyle,
>
    decreases ups.len(),
{
    if ups.len() == 0 {
        screen
    } else {
        let u = ups.last();
        let before = apply_updates(screen, ups.drop_last());
        match u.style {
            Some(style) => before.insert(update_key(u), style),
            None => before.remove(update_key(u)),
        }
    }
}

/// What the renderer keeps between frames: the terminal size, what the
/// screen showed after the last frame, and the frame counter.
pub struct RenderState {
    pub width: u16,
    pub height: u16,
    pub previous: Map<u32, CellStyle>,
    pub frame: u64,
}

/// Draws the falling columns frame by frame, redrawing only what changed.
pub struct Renderer {
    width: u16,
    height: u16,
    previous: Frame,
    frame: u64,
}

impl View for Renderer {
    type V = RenderState;

    closed spec fn view(&self) -> RenderState {
        RenderState {
            width: self.width,
            height: self.height,
            previous: self.previous@,
            frame: self.frame,
        }
    }
}

/// The cell that the glyph at depth `i` of `col` lights, when its head is
/// on row `head`: none when it falls outside the `width` by `height`
/// screen or the trail holds no glyph there.
pub open spec fn lit_cell(width: u16, height: u16, col: Column, head: i32, i: nat) -> Option<
    TrailCell,
> {
    let y = head as int - i as int;
    if 0 <= y < height && col.x < width && i < col.trail@.len() {
        Some(
            TrailCell {
                x: col.x,
                y: y as u16,
                glyph: col.trail@[i as int],
                depth: i as usize,
                trail_length: col.trail_length,
            },
        )
    } else {
        None
    }
}

/// The cells that depths `0` to `n - 1` of `col` light, in that order.
pub open spec fn lit_cells_upto(width: u16, height: u16, col: Column, head: i32, n: nat) -> Seq<
    TrailCell,
>
    decreases n,
{
    if n == 0 {
        seq![]
    } else {
        let before = lit_cells_upto(width, height, col, head, (n - 1) as nat);
        match lit_cell(width, height, col, head, (n - 1) as nat) {
            Some(c) => before.push(c),
            None => before,
        }
    }
}

/// The cells that a column lights: none while it waits, else those of the
/// depths of its trail.
pub open spec fn column_cells(width: u16, height: u16, col: Column, head: i32) -> Seq<TrailCell> {
    if col.active {
        lit_cells_upto(width, height, col, head, col.trail_length as nat)
    } else {
        seq![]
    }
}

/// The cells that the first `n` columns light, column after column.
pub open spec fn frame_cells(
    width: u16,
    height: u16,
    cols: Seq<Column>,
    heads: Seq<i32>,
    n: nat,
) -> Seq<TrailCell>
    decreases n,
{
    if n == 0 {
        seq![]
    } else {
        frame_cells(width, height, cols, heads, (n - 1) as nat) + column_cells(
            width,
            height,
            cols[n - 1],
            heads[n - 1],
        )
    }
}

impl Renderer {
    /// A renderer for a `width` by `height` screen on which nothing is drawn.
    pub fn new(width: u16, height: u16) -> (r: Renderer)
        ensures
            r@ == (RenderState { width, height, previous: Map::empty(), frame: 0 }),
    {
        Renderer { width, height, previous: Frame::new(), frame: 0 }
    }

    /// Takes the new size of the screen, and forgets what it showed, so that
    /// the next frame is drawn whole.
    pub fn resize(&mut self, width: u16, height: u16)
        ensures
            final(self)@ == (RenderState {
                width,
                height,
                previous: Map::empty(),
                frame: old(self)@.frame,
            }),
    {
        self.width = width;
        self.height = height;
        self.previous = Frame::new();
    }

    /// Counts a new frame (after the largest count, from 0 again) and gives
    /// its number.
    pub fn begin_frame(&mut self) -> (n: u64)
        ensures
            n == (if old(self)@.frame == u64::MAX { 0 } else { (old(self)@.frame + 1) as u64 }),
            final(self)@ == (RenderState { frame: n, ..old(self)@ }),
    {
        self.frame = self.frame.wrapping_add(1);
        self.frame
    }

    /// The cells that the falling columns light on the screen, column after
    /// column and head first; `heads[c]` is the row of the head of
    /// `columns[c]`.
    pub fn visible_cells(&self, columns: &Vec<Column>, heads: &Vec<i32>) -> (cells: Vec<TrailCell>)
        requires
            columns.len() == heads.len(),
        ensures
            cells@ == frame_cells(self@.width, self@.height, columns@, heads@, columns@.len()),
            forall|j: int|
                0 <= j < cells@.len() ==> exists|c: int|
                    0 <= c < columns@.len() && lights(
                        self@.width,
                        self@.height,
                        columns@[c],
                        heads@[c],
                        #[trigger] cells@[j],
                    ),
            forall|c: int, d: int|
                0 <= c < columns@.len() && 0 <= d && columns@[c].active && d
                    < columns@[c].trail_length && d < columns@[c].trail@.len() && 0 <= heads@[c]
                    - d < self@.height && columns@[c].x < self@.width ==> cells@.contains(
                    #[trigger] glyph_cell(columns@[c], heads@[c], d),
                ),
    {
        let mut out: Vec<TrailCell> = Vec::new();
        let mut c: usize = 0;
        while c < columns.len()
            invariant
                columns.len() == heads.len(),
                c <= columns.len(),
                out@ == frame_cells(self.width, self.height, columns@, heads@, c as nat),
            decreases columns.len() - c,
        {
            let col = &columns[c];
            let head = heads[c];
            let ghost base = out@;
            if col.active {
                let mut i: usize = 0;
                while i < col.trail_length
                    invariant
                        i <= col.trail_length,
                        out@ == base + lit_cells_upto(self.width, self.height, *col, head, i as nat),
                    decreases col.trail_length - i,
                {
                    let ghost before = out@;
                    if head >= 0 && (i as u64) <= (head as u64) {
                        let y = head as u64 - i as u64;
                        if y < self.height as u64 && col.x < self.width && i < col.trail.len() {
                            out.push(
                                TrailCell {
                                    x: col.x,
                                    y: y as u16,
                                    glyph: col.trail[i],
                                    depth: i,
                                    trail_length: col.trail_length,
                                },
                            );
                        }
                    }
                    proof {
                        let lc = lit_cell(self.width, self.height, *col, head, i as nat);
                        let prev_cells = lit_cells_upto(self.width, self.height, *col, head, i as nat);
                        assert(lit_cells_upto(self.width, self.height, *col, head, (i + 1) as nat)
                            == match lc {
                            Some(x) => prev_cells.push(x),
                            None => prev_cells,
                        });
                        if lc is Some {
                            assert(out@ =~= base + prev_cells.push(lc->0));
                        }
                    }
                    i = i + 1;
                }
            } else {
                proof {
                    assert(out@ =~= base + seq![]);
                }
            }
            proof {
                assert(frame_cells(self.width, self.height, columns@, heads@, (c + 1) as nat)
                    == base + column_cells(self.width, self.height, columns@[c as int], heads@[c as int]));
            }
            c = c + 1;
        }
        proof {
            lemma_frame_cells_are_lit(self.width, self.height, columns@, heads@, columns@.len());
        }
        out
    }
}

/// Whether two optional styles are the same.
fn same_shown(a: Option<&CellStyle>, b: Option<&CellStyle>) -> (r: bool)
    ensures
        r == (match (a, b) {
            (Some(x), Some(y)) => *x == *y,
            (None, None) => true,
            _ => false,
        }),
{
    match (a, b) {
        (Some(x), Some(y)) => x.glyph == y.glyph && x.color.r == y.color.r && x.color.g == y.color.g
            && x.color.b == y.color.b && x.bold == y.bold,
        (None, None) => true,
        _ => false,
    }
}

impl Renderer {
    /// The cells to redraw to turn the screen of the last frame into
    /// `current`: every cell that differs, once, with what `current` shows
    /// there (`None` where it went dark), and no other.
    pub fn changes(&self, current: &Frame) -> (ups: Vec<CellUpdate>)
        ensures
            is_redraw(self@.previous, current@, ups@),
    {
        let prev = &self.previous;
        let pk = prev.keys();
        let ck = current.keys();
        let mut ups: Vec<CellUpdate> = Vec::new();
        let mut i: usize = 0;
        while i < pk.len()
            invariant
                pk@.no_duplicates(),
                forall|k: u32| prev@.contains_key(k) <==> pk@.contains(k),
                i <= pk.len(),
                forall|j: int|
                    0 <= j < ups@.len() ==> shown(prev@, update_key(#[trigger] ups@[j])) != shown(
                        current@,
                        update_key(ups@[j]),
                    ) && ups@[j].style == shown(current@, update_key(ups@[j])),
                forall|j: int, l: int|
                    0 <= j < l < ups@.len() ==> update_key(#[trigger] ups@[j]) != update_key(
                        #[trigger] ups@[l],
                    ),
                forall|j: int|
                    0 <= j < ups@.len() ==> exists|m: int|
                        0 <= m < i && pk@[m] == update_key(#[trigger] ups@[j]),
                forall|m: int|
                    0 <= m < i && shown(prev@, #[trigger] pk@[m]) != shown(current@, pk@[m])
                        ==> exists|j: int| 0 <= j < ups@.len() && update_key(#[trigger] ups@[j]) == pk@[m],
            decreases pk.len() - i,
        {
            let k = pk[i];
            assert(pk@.contains(k));
            let p = prev.cells.get(&k);
            let c = current.cells.get(&k);
            if !same_shown(p, c) {
                let xy = cell_of(k);
                let style = match c {
                    Some(s) => Some(*s),
                    None => None,
                };
                let ghost before = ups@;
                ups.push(CellUpdate { x: xy.0, y: xy.1, style });
                proof {
                    assert(update_key(ups@[before.len() as int]) == k);
                    assert forall|j: int, l: int|
                        0 <= j < l < ups@.len() implies update_key(#[trigger] ups@[j]) != update_key(
                        #[trigger] ups@[l],
                    ) by {
                        if l == before.len() {
                            assert(ups@[j] == before[j]);
                            let m = choose|m: int| 0 <= m < i && pk@[m] == update_key(before[j]);
                            assert(pk@[m] != pk@[i as int]);
                        } else {
                            assert(ups@[j] == before[j] && ups@[l] == before[l]);
                        }
                    }
                    assert forall|j: int| 0 <= j < ups@.len() implies exists|m: int|
                        0 <= m < i + 1 && pk@[m] == update_key(#[trigger] ups@[j]) by {
                        if j == before.len() {
                            assert(pk@[i as int] == update_key(ups@[j]));
                        } else {
                            assert(ups@[j] == before[j]);
                            let m = choose|m: int| 0 <= m < i && pk@[m] == update_key(before[j]);
                            assert(pk@[m] == update_key(ups@[j]));
                        }
                    }
                    assert forall|m: int|
                        0 <= m < i + 1 && shown(prev@, #[trigger] pk@[m]) != shown(current@, pk@[m])
                        implies exists|j: int| 0 <= j < ups@.len() && update_key(#[trigger] ups@[j]) == pk@[m] by {
                        if m == i {
                            assert(update_key(ups@[before.len() as int]) == pk@[m]);
                        } else {
                            let j = choose|j: int| 0 <= j < before.len() && update_key(#[trigger] before[j]) == pk@[m];
                            assert(ups@[j] == before[j]);
                        }
                    }
                }
            }
            i = i + 1;
        }
        let ghost first = ups@;
        proof {
            assert forall|j: int| 0 <= j < first.len() implies prev@.contains_key(
                update_key(#[trigger] first[j]),
            ) by {
                let m = choose|m: int| 0 <= m < pk@.len() && pk@[m] == update_key(first[j]);
                assert(pk@.contains(pk@[m]));
            }
            assert forall|k: u32|
                #[trigger] prev@.contains_key(k) && shown(prev@, k) != shown(current@, k)
                implies exists|j: int| 0 <= j < ups@.len() && update_key(#[trigger] ups@[j]) == k by {
                assert(pk@.contains(k));
                let m = choose|m: int| 0 <= m < pk@.len() && pk@[m] == k;
                assert(shown(prev@, pk@[m]) != shown(current@, pk@[m]));
            }
        }
        let mut i: usize = 0;
        while i < ck.len()
            invariant
                pk@.no_duplicates(),
                ck@.no_duplicates(),
                forall|k: u32| prev@.contains_key(k) <==> pk@.contains(k),
                forall|k: u32| current@.contains_key(k) <==> ck@.contains(k),
                i <= ck.len(),
                first.len() <= ups@.len(),
                forall|j: int| 0 <= j < first.len() ==> ups@[j] == first[j],
                forall|j: int| 0 <= j < first.len() ==> prev@.contains_key(update_key(#[trigger] first[j])),
                forall|j: int|
                    first.len() <= j < ups@.len() ==> !prev@.contains_key(update_key(#[trigger] ups@[j]))
                        && exists|m: int| 0 <= m < i && ck@[m] == update_key(ups@[j]),
                forall|j: int|
                    0 <= j < ups@.len() ==> shown(prev@, update_key(#[trigger] ups@[j])) != shown(
                        current@,
                        update_key(ups@[j]),
                    ) && ups@[j].style == shown(current@, update_key(ups@[j])),
                forall|j: int, l: int|
                    0 <= j < l < ups@.len() ==> update_key(#[trigger] ups@[j]) != update_key(
                        #[trigger] ups@[l],
                    ),
                forall|k: u32|
                    #[trigger] prev@.contains_key(k) && shown(prev@, k) != shown(current@, k)
                        ==> exists|j: int| 0 <= j < ups@.len() && update_key(#[trigger] ups@[j]) == k,
                forall|m: int|
                    0 <= m < i && !prev@.contains_key(#[trigger] ck@[m])
                        ==> exists|j: int| 0 <= j < ups@.len() && update_key(#[trigger] ups@[j]) == ck@[m],
            decreases ck.len() - i,
        {
            let k = ck[i];
            assert(ck@.contains(k));
            if !prev.cells.contains_key(&k) {
                let c = current.cells.get(&k);
                let style = match c {
                    Some(s) => Some(*s),
                    None => None,
                };
                let xy = cell_of(k);
                let ghost before = ups@;
                ups.push(CellUpdate { x: xy.0, y: xy.1, style });
                proof {
                    assert(update_key(ups@[before.len() as int]) == k);
                    assert forall|j: int, l: int|
                        0 <= j < l < ups@.len() implies update_key(#[trigger] ups@[j]) != update_key(
                        #[trigger] ups@[l],
                    ) by {
                        if l == before.len() {
                            assert(ups@[j] == before[j]);
                            if j < first.len() {
                                assert(prev@.contains_key(update_key(first[j])));
                            } else {
                                let m = choose|m: int| 0 <= m < i && ck@[m] == update_key(before[j]);
                                assert(ck@[m] != ck@[i as int]);
                            }
                        } else {
                            assert(ups@[j] == before[j] && ups@[l] == before[l]);
                        }
                    }
                    assert forall|j: int|
                        first.len() <= j < ups@.len() implies !prev@.contains_key(update_key(#[trigger] ups@[j]))
                            && exists|m: int| 0 <= m < i + 1 && ck@[m] == update_key(ups@[j]) by {
                        if j == before.len() {
                            assert(ck@[i as int] == update_key(ups@[j]));
                        } else {
                            assert(ups@[j] == before[j]);
                            let m = choose|m: int| 0 <= m < i && ck@[m] == update_key(before[j]);
                            assert(ck@[m] == update_key(ups@[j]));
                        }
                    }
                    assert forall|k2: u32|
                        #[trigger] prev@.contains_key(k2) && shown(prev@, k2) != shown(current@, k2)
                        implies exists|j: int| 0 <= j < ups@.len() && update_key(#[trigger] ups@[j]) == k2 by {
                        let j = choose|j: int| 0 <= j < before.len() && update_key(#[trigger] before[j]) == k2;
                        assert(ups@[j] == before[j]);
                    }
                    assert forall|m: int|
                        0 <= m < i + 1 && !prev@.contains_key(#[trigger] ck@[m])
                        implies exists|j: int| 0 <= j < ups@.len() && update_key(#[trigger] ups@[j]) == ck@[m] by {
                        if m == i {
                            assert(update_key(ups@[before.len() as int]) == ck@[m]);
                        } else {
                            let j = choose|j: int| 0 <= j < before.len() && update_key(#[trigger] before[j]) == ck@[m];
                            assert(ups@[j] == before[j]);
                        }
                    }
                }
            }
            i = i + 1;
        }
        proof {
            assert forall|k: u32| #[trigger] shown(prev@, k) != shown(current@, k) implies exists|j: int|
                0 <= j < ups@.len() && update_key(#[trigger] ups@[j]) == k by {
                if prev@.contains_key(k) {
                } else {
                    assert(current@.contains_key(k));
                    assert(ck@.contains(k));
                    let m = choose|m: int| 0 <= m < ck@.len() && ck@[m] == k;
                    assert(!prev@.contains_key(ck@[m]));
                }
            }
        }
        ups
    }

    /// Takes `current` as what the screen shows after this frame.
    pub fn commit(&mut self, current: Frame)
        ensures
            final(self)@ == (RenderState { previous: current@, ..old(self)@ }),
    {
        self.previous = current;
    }
}

/// Whether no two updates of `ups` redraw the same cell.
pub open spec fn distinct_cells(ups: Seq<CellUpdate>) -> bool {
    forall|i: int, j: int|
        0 <= i < j < ups.len() ==> update_key(#[trigger] ups[i]) != update_key(#[trigger] ups[j])
}

/// After updates that each redraw a different cell, a cell shows what its
/// update drew, and a cell that no update drew shows what it showed before.
proof fn lemma_apply_shown(screen: Map<u32, CellStyle>, ups: Seq<CellUpdate>, k: u32)
    requires
        distinct_cells(ups),
    ensures
        forall|i: int|
            0 <= i < ups.len() && update_key(#[trigger] ups[i]) == k ==> shown(
                apply_updates(screen, ups),
                k,
            ) == ups[i].style,
        (forall|i: int| 0 <= i < ups.len() ==> update_key(#[trigger] ups[i]) != k) ==> shown(
            apply_updates(screen, ups),
            k,
        ) == shown(screen, k),
    decreases ups.len(),
{
    if ups.len() > 0 {
        let rest = ups.drop_last();
        assert(distinct_cells(rest)) by {
            assert forall|i: int, j: int| 0 <= i < j < rest.len() implies update_key(
                #[trigger] rest[i],
            ) != update_key(#[trigger] rest[j]) by {
                assert(rest[i] == ups[i] && rest[j] == ups[j]);
            }
        }
        lemma_apply_shown(screen, rest, k);
        let u = ups.last();
        assert forall|i: int|
            0 <= i < ups.len() && update_key(#[trigger] ups[i]) == k implies shown(
            apply_updates(screen, ups),
            k,
        ) == ups[i].style by {
            if i < ups.len() - 1 {
                assert(rest[i] == ups[i]);
                assert(update_key(ups[i]) != update_key(ups[ups.len() - 1]));
            }
        }
        if forall|i: int| 0 <= i < ups.len() ==> update_key(#[trigger] ups[i]) != k {
            assert(update_key(ups[ups.len() - 1]) != k);
            assert forall|i: int| 0 <= i < rest.len() implies update_key(#[trigger] rest[i]) != k by {
                assert(rest[i] == ups[i]);
            }
        }
    }
}

/// Two frames in which every cell shows the same are the same frame.
proof fn lemma_same_shown_same_frame(a: Map<u32, CellStyle>, b: Map<u32, CellStyle>)
    requires
        forall|k: u32| #[trigger] shown(a, k) == shown(b, k),
    ensures
        a == b,
{
    assert forall|k: u32| a.contains_key(k) <==> b.contains_key(k) by {
        assert(shown(a, k) == shown(b, k));
    }
    assert forall|k: u32| a.contains_key(k) implies a[k] == b[k] by {
        assert(shown(a, k) == shown(b, k));
    }
    assert(a =~= b);
}

/// Drawing the updates of a redraw from the last frame to a new one, on a
/// screen that shows the last frame, leaves it showing the new frame.
pub proof fn lemma_redraw_shows_new_frame(
    prev: Map<u32, CellStyle>,
    cur: Map<u32, CellStyle>,
    ups: Seq<CellUpdate>,
)
    requires
        is_redraw(prev, cur, ups),
    ensures
        apply_updates(prev, ups) == cur,
{
    assert forall|k: u32| #[trigger] shown(apply_updates(prev, ups), k) == shown(cur, k) by {
        lemma_apply_shown(prev, ups, k);
        if exists|i: int| 0 <= i < ups.len() && update_key(#[trigger] ups[i]) == k {
            let i = choose|i: int| 0 <= i < ups.len() && update_key(#[trigger] ups[i]) == k;
            assert(ups[i].style == shown(cur, update_key(ups[i])));
        } else {
            assert(shown(prev, k) == shown(cur, k));
        }
    }
    lemma_same_shown_same_frame(apply_updates(prev, ups), cur);
}

/// A frame that is the same as the last one redraws nothing.
pub proof fn lemma_unchanged_frame_redraws_nothing(frame: Map<u32, CellStyle>, ups: Seq<CellUpdate>)
    requires
        is_redraw(frame, frame, ups),
    ensures
        ups.len() == 0,
{
    if ups.len() > 0 {
        let u = ups[0];
        assert(shown(frame, update_key(u)) != shown(frame, update_key(u)));
    }
}

/// On a screen that shows nothing, as after a resize, a redraw draws every
/// lit cell of the new frame, and blanks none.
pub proof fn lemma_redraw_from_blank_draws_all(cur: Map<u32, CellStyle>, ups: Seq<CellUpdate>)
    requires
        is_redraw(Map::empty(), cur, ups),
    ensures
        forall|k: u32|
            cur.contains_key(k) ==> exists|i: int|
                0 <= i < ups.len() && update_key(#[trigger] ups[i]) == k && ups[i].style == Some(
                    cur[k],
                ),
        forall|i: int| 0 <= i < ups.len() ==> (#[trigger] ups[i]).style is Some,
{
    assert forall|k: u32| cur.contains_key(k) implies exists|i: int|
        0 <= i < ups.len() && update_key(#[trigger] ups[i]) == k && ups[i].style == Some(cur[k]) by {
        assert(shown(Map::empty(), k) != shown(cur, k));
        let i = choose|i: int| 0 <= i < ups.len() && update_key(#[trigger] ups[i]) == k;
        assert(ups[i].style == shown(cur, update_key(ups[i])));
    }
    assert forall|i: int| 0 <= i < ups.len() implies (#[trigger] ups[i]).style is Some by {
        assert(shown(Map::<u32, CellStyle>::empty(), update_key(ups[i])) != shown(
            cur,
            update_key(ups[i]),
        ));
    }
}

/// Every cell that the columns light lies on the screen.
pub proof fn lemma_lit_cells_on_screen(
    width: u16,
    height: u16,
    cols: Seq<Column>,
    heads: Seq<i32>,
    n: nat,
)
    requires
        n <= cols.len(),
        n <= heads.len(),
    ensures
        forall|i: int|
            0 <= i < frame_cells(width, height, cols, heads, n).len() ==> {
                let c = #[trigger] frame_cells(width, height, cols, heads, n)[i];
                c.x < width && c.y < height
            },
    decreases n,
{
    if n > 0 {
        lemma_lit_cells_on_screen(width, height, cols, heads, (n - 1) as nat);
        let col = cols[n - 1];
        let head = heads[n - 1];
        if col.active {
            lemma_column_cells_on_screen(width, height, col, head, col.trail_length as nat);
        }
        let before = frame_cells(width, height, cols, heads, (n - 1) as nat);
        let mine = column_cells(width, height, col, head);
        assert forall|i: int|
            0 <= i < frame_cells(width, height, cols, heads, n).len() implies {
            let c = #[trigger] frame_cells(width, height, cols, heads, n)[i];
            c.x < width && c.y < height
        } by {
            if i < before.len() {
                assert(frame_cells(width, height, cols, heads, n)[i] == before[i]);
            } else {
                assert(frame_cells(width, height, cols, heads, n)[i] == mine[i - before.len()]);
            }
        }
    }
}

/// Every cell that one column lights lies on the screen.
proof fn lemma_column_cells_on_screen(width: u16, height: u16, col: Column, head: i32, n: nat)
    ensures
        forall|i: int|
            0 <= i < lit_cells_upto(width, height, col, head, n).len() ==> {
                let c = #[trigger] lit_cells_upto(width, height, col, head, n)[i];
                c.x < width && c.y < height
            },
    decreases n,
{
    if n > 0 {
        lemma_column_cells_on_screen(width, height, col, head, (n - 1) as nat);
        let before = lit_cells_upto(width, height, col, head, (n - 1) as nat);
        assert forall|i: int|
            0 <= i < lit_cells_upto(width, height, col, head, n).len() implies {
            let c = #[trigger] lit_cells_upto(width, height, col, head, n)[i];
            c.x < width && c.y < height
        } by {
            if i < before.len() {
                assert(lit_cells_upto(width, height, col, head, n)[i] == before[i]);
            }
        }
    }
}

/// The step, from 0 to 23, of the shimmer wave that travels over the cell
/// at `x`, `y` in frame number `frame`.
pub fn pulse_phase(frame: u64, x: u16, y: u16) -> (p: u64)
    requires
        frame + 3 * x + 5 * y <= u64::MAX,
    ensures
        p == (frame + 3 * x + 5 * y) % 24,
        p < 24,
{
    (frame + x as u64 * 3 + y as u64 * 5) % 24
}

/// The cell that the glyph at depth `d` of `col` lights when its head is on
/// row `head`: in the column of `col`, `d` rows above the head.
pub open spec fn glyph_cell(col: Column, head: i32, d: int) -> TrailCell {
    TrailCell {
        x: col.x,
        y: (head as int - d) as u16,
        glyph: col.trail@[d],
        depth: d as usize,
        trail_length: col.trail_length,
    }
}

/// Whether `cell` is lit by the falling column `col` whose head is on row
/// `head`, on a `width` by `height` screen: the column falls, the cell is in
/// its column, `cell.depth` rows above the head, on the screen, and shows
/// the glyph of the trail at that depth.
pub open spec fn lights(width: u16, height: u16, col: Column, head: i32, cell: TrailCell) -> bool {
    &&& col.active
    &&& cell.x == col.x
    &&& col.x < width
    &&& cell.depth < col.trail_length
    &&& cell.depth < col.trail@.len()
    &&& cell.y as int == head as int - cell.depth as int
    &&& cell.y < height
    &&& cell.glyph == col.trail@[cell.depth as int]
    &&& cell.trail_length == col.trail_length
}

/// The cells of the first `n` depths of a falling column are lit by it,
/// and every depth below `n` whose row is on the screen gives its cell.
proof fn lemma_lit_cells_upto_are_lit(
    width: u16,
    height: u16,
    col: Column,
    head: i32,
    n: nat,
)
    requires
        col.active,
        n <= col.trail_length,
    ensures
        forall|j: int|
            0 <= j < lit_cells_upto(width, height, col, head, n).len() ==> lights(
                width,
                height,
                col,
                head,
                #[trigger] lit_cells_upto(width, height, col, head, n)[j],
            ),
        forall|d: int|
            0 <= d < n && d < col.trail@.len() && 0 <= head - d < height && col.x < width
                ==> lit_cells_upto(width, height, col, head, n).contains(
                #[trigger] glyph_cell(col, head, d),
            ),
    decreases n,
{
    if n > 0 {
        lemma_lit_cells_upto_are_lit(width, height, col, head, (n - 1) as nat);
        let before = lit_cells_upto(width, height, col, head, (n - 1) as nat);
        let now = lit_cells_upto(width, height, col, head, n);
        assert forall|j: int| 0 <= j < now.len() implies lights(
            width,
            height,
            col,
            head,
            #[trigger] now[j],
        ) by {
            if j < before.len() {
                assert(now[j] == before[j]);
            }
        }
        assert forall|d: int|
            0 <= d < n && d < col.trail@.len() && 0 <= head - d < height && col.x < width
            implies now.contains(#[trigger] glyph_cell(col, head, d)) by {
            if d < n - 1 {
                let k = choose|k: int| 0 <= k < before.len() && before[k] == glyph_cell(col, head, d);
                assert(now[k] == before[k]);
            } else {
                assert(now[before.len() as int] == glyph_cell(col, head, d));
            }
        }
    }
}

/// Every cell that the first `n` columns light is lit by one of them, at
/// that column's own head row; and every glyph of those columns whose row is
/// on the screen gives its cell.
pub proof fn lemma_frame_cells_are_lit(
    width: u16,
    height: u16,
    cols: Seq<Column>,
    heads: Seq<i32>,
    n: nat,
)
    requires
        n <= cols.len(),
        n <= heads.len(),
    ensures
        forall|j: int|
            0 <= j < frame_cells(width, height, cols, heads, n).len() ==> exists|c: int|
                0 <= c < n && lights(
                    width,
                    height,
                    cols[c],
                    heads[c],
                    #[trigger] frame_cells(width, height, cols, heads, n)[j],
                ),
        forall|c: int, d: int|
            0 <= c < n && 0 <= d && cols[c].active && d < cols[c].trail_length && d
                < cols[c].trail@.len() && 0 <= heads[c] - d < height && cols[c].x < width
                ==> frame_cells(width, height, cols, heads, n).contains(
                #[trigger] glyph_cell(cols[c], heads[c], d),
            ),
    decreases n,
{
    if n > 0 {
        lemma_frame_cells_are_lit(width, height, cols, heads, (n - 1) as nat);
        let col = cols[n - 1];
        let head = heads[n - 1];
        let before = frame_cells(width, height, cols, heads, (n - 1) as nat);
        let mine = column_cells(width, height, col, head);
        let now = frame_cells(width, height, cols, heads, n);
        assert(now == before + mine);
        if col.active {
            lemma_lit_cells_upto_are_lit(width, height, col, head, col.trail_length as nat);
        }
        assert forall|j: int| 0 <= j < now.len() implies exists|c: int|
            0 <= c < n && lights(width, height, cols[c], heads[c], #[trigger] now[j]) by {
            if j < before.len() {
                assert(now[j] == before[j]);
                let c = choose|c: int|
                    0 <= c < n - 1 && lights(width, height, cols[c], heads[c], #[trigger] before[j]);
                assert(lights(width, height, cols[c], heads[c], now[j]));
            } else {
                assert(now[j] == mine[j - before.len()]);
                assert(lights(width, height, cols[n - 1], heads[n - 1], now[j]));
            }
        }
        assert forall|c: int, d: int|
            0 <= c < n && 0 <= d && cols[c].active && d < cols[c].trail_length && d
                < cols[c].trail@.len() && 0 <= heads[c] - d < height && cols[c].x < width
            implies now.contains(#[trigger] glyph_cell(cols[c], heads[c], d)) by {
            if c < n - 1 {
                let k = choose|k: int| 0 <= k < before.len() && before[k] == glyph_cell(cols[c], heads[c], d);
                assert(now[k] == before[k]);
            } else {
                let k = choose|k: int| 0 <= k < mine.len() && mine[k] == glyph_cell(cols[c], heads[c], d);
                assert(now[before.len() + k] == mine[k]);
            }
        }
    }
}

/// In the frame of the first `n` lit cells, a cell is lit exactly when one
/// of them is at its position; it shows the glyph and colour of the last of
/// them there, bold exactly when that one is the head of its trail.
pub proof fn lemma_composed_cells(cells: Seq<TrailCell>, colors: Seq<Rgb>, n: nat)
    requires
        n <= cells.len(),
        n <= colors.len(),
    ensures
        forall|k: u32|
            composed(cells, colors, n).contains_key(k) <==> exists|i: int|
                0 <= i < n && cell_key(cells[i].x, cells[i].y) == k,
        forall|i: int|
            0 <= i < n && (forall|j: int|
                i < j < n ==> cell_key(cells[j].x, cells[j].y) != cell_key(cells[i].x, cells[i].y))
                ==> composed(cells, colors, n)[cell_key(cells[i].x, cells[i].y)] == (CellStyle {
                glyph: cells[i].glyph,
                color: colors[i],
                bold: cells[i].depth == 0,
            }),
    decreases n,
{
    if n > 0 {
        lemma_composed_cells(cells, colors, (n - 1) as nat);
        let m = composed(cells, colors, n);
        let before = composed(cells, colors, (n - 1) as nat);
        let last = cells[n - 1];
        assert forall|k: u32| m.contains_key(k) <==> exists|i: int|
            0 <= i < n && cell_key(cells[i].x, cells[i].y) == k by {
            if m.contains_key(k) && k != cell_key(last.x, last.y) {
                assert(before.contains_key(k));
                let i = choose|i: int| 0 <= i < n - 1 && cell_key(cells[i].x, cells[i].y) == k;
                assert(0 <= i < n);
            }
            if exists|i: int| 0 <= i < n && cell_key(cells[i].x, cells[i].y) == k {
                let i = choose|i: int| 0 <= i < n && cell_key(cells[i].x, cells[i].y) == k;
                if i < n - 1 {
                    assert(before.contains_key(k));
                }
            }
        }
        assert forall|i: int|
            0 <= i < n && (forall|j: int|
                i < j < n ==> cell_key(cells[j].x, cells[j].y) != cell_key(cells[i].x, cells[i].y))
            implies m[cell_key(cells[i].x, cells[i].y)] == (CellStyle {
            glyph: cells[i].glyph,
            color: colors[i],
            bold: cells[i].depth == 0,
        }) by {
            if i < n - 1 {
                assert(cell_key(cells[n - 1].x, cells[n - 1].y) != cell_key(cells[i].x, cells[i].y));
            }
        }
    }
}

} // verus!
