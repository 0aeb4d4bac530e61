use crate::support_type::{direction_step, ColorId, Direction};
use crate::text::chars_of;
use crate::vec2d::{position_of, Vec2d};
use vstd::arithmetic::div_mod::lemma_fundamental_div_mod_converse;
use vstd::prelude::*;

verus! {

/// A character that a monitor can show: printable ASCII.
pub open spec fn printable(c: char) -> bool {
    32 <= (c as u32) <= 126
}

/// One cell of a monitor: a printable character and its two colors.
#[derive(Debug, Clone, Copy, PartialEq, Eq, Structural, PartialOrd, Ord, Hash)]
pub struct AsIfPixel {
    text: char,
    pub background_color: ColorId,
    pub text_color: ColorId,
}

impl AsIfPixel {
    /// The cell with this character and these colors.
    pub closed spec fn make(text: char, background: ColorId, foreground: ColorId) -> Self {
        AsIfPixel { text, background_color: background, text_color: foreground }
    }

    /// A blank cell of one color.
    pub open spec fn blank(color: ColorId) -> Self {
        AsIfPixel::make(' ', color, color)
    }

    /// The character of the cell.
    pub closed spec fn glyph(self) -> char {
        self.text
    }

    pub closed spec fn back_color(self) -> ColorId {
        self.background_color
    }

    pub closed spec fn fore_color(self) -> ColorId {
        self.text_color
    }

    /// A constructed cell holds the character and colors it was made of,
    /// so cells made differently differ.
    pub proof fn lemma_make(text: char, background: ColorId, foreground: ColorId)
        ensures
            AsIfPixel::make(text, background, foreground).glyph() == text,
            AsIfPixel::make(text, background, foreground).back_color() == background,
            AsIfPixel::make(text, background, foreground).fore_color() == foreground,
    {
    }

    /// `None` when `text` is not printable ASCII.
    pub fn new(text: char, background_color: ColorId, text_color: ColorId) -> (r: Option<Self>)
        ensures
            printable(text) ==> r == Some(AsIfPixel::make(text, background_color, text_color)),
            !printable(text) ==> r is None,
    {
        if (text as u32) < 32 || (text as u32) > 126 {
            None
        } else {
            Some(AsIfPixel { text, background_color, text_color })
        }
    }

    /// A blank cell of one color.
    pub fn colored_whitespace(color: ColorId) -> (r: Self)
        ensures
            r == AsIfPixel::blank(color),
    {
        AsIfPixel { text: ' ', background_color: color, text_color: color }
    }

    pub fn text(&self) -> (r: char)
        ensures
            r == self.glyph(),
    {
        self.text
    }

    pub fn background(&self) -> (r: ColorId)
        ensures
            r == self.back_color(),
    {
        self.background_color
    }

    pub fn foreground(&self) -> (r: ColorId)
        ensures
            r == self.fore_color(),
    {
        self.text_color
    }
}

/// What a local monitor holds: its size, its cells column after column
/// (cell `(x, y)`, counted from 1, at `(x - 1) * height + (y - 1)`), and
/// which cells changed since the last flush.
pub struct Screen {
    pub width: nat,
    pub height: nat,
    pub pixels: Seq<AsIfPixel>,
    pub dirty: Seq<bool>,
}

pub open spec fn screen_wf(s: Screen) -> bool {
    &&& s.pixels.len() == s.width * s.height
    &&& s.dirty.len() == s.pixels.len()
}

pub open spec fn in_bounds(s: Screen, x: int, y: int) -> bool {
    1 <= x <= s.width && 1 <= y <= s.height
}

pub open spec fn cell_index(s: Screen, x: int, y: int) -> int {
    (x - 1) * s.height + (y - 1)
}

/// A write of one cell: outside the screen nothing happens; a cell that
/// already holds the pixel stays as it is, dirty bit included.
pub open spec fn write_cell(s: Screen, x: int, y: int, p: AsIfPixel) -> Screen {
    if in_bounds(s, x, y) && s.pixels[cell_index(s, x, y)] != p {
        Screen {
            pixels: s.pixels.update(cell_index(s, x, y), p),
            dirty: s.dirty.update(cell_index(s, x, y), true),
            ..s
        }
    } else {
        s
    }
}

/// A fresh screen of one pixel everywhere, every cell dirty.
pub open spec fn filled(width: nat, height: nat, p: AsIfPixel) -> Screen {
    Screen {
        width,
        height,
        pixels: Seq::new(width * height, |i: int| p),
        dirty: Seq::new(width * height, |i: int| true),
    }
}

/// Every cell written blank in one color.
pub open spec fn painted(s: Screen, color: ColorId) -> Screen {
    let b = AsIfPixel::blank(color);
    Screen {
        pixels: Seq::new(s.pixels.len(), |i: int| b),
        dirty: Seq::new(s.dirty.len(), |i: int| s.dirty[i] || s.pixels[i] != b),
        ..s
    }
}

/// The first `k` cells written blank in one color, the others untouched.
pub open spec fn painted_upto(s: Screen, color: ColorId, k: int) -> Screen {
    let b = AsIfPixel::blank(color);
    Screen {
        pixels: Seq::new(s.pixels.len(), |i: int| if i < k { b } else { s.pixels[i] }),
        dirty: Seq::new(
            s.dirty.len(),
            |i: int|
                if i < k {
                    s.dirty[i] || s.pixels[i] != b
                } else {
                    s.dirty[i]
                },
        ),
        ..s
    }
}

/// Text written from `(x, y)` one character at a time, stepping by
/// `(dx, dy)`. A character that is not printable is skipped without a step;
/// the writing stops once a step leaves the screen.
pub open spec fn text_written(
    s: Screen,
    x: int,
    y: int,
    dx: int,
    dy: int,
    t: Seq<char>,
    background: ColorId,
    foreground: ColorId,
) -> Screen
    decreases t.len(),
{
    if t.len() == 0 {
        s
    } else if !printable(t[0]) {
        text_written(s, x, y, dx, dy, t.skip(1), background, foreground)
    } else {
        let s2 = write_cell(s, x, y, AsIfPixel::make(t[0], background, foreground));
        if x + dx <= 0 || x + dx > s.width || y + dy <= 0 || y + dy > s.height {
            s2
        } else {
            text_written(s2, x + dx, y + dy, dx, dy, t.skip(1), background, foreground)
        }
    }
}

/// The position, counted from 1, of cell `i`.
pub open spec fn position_1(s: Screen, i: int) -> (usize, usize) {
    ((i / s.height as int + 1) as usize, (i % s.height as int + 1) as usize)
}

/// The dirty cells among the first `k`, in order, with their positions.
pub open spec fn dirty_cells_upto(s: Screen, k: int) -> Seq<(usize, usize, AsIfPixel)>
    decreases k,
{
    if k <= 0 {
        Seq::empty()
    } else {
        let prev = dirty_cells_upto(s, k - 1);
        if s.dirty[k - 1] {
            prev.push((position_1(s, k - 1).0, position_1(s, k - 1).1, s.pixels[k - 1]))
        } else {
            prev
        }
    }
}

/// Every dirty cell, in order, with its position.
pub open spec fn dirty_cells(s: Screen) -> Seq<(usize, usize, AsIfPixel)> {
    dirty_cells_upto(s, s.pixels.len() as int)
}

/// How many of the flags are set.
pub open spec fn count_set(d: Seq<bool>) -> nat
    decreases d.len(),
{
    if d.len() == 0 {
        0
    } else {
        count_set(d.drop_last()) + if d.last() {
            1nat
        } else {
            0nat
        }
    }
}

/// A screen after a flush: no cell dirty.
pub open spec fn flushed(s: Screen) -> Screen {
    Screen { dirty: Seq::new(s.dirty.len(), |i: int| false), ..s }
}

/// A monitor kept locally: writes land here, and a flush sends only the
/// cells that changed. Positions count from 1.
#[derive(Debug, Clone, PartialEq, Eq, PartialOrd, Ord, Hash)]
pub struct LocalMonitor {
    data: Vec2d<AsIfPixel>,
    changed: Vec2d<bool>,
    wait_millis: u64,
    wait_count: usize,
}

impl View for LocalMonitor {
    type V = Screen;

    closed spec fn view(&self) -> Screen {
        Screen {
            width: self.data.width(),
            height: self.data.height(),
            pixels: self.data.cells(),
            dirty: self.changed.cells(),
        }
    }
}

impl LocalMonitor {
    /// Both grids are well formed and of one size.
    pub closed spec fn wf(&self) -> bool {
        &&& self.data.wf()
        &&& self.changed.wf()
        &&& self.changed.width() == self.data.width()
        &&& self.changed.height() == self.data.height()
        &&& self.wait_millis == 50
        &&& self.wait_count == 75
    }

    pub proof fn lemma_wf(&self)
        requires
            self.wf(),
        ensures
            screen_wf(self@),
    {
        self.data.lemma_wf();
        self.changed.lemma_wf();
    }

    /// A monitor of `x` by `y` cells of `pixel`, all of them dirty.
    pub fn new(x: usize, y: usize, pixel: AsIfPixel) -> (r: Self)
        requires
            x * y <= usize::MAX,
        ensures
            r.wf(),
            r@ == filled(x as nat, y as nat, pixel),
    {
        let r = LocalMonitor {
            data: Vec2d::new_filled_copy(x, y, pixel),
            changed: Vec2d::new_filled_copy(x, y, true),
            wait_millis: 50,
            wait_count: 75,
        };
        assert(r@.pixels =~= filled(x as nat, y as nat, pixel).pixels);
        assert(r@.dirty =~= filled(x as nat, y as nat, pixel).dirty);
        r
    }

    /// Replaces both grids: every cell holds `pixel` and is dirty, whether
    /// or not the size changed.
    pub fn resize(&mut self, x: usize, y: usize, pixel: AsIfPixel)
        requires
            old(self).wf(),
            x * y <= usize::MAX,
        ensures
            final(self).wf(),
            final(self)@ == filled(x as nat, y as nat, pixel),
    {
        self.data = Vec2d::new_filled_copy(x, y, pixel);
        self.changed = Vec2d::new_filled_copy(x, y, true);
        assert(self@.pixels =~= filled(x as nat, y as nat, pixel).pixels);
        assert(self@.dirty =~= filled(x as nat, y as nat, pixel).dirty);
    }

    pub fn size(&self) -> (r: (usize, usize))
        ensures
            r.0 == self@.width,
            r.1 == self@.height,
    {
        self.data.size()
    }

    pub fn x(&self) -> (r: usize)
        ensures
            r == self@.width,
    {
        self.data.x()
    }

    pub fn y(&self) -> (r: usize)
        ensures
            r == self@.height,
    {
        self.data.y()
    }

    /// How long a cell-by-cell flush pauses, in milliseconds, and after how
    /// many cells.
    pub fn pacing(&self) -> (r: (u64, usize))
        requires
            self.wf(),
        ensures
            r == (50u64, 75usize),
    {
        (self.wait_millis, self.wait_count)
    }

    /// The cell at `(x, y)`; `None` outside the monitor.
    pub fn get(&self, x: usize, y: usize) -> (r: Option<AsIfPixel>)
        requires
            self.wf(),
        ensures
            in_bounds(self@, x as int, y as int) ==> r == Some(
                self@.pixels[cell_index(self@, x as int, y as int)],
            ),
            !in_bounds(self@, x as int, y as int) ==> r is None,
    {
        if x > self.x() || y > self.y() || x == 0 || y == 0 {
            None
        } else {
            Some(*self.data.get(x - 1, y - 1))
        }
    }

    /// Writes one cell; outside the monitor nothing happens, and a cell
    /// that already holds `pixel` is not marked dirty again.
    pub fn write(&mut self, x: usize, y: usize, pixel: AsIfPixel)
        requires
            old(self).wf(),
        ensures
            final(self).wf(),
            final(self)@ == write_cell(old(self)@, x as int, y as int, pixel),
    {
        if x > self.x() || y > self.y() || x == 0 || y == 0 {
            return;
        }
        let p0 = *self.data.get(x - 1, y - 1);
        if p0 != pixel {
            self.data.set(x - 1, y - 1, pixel);
            self.changed.set(x - 1, y - 1, true);
        }
    }

    /// Writes a blank cell of `color` everywhere, through `write`: cells
    /// that are already that blank stay as they are.
    pub fn clear_with(&mut self, color: ColorId)
        requires
            old(self).wf(),
        ensures
            final(self).wf(),
            final(self)@ == painted(old(self)@, color),
    {
        let ghost s0 = self@;
        proof {
            self.lemma_wf();
        }
        let (w, h) = self.size();
        let n = self.data.cells_len();
        let mut a: usize = 0;
        let mut b: usize = 0;
        let mut k: usize = 0;
        let pixel = AsIfPixel::colored_whitespace(color);
        assert(painted_upto(s0, color, 0).pixels =~= s0.pixels);
        assert(painted_upto(s0, color, 0).dirty =~= s0.dirty);
        while k < n
            invariant
                self.wf(),
                screen_wf(s0),
                w == s0.width,
                h == s0.height,
                n == s0.pixels.len(),
                k <= n,
                position_of(k as int, h as int, a as int, b as int) || h == 0,
                pixel == AsIfPixel::blank(color),
                self@ == painted_upto(s0, color, k as int),
            decreases n - k,
        {
            assert(h > 0) by (nonlinear_arith)
                requires
                    k < n,
                    n == w * h,
            ;
            assert(a < w) by (nonlinear_arith)
                requires
                    a * h + b == k,
                    k < w * h,
                    b >= 0,
                    h > 0,
            ;
            proof {
                self.lemma_wf();
            }
            self.write(a + 1, b + 1, pixel);
            k = k + 1;
            assert(self@.pixels =~= painted_upto(s0, color, k as int).pixels);
            assert(self@.dirty =~= painted_upto(s0, color, k as int).dirty);
            if b + 1 == h {
                b = 0;
                a = a + 1;
                assert(a * h == (a - 1) * h + h) by (nonlinear_arith);
            } else {
                b = b + 1;
            }
        }
        assert(self@.pixels =~= painted(s0, color).pixels);
        assert(self@.dirty =~= painted(s0, color).dirty);
    }

    /// Writes `text` from `(x, y)` one character at a time, stepping in
    /// `direction`; characters that are not printable ASCII are skipped,
    /// and the writing stops once a step leaves the monitor.
    pub fn write_str(
        &mut self,
        x: usize,
        y: usize,
        direction: Direction,
        text: &str,
        background_color: ColorId,
        text_color: ColorId,
    )
        requires
            old(self).wf(),
        ensures
            final(self).wf(),
            final(self)@ == text_written(
                old(self)@,
                x as int,
                y as int,
                direction_step(direction).0,
                direction_step(direction).1,
                text@,
                background_color,
                text_color,
            ),
    {
        let ghost goal = text_written(
            self@,
            x as int,
            y as int,
            direction_step(direction).0,
            direction_step(direction).1,
            text@,
            background_color,
            text_color,
        );
        let (dx, dy) = direction.to_dxdy();
        let (size_x, size_y) = self.size();
        let chars = chars_of(text);
        let mut now_x: i128 = x as i128;
        let mut now_y: i128 = y as i128;
        let mut i: usize = 0;
        assert(chars@.skip(0) =~= chars@);
        while i < chars.len()
            invariant
                self.wf(),
                i <= chars@.len(),
                -1 <= dx <= 1,
                -1 <= dy <= 1,
                x - i <= now_x <= x + i,
                y - i <= now_y <= y + i,
                size_x == self@.width,
                size_y == self@.height,
                goal == text_written(
                    old(self)@,
                    x as int,
                    y as int,
                    direction_step(direction).0,
                    direction_step(direction).1,
                    text@,
                    background_color,
                    text_color,
                ),
                text_written(
                    self@,
                    now_x as int,
                    now_y as int,
                    dx as int,
                    dy as int,
                    chars@.skip(i as int),
                    background_color,
                    text_color,
                ) == goal,
            decreases chars@.len() - i,
        {
            let c = chars[i];
            let ghost rest = chars@.skip(i as int);
            assert(rest[0] == c);
            assert(rest.skip(1) =~= chars@.skip(i + 1));
            match AsIfPixel::new(c, background_color, text_color) {
                None => {
                    i = i + 1;
                },
                Some(pixel) => {
                    let ghost before = self@;
                    let ghost (ox, oy) = (now_x as int, now_y as int);
                    assert(pixel == AsIfPixel::make(c, background_color, text_color));
                    if 1 <= now_x && now_x <= size_x as i128 && 1 <= now_y && now_y
                        <= size_y as i128 {
                        self.write(now_x as usize, now_y as usize, pixel);
                    }
                    assert(self@ == write_cell(before, ox, oy, pixel));
                    now_x = now_x + dx as i128;
                    now_y = now_y + dy as i128;
                    if now_x <= 0 || now_x > size_x as i128 || now_y <= 0 || now_y
                        > size_y as i128 {
                        assert(text_written(
                            before,
                            ox,
                            oy,
                            dx as int,
                            dy as int,
                            rest,
                            background_color,
                            text_color,
                        ) == self@);
                        return;
                    }
                    i = i + 1;
                },
            }
        }
        assert(chars@.skip(i as int).len() == 0);
    }

    /// The dirty cells, in order, with their positions counted from 1.
    pub fn dirty_pixels(&self) -> (r: Vec<(usize, usize, AsIfPixel)>)
        requires
            self.wf(),
        ensures
            r@ == dirty_cells(self@),
            r@.len() == count_set(self@.dirty),
    {
        proof {
            self.lemma_wf();
        }
        let (w, h) = self.size();
        let n = self.data.cells_len();
        let mut out: Vec<(usize, usize, AsIfPixel)> = Vec::new();
        let mut a: usize = 0;
        let mut b: usize = 0;
        let mut k: usize = 0;
        while k < n
            invariant
                self.wf(),
                screen_wf(self@),
                w == self@.width,
                h == self@.height,
                n == self@.pixels.len(),
                k <= n,
                position_of(k as int, h as int, a as int, b as int) || h == 0,
                out@ == dirty_cells_upto(self@, k as int),
                out@.len() == count_set(self@.dirty.take(k as int)),
            decreases n - k,
        {
            assert(h > 0) by (nonlinear_arith)
                requires
                    k < n,
                    n == w * h,
            ;
            assert(a < w) by (nonlinear_arith)
                requires
                    a * h + b == k,
                    k < w * h,
                    b >= 0,
                    h > 0,
            ;
            proof {
                lemma_fundamental_div_mod_converse(k as int, h as int, a as int, b as int);
                assert(self@.dirty.take(k + 1).drop_last() =~= self@.dirty.take(k as int));
            }
            if *self.changed.get(a, b) {
                out.push((a + 1, b + 1, *self.data.get(a, b)));
            }
            k = k + 1;
            if b + 1 == h {
                b = 0;
                a = a + 1;
                assert(a * h == (a - 1) * h + h) by (nonlinear_arith);
            } else {
                b = b + 1;
            }
        }
        assert(self@.dirty.take(n as int) =~= self@.dirty);
        out
    }

    /// Marks every cell clean, after a flush that sent them.
    pub fn mark_synced(&mut self)
        requires
            old(self).wf(),
        ensures
            final(self).wf(),
            final(self)@ == flushed(old(self)@),
    {
        proof {
            self.lemma_wf();
        }
        let (w, h) = self.size();
        let n = self.data.cells_len();
        self.changed = Vec2d::new_filled_copy(w, h, false);
        assert(self@.dirty =~= flushed(old(self)@).dirty);
    }
}

} // verus!

verus! {

/// Writing the same pixel to the same place twice leaves the monitor as
/// one write does: the cell is marked dirty at most once.
pub proof fn lemma_write_twice(s: Screen, x: int, y: int, p: AsIfPixel)
    requires
        screen_wf(s),
    ensures
        write_cell(write_cell(s, x, y, p), x, y, p) == write_cell(s, x, y, p),
        write_cell(s, x, y, p).dirty == s.dirty || (in_bounds(s, x, y) && write_cell(
            s,
            x,
            y,
            p,
        ).dirty == s.dirty.update(cell_index(s, x, y), true)),
{
    if in_bounds(s, x, y) {
        lemma_cell_index_in_range(s, x, y);
    }
}

/// A position on the screen names one of its cells.
pub proof fn lemma_cell_index_in_range(s: Screen, x: int, y: int)
    requires
        screen_wf(s),
        in_bounds(s, x, y),
    ensures
        0 <= cell_index(s, x, y) < s.pixels.len(),
{
    let (w, h) = (s.width as int, s.height as int);
    assert(0 <= (x - 1) * h + (y - 1) < w * h) by (nonlinear_arith)
        requires
            1 <= x <= w,
            1 <= y <= h,
    ;
}

proof fn lemma_dirty_cells_count(s: Screen, k: int)
    requires
        0 <= k <= s.dirty.len(),
    ensures
        dirty_cells_upto(s, k).len() == count_set(s.dirty.take(k)),
    decreases k,
{
    if k > 0 {
        lemma_dirty_cells_count(s, k - 1);
        assert(s.dirty.take(k).drop_last() =~= s.dirty.take(k - 1));
    }
}

proof fn lemma_count_constant(n: nat, b: bool)
    ensures
        count_set(Seq::new(n, |i: int| b)) == if b {
            n
        } else {
            0
        },
    decreases n,
{
    if n > 0 {
        lemma_count_constant((n - 1) as nat, b);
        assert(Seq::new(n, |i: int| b).drop_last() =~= Seq::new((n - 1) as nat, |i: int| b));
    }
}

/// A flush sends as many cells as were dirty just before it, and leaves
/// every cell clean and unchanged.
pub proof fn lemma_flush_counts_dirty(s: Screen)
    requires
        screen_wf(s),
    ensures
        dirty_cells(s).len() == count_set(s.dirty),
        count_set(flushed(s).dirty) == 0,
        flushed(s).pixels == s.pixels,
        forall|i: int| 0 <= i < s.dirty.len() ==> !(#[trigger] flushed(s).dirty[i]),
{
    lemma_dirty_cells_count(s, s.pixels.len() as int);
    assert(s.dirty.take(s.dirty.len() as int) =~= s.dirty);
    lemma_count_constant(s.dirty.len(), false);
}

/// A resized monitor is dirty in every cell, whatever it held before and
/// whether or not its size changed.
pub proof fn lemma_resize_all_dirty(old_screen: Screen, width: nat, height: nat, p: AsIfPixel)
    ensures
        count_set(filled(width, height, p).dirty) == width * height,
        forall|i: int|
            0 <= i < width * height ==> #[trigger] filled(width, height, p).dirty[i]
                && filled(width, height, p).pixels[i] == p,
{
    lemma_count_constant(width * height, true);
}

} // verus!
