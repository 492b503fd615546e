use vstd::prelude::*;

verus! {

/// A terminal color: the display's default, one of the 256 indexed
/// values, or a direct RGB triple.
#[derive(Clone, Copy, Debug, PartialEq, Eq, Structural)]
pub enum Color {
    Reset,
    AnsiValue(u8),
    Rgb(u8, u8, u8),
}

/// One frame surface cell: a glyph and its foreground and background
/// colors.
#[derive(Clone, Copy, Debug, PartialEq, Eq, Structural)]
pub struct Cell {
    pub glyph: char,
    pub fg: Color,
    pub bg: Color,
}

/// Largest frame surface extent along either axis.
pub const SURFACE_MAX: usize = 4096;

/// Mathematical model of the frame surface: an extent and three row-major
/// sequences.
pub ghost struct BufView {
    pub width: int,
    pub height: int,
    pub chars: Seq<char>,
    pub fgs: Seq<Color>,
    pub bgs: Seq<Color>,
}

impl BufView {
    /// The three sequences each hold exactly one entry per cell of the
    /// extent, and the extent is within the supported maximum.
    pub open spec fn wf(self) -> bool {
        &&& 0 <= self.width <= SURFACE_MAX
        &&& 0 <= self.height <= SURFACE_MAX
        &&& self.chars.len() == self.width * self.height
        &&& self.fgs.len() == self.width * self.height
        &&& self.bgs.len() == self.width * self.height
    }

    /// The cell at an in-bounds coordinate.
    pub open spec fn cell(self, x: int, y: int) -> Cell {
        Cell {
            glyph: self.chars[y * self.width + x],
            fg: self.fgs[y * self.width + x],
            bg: self.bgs[y * self.width + x],
        }
    }

    /// The surface with exactly one cell replaced.
    pub open spec fn with_cell(self, x: int, y: int, c: Cell) -> BufView {
        BufView {
            width: self.width,
            height: self.height,
            chars: self.chars.update(y * self.width + x, c.glyph),
            fgs: self.fgs.update(y * self.width + x, c.fg),
            bgs: self.bgs.update(y * self.width + x, c.bg),
        }
    }
}

/// The background color `clear` paints at a row: one shade for the
/// ceiling (upper half) and another for the floor (lower half).
pub open spec fn spec_clear_bg(y: int, height: int) -> Color {
    if y < height / 2 {
        Color::AnsiValue(234)
    } else {
        Color::AnsiValue(238)
    }
}

/// The cell `clear` writes everywhere: a blank glyph over the two-tone
/// background.
pub open spec fn spec_cleared_cell(y: int, height: int) -> Cell {
    Cell { glyph: ' ', fg: Color::Reset, bg: spec_clear_bg(y, height) }
}

/// Bounds of a row-major cell index within a surface extent.
proof fn lemma_rowmajor_bound(x: int, y: int, w: int, h: int)
    requires
        0 <= x < w,
        0 <= y < h,
        w <= SURFACE_MAX,
        h <= SURFACE_MAX,
    ensures
        0 <= y * w + x < w * h,
        w * h <= SURFACE_MAX * SURFACE_MAX,
{
    assert(0 <= y * w + x < w * h && w * h <= SURFACE_MAX * SURFACE_MAX) by (nonlinear_arith)
        requires
            0 <= x < w,
            0 <= y < h,
            w <= SURFACE_MAX,
            h <= SURFACE_MAX,
    {}
}

/// Distinct in-bounds coordinates have distinct row-major indices, so a
/// single-cell update leaves every other cell intact.
pub proof fn lemma_cell_update(v: BufView, x: int, y: int, c: Cell)
    requires
        v.wf(),
        0 <= x < v.width,
        0 <= y < v.height,
    ensures
        v.with_cell(x, y, c).wf(),
        v.with_cell(x, y, c).width == v.width,
        v.with_cell(x, y, c).height == v.height,
        v.with_cell(x, y, c).cell(x, y) == c,
        forall|i: int, j: int|
            0 <= i < v.width && 0 <= j < v.height && !(i == x && j == y) ==> v.with_cell(
                x,
                y,
                c,
            ).cell(i, j) == v.cell(i, j),
{
    lemma_rowmajor_bound(x, y, v.width, v.height);
    let w = v.width;
    let h = v.height;
    assert forall|i: int, j: int|
        0 <= i < w && 0 <= j < h && !(i == x && j == y) implies v.with_cell(x, y, c).cell(i, j)
        == v.cell(i, j) by {
        assert(j * w + i != y * w + x) by (nonlinear_arith)
            requires
                0 <= i < w,
                0 <= x < w,
                i != x || j != y,
        {}
        assert(0 <= j * w + i < w * h) by (nonlinear_arith)
            requires
                0 <= i < w,
                0 <= j < h,
        {}
    }
}

/// A vector of `n` copies of one value.
fn fill_vec<T: Copy>(n: usize, val: T) -> (r: Vec<T>)
    ensures
        r@.len() == n,
        forall|i: int| 0 <= i < n ==> r@[i] == val,
{
    let mut r: Vec<T> = Vec::new();
    let mut i: usize = 0;
    while i < n
        invariant
            i <= n,
            r@.len() == i,
            forall|j: int| 0 <= j < i ==> r@[j] == val,
        decreases n - i,
    {
        r.push(val);
        i = i + 1;
    }
    r
}

/// One instruction for the display sink. A frame flush is a sequence of
/// these; the sink executes them in order.
#[derive(Clone, Copy, Debug, PartialEq, Eq, Structural)]
pub enum Directive {
    HideCursor,
    MoveHome,
    SetForeground(Color),
    SetBackground(Color),
    Print(char),
    NewLine,
}

/// Whether a directive changes the sink's color state.
pub open spec fn is_color_directive(d: Directive) -> bool {
    d is SetForeground || d is SetBackground
}

/// How many color-change directives a flush emits.
pub open spec fn count_colors(s: Seq<Directive>) -> int
    decreases s.len(),
{
    if s.len() == 0 {
        0
    } else {
        count_colors(s.drop_last()) + if is_color_directive(s.last()) {
            1int
        } else {
            0int
        }
    }
}

/// Counting color directives distributes over concatenation.
pub proof fn lemma_count_colors_concat(a: Seq<Directive>, b: Seq<Directive>)
    ensures
        count_colors(a + b) == count_colors(a) + count_colors(b),
    decreases b.len(),
{
    if b.len() == 0 {
        assert(a + b =~= a);
    } else {
        assert((a + b).drop_last() =~= a + b.drop_last());
        lemma_count_colors_concat(a, b.drop_last());
    }
}

/// The directives a flush emits from cell `(x, y)` on, given the sink's
/// current color state: a color change only where the cell differs from
/// that state, the glyph, then the rest of the frame; between rows an
/// explicit color reset and a line break, so no background bleeds across
/// the row edge.
pub open spec fn dirs_from(v: BufView, x: int, y: int, cur_fg: Color, cur_bg: Color) -> Seq<
    Directive,
>
    decreases v.height - y, v.width - x,
        when v.wf() && 0 <= y < v.height && 0 <= x <= v.width
{
    if x == v.width {
        if y == v.height - 1 {
            Seq::empty()
        } else {
            seq![
                Directive::SetForeground(Color::Reset),
                Directive::SetBackground(Color::Reset),
                Directive::NewLine,
            ] + dirs_from(v, 0, y + 1, Color::Reset, Color::Reset)
        }
    } else {
        let c = v.cell(x, y);
        let fg_part: Seq<Directive> = if c.fg != cur_fg {
            seq![Directive::SetForeground(c.fg)]
        } else {
            Seq::empty()
        };
        let bg_part: Seq<Directive> = if c.bg != cur_bg {
            seq![Directive::SetBackground(c.bg)]
        } else {
            Seq::empty()
        };
        fg_part + bg_part + seq![Directive::Print(c.glyph)] + dirs_from(v, x + 1, y, c.fg, c.bg)
    }
}

/// The full directive stream of one frame flush: park the cursor at the
/// origin, then the cells row by row with color coalescing.
pub open spec fn render_model(v: BufView) -> Seq<Directive> {
    seq![Directive::HideCursor, Directive::MoveHome] + if v.height == 0 {
        Seq::empty()
    } else {
        dirs_from(v, 0, 0, Color::Reset, Color::Reset)
    }
}

/// In a single-row frame whose cells all share the colors the sink
/// already holds, the rest of the row emits no color directive at all.
proof fn lemma_row_tail_no_colors(v: BufView, x: int, f: Color, b: Color)
    requires
        v.wf(),
        v.height == 1,
        1 <= x <= v.width,
        forall|i: int| 0 <= i < v.width ==> v.cell(i, 0).fg == f && v.cell(i, 0).bg == b,
    ensures
        count_colors(dirs_from(v, x, 0, f, b)) == 0,
    decreases v.width - x,
{
    if x == v.width {
    } else {
        let c = v.cell(x, 0);
        lemma_row_tail_no_colors(v, x + 1, f, b);
        assert(dirs_from(v, x, 0, f, b) =~= seq![Directive::Print(c.glyph)] + dirs_from(
            v,
            x + 1,
            0,
            f,
            b,
        ));
        lemma_count_colors_concat(seq![Directive::Print(c.glyph)], dirs_from(v, x + 1, 0, f, b));
        assert(count_colors(seq![Directive::Print(c.glyph)]) == 0) by {
            reveal_with_fuel(count_colors, 2);
        }
    }
}

/// Flush coalescing: a one-row frame whose cells all share one
/// foreground and one background color, both different from the sink's
/// initial default state, is flushed with exactly two color-change
/// directives, however wide it is.
pub proof fn lemma_flush_coalescing(v: BufView, f: Color, b: Color)
    requires
        v.wf(),
        v.height == 1,
        v.width >= 1,
        f != Color::Reset,
        b != Color::Reset,
        forall|i: int| 0 <= i < v.width ==> v.cell(i, 0).fg == f && v.cell(i, 0).bg == b,
    ensures
        count_colors(render_model(v)) == 2,
{
    let c = v.cell(0, 0);
    let head = seq![Directive::SetForeground(f), Directive::SetBackground(b), Directive::Print(
        c.glyph,
    )];
    let rest = dirs_from(v, 1, 0, f, b);
    assert(dirs_from(v, 0, 0, Color::Reset, Color::Reset) =~= head + rest);
    lemma_row_tail_no_colors(v, 1, f, b);
    lemma_count_colors_concat(head, rest);
    assert(count_colors(head) == 2) by {
        reveal_with_fuel(count_colors, 4);
    }
    let preface = seq![Directive::HideCursor, Directive::MoveHome];
    lemma_count_colors_concat(preface, head + rest);
    assert(count_colors(preface) == 0) by {
        reveal_with_fuel(count_colors, 3);
    }
}

/// A double-buffered 2D grid of glyphs with foreground and background
/// terminal colors, flushed to the display once per frame.
pub struct FrameBuffer {
    width: usize,
    height: usize,
    chars: Vec<char>,
    fgs: Vec<Color>,
    bgs: Vec<Color>,
}

impl View for FrameBuffer {
    type V = BufView;

    closed spec fn view(&self) -> BufView {
        BufView {
            width: self.width as int,
            height: self.height as int,
            chars: self.chars@,
            fgs: self.fgs@,
            bgs: self.bgs@,
        }
    }
}

impl FrameBuffer {
    /// Creates a surface of the given extent with every cell blank over
    /// default colors.
    pub fn new(width: usize, height: usize) -> (r: FrameBuffer)
        requires
            width <= SURFACE_MAX,
            height <= SURFACE_MAX,
        ensures
            r@.wf(),
            r@.width == width,
            r@.height == height,
            forall|x: int, y: int|
                0 <= x < width && 0 <= y < height ==> r@.cell(x, y) == (Cell {
                    glyph: ' ',
                    fg: Color::Reset,
                    bg: Color::Reset,
                }),
    {
        proof {
            assert(width * height <= SURFACE_MAX * SURFACE_MAX) by (nonlinear_arith)
                requires
                    0 <= width <= SURFACE_MAX,
                    0 <= height <= SURFACE_MAX,
            {}
        }
        let size = width * height;
        let r = FrameBuffer {
            width,
            height,
            chars: fill_vec(size, ' '),
            fgs: fill_vec(size, Color::Reset),
            bgs: fill_vec(size, Color::Reset),
        };
        proof {
            assert forall|x: int, y: int|
                0 <= x < width && 0 <= y < height implies r@.cell(x, y) == (Cell {
                glyph: ' ',
                fg: Color::Reset,
                bg: Color::Reset,
            }) by {
                lemma_rowmajor_bound(x, y, width as int, height as int);
            }
        }
        r
    }

    /// The current extent, as (width, height).
    pub fn size(&self) -> (r: (usize, usize))
        ensures
            r.0 == self@.width,
            r.1 == self@.height,
    {
        (self.width, self.height)
    }

    /// Adapts the surface to new display dimensions. Unchanged dimensions
    /// keep the contents; changed dimensions reset every cell to blank
    /// over default colors, which is acceptable because a frame is fully
    /// regenerated by `clear` and redraw before it is read.
    pub fn resize(&mut self, width: usize, height: usize)
        requires
            old(self)@.wf(),
            width <= SURFACE_MAX,
            height <= SURFACE_MAX,
        ensures
            final(self)@.wf(),
            final(self)@.width == width,
            final(self)@.height == height,
            old(self)@.width == width && old(self)@.height == height ==> final(self)@ == old(
                self,
            )@,
            !(old(self)@.width == width && old(self)@.height == height) ==> forall|x: int, y: int|
                0 <= x < width && 0 <= y < height ==> final(self)@.cell(x, y) == (Cell {
                    glyph: ' ',
                    fg: Color::Reset,
                    bg: Color::Reset,
                }),
    {
        if self.width == width && self.height == height {
            return ;
        }
        proof {
            assert(width * height <= SURFACE_MAX * SURFACE_MAX) by (nonlinear_arith)
                requires
                    0 <= width <= SURFACE_MAX,
                    0 <= height <= SURFACE_MAX,
            {}
        }
        let size = width * height;
        self.width = width;
        self.height = height;
        self.chars = fill_vec(size, ' ');
        self.fgs = fill_vec(size, Color::Reset);
        self.bgs = fill_vec(size, Color::Reset);
        proof {
            assert forall|x: int, y: int|
                0 <= x < width && 0 <= y < height implies self@.cell(x, y) == (Cell {
                glyph: ' ',
                fg: Color::Reset,
                bg: Color::Reset,
            }) by {
                lemma_rowmajor_bound(x, y, width as int, height as int);
            }
        }
    }

    /// Writes one cell. A coordinate outside the extent is ignored: the
    /// surface is left exactly as it was, so a racing resize by the
    /// caller can never corrupt memory or neighboring cells.
    pub fn set(&mut self, x: usize, y: usize, glyph: char, fg: Color, bg: Color)
        requires
            old(self)@.wf(),
        ensures
            final(self)@.wf(),
            x < old(self)@.width && y < old(self)@.height ==> final(self)@ == old(self)@.with_cell(
                x as int,
                y as int,
                Cell { glyph, fg, bg },
            ),
            !(x < old(self)@.width && y < old(self)@.height) ==> final(self)@ == old(self)@,
    {
        if x < self.width && y < self.height {
            proof {
                lemma_rowmajor_bound(x as int, y as int, self@.width, self@.height);
            }
            let idx = y * self.width + x;
            self.chars.set(idx, glyph);
            self.fgs.set(idx, fg);
            self.bgs.set(idx, bg);
            proof {
                lemma_cell_update(old(self)@, x as int, y as int, Cell { glyph, fg, bg });
            }
        }
    }

    /// Repaints the whole surface as the frame background: blank glyphs,
    /// default foreground, ceiling shade over the upper half of the rows
    /// and floor shade over the lower half.
    pub fn clear(&mut self)
        requires
            old(self)@.wf(),
        ensures
            final(self)@.wf(),
            final(self)@.width == old(self)@.width,
            final(self)@.height == old(self)@.height,
            forall|x: int, y: int|
                0 <= x < final(self)@.width && 0 <= y < final(self)@.height ==> final(self)@.cell(
                    x,
                    y,
                ) == spec_cleared_cell(y, final(self)@.height),
    {
        let width = self.width;
        let height = self.height;
        let half = height / 2;
        let mut y: usize = 0;
        while y < height
            invariant
                self@.wf(),
                self@.width == width,
                self@.height == height,
                half == height / 2,
                y <= height,
                forall|i: int, j: int|
                    0 <= i < width && 0 <= j < y ==> self@.cell(i, j) == spec_cleared_cell(
                        j,
                        height as int,
                    ),
            decreases height - y,
        {
            let bg = if y < half {
                Color::AnsiValue(234)
            } else {
                Color::AnsiValue(238)
            };
            let mut x: usize = 0;
            while x < width
                invariant
                    self@.wf(),
                    self@.width == width,
                    self@.height == height,
                    half == height / 2,
                    y < height,
                    x <= width,
                    bg == spec_clear_bg(y as int, height as int),
                    forall|i: int, j: int|
                        0 <= i < width && 0 <= j < y ==> self@.cell(i, j) == spec_cleared_cell(
                            j,
                            height as int,
                        ),
                    forall|i: int|
                        0 <= i < x ==> self@.cell(i, y as int) == spec_cleared_cell(
                            y as int,
                            height as int,
                        ),
                decreases width - x,
            {
                let ghost pre = self@;
                self.set(x, y, ' ', Color::Reset, bg);
                proof {
                    lemma_cell_update(
                        pre,
                        x as int,
                        y as int,
                        Cell { glyph: ' ', fg: Color::Reset, bg },
                    );
                    assert forall|i: int, j: int|
                        0 <= i < width && 0 <= j < y implies self@.cell(i, j) == spec_cleared_cell(
                        j,
                        height as int,
                    ) by {
                        assert(pre.cell(i, j) == spec_cleared_cell(j, height as int));
                        assert(self@.cell(i, j) == pre.cell(i, j));
                    }
                    assert forall|i: int|
                        0 <= i < x + 1 implies self@.cell(i, y as int) == spec_cleared_cell(
                        y as int,
                        height as int,
                    ) by {
                        if i < x {
                            assert(pre.cell(i, y as int) == spec_cleared_cell(
                                y as int,
                                height as int,
                            ));
                            assert(self@.cell(i, y as int) == pre.cell(i, y as int));
                        } else {
                            assert(self@.cell(x as int, y as int) == (Cell {
                                glyph: ' ',
                                fg: Color::Reset,
                                bg,
                            }));
                        }
                    }
                }
                x = x + 1;
            }
            y = y + 1;
        }
    }

    /// Reads one cell back, or `None` outside the extent.
    pub fn get_cell(&self, x: usize, y: usize) -> (r: Option<Cell>)
        requires
            self@.wf(),
        ensures
            x < self@.width && y < self@.height ==> r == Some(self@.cell(x as int, y as int)),
            !(x < self@.width && y < self@.height) ==> r is None,
    {
        if x < self.width && y < self.height {
            proof {
                lemma_rowmajor_bound(x as int, y as int, self@.width, self@.height);
            }
            let idx = y * self.width + x;
            Some(Cell { glyph: self.chars[idx], fg: self.fgs[idx], bg: self.bgs[idx] })
        } else {
            None
        }
    }

    /// Writes a run of glyphs in one row, starting at `(x, y)`, in one
    /// color pair: the text overlay drawn on top of a rendered frame.
    /// Glyphs falling outside the extent are ignored.
    pub fn draw_text(&mut self, x: usize, y: usize, text: &Vec<char>, fg: Color, bg: Color)
        requires
            old(self)@.wf(),
            x + text@.len() <= 0xFFFF_FFFF,
        ensures
            final(self)@.wf(),
            final(self)@.width == old(self)@.width,
            final(self)@.height == old(self)@.height,
            forall|k: int|
                0 <= k < text@.len() && x + k < final(self)@.width && y < final(self)@.height
                    ==> final(self)@.cell(x + k, y as int) == (Cell { glyph: text@[k], fg, bg }),
            forall|i: int, j: int|
                0 <= i < final(self)@.width && 0 <= j < final(self)@.height && !(j == y && x <= i
                    < x + text@.len()) ==> final(self)@.cell(i, j) == old(self)@.cell(i, j),
    {
        let mut k: usize = 0;
        while k < text.len()
            invariant
                self@.wf(),
                self@.width == old(self)@.width,
                self@.height == old(self)@.height,
                x + text@.len() <= 0xFFFF_FFFF,
                k <= text@.len(),
                forall|m: int|
                    0 <= m < k && x + m < self@.width && y < self@.height ==> self@.cell(
                        x + m,
                        y as int,
                    ) == (Cell { glyph: text@[m], fg, bg }),
                forall|i: int, j: int|
                    0 <= i < self@.width && 0 <= j < self@.height && !(j == y && x <= i < x + k)
                        ==> self@.cell(i, j) == old(self)@.cell(i, j),
            decreases text@.len() - k,
        {
            let ghost pre = self@;
            let glyph = text[k];
            self.set(x + k, y, glyph, fg, bg);
            proof {
                if x + k < pre.width && (y as int) < pre.height {
                    lemma_cell_update(pre, x as int + k as int, y as int, Cell { glyph, fg, bg });
                }
                assert forall|m: int|
                    0 <= m < k + 1 && x + m < self@.width && y < self@.height implies self@.cell(
                    x + m,
                    y as int,
                ) == (Cell { glyph: text@[m], fg, bg }) by {
                    if m < k {
                        assert(pre.cell(x + m, y as int) == (Cell { glyph: text@[m], fg, bg }));
                    }
                }
                assert forall|i: int, j: int|
                    0 <= i < self@.width && 0 <= j < self@.height && !(j == y && x <= i < x + k
                        + 1) implies self@.cell(i, j) == old(self)@.cell(i, j) by {
                    assert(pre.cell(i, j) == old(self)@.cell(i, j));
                    if x + k < pre.width && (y as int) < pre.height {
                        assert(self@.cell(i, j) == pre.cell(i, j));
                    }
                }
            }
            k = k + 1;
        }
    }

    /// Produces the directive stream that writes the whole frame to the
    /// display sink, row by row, emitting a color change only when a
    /// cell's color differs from the sink's current state.
    pub fn render(&self) -> (r: Vec<Directive>)
        requires
            self@.wf(),
        ensures
            r@ == render_model(self@),
    {
        let ghost v = self@;
        let mut out: Vec<Directive> = Vec::new();
        out.push(Directive::HideCursor);
        out.push(Directive::MoveHome);
        proof {
            assert(out@ =~= seq![Directive::HideCursor, Directive::MoveHome]);
        }
        if self.height == 0 {
            proof {
                assert(render_model(v) =~= out@);
            }
            return out;
        }
        let width = self.width;
        let height = self.height;
        let mut y: usize = 0;
        while y < height
            invariant
                v == self@,
                v.wf(),
                width == v.width,
                height == v.height,
                0 < height,
                y <= height,
                y < height ==> render_model(v) == out@ + dirs_from(
                    v,
                    0,
                    y as int,
                    Color::Reset,
                    Color::Reset,
                ),
                y == height ==> render_model(v) == out@,
            decreases height - y,
        {
            let mut cur_fg = Color::Reset;
            let mut cur_bg = Color::Reset;
            let mut x: usize = 0;
            while x < width
                invariant
                    v == self@,
                    v.wf(),
                    width == v.width,
                    height == v.height,
                    y < height,
                    x <= width,
                    render_model(v) == out@ + dirs_from(
                        v,
                        x as int,
                        y as int,
                        cur_fg,
                        cur_bg,
                    ),
                decreases width - x,
            {
                proof {
                    lemma_rowmajor_bound(x as int, y as int, width as int, height as int);
                }
                let idx = y * width + x;
                let ch = self.chars[idx];
                let f = self.fgs[idx];
                let b = self.bgs[idx];
                let ghost pre_out = out@;
                let ghost pcf = cur_fg;
                let ghost pcb = cur_bg;
                let ghost c = v.cell(x as int, y as int);
                let ghost fg_part: Seq<Directive> = if c.fg != pcf {
                    seq![Directive::SetForeground(c.fg)]
                } else {
                    Seq::empty()
                };
                let ghost bg_part: Seq<Directive> = if c.bg != pcb {
                    seq![Directive::SetBackground(c.bg)]
                } else {
                    Seq::empty()
                };
                if f != cur_fg {
                    out.push(Directive::SetForeground(f));
                    cur_fg = f;
                }
                if b != cur_bg {
                    out.push(Directive::SetBackground(b));
                    cur_bg = b;
                }
                out.push(Directive::Print(ch));
                proof {
                    assert(c.glyph == ch && c.fg == f && c.bg == b);
                    assert(dirs_from(v, x as int, y as int, pcf, pcb) == fg_part + bg_part + seq![
                        Directive::Print(ch),
                    ] + dirs_from(v, x as int + 1, y as int, f, b));
                    assert(out@ =~= pre_out + fg_part + bg_part + seq![Directive::Print(ch)]);
                    assert(pre_out + (fg_part + bg_part + seq![Directive::Print(ch)] + dirs_from(
                        v,
                        x as int + 1,
                        y as int,
                        f,
                        b,
                    )) =~= (pre_out + fg_part + bg_part + seq![Directive::Print(ch)]) + dirs_from(
                        v,
                        x as int + 1,
                        y as int,
                        f,
                        b,
                    ));
                }
                x = x + 1;
            }
            let ghost pre_out = out@;
            if y + 1 < height {
                out.push(Directive::SetForeground(Color::Reset));
                out.push(Directive::SetBackground(Color::Reset));
                out.push(Directive::NewLine);
                proof {
                    let seps = seq![
                        Directive::SetForeground(Color::Reset),
                        Directive::SetBackground(Color::Reset),
                        Directive::NewLine,
                    ];
                    assert(dirs_from(v, width as int, y as int, cur_fg, cur_bg) == seps
                        + dirs_from(v, 0, y as int + 1, Color::Reset, Color::Reset));
                    assert(out@ =~= pre_out + seps);
                    assert(pre_out + (seps + dirs_from(v, 0, y as int + 1, Color::Reset,
                    Color::Reset)) =~= (pre_out + seps) + dirs_from(
                        v,
                        0,
                        y as int + 1,
                        Color::Reset,
                        Color::Reset,
                    ));
                }
            } else {
                proof {
                    assert(dirs_from(v, width as int, y as int, cur_fg, cur_bg) =~= Seq::empty());
                    assert(pre_out + Seq::<Directive>::empty() =~= pre_out);
                }
            }
            y = y + 1;
        }
        out
    }
}

} // verus!
