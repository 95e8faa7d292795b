//! The screen of the terminal client as a grid of cells, and what has to be
//! sent to the terminal to show it.

use vstd::prelude::*;
use vstd::string::StringSliceAdditionalSpecFns;

verus! {

/// A colour of the terminal.
#[derive(Clone, Copy, Debug, PartialEq, Eq, Structural)]
pub enum Color {
    Reset,
    Black,
    DarkGrey,
    Red,
    DarkRed,
    Green,
    DarkGreen,
    Yellow,
    DarkYellow,
    Blue,
    DarkBlue,
    Magenta,
    DarkMagenta,
    Cyan,
    DarkCyan,
    White,
    Grey,
    Rgb { r: u8, g: u8, b: u8 },
    AnsiValue(u8),
}

/// One position of the screen: a character and its colours.
#[derive(Clone, Copy, Debug, PartialEq, Eq, Structural)]
pub struct Cell {
    pub ch: char,
    pub fg: Color,
    pub bg: Color,
}

/// An empty cell: a white space on black.
pub open spec fn spec_blank_cell() -> Cell {
    Cell { ch: ' ', fg: Color::White, bg: Color::Black }
}

impl Default for Cell {
    fn default() -> (cell: Cell)
        ensures
            cell == spec_blank_cell(),
    {
        Cell { ch: ' ', fg: Color::White, bg: Color::Black }
    }
}

/// A cell of the screen that has to change, and where it stands.
#[derive(Clone, Copy, Debug, PartialEq, Eq, Structural)]
pub struct Patch {
    pub cell: Cell,
    pub x: usize,
    pub y: usize,
}

/// A part of the screen.
#[derive(Clone, Copy, Debug, PartialEq, Eq, Structural)]
pub struct Rect {
    pub x: usize,
    pub y: usize,
    pub w: usize,
    pub h: usize,
}

/// One thing to send to the terminal.
#[derive(Clone, Copy, Debug, PartialEq, Eq, Structural)]
pub enum Draw {
    /// Clear the whole screen.
    ClearAll,
    /// Write in this colour from now on.
    Foreground(Color),
    /// Write on this colour from now on.
    Background(Color),
    /// Put the cursor at column `x` of row `y`.
    MoveTo { x: usize, y: usize },
    /// Write the character at the cursor, which moves on by one.
    Print(char),
    /// Send what was queued.
    Flush,
}

/// The cells of the screen, row after row.
#[derive(Clone, Debug)]
pub struct Buffer {
    pub cells: Vec<Cell>,
    pub width: usize,
    pub height: usize,
}

/// Where the cell at column `x` of row `y` stands in a buffer of the given
/// width.
pub open spec fn spec_cell_index(width: int, x: int, y: int) -> int {
    y * width + x
}

/// The cells with `cell` at `index`, where there is such a position.
pub open spec fn spec_put(cells: Seq<Cell>, index: int, cell: Cell) -> Seq<Cell> {
    if 0 <= index < cells.len() {
        cells.update(index, cell)
    } else {
        cells
    }
}

/// The cells with the characters `chs` in the given colours from `start`
/// on, as far as there are positions for them.
pub open spec fn spec_put_run(
    cells: Seq<Cell>,
    start: int,
    chs: Seq<char>,
    fg: Color,
    bg: Color,
) -> Seq<Cell> {
    Seq::new(cells.len(), |i: int| spec_run_cell(cells, start, chs, fg, bg, i))
}

/// The cell at `i` once the characters `chs` stand from `start` on.
pub open spec fn spec_run_cell(
    cells: Seq<Cell>,
    start: int,
    chs: Seq<char>,
    fg: Color,
    bg: Color,
    i: int,
) -> Cell {
    if start <= i < start + chs.len() {
        Cell { ch: chs[i - start], fg, bg }
    } else {
        cells[i]
    }
}

/// The positions at which `a` and `b` differ, in order, each with the cell
/// of `b` and its column and row.
pub open spec fn spec_diff(a: Seq<Cell>, b: Seq<Cell>, width: int) -> Seq<Patch> {
    Seq::new(a.len(), |i: int| i).filter(|i: int| a[i] != b[i]).map_values(
        |i: int| Patch { cell: b[i], x: (i % width) as usize, y: (i / width) as usize },
    )
}

/// One more character of the run is one more cell replaced.
proof fn lemma_put_run_step(
    cells: Seq<Cell>,
    start: int,
    chs: Seq<char>,
    fg: Color,
    bg: Color,
    k: int,
    cell: Cell,
)
    requires
        0 <= start,
        0 <= k < chs.len(),
        start + k < cells.len(),
        cell == (Cell { ch: chs[k], fg, bg }),
    ensures
        spec_put_run(cells, start, chs.take(k), fg, bg).update(start + k, cell) == spec_put_run(
            cells,
            start,
            chs.take(k + 1),
            fg,
            bg,
        ),
{
    let shorter = spec_put_run(cells, start, chs.take(k), fg, bg);
    let longer = spec_put_run(cells, start, chs.take(k + 1), fg, bg);
    let put = shorter.update(start + k, cell);
    assert forall|i: int| 0 <= i < put.len() implies put[i] == longer[i] by {
        assert(longer[i] == spec_run_cell(cells, start, chs.take(k + 1), fg, bg, i));
        assert(shorter[i] == spec_run_cell(cells, start, chs.take(k), fg, bg, i));
        if start <= i < start + k {
            assert(chs.take(k)[i - start] == chs.take(k + 1)[i - start]);
        }
    }
    assert(put =~= longer);
}

/// Characters for which the buffer has no cell change nothing.
proof fn lemma_put_run_end(
    cells: Seq<Cell>,
    start: int,
    chs: Seq<char>,
    fg: Color,
    bg: Color,
    k: int,
)
    requires
        0 <= start,
        0 <= k <= chs.len(),
        k == chs.len() || start + k >= cells.len(),
    ensures
        spec_put_run(cells, start, chs.take(k), fg, bg) == spec_put_run(cells, start, chs, fg, bg),
{
    let shorter = spec_put_run(cells, start, chs.take(k), fg, bg);
    let whole = spec_put_run(cells, start, chs, fg, bg);
    assert forall|i: int| 0 <= i < whole.len() implies shorter[i] == whole[i] by {
        assert(whole[i] == spec_run_cell(cells, start, chs, fg, bg, i));
        assert(shorter[i] == spec_run_cell(cells, start, chs.take(k), fg, bg, i));
        if start <= i < start + k {
            assert(chs.take(k)[i - start] == chs[i - start]);
        }
    }
    assert(shorter =~= whole);
}

/// The cells with `cell` at each position from `from` up to `to`, as far as
/// there are such positions.
pub open spec fn spec_fill_run(cells: Seq<Cell>, from: int, to: int, cell: Cell) -> Seq<Cell> {
    Seq::new(
        cells.len(),
        |i: int|
            if from <= i < to {
                cell
            } else {
                cells[i]
            },
    )
}

/// The first `w` characters of a line, or all of it where it is shorter.
pub open spec fn spec_clip(line: Seq<char>, w: int) -> Seq<char> {
    if 0 <= w <= line.len() {
        line.take(w)
    } else {
        line
    }
}

/// The cells of a status bar in row `y`: the label from column `x` on, cut
/// to `w` characters, in black on white, and white cells from the column
/// `pad` up to column `w`.
pub open spec fn spec_status_bar(
    cells: Seq<Cell>,
    width: int,
    label: Seq<char>,
    pad: int,
    x: int,
    y: int,
    w: int,
) -> Seq<Cell> {
    spec_fill_run(
        spec_put_run(
            cells,
            spec_cell_index(width, x, y),
            spec_clip(label, w),
            Color::Black,
            Color::White,
        ),
        spec_cell_index(width, pad, y),
        spec_cell_index(width, w, y),
        Cell { ch: ' ', fg: Color::Black, bg: Color::White },
    )
}

/// The characters of `text`.
pub fn chars_of(text: &str) -> (chars: Vec<char>)
    ensures
        chars@ == text@,
{
    broadcast use vstd::string::group_string_axioms;

    let mut chars: Vec<char> = Vec::new();
    for c in it: text.chars()
        invariant
            it.seq() == text@,
            chars@ == text@.take(it.index()),
    {
        chars.push(c);
        assert(chars@ =~= text@.take(it.index() + 1));
    }
    assert(text@.take(text@.len() as int) =~= text@);
    chars
}

/// The first `w` characters of `line`, or all of it where it is shorter.
pub fn clip(line: &[char], w: usize) -> (part: &[char])
    ensures
        part@ == spec_clip(line@, w as int),
{
    if w <= line.len() {
        vstd::slice::slice_subrange(line, 0, w)
    } else {
        line
    }
}

/// Draws a status bar into row `y` of `buffer`: the label in black on
/// white from column `x` on, cut to `w` characters, and white cells from
/// the column that is the label's length in bytes up to column `w`.
pub fn status_bar(buffer: &mut Buffer, label: &str, x: usize, y: usize, w: usize)
    ensures
        final(buffer).cells@ == spec_status_bar(
            old(buffer).cells@,
            old(buffer).width as int,
            label@,
            label.spec_bytes().len() as int,
            x as int,
            y as int,
            w as int,
        ),
        final(buffer).width == old(buffer).width,
        final(buffer).height == old(buffer).height,
{
    let label_chars = chars_of(label);
    buffer.put_cells(x, y, clip(label_chars.as_slice(), w), Color::Black, Color::White);
    let ghost labelled = buffer.cells@;
    let ghost width = buffer.width as int;
    let blank = Cell { ch: ' ', fg: Color::Black, bg: Color::White };
    let pad = label.as_bytes().len();
    let mut col: usize = pad;
    assert(buffer.cells@ =~= spec_fill_run(
        labelled,
        spec_cell_index(width, pad as int, y as int),
        spec_cell_index(width, col as int, y as int),
        blank,
    ));
    while col < w
        invariant
            pad <= col,
            col <= w || pad >= w,
            pad >= w ==> col == pad,
            pad == label.spec_bytes().len(),
            labelled == spec_put_run(
                old(buffer).cells@,
                spec_cell_index(width, x as int, y as int),
                spec_clip(label@, w as int),
                Color::Black,
                Color::White,
            ),
            buffer.width == old(buffer).width,
            buffer.height == old(buffer).height,
            width == buffer.width,
            blank == (Cell { ch: ' ', fg: Color::Black, bg: Color::White }),
            labelled.len() == buffer.cells@.len(),
            buffer.cells@ == spec_fill_run(
                labelled,
                spec_cell_index(width, pad as int, y as int),
                spec_cell_index(width, col as int, y as int),
                blank,
            ),
        decreases w - col,
    {
        buffer.put_cell(col, y, ' ', Color::Black, Color::White);
        col += 1;
        assert(buffer.cells@ =~= spec_fill_run(
            labelled,
            spec_cell_index(width, pad as int, y as int),
            spec_cell_index(width, col as int, y as int),
            blank,
        ));
    }
    assert(buffer.cells@ =~= spec_fill_run(
        labelled,
        spec_cell_index(width, pad as int, y as int),
        spec_cell_index(width, w as int, y as int),
        blank,
    ));
}

/// What to send for one cell when the terminal writes in `fg` on `bg`: the
/// colours that differ, then the character.
pub open spec fn spec_paint_cell(cell: Cell, fg: Color, bg: Color) -> Seq<Draw> {
    let ink = if fg != cell.fg {
        seq![Draw::Foreground(cell.fg)]
    } else {
        Seq::<Draw>::empty()
    };
    let paper = if bg != cell.bg {
        seq![Draw::Background(cell.bg)]
    } else {
        Seq::<Draw>::empty()
    };
    ink + paper + seq![Draw::Print(cell.ch)]
}

/// What to send for `cells` in a row, when the terminal writes in `fg` on
/// `bg` before the first.
pub open spec fn spec_paint(cells: Seq<Cell>, fg: Color, bg: Color) -> Seq<Draw>
    decreases cells.len(),
{
    if cells.len() == 0 {
        Seq::<Draw>::empty()
    } else {
        spec_paint_cell(cells[0], fg, bg) + spec_paint(
            cells.drop_first(),
            cells[0].fg,
            cells[0].bg,
        )
    }
}

/// What to send to show the whole buffer on a cleared screen.
pub open spec fn spec_flush(cells: Seq<Cell>) -> Seq<Draw> {
    seq![
        Draw::ClearAll,
        Draw::Foreground(Color::White),
        Draw::Background(Color::Black),
        Draw::MoveTo { x: 0, y: 0 },
    ] + spec_paint(cells, Color::White, Color::Black) + seq![Draw::Flush]
}

/// Whether `patch` stands right behind the position (`x`, `y`) in its row,
/// where the cursor is after writing there.
pub open spec fn spec_follows(patch: Patch, x: int, y: int) -> bool {
    y == patch.y && x + 1 == patch.x
}

/// What to send for one patch when the last one written stood at (`x`,
/// `y`) and the terminal writes in `fg` on `bg`: the move, unless the cursor
/// is there already, and the cell.
pub open spec fn spec_patch_one(patch: Patch, x: int, y: int, fg: Color, bg: Color) -> Seq<Draw> {
    let jump = if spec_follows(patch, x, y) {
        Seq::<Draw>::empty()
    } else {
        seq![Draw::MoveTo { x: patch.x, y: patch.y }]
    };
    jump + spec_paint_cell(patch.cell, fg, bg)
}

/// What to send for `patches` in turn.
pub open spec fn spec_patch_all(patches: Seq<Patch>, x: int, y: int, fg: Color, bg: Color) -> Seq<
    Draw,
>
    decreases patches.len(),
{
    if patches.len() == 0 {
        Seq::<Draw>::empty()
    } else {
        let p = patches[0];
        spec_patch_one(p, x, y, fg, bg) + spec_patch_all(
            patches.drop_first(),
            p.x as int,
            p.y as int,
            p.cell.fg,
            p.cell.bg,
        )
    }
}

/// What to send to bring the screen up to date with `patches`.
pub open spec fn spec_apply_patches(patches: Seq<Patch>) -> Seq<Draw> {
    seq![Draw::Foreground(Color::White), Draw::Background(Color::Black)] + spec_patch_all(
        patches,
        0,
        0,
        Color::White,
        Color::Black,
    )
}

/// Queues what one cell needs and says nothing else.
fn paint_cell(out: &mut Vec<Draw>, cell: Cell, fg: Color, bg: Color)
    ensures
        final(out)@ == old(out)@ + spec_paint_cell(cell, fg, bg),
{
    if fg != cell.fg {
        out.push(Draw::Foreground(cell.fg));
    }
    if bg != cell.bg {
        out.push(Draw::Background(cell.bg));
    }
    out.push(Draw::Print(cell.ch));
    assert(out@ =~= old(out)@ + spec_paint_cell(cell, fg, bg));
}

/// What to send to the terminal to bring it up to date with `patches`:
/// the colours white on black first; then for each patch a move of the
/// cursor, unless the patch stands right behind the one before it, each
/// colour that differs from the one in use, and the character.
pub fn apply_patches(patches: &[Patch]) -> (out: Vec<Draw>)
    ensures
        out@ == spec_apply_patches(patches@),
{
    let mut out: Vec<Draw> = Vec::new();
    out.push(Draw::Foreground(Color::White));
    out.push(Draw::Background(Color::Black));
    let mut fg = Color::White;
    let mut bg = Color::Black;
    let mut x: usize = 0;
    let mut y: usize = 0;
    let mut i: usize = 0;
    assert(patches@.skip(0) =~= patches@);
    while i < patches.len()
        invariant
            i <= patches@.len(),
            out@ + spec_patch_all(patches@.skip(i as int), x as int, y as int, fg, bg)
                == spec_apply_patches(patches@),
        decreases patches@.len() - i,
    {
        let p = patches[i];
        let ghost before = out@;
        let ghost rest = patches@.skip(i as int);
        proof {
            assert(rest[0] == p);
            assert(rest.drop_first() =~= patches@.skip(i + 1));
        }
        if !(y == p.y && p.x > 0 && x == p.x - 1) {
            out.push(Draw::MoveTo { x: p.x, y: p.y });
        }
        paint_cell(&mut out, p.cell, fg, bg);
        proof {
            assert(out@ =~= before + spec_patch_one(p, x as int, y as int, fg, bg));
            assert(before + spec_patch_one(p, x as int, y as int, fg, bg) + spec_patch_all(
                rest.drop_first(),
                p.x as int,
                p.y as int,
                p.cell.fg,
                p.cell.bg,
            ) =~= before + spec_patch_all(rest, x as int, y as int, fg, bg));
        }
        x = p.x;
        y = p.y;
        fg = p.cell.fg;
        bg = p.cell.bg;
        i += 1;
    }
    assert(patches@.skip(patches@.len() as int) =~= Seq::<Patch>::empty());
    assert(out@ + Seq::<Draw>::empty() =~= out@);
    out
}

impl Buffer {
    /// There is a cell for each position.
    pub open spec fn wf(&self) -> bool {
        self.cells@.len() == self.width * self.height
    }

    /// A buffer of empty cells.
    pub fn new(width: usize, height: usize) -> (buffer: Buffer)
        requires
            width * height <= usize::MAX,
        ensures
            buffer.wf(),
            buffer.width == width,
            buffer.height == height,
            buffer.cells@ == Seq::new((width * height) as nat, |i: int| spec_blank_cell()),
    {
        let mut buffer = Buffer { cells: Vec::new(), width, height };
        buffer.fill(width * height);
        buffer
    }

    /// Makes the cells `n` empty ones.
    fn fill(&mut self, n: usize)
        ensures
            final(self).cells@ == Seq::new(n as nat, |i: int| spec_blank_cell()),
            final(self).width == old(self).width,
            final(self).height == old(self).height,
    {
        self.cells.clear();
        let mut i: usize = 0;
        while i < n
            invariant
                i <= n,
                self.width == old(self).width,
                self.height == old(self).height,
                self.cells@ =~= Seq::new(i as nat, |k: int| spec_blank_cell()),
            decreases n - i,
        {
            self.cells.push(Cell::default());
            i += 1;
        }
    }

    /// Gives the buffer another size and empties it.
    pub fn resize(&mut self, width: usize, height: usize)
        requires
            width * height <= usize::MAX,
        ensures
            final(self).wf(),
            final(self).width == width,
            final(self).height == height,
            final(self).cells@ == Seq::new((width * height) as nat, |i: int| spec_blank_cell()),
    {
        self.fill(width * height);
        self.width = width;
        self.height = height;
    }

    /// Empties every cell.
    pub fn clear(&mut self)
        ensures
            final(self).cells@ == Seq::new(old(self).cells@.len(), |i: int| spec_blank_cell()),
            final(self).width == old(self).width,
            final(self).height == old(self).height,
    {
        let n = self.cells.len();
        self.fill(n);
    }

    /// The position of column `x` in row `y`, where the buffer has a cell
    /// for it.
    fn index(&self, x: usize, y: usize) -> (at: Option<usize>)
        ensures
            at is Some <==> spec_cell_index(self.width as int, x as int, y as int)
                < self.cells@.len(),
            at is Some ==> at->0 == spec_cell_index(self.width as int, x as int, y as int),
    {
        assert((y as int) * (self.width as int) <= 0xffff_ffff_ffff_ffff
            * 0xffff_ffff_ffff_ffff) by (nonlinear_arith)
            requires
                0 <= y <= 0xffff_ffff_ffff_ffff,
                0 <= self.width <= 0xffff_ffff_ffff_ffff,
        ;
        let wide: u128 = (y as u128) * (self.width as u128) + (x as u128);
        if wide < self.cells.len() as u128 {
            Some(wide as usize)
        } else {
            None
        }
    }

    /// Replaces the cell at `at`.
    fn set(&mut self, at: usize, cell: Cell)
        requires
            at < old(self).cells@.len(),
        ensures
            final(self).cells@ == old(self).cells@.update(at as int, cell),
            final(self).width == old(self).width,
            final(self).height == old(self).height,
    {
        self.cells.remove(at);
        self.cells.insert(at, cell);
        assert(self.cells@ =~= old(self).cells@.update(at as int, cell));
    }

    /// Puts a character in the given colours at column `x` of row `y`.
    /// Nothing changes where the buffer has no such cell.
    pub fn put_cell(&mut self, x: usize, y: usize, ch: char, fg: Color, bg: Color)
        ensures
            final(self).cells@ == spec_put(
                old(self).cells@,
                spec_cell_index(old(self).width as int, x as int, y as int),
                Cell { ch, fg, bg },
            ),
            final(self).width == old(self).width,
            final(self).height == old(self).height,
    {
        match self.index(x, y) {
            Some(at) => {
                self.set(at, Cell { ch, fg, bg });
            },
            None => {},
        }
    }

    /// Puts the characters `chs` in the given colours from column `x` of
    /// row `y` on, going on into the next rows, as far as the buffer has
    /// cells for them.
    pub fn put_cells(&mut self, x: usize, y: usize, chs: &[char], fg: Color, bg: Color)
        ensures
            final(self).cells@ == spec_put_run(
                old(self).cells@,
                spec_cell_index(old(self).width as int, x as int, y as int),
                chs@,
                fg,
                bg,
            ),
            final(self).width == old(self).width,
            final(self).height == old(self).height,
    {
        let ghost first = spec_cell_index(self.width as int, x as int, y as int);
        let start = match self.index(x, y) {
            Some(at) => at,
            None => {
                assert(first >= self.cells@.len());
                let ghost run = spec_put_run(old(self).cells@, first, chs@, fg, bg);
                assert(run.len() == self.cells@.len());
                assert forall|i: int| 0 <= i < run.len() implies run[i] == self.cells@[i] by {
                    assert(!(first <= i));
                }
                assert(self.cells@ =~= run);
                return ;
            },
        };
        let len = self.cells.len();
        let room = len - start;
        let mut offset: usize = 0;
        assert(self.cells@ =~= spec_put_run(
            old(self).cells@,
            start as int,
            chs@.take(0),
            fg,
            bg,
        ));
        while offset < chs.len() && offset < room
            invariant
                len == self.cells@.len(),
                self.width == old(self).width,
                self.height == old(self).height,
                self.cells@.len() == old(self).cells@.len(),
                room == self.cells@.len() - start,
                offset <= chs@.len(),
                offset <= room,
                self.cells@ == spec_put_run(
                    old(self).cells@,
                    start as int,
                    chs@.take(offset as int),
                    fg,
                    bg,
                ),
            decreases chs@.len() - offset,
        {
            let cell = Cell { ch: chs[offset], fg, bg };
            proof {
                lemma_put_run_step(
                    old(self).cells@,
                    start as int,
                    chs@,
                    fg,
                    bg,
                    offset as int,
                    cell,
                );
            }
            self.set(start + offset, cell);
            offset += 1;
        }
        proof {
            lemma_put_run_end(old(self).cells@, start as int, chs@, fg, bg, offset as int);
        }

    }

    /// What to send to the terminal to show the whole buffer: a clearing of
    /// the screen, the colours white on black, the cursor to the top left
    /// corner; then for each cell each colour that differs from the one in
    /// use, and the character; and at last the order to send it all.
    pub fn flush(&self) -> (out: Vec<Draw>)
        ensures
            out@ == spec_flush(self.cells@),
    {
        let mut out: Vec<Draw> = Vec::new();
        out.push(Draw::ClearAll);
        out.push(Draw::Foreground(Color::White));
        out.push(Draw::Background(Color::Black));
        out.push(Draw::MoveTo { x: 0, y: 0 });
        let ghost head = out@;
        let mut fg = Color::White;
        let mut bg = Color::Black;
        let mut i: usize = 0;
        assert(self.cells@.skip(0) =~= self.cells@);
        while i < self.cells.len()
            invariant
                i <= self.cells@.len(),
                head == seq![
                    Draw::ClearAll,
                    Draw::Foreground(Color::White),
                    Draw::Background(Color::Black),
                    Draw::MoveTo { x: 0, y: 0 },
                ],
                out@ + spec_paint(self.cells@.skip(i as int), fg, bg) == head + spec_paint(
                    self.cells@,
                    Color::White,
                    Color::Black,
                ),
            decreases self.cells@.len() - i,
        {
            let cell = self.cells[i];
            let ghost before = out@;
            let ghost rest = self.cells@.skip(i as int);
            proof {
                assert(rest[0] == cell);
                assert(rest.drop_first() =~= self.cells@.skip(i + 1));
            }
            paint_cell(&mut out, cell, fg, bg);
            proof {
                assert(before + spec_paint_cell(cell, fg, bg) + spec_paint(
                    rest.drop_first(),
                    cell.fg,
                    cell.bg,
                ) =~= before + spec_paint(rest, fg, bg));
            }
            fg = cell.fg;
            bg = cell.bg;
            i += 1;
        }
        proof {
            assert(self.cells@.skip(self.cells@.len() as int) =~= Seq::<Cell>::empty());
            assert(out@ + Seq::<Draw>::empty() =~= out@);
        }
        out.push(Draw::Flush);
        assert(out@ =~= spec_flush(self.cells@));
        out
    }

    /// The cells of `other` that differ from this buffer's, in the order of
    /// the screen.
    pub fn diff(&self, other: &Buffer) -> (patches: Vec<Patch>)
        requires
            self.wf(),
            other.wf(),
            self.width == other.width,
            self.height == other.height,
        ensures
            patches@ == spec_diff(self.cells@, other.cells@, self.width as int),
    {
        let ghost a = self.cells@;
        let ghost b = other.cells@;
        let ghost width = self.width as int;
        let ghost differs = |i: int| a[i] != b[i];
        let ghost patch = |i: int|
            Patch { cell: b[i], x: (i % width) as usize, y: (i / width) as usize };
        let mut patches: Vec<Patch> = Vec::new();
        let mut i: usize = 0;
        proof {
            reveal(Seq::filter);
            assert(Seq::new(0, |k: int| k) =~= Seq::<int>::empty());
            assert(Seq::<int>::empty().filter(differs).map_values(patch) =~= Seq::<
                Patch,
            >::empty());
        }
        while i < self.cells.len()
            invariant
                i <= self.cells@.len(),
                a == self.cells@,
                b == other.cells@,
                a.len() == b.len(),
                width == self.width,
                a.len() == self.width * self.height,
                differs == (|i: int| a[i] != b[i]),
                patch == (|i: int|
                    Patch { cell: b[i], x: (i % width) as usize, y: (i / width) as usize }),
                patches@ == Seq::new(i as nat, |k: int| k).filter(differs).map_values(patch),
            decreases self.cells@.len() - i,
        {
            proof {
                let seen = Seq::new(i as nat, |k: int| k);
                assert(Seq::new((i + 1) as nat, |k: int| k) =~= seen.push(i as int));
                Seq::lemma_filter_push(seen, i as int, differs);
                assert(seen.filter(differs).push(i as int).map_values(patch) =~= seen.filter(
                    differs,
                ).map_values(patch).push(patch(i as int)));
                assert(self.width > 0) by (nonlinear_arith)
                    requires
                        i < self.width * self.height,
                ;
            }
            if self.cells[i] != other.cells[i] {
                patches.push(
                    Patch { cell: other.cells[i], x: i % self.width, y: i / self.width },
                );
            }
            i += 1;
        }
        patches
    }
}

/// The lines of the conversation, oldest first, each with its colour.
pub struct ChatLog {
    pub items: Vec<(String, Color)>,
}

/// The last `h` of `items`, or all of them where there are fewer.
pub open spec fn spec_shown(items: Seq<(String, Color)>, h: int) -> Seq<(String, Color)> {
    if items.len() >= h >= 0 {
        items.skip(items.len() - h)
    } else {
        items
    }
}

/// The cells with `rows` drawn one below the other from column `x` of row
/// `y` on, each cut to `w` characters, in its colour on black.
pub open spec fn spec_render_rows(
    cells: Seq<Cell>,
    width: int,
    rows: Seq<(String, Color)>,
    x: int,
    y: int,
    w: int,
) -> Seq<Cell>
    decreases rows.len(),
{
    if rows.len() == 0 {
        cells
    } else {
        spec_render_rows(
            spec_put_run(
                cells,
                spec_cell_index(width, x, y),
                spec_clip(rows[0].0@, w),
                rows[0].1,
                Color::Black,
            ),
            width,
            rows.drop_first(),
            x,
            y + 1,
            w,
        )
    }
}

impl Default for ChatLog {
    fn default() -> (log: ChatLog)
        ensures
            log.items@ == Seq::<(String, Color)>::empty(),
    {
        ChatLog { items: Vec::new() }
    }
}

impl ChatLog {
    /// Adds a line at the end.
    pub fn push(&mut self, message: String, color: Color)
        ensures
            final(self).items@ == old(self).items@.push((message, color)),
    {
        self.items.push((message, color));
    }

    /// Adds a message of the conversation, in white.
    pub fn msg(&mut self, message: String)
        ensures
            final(self).items@ == old(self).items@.push((message, Color::White)),
    {
        self.push(message, Color::White);
    }

    /// Adds a word from the client itself, in blue.
    pub fn info(&mut self, message: String)
        ensures
            final(self).items@ == old(self).items@.push((message, Color::Blue)),
    {
        self.push(message, Color::Blue);
    }

    /// Adds a complaint, in red.
    pub fn error(&mut self, message: String)
        ensures
            final(self).items@ == old(self).items@.push((message, Color::Red)),
    {
        self.push(message, Color::Red);
    }

    /// Draws the last lines of the conversation into `boundary`: as many as
    /// it has rows, the oldest of them in its first row, each cut to its
    /// width.
    pub fn render(&self, buffer: &mut Buffer, boundary: Rect)
        requires
            boundary.y + boundary.h <= usize::MAX,
        ensures
            final(buffer).cells@ == spec_render_rows(
                old(buffer).cells@,
                old(buffer).width as int,
                spec_shown(self.items@, boundary.h as int),
                boundary.x as int,
                boundary.y as int,
                boundary.w as int,
            ),
            final(buffer).width == old(buffer).width,
            final(buffer).height == old(buffer).height,
    {
        let n = self.items.len();
        let m = if n >= boundary.h {
            n - boundary.h
        } else {
            0
        };
        let ghost shown = spec_shown(self.items@, boundary.h as int);
        let ghost width = buffer.width as int;
        let mut dy: usize = 0;
        proof {
            assert(self.items@.skip(0) =~= self.items@);
            assert(shown.skip(0) =~= shown);
            assert(shown =~= self.items@.skip(m as int));
        }
        while m + dy < n
            invariant
                m <= n,
                n == self.items@.len(),
                n - m <= boundary.h,
                m + dy <= n,
                boundary.y + boundary.h <= usize::MAX,
                buffer.width == old(buffer).width,
                buffer.height == old(buffer).height,
                width == buffer.width,
                shown == self.items@.skip(m as int),
                spec_render_rows(
                    buffer.cells@,
                    width,
                    shown.skip(dy as int),
                    boundary.x as int,
                    boundary.y + dy,
                    boundary.w as int,
                ) == spec_render_rows(
                    old(buffer).cells@,
                    width,
                    shown,
                    boundary.x as int,
                    boundary.y as int,
                    boundary.w as int,
                ),
            decreases n - m - dy,
        {
            let line_chars = chars_of(self.items[m + dy].0.as_str());
            let color = self.items[m + dy].1;
            proof {
                let rest = shown.skip(dy as int);
                assert(rest[0] == self.items@[m + dy]);
                assert(rest.drop_first() =~= shown.skip(dy + 1));
            }
            buffer.put_cells(
                boundary.x,
                boundary.y + dy,
                clip(line_chars.as_slice(), boundary.w),
                color,
                Color::Black,
            );
            dy += 1;
        }
        proof {
            assert(shown.skip(dy as int) =~= Seq::<(String, Color)>::empty());
        }
    }
}

} // verus!
