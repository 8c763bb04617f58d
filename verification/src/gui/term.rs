//! A small terminal: a grid of characters that control sequences move on.
use vstd::arithmetic::mul::lemma_mul_inequality;
use vstd::prelude::*;
use vstd::string::*;

verus! {

/// The colour of a character: that of the text, or one of the palette.
#[derive(Clone, Copy, Debug, PartialEq, Eq, Structural)]
pub enum AnsiColor {
    Default,
    Index(u8),
}

/// One place of the grid.
#[derive(Clone, Copy, Debug, PartialEq, Eq, Structural)]
pub struct Cell {
    pub ch: char,
    pub fg: AnsiColor,
}

/// A place where nothing was written.
pub open spec fn blank() -> Cell {
    Cell { ch: ' ', fg: AnsiColor::Default }
}

impl Default for Cell {
    fn default() -> (r: Self)
        ensures
            r == blank(),
    {
        Cell { ch: ' ', fg: AnsiColor::Default }
    }
}

/// A terminal: its size, the place of the cursor, the grid line by line, and the colour in
/// which is written.
pub struct AnsiTerm {
    pub cols: u16,
    pub rows: u16,
    pub cur_x: u16,
    pub cur_y: u16,
    pub grid: Vec<Cell>,
    pub fg: AnsiColor,
}

/// The model of an `AnsiTerm`.
pub struct TermView {
    pub cols: int,
    pub rows: int,
    pub x: int,
    pub y: int,
    pub grid: Seq<Cell>,
    pub fg: AnsiColor,
}

impl View for AnsiTerm {
    type V = TermView;

    open spec fn view(&self) -> TermView {
        TermView {
            cols: self.cols as int,
            rows: self.rows as int,
            x: self.cur_x as int,
            y: self.cur_y as int,
            grid: self.grid@,
            fg: self.fg,
        }
    }
}

impl TermView {
    /// Whether the grid has the size of the terminal, and the cursor stands in it.
    pub open spec fn wf(self) -> bool {
        &&& 0 <= self.x < self.cols <= 65535
        &&& 0 <= self.y < self.rows <= 65535
        &&& self.grid.len() == self.cols * self.rows
    }

    /// The place of a character in the grid.
    pub open spec fn at(self, x: int, y: int) -> int {
        y * self.cols + x
    }

    /// The terminal with its first lines gone and as many empty lines at its end.
    pub open spec fn scrolled(self, n: int) -> TermView {
        let k = if n < self.rows {
            n * self.cols
        } else {
            self.rows * self.cols
        };
        TermView { grid: self.grid.skip(k) + blanks(k), ..self }
    }

    /// The terminal with the cursor at the start of the next line.
    pub open spec fn newline(self) -> TermView {
        if self.y + 1 >= self.rows {
            TermView { x: 0, ..self.scrolled(1) }
        } else {
            TermView { x: 0, y: self.y + 1, ..self }
        }
    }

    /// The terminal after a character was written.
    pub open spec fn put(self, c: char) -> TermView {
        if c == '\n' {
            self.newline()
        } else if c == '\r' {
            TermView { x: 0, ..self }
        } else if c == '\t' {
            TermView { x: lesser((self.x / 4 + 1) * 4, self.cols - 1), ..self }
        } else {
            let t = TermView { grid: self.grid.update(self.at(self.x, self.y), Cell { ch: c, fg: self.fg }), ..self };
            if self.x + 1 >= self.cols {
                t.newline()
            } else {
                TermView { x: self.x + 1, ..t }
            }
        }
    }

    /// The terminal with the character before the cursor gone.
    pub open spec fn rubbed(self) -> TermView {
        if self.x > 0 {
            TermView { x: self.x - 1, grid: self.grid.update(self.at(self.x - 1, self.y), blank()), ..self }
        } else {
            self
        }
    }

    /// The terminal with nothing on it.
    pub open spec fn cleared(self) -> TermView {
        TermView { x: 0, y: 0, grid: blanks(self.grid.len() as int), ..self }
    }

    /// The terminal with nothing from the cursor to the end of its line.
    pub open spec fn cleared_line(self) -> TermView {
        TermView {
            grid: Seq::new(
                self.grid.len(),
                |i: int|
                    if self.at(self.x, self.y) <= i < self.at(self.cols, self.y) {
                        blank()
                    } else {
                        self.grid[i]
                    },
            ),
            ..self
        }
    }

    /// The terminal with the cursor at a column and a line, counted from one; at the edge
    /// where they lie beyond it.
    pub open spec fn moved_to(self, col: int, row: int) -> TermView {
        TermView { x: clamped(col - 1, self.cols), y: clamped(row - 1, self.rows), ..self }
    }

    /// The terminal with the cursor moved; at the edge where it would leave the grid.
    pub open spec fn moved_by(self, dx: int, dy: int) -> TermView {
        TermView {
            x: clamped(self.x + dx, self.cols),
            y: clamped(self.y + dy, self.rows),
            ..self
        }
    }
}

/// So many empty places.
pub open spec fn blanks(n: int) -> Seq<Cell> {
    Seq::new(n as nat, |i: int| blank())
}

/// The lesser of two numbers.
pub open spec fn lesser(a: int, b: int) -> int {
    if a < b {
        a
    } else {
        b
    }
}

/// A number in a range that begins at zero: the nearest one.
pub open spec fn clamped(n: int, limit: int) -> int {
    if n < 0 {
        0
    } else if n > limit - 1 {
        limit - 1
    } else {
        n
    }
}

/// A number as a signed word of sixteen bits.
pub open spec fn wrap16(n: int) -> int {
    (n + 32768) % 65536 - 32768
}

/// The colour after a list of attributes. Without any, the colour of the text.
pub open spec fn coloured(fg: AnsiColor, params: Seq<u16>) -> AnsiColor {
    if params.len() == 0 {
        AnsiColor::Default
    } else {
        coloured_from(fg, params, 0)
    }
}

/// The colour after the attributes from a place on. An attribute for a large palette takes
/// two more with it.
pub open spec fn coloured_from(fg: AnsiColor, params: Seq<u16>, i: int) -> AnsiColor
    decreases params.len() - i,
{
    if i < 0 || i >= params.len() {
        fg
    } else {
        let p = params[i];
        if p == 38 {
            if i + 3 >= params.len() {
                fg
            } else {
                coloured_from(fg, params, i + 3)
            }
        } else {
            coloured_from(attribute(fg, p), params, i + 1)
        }
    }
}

/// The colour after one attribute.
pub open spec fn attribute(fg: AnsiColor, p: u16) -> AnsiColor {
    if p == 0 || p == 39 {
        AnsiColor::Default
    } else if 30 <= p <= 37 {
        AnsiColor::Index((p - 30) as u8)
    } else if 90 <= p <= 97 {
        AnsiColor::Index((p - 90 + 8) as u8)
    } else {
        fg
    }
}

/// A number of a control sequence, or a default where it is missing or zero.
pub open spec fn number_or(nums: Seq<u16>, i: int, d: int) -> int {
    if i < nums.len() && nums[i] > 0 {
        nums[i] as int
    } else {
        d
    }
}

impl TermView {
    /// The terminal after a control sequence.
    pub open spec fn controlled(self, nums: Seq<u16>, action: char) -> TermView {
        let n = wrap16(number_or(nums, 0, 1));
        if action == 'H' || action == 'f' {
            self.moved_to(number_or(nums, 1, 1), number_or(nums, 0, 1))
        } else if action == 'A' {
            self.moved_by(0, -n)
        } else if action == 'B' {
            self.moved_by(0, n)
        } else if action == 'C' {
            self.moved_by(n, 0)
        } else if action == 'D' {
            self.moved_by(-n, 0)
        } else if action == 'G' {
            self.moved_to(number_or(nums, 0, 1), self.y + 1)
        } else if action == 'J' {
            let mode = if nums.len() == 0 {
                0
            } else {
                nums[0] as int
            };
            if mode == 2 {
                self.cleared()
            } else if mode == 0 {
                self.cleared_line()
            } else {
                self
            }
        } else if action == 'K' {
            self.cleared_line()
        } else if action == 'm' {
            TermView { fg: coloured(self.fg, nums), ..self }
        } else {
            self
        }
    }

    /// The terminal after a control byte.
    pub open spec fn executed(self, byte: u8) -> TermView {
        if byte == 10 {
            self.newline()
        } else if byte == 13 {
            TermView { x: 0, ..self }
        } else if byte == 8 {
            self.rubbed()
        } else {
            self
        }
    }
}

proof fn lemma_at(t: TermView, x: int, y: int)
    requires
        t.wf(),
        0 <= x <= t.cols,
        0 <= y < t.rows,
    ensures
        0 <= t.at(x, y) <= t.grid.len(),
        x < t.cols ==> t.at(x, y) < t.grid.len(),
        t.at(t.cols, y) <= t.grid.len(),
        0 <= t.at(0, y),
        t.cols <= t.grid.len(),
{
    lemma_mul_inequality(y + 1, t.rows, t.cols);
    lemma_mul_inequality(0, y, t.cols);
    lemma_mul_inequality(1, t.rows, t.cols);
    assert((y + 1) * t.cols == y * t.cols + t.cols) by (nonlinear_arith);
    assert(t.rows * t.cols == t.cols * t.rows) by (nonlinear_arith);
}

impl AnsiTerm {
    /// A terminal of a size. One without columns or rows has no place for a character.
    pub fn new(cols: u16, rows: u16) -> (r: AnsiTerm)
        ensures
            r@ == (TermView {
                cols: cols as int,
                rows: rows as int,
                x: 0,
                y: 0,
                grid: blanks(cols * rows),
                fg: AnsiColor::Default,
            }),
            r@.wf() <==> 1 <= cols && 1 <= rows,
    {
        assert(0 <= cols * rows <= 65535 * 65535) by (nonlinear_arith)
            requires
                0 <= cols <= 65535,
                0 <= rows <= 65535,
        ;
        let grid = blank_cells(cols as usize * rows as usize);
        AnsiTerm { cols, rows, cur_x: 0, cur_y: 0, grid, fg: AnsiColor::Default }
    }

    /// Give the terminal another size. Where it has another one, nothing stays on it.
    pub fn resize(&mut self, cols: u16, rows: u16)
        ensures
            old(self)@.wf() && 1 <= cols && 1 <= rows ==> final(self)@.wf(),
            final(self)@ == if cols == old(self).cols && rows == old(self).rows {
                old(self)@
            } else {
                TermView {
                    cols: cols as int,
                    rows: rows as int,
                    x: 0,
                    y: 0,
                    grid: blanks(cols * rows),
                    fg: old(self).fg,
                }
            },
    {
        if cols == self.cols && rows == self.rows {
            return;
        }
        assert(0 <= cols * rows <= 65535 * 65535) by (nonlinear_arith)
            requires
                0 <= cols <= 65535,
                0 <= rows <= 65535,
        ;
        self.cols = cols;
        self.rows = rows;
        self.grid = blank_cells(cols as usize * rows as usize);
        self.cur_x = 0;
        self.cur_y = 0;
    }

    /// The place of a character in the grid.
    pub fn idx(&self, x: u16, y: u16) -> (r: usize)
        ensures
            r == self@.at(x as int, y as int),
    {
        assert(0 <= y * self.cols <= 65535 * 65535) by (nonlinear_arith)
            requires
                0 <= y <= 65535,
                0 <= self.cols <= 65535,
        ;
        assert(65535 * 65535 + 65535 <= 0xffff_ffff);
        y as usize * self.cols as usize + x as usize
    }

    /// Write a character.
    pub fn put_char(&mut self, c: char)
        requires
            old(self)@.wf(),
        ensures
            final(self)@.wf(),
            final(self)@ == old(self)@.put(c),
    {
        if c == '\n' {
            self.newline();
            return;
        }
        if c == '\r' {
            self.cur_x = 0;
            return;
        }
        if c == '\t' {
            let next: u32 = (self.cur_x as u32 / 4 + 1) * 4;
            self.cur_x = if next < self.cols as u32 - 1 {
                next as u16
            } else {
                self.cols - 1
            };
            return;
        }
        let i: usize = self.idx(self.cur_x, self.cur_y);
        proof {
            lemma_at(self@, self@.x, self@.y);
        }
        let fg = self.fg;
        self.grid.set(i, Cell { ch: c, fg });
        if self.cur_x + 1 >= self.cols {
            self.newline();
        } else {
            self.cur_x = self.cur_x + 1;
        }
    }

    /// Go to the start of the next line.
    pub fn newline(&mut self)
        requires
            old(self)@.wf(),
        ensures
            final(self)@.wf(),
            final(self)@ == old(self)@.newline(),
    {
        self.cur_x = 0;
        if self.cur_y + 1 >= self.rows {
            self.scroll_up(1);
        } else {
            self.cur_y = self.cur_y + 1;
        }
    }

    /// Take the character before the cursor away.
    pub fn backspace(&mut self)
        requires
            old(self)@.wf(),
        ensures
            final(self)@.wf(),
            final(self)@ == old(self)@.rubbed(),
    {
        if self.cur_x > 0 {
            self.cur_x = self.cur_x - 1;
            let i: usize = self.idx(self.cur_x, self.cur_y);
            proof {
                lemma_at(self@, self@.x, self@.y);
            }
            self.grid.set(i, Cell { ch: ' ', fg: AnsiColor::Default });
        }
    }

    /// Take everything off the terminal.
    pub fn clear_screen(&mut self)
        requires
            old(self)@.wf(),
        ensures
            final(self)@.wf(),
            final(self)@ == old(self)@.cleared(),
    {
        let n: usize = self.grid.len();
        self.grid = blank_cells(n);
        self.cur_x = 0;
        self.cur_y = 0;
    }

    /// Take everything off from the cursor to the end of its line.
    pub fn clear_eol(&mut self)
        requires
            old(self)@.wf(),
        ensures
            final(self)@.wf(),
            final(self)@ == old(self)@.cleared_line(),
    {
        let from: usize = self.idx(self.cur_x, self.cur_y);
        let to: usize = self.idx(self.cols, self.cur_y);
        proof {
            lemma_at(self@, self@.x, self@.y);
        }
        let ghost before = self@;
        let mut i: usize = from;
        while i < to
            invariant
                from <= i <= to,
                to <= self.grid@.len(),
                self.grid@.len() == before.grid.len(),
                self@ == (TermView { grid: self.grid@, ..before }),
                forall|k: int|
                    0 <= k < self.grid@.len() ==> #[trigger] self.grid@[k] == if from <= k < i {
                        blank()
                    } else {
                        before.grid[k]
                    },
            decreases to - i,
        {
            self.grid.set(i, Cell { ch: ' ', fg: AnsiColor::Default });
            i += 1;
        }
        assert(self.grid@ =~= before.cleared_line().grid);
    }

    /// Put the cursor at a column and a line, counted from one.
    pub fn move_to(&mut self, col: u16, row: u16)
        requires
            old(self)@.wf(),
        ensures
            final(self)@.wf(),
            final(self)@ == old(self)@.moved_to(col as int, row as int),
    {
        self.cur_x = if col == 0 {
            0
        } else if col > self.cols {
            self.cols - 1
        } else {
            col - 1
        };
        self.cur_y = if row == 0 {
            0
        } else if row > self.rows {
            self.rows - 1
        } else {
            row - 1
        };
    }

    /// Move the cursor.
    pub fn move_rel(&mut self, dx: i32, dy: i32)
        requires
            old(self)@.wf(),
        ensures
            final(self)@.wf(),
            final(self)@ == old(self)@.moved_by(dx as int, dy as int),
    {
        self.cur_x = clamp_to(self.cur_x as i64 + dx as i64, self.cols);
        self.cur_y = clamp_to(self.cur_y as i64 + dy as i64, self.rows);
    }

    /// Take the first lines away; as many empty ones come at the end.
    pub fn scroll_up(&mut self, n: u16)
        requires
            old(self)@.wf(),
        ensures
            final(self)@.wf(),
            final(self)@ == old(self)@.scrolled(n as int),
    {
        let ghost before = self@;
        let lines: u16 = if n < self.rows {
            n
        } else {
            self.rows
        };
        assert(0 <= lines * self.cols <= self.cols * self.rows) by (nonlinear_arith)
            requires
                0 <= lines <= self.rows,
                0 <= self.cols,
        ;
        assert(self.cols * self.rows <= 65535 * 65535) by (nonlinear_arith)
            requires
                0 <= self.cols <= 65535,
                0 <= self.rows <= 65535,
        ;
        let k: usize = lines as usize * self.cols as usize;
        let total: usize = self.grid.len();
        let mut kept = self.grid.split_off(k);
        let mut empty = blank_cells(k);
        kept.append(&mut empty);
        self.grid = kept;
        assert(before.grid.subrange(k as int, total as int) =~= before.grid.skip(k as int));
        assert(self.grid@ =~= before.grid.skip(k as int) + blanks(k as int));
        assert(k == if n < before.rows {
            n * before.cols
        } else {
            before.rows * before.cols
        });
    }

    /// Take a list of attributes.
    pub fn set_sgr(&mut self, params: &Vec<u16>)
        ensures
            final(self)@ == (TermView { fg: coloured(old(self).fg, params@), ..old(self)@ }),
    {
        if params.len() == 0 {
            self.fg = AnsiColor::Default;
            return;
        }
        let mut fg = self.fg;
        let n: usize = params.len();
        let mut i: usize = 0;
        while i < n
            invariant
                i <= n,
                n == params@.len(),
                coloured_from(self.fg, params@, 0) == coloured_from(fg, params@, i as int),
            decreases n - i,
        {
            let p: u16 = params[i];
            if p == 38 {
                i = if n - i <= 3 {
                    n
                } else {
                    i + 3
                };
            } else {
                if p == 0 || p == 39 {
                    fg = AnsiColor::Default;
                } else if 30 <= p && p <= 37 {
                    fg = AnsiColor::Index((p - 30) as u8);
                } else if 90 <= p && p <= 97 {
                    fg = AnsiColor::Index((p - 90 + 8) as u8);
                }
                i += 1;
            }
        }
        self.fg = fg;
    }

    /// Take a control byte.
    pub fn execute(&mut self, byte: u8)
        requires
            old(self)@.wf(),
        ensures
            final(self)@.wf(),
            final(self)@ == old(self)@.executed(byte),
    {
        if byte == 10 {
            self.newline();
        } else if byte == 13 {
            self.cur_x = 0;
        } else if byte == 8 {
            self.backspace();
        }
    }

    /// Take a control sequence: its numbers and the character that ends it.
    pub fn csi_dispatch(&mut self, nums: &Vec<u16>, action: char)
        requires
            old(self)@.wf(),
        ensures
            final(self)@.wf(),
            final(self)@ == old(self)@.controlled(nums@, action),
    {
        let first: u16 = read_number(nums, 0);
        let n: i32 = to_word(first);
        if action == 'H' || action == 'f' {
            let col: u16 = read_number(nums, 1);
            self.move_to(col, first);
        } else if action == 'A' {
            self.move_rel(0, 0 - n);
        } else if action == 'B' {
            self.move_rel(0, n);
        } else if action == 'C' {
            self.move_rel(n, 0);
        } else if action == 'D' {
            self.move_rel(0 - n, 0);
        } else if action == 'G' {
            self.move_to(first, self.cur_y + 1);
        } else if action == 'J' {
            let mode: u16 = if nums.len() == 0 {
                0
            } else {
                nums[0]
            };
            if mode == 2 {
                self.clear_screen();
            } else if mode == 0 {
                self.clear_eol();
            }
        } else if action == 'K' {
            self.clear_eol();
        } else if action == 'm' {
            self.set_sgr(nums);
        }
    }
}

fn blank_cells(n: usize) -> (r: Vec<Cell>)
    ensures
        r@ == blanks(n as int),
{
    let mut v: Vec<Cell> = Vec::new();
    let mut i: usize = 0;
    while i < n
        invariant
            i <= n,
            v@ == blanks(i as int),
        decreases n - i,
    {
        v.push(Cell { ch: ' ', fg: AnsiColor::Default });
        assert(v@ =~= blanks(i + 1));
        i += 1;
    }
    v
}

fn to_word(n: u16) -> (r: i32)
    ensures
        r == wrap16(n as int),
{
    if n > 32767 {
        n as i32 - 65536
    } else {
        n as i32
    }
}

fn clamp_to(n: i64, limit: u16) -> (r: u16)
    requires
        1 <= limit,
    ensures
        r == clamped(n as int, limit as int),
{
    if n < 0 {
        0
    } else if n > limit as i64 - 1 {
        limit - 1
    } else {
        n as u16
    }
}

fn read_number(nums: &Vec<u16>, i: usize) -> (r: u16)
    ensures
        r == number_or(nums@, i as int, 1),
{
    if i < nums.len() && nums[i] > 0 {
        nums[i]
    } else {
        1
    }
}

/// Every operation keeps the cursor in the grid, and the grid at its size.
pub proof fn law_terminal_stays(t: TermView, c: char, byte: u8, nums: Seq<u16>, action: char)
    requires
        t.wf(),
    ensures
        t.put(c).wf() && t.put(c).cols == t.cols && t.put(c).rows == t.rows,
        t.executed(byte).wf() && t.executed(byte).cols == t.cols && t.executed(byte).rows == t.rows,
        t.controlled(nums, action).wf() && t.controlled(nums, action).cols == t.cols && t.controlled(
            nums,
            action,
        ).rows == t.rows,
{
    lemma_scroll_one(t);
    lemma_at(t, t.x, t.y);
    let u = TermView { grid: t.grid.update(t.at(t.x, t.y), Cell { ch: c, fg: t.fg }), ..t };
    lemma_scroll_one(u);
}

proof fn lemma_scroll_one(t: TermView)
    requires
        t.wf(),
    ensures
        t.newline().wf(),
        t.newline().cols == t.cols,
        t.newline().rows == t.rows,
{
    lemma_at(t, t.x, t.y);
    assert(1 * t.cols == t.cols);
    assert(t.rows == 1 ==> t.rows * t.cols == t.cols) by (nonlinear_arith);
    assert(t.cols * t.rows >= t.cols) by (nonlinear_arith)
        requires
            t.cols >= 1,
            t.rows >= 1,
    ;
}

/// What is written stands where the cursor was, and the cursor goes one place on.
pub proof fn law_written(t: TermView, c: char)
    requires
        t.wf(),
        c != '\n' && c != '\r' && c != '\t',
        t.x + 1 < t.cols,
    ensures
        t.put(c).grid[t.at(t.x, t.y)] == (Cell { ch: c, fg: t.fg }),
        t.put(c).x == t.x + 1,
        t.put(c).y == t.y,
        t.put(c).rubbed().x == t.x,
        t.put(c).rubbed().grid == t.grid.update(t.at(t.x, t.y), blank()),
{
    lemma_at(t, t.x, t.y);
    let i = t.at(t.x, t.y);
    assert(t.grid.update(i, Cell { ch: c, fg: t.fg }).update(i, blank()) =~= t.grid.update(i, blank()));
}

// ---------------------------------------------------------------------------
// How a line is drawn

/// The red, green and blue of a colour of the palette; none for the colour of the text.
pub open spec fn palette(i: u8) -> Option<(u8, u8, u8)> {
    if i == 0 {
        Some((0, 0, 0))
    } else if i == 1 {
        Some((205, 49, 49))
    } else if i == 2 {
        Some((13, 188, 121))
    } else if i == 3 {
        Some((229, 229, 16))
    } else if i == 4 {
        Some((36, 114, 200))
    } else if i == 5 {
        Some((188, 63, 188))
    } else if i == 6 {
        Some((17, 168, 205))
    } else if i == 8 {
        Some((96, 96, 96))
    } else if i == 9 {
        Some((255, 0, 0))
    } else if i == 10 {
        Some((0, 255, 0))
    } else if i == 11 {
        Some((255, 255, 0))
    } else if i == 12 {
        Some((92, 92, 255))
    } else if i == 13 {
        Some((255, 0, 255))
    } else if i == 14 {
        Some((0, 255, 255))
    } else if i == 15 {
        Some((255, 255, 255))
    } else {
        None
    }
}

/// The red, green and blue of a colour; none for the colour of the text.
pub open spec fn shown_colour(c: AnsiColor) -> Option<(u8, u8, u8)> {
    match c {
        AnsiColor::Default => None,
        AnsiColor::Index(i) => palette(i),
    }
}

/// The red, green and blue of a colour of the palette.
pub fn ansi_index_to_color(i: u8) -> (r: Option<(u8, u8, u8)>)
    ensures
        r == palette(i),
{
    match i {
        0 => Some((0, 0, 0)),
        1 => Some((205, 49, 49)),
        2 => Some((13, 188, 121)),
        3 => Some((229, 229, 16)),
        4 => Some((36, 114, 200)),
        5 => Some((188, 63, 188)),
        6 => Some((17, 168, 205)),
        8 => Some((96, 96, 96)),
        9 => Some((255, 0, 0)),
        10 => Some((0, 255, 0)),
        11 => Some((255, 255, 0)),
        12 => Some((92, 92, 255)),
        13 => Some((255, 0, 255)),
        14 => Some((0, 255, 255)),
        15 => Some((255, 255, 255)),
        _ => None,
    }
}

/// Characters of one colour, one after the other.
pub struct Run {
    pub colour: Option<(u8, u8, u8)>,
    pub text: String,
}

/// The colours and the texts of a list of runs.
pub open spec fn run_views(v: Seq<Run>) -> Seq<(Option<(u8, u8, u8)>, Seq<char>)> {
    v.map_values(|r: Run| (r.colour, r.text@))
}

/// The runs of some characters: each as long as the colour is the same.
pub open spec fn runs_of(cells: Seq<Cell>) -> Seq<(Option<(u8, u8, u8)>, Seq<char>)>
    decreases cells.len(),
{
    if cells.len() == 0 {
        Seq::empty()
    } else {
        let rest = runs_of(cells.drop_last());
        let c = cells.last();
        let colour = shown_colour(c.fg);
        if rest.len() > 0 && rest.last().0 == colour {
            rest.drop_last().push((colour, rest.last().1.push(c.ch)))
        } else {
            rest.push((colour, seq![c.ch]))
        }
    }
}

/// The characters that are drawn on a line of some columns.
pub open spec fn line_cells(t: TermView, row: int, cols: int) -> Seq<Cell> {
    let from = row * t.cols;
    if from >= t.grid.len() {
        Seq::empty()
    } else {
        t.grid.subrange(from, lesser(from + cols, t.grid.len() as int))
    }
}

fn same_colour(a: Option<(u8, u8, u8)>, b: Option<(u8, u8, u8)>) -> (r: bool)
    ensures
        r == (a == b),
{
    match (a, b) {
        (Some(x), Some(y)) => x.0 == y.0 && x.1 == y.1 && x.2 == y.2,
        (None, None) => true,
        _ => false,
    }
}

impl AnsiTerm {
    /// The runs of a line of some columns.
    pub fn line_runs(&self, row: u16, cols: u16) -> (r: Vec<Run>)
        ensures
            run_views(r@) == runs_of(line_cells(self@, row as int, cols as int)),
    {
        let from: usize = self.idx(0, row);
        let n: usize = self.grid.len();
        let mut out: Vec<Run> = Vec::new();
        assert(run_views(out@) =~= Seq::empty());
        if from >= n {
            return out;
        }
        let to: usize = if (cols as usize) < n - from {
            from + cols as usize
        } else {
            n
        };
        let ghost cells = line_cells(self@, row as int, cols as int);
        assert(cells.len() == to - from);
        let mut i: usize = from;
        assert(cells.take(0) =~= Seq::empty());
        while i < to
            invariant
                from <= i <= to <= n,
                n == self.grid@.len(),
                cells == self.grid@.subrange(from as int, to as int),
                run_views(out@) == runs_of(cells.take(i - from)),
            decreases to - i,
        {
            let cell = self.grid[i];
            let ghost k = i - from;
            assert(cells.take(k + 1).drop_last() =~= cells.take(k));
            assert(cells.take(k + 1).last() == cell);
            let colour = match cell.fg {
                AnsiColor::Default => None,
                AnsiColor::Index(c) => ansi_index_to_color(c),
            };
            let ghost before = run_views(out@);
            let len: usize = out.len();
            assert(before.len() == len);
            if len > 0 && same_colour(out[len - 1].colour, colour) {
                assert(before.last() == (out@[len - 1].colour, out@[len - 1].text@));
                let mut last = out.pop().unwrap();
                last.text.push(cell.ch);
                let ghost lv = (last.colour, last.text@);
                out.push(last);
                assert(run_views(out@) =~= before.drop_last().push(lv));
            } else {
                if len > 0 {
                    assert(before.last() == (out@[len - 1].colour, out@[len - 1].text@));
                }
                let mut text = String::new();
                text.push(cell.ch);
                assert(text@ =~= seq![cell.ch]);
                let ghost rv = (colour, text@);
                out.push(Run { colour, text });
                assert(run_views(out@) =~= before.push(rv));
            }
            i += 1;
        }
        assert(cells.take(cells.len() as int) =~= cells);
        out
    }
}

// ---------------------------------------------------------------------------
// What control sequences do

/// The cursor goes up by `A`, down by `B`, right by `C` and left by `D`, as far as it was asked
/// to and the terminal goes; nothing else changes.
pub proof fn law_cursor_moves(t: TermView, nums: Seq<u16>, n: int)
    requires
        t.wf(),
        1 <= n <= 32767,
        nums.len() > 0 && nums[0] == n,
    ensures
        t.controlled(nums, 'A') == (TermView {
            y: if t.y >= n {
                t.y - n
            } else {
                0
            },
            ..t
        }),
        t.controlled(nums, 'B') == (TermView {
            y: if t.y + n < t.rows {
                t.y + n
            } else {
                t.rows - 1
            },
            ..t
        }),
        t.controlled(nums, 'C') == (TermView {
            x: if t.x + n < t.cols {
                t.x + n
            } else {
                t.cols - 1
            },
            ..t
        }),
        t.controlled(nums, 'D') == (TermView {
            x: if t.x >= n {
                t.x - n
            } else {
                0
            },
            ..t
        }),
{
    assert(wrap16(n) == n);
}

/// A move without a count, or with the count zero, is one by one.
pub proof fn law_cursor_moves_by_one(t: TermView, nums: Seq<u16>)
    requires
        t.wf(),
        nums.len() == 0 || nums[0] == 0,
    ensures
        t.controlled(nums, 'A') == (TermView {
            y: if t.y > 0 {
                t.y - 1
            } else {
                t.y
            },
            ..t
        }),
        t.controlled(nums, 'B') == (TermView {
            y: if t.y + 1 < t.rows {
                t.y + 1
            } else {
                t.y
            },
            ..t
        }),
        t.controlled(nums, 'C') == (TermView {
            x: if t.x + 1 < t.cols {
                t.x + 1
            } else {
                t.x
            },
            ..t
        }),
        t.controlled(nums, 'D') == (TermView {
            x: if t.x > 0 {
                t.x - 1
            } else {
                t.x
            },
            ..t
        }),
{
    assert(wrap16(1) == 1);
}

/// A position is a line and then a column, both counted from one, and kept inside the
/// terminal; without numbers it is the first place.
pub proof fn law_cursor_placed(t: TermView, row: u16, col: u16, action: char)
    requires
        t.wf(),
        action == 'H' || action == 'f',
        1 <= row,
        1 <= col,
    ensures
        t.controlled(seq![row, col], action) == (TermView {
            y: if row <= t.rows {
                row - 1
            } else {
                t.rows - 1
            },
            x: if col <= t.cols {
                col - 1
            } else {
                t.cols - 1
            },
            ..t
        }),
        t.controlled(Seq::empty(), action) == (TermView { x: 0, y: 0, ..t }),
        t.controlled(seq![row], action) == (TermView { x: 0, ..t.controlled(seq![row, col], action) }),
        t.controlled(seq![col], 'G') == (TermView { y: t.y, ..t.controlled(seq![row, col], action) }),
{
}

proof fn lemma_same_place(t: TermView, x: int, y: int, a: int, b: int)
    requires
        t.wf(),
        0 <= x < t.cols,
        0 <= y < t.rows,
        0 <= a < t.cols,
        0 <= b < t.rows,
    ensures
        t.at(x, y) == t.at(a, b) <==> x == a && y == b,
        y < b ==> t.at(x, y) < t.at(a, b),
        0 <= t.at(x, y) < t.grid.len(),
{
    lemma_at(t, x, y);
    if y < b {
        lemma_mul_inequality(y + 1, b, t.cols);
        assert((y + 1) * t.cols == y * t.cols + t.cols) by (nonlinear_arith);
    }
    if b < y {
        lemma_mul_inequality(b + 1, y, t.cols);
        assert((b + 1) * t.cols == b * t.cols + t.cols) by (nonlinear_arith);
    }
}

/// `K`, and `J` without a number, take away what stands from the cursor to the end of its line
/// and nothing else; `J` with two takes away everything and goes to the first place.
pub proof fn law_erased(t: TermView, x: int, y: int)
    requires
        t.wf(),
        0 <= x < t.cols,
        0 <= y < t.rows,
    ensures
        t.controlled(Seq::empty(), 'K').grid[t.at(x, y)] == if y == t.y && x >= t.x {
            Cell { ch: ' ', fg: AnsiColor::Default }
        } else {
            t.grid[t.at(x, y)]
        },
        t.controlled(Seq::empty(), 'K') == (TermView { grid: t.controlled(Seq::empty(), 'K').grid, ..t }),
        t.controlled(Seq::empty(), 'J') == t.controlled(Seq::empty(), 'K'),
        t.controlled(seq![2u16], 'J').grid[t.at(x, y)] == (Cell { ch: ' ', fg: AnsiColor::Default }),
        t.controlled(seq![2u16], 'J') == (TermView {
            x: 0,
            y: 0,
            grid: t.controlled(seq![2u16], 'J').grid,
            ..t
        }),
{
    lemma_same_place(t, x, y, t.x, t.y);
    lemma_at(t, t.cols, t.y);
    assert(t.at(t.cols, t.y) == t.y * t.cols + t.cols);
    if y > t.y {
        lemma_same_place(t, 0, y, t.cols - 1, t.y);
        lemma_same_place(t, t.cols - 1, t.y, 0, y);
        assert(t.at(x, y) >= t.at(0, y));
    }
    if y < t.y {
        lemma_same_place(t, x, y, 0, t.y);
        assert(t.at(t.x, t.y) >= t.at(0, t.y));
    }
}

/// The codes from 30 on are the eight colours, those from 90 on their bright ones; 0, 39 and no
/// code at all bring the usual colour back. A code of anything else changes nothing, and
/// nothing that was written changes.
pub proof fn law_colour_codes(t: TermView, k: u16, other: u16)
    requires
        k < 8,
        other != 0 && other != 38 && other != 39 && !(30 <= other <= 37) && !(90 <= other <= 97),
    ensures
        t.controlled(seq![(30 + k) as u16], 'm') == (TermView { fg: AnsiColor::Index(k as u8), ..t }),
        t.controlled(seq![(90 + k) as u16], 'm') == (TermView { fg: AnsiColor::Index((8 + k) as u8), ..t }),
        t.controlled(seq![0u16], 'm') == (TermView { fg: AnsiColor::Default, ..t }),
        t.controlled(seq![39u16], 'm') == (TermView { fg: AnsiColor::Default, ..t }),
        t.controlled(Seq::empty(), 'm') == (TermView { fg: AnsiColor::Default, ..t }),
        t.controlled(seq![other], 'm') == t,
{
    assert forall|p: u16| p != 38 implies #[trigger] coloured(t.fg, seq![p]) == attribute(t.fg, p) by {
        assert(coloured_from(attribute(t.fg, p), seq![p], 1) == attribute(t.fg, p));
    }
    assert(coloured(t.fg, seq![(30 + k) as u16]) == attribute(t.fg, (30 + k) as u16));
    assert(coloured(t.fg, seq![(90 + k) as u16]) == attribute(t.fg, (90 + k) as u16));
    assert(coloured(t.fg, seq![0u16]) == attribute(t.fg, 0));
    assert(coloured(t.fg, seq![39u16]) == attribute(t.fg, 39));
    assert(coloured(t.fg, seq![other]) == attribute(t.fg, other));
}

/// A line feed goes to the start of the next line. On the last line everything goes up by one:
/// the first line is gone, and the last is empty.
pub proof fn law_line_feed(t: TermView, x: int, y: int)
    requires
        t.wf(),
        0 <= x < t.cols,
        0 <= y < t.rows,
    ensures
        t.put('\n').x == 0,
        t.put('\n').fg == t.fg,
        t.y + 1 < t.rows ==> t.put('\n').y == t.y + 1 && t.put('\n').grid == t.grid,
        t.y + 1 == t.rows ==> t.put('\n').y == t.y && t.put('\n').grid[t.at(x, y)] == if y + 1 < t.rows {
            t.grid[t.at(x, y + 1)]
        } else {
            Cell { ch: ' ', fg: AnsiColor::Default }
        },
        t.executed(10) == t.put('\n'),
{
    lemma_same_place(t, x, y, 0, 0);
    assert((y + 1) * t.cols == y * t.cols + t.cols) by (nonlinear_arith);
    if t.y + 1 == t.rows {
        let k = if 1 < t.rows {
            1 * t.cols
        } else {
            t.rows * t.cols
        };
        assert(t.rows == 1 ==> t.rows * t.cols == t.cols) by (nonlinear_arith);
        assert(k == t.cols);
        assert(t.rows * t.cols == t.cols * t.rows) by (nonlinear_arith);
        if y + 1 < t.rows {
            lemma_same_place(t, x, y + 1, 0, 0);
            assert(t.at(x, y + 1) == t.at(x, y) + t.cols);
        } else {
            assert(y == t.rows - 1);
            assert(t.at(x, y) + t.cols == t.rows * t.cols + x);
        }
    }
}

/// A carriage return goes to the start of the line; a tab goes on to the next of the places
/// that are four apart, or to the last one of the line. Nothing is written.
pub proof fn law_return_and_tab(t: TermView)
    requires
        t.wf(),
    ensures
        t.put('\r') == (TermView { x: 0, ..t }),
        t.executed(13) == t.put('\r'),
        t.put('\t') == (TermView { x: t.put('\t').x, ..t }),
        t.x < t.put('\t').x <= t.x + 4 || (t.put('\t').x == t.x && t.x == t.cols - 1),
        t.put('\t').x % 4 == 0 || t.put('\t').x == t.cols - 1,
{
}

/// A backspace takes the character in front of the cursor away and goes there; at the start of
/// a line it does nothing.
pub proof fn law_backspace(t: TermView, x: int, y: int)
    requires
        t.wf(),
        0 <= x < t.cols,
        0 <= y < t.rows,
    ensures
        t.x == 0 ==> t.executed(8) == t,
        t.x > 0 ==> {
            &&& t.executed(8) == (TermView { x: t.x - 1, grid: t.executed(8).grid, ..t })
            &&& t.executed(8).grid[t.at(x, y)] == if x == t.x - 1 && y == t.y {
                Cell { ch: ' ', fg: AnsiColor::Default }
            } else {
                t.grid[t.at(x, y)]
            }
        },
{
    if t.x > 0 {
        lemma_same_place(t, x, y, t.x - 1, t.y);
        lemma_same_place(t, t.x - 1, t.y, x, y);
    }
}

/// A character at the end of a line stands there, and the next one goes to the next line.
pub proof fn law_written_at_the_end(t: TermView, c: char, x: int, y: int)
    requires
        t.wf(),
        c != '\n' && c != '\r' && c != '\t',
        t.x + 1 == t.cols,
        t.y + 1 < t.rows,
        0 <= x < t.cols,
        0 <= y < t.rows,
    ensures
        t.put(c).x == 0,
        t.put(c).y == t.y + 1,
        t.put(c).grid[t.at(x, y)] == if x == t.x && y == t.y {
            Cell { ch: c, fg: t.fg }
        } else {
            t.grid[t.at(x, y)]
        },
{
    lemma_same_place(t, x, y, t.x, t.y);
    lemma_same_place(t, t.x, t.y, x, y);
}

/// Red is a red, green a green and blue a blue, and so are their bright ones; black is black
/// and bright white is white.
pub proof fn law_palette()
    ensures
        palette(0) == Some((0u8, 0u8, 0u8)),
        palette(15) == Some((255u8, 255u8, 255u8)),
        forall|i: u8| i == 1 || i == 9 ==> (#[trigger] palette(i) matches Some((r, g, b)) && r > g && r > b),
        forall|i: u8| i == 2 || i == 10 ==> (#[trigger] palette(i) matches Some((r, g, b)) && g > r && g > b),
        forall|i: u8| i == 4 || i == 12 ==> (#[trigger] palette(i) matches Some((r, g, b)) && b > r && b > g),
        forall|i: u8| i == 3 || i == 11 ==> (#[trigger] palette(i) matches Some((r, g, b)) && r == g && r > b),
        forall|i: u8| i == 5 || i == 13 ==> (#[trigger] palette(i) matches Some((r, g, b)) && r == b && r > g),
        forall|i: u8| i == 6 || i == 14 ==> (#[trigger] palette(i) matches Some((r, g, b)) && g > r && b > r),
        forall|i: u8| palette(i) is Some <==> i < 16 && i != 7,
{
}

/// The characters of a list of runs.
pub open spec fn run_text(v: Seq<(Option<(u8, u8, u8)>, Seq<char>)>) -> Seq<char>
    decreases v.len(),
{
    if v.len() == 0 {
        Seq::empty()
    } else {
        run_text(v.drop_last()) + v.last().1
    }
}

/// The runs of a line hold its characters in their order, none of them is empty, and two that
/// stand side by side differ in their colour.
pub proof fn law_runs_of_a_line(cells: Seq<Cell>)
    ensures
        run_text(runs_of(cells)) == cells.map_values(|c: Cell| c.ch),
        cells.len() > 0 ==> runs_of(cells).len() > 0 && runs_of(cells).last().0 == shown_colour(cells.last().fg),
        forall|i: int| 0 <= i < runs_of(cells).len() ==> (#[trigger] runs_of(cells)[i]).1.len() > 0,
        forall|i: int| 0 <= i < runs_of(cells).len() - 1 ==> (#[trigger] runs_of(cells)[i]).0 != runs_of(cells)[i + 1].0,
    decreases cells.len(),
{
    let chars = cells.map_values(|c: Cell| c.ch);
    if cells.len() > 0 {
        let front = cells.drop_last();
        law_runs_of_a_line(front);
        let rest = runs_of(front);
        let c = cells.last();
        assert(chars =~= front.map_values(|c: Cell| c.ch).push(c.ch));
        let all = runs_of(cells);
        let colour = shown_colour(c.fg);
        if rest.len() > 0 && rest.last().0 == colour {
            assert(all.drop_last() =~= rest.drop_last());
            assert(run_text(all) =~= run_text(rest).push(c.ch));
            assert forall|i: int| 0 <= i < all.len() - 1 implies (#[trigger] all[i]).0 != all[i + 1].0 by {
                assert(all[i] == rest[i]);
                assert(all[i + 1].0 == rest[i + 1].0);
            }
        } else {
            assert(all.drop_last() =~= rest);
            assert(run_text(all) =~= run_text(rest).push(c.ch));
            assert forall|i: int| 0 <= i < all.len() - 1 implies (#[trigger] all[i]).0 != all[i + 1].0 by {
                assert(all[i] == rest[i]);
                if i + 1 < rest.len() {
                    assert(all[i + 1] == rest[i + 1]);
                }
            }
        }
    } else {
        assert(chars =~= Seq::empty());
    }
}

/// A line that is drawn is the line of the terminal.
pub proof fn law_line_drawn(t: TermView, x: int, y: int)
    requires
        t.wf(),
        0 <= x < t.cols,
        0 <= y < t.rows,
    ensures
        line_cells(t, y, t.cols).len() == t.cols,
        line_cells(t, y, t.cols)[x] == t.grid[t.at(x, y)],
{
    lemma_same_place(t, x, y, 0, y);
    lemma_same_place(t, t.cols - 1, y, 0, y);
}

} // verus!
