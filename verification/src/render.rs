use vstd::prelude::*;

use crate::config::Config;
use crate::frame::{blank, Color, Framebuffer, Pixel};

verus! {

/// A terminal command; the program sends them in order.
#[derive(Clone, Copy, Debug, PartialEq, Eq, Structural)]
pub enum Command {
    /// Wipe the whole screen; the cursor stays.
    Clear,
    /// Put the cursor at a column and row.
    MoveTo { col: u16, row: u16 },
    SetForeground(Color),
    SetBackground(Color),
    /// Switch on the attributes of the bit set (those on stay on).
    SetAttributes(u32),
    /// Write a glyph at the cursor with the current colours and attributes, and
    /// move the cursor one column right.
    Print(char),
    /// Back to the terminal's own colours.
    ResetColor,
    /// Switch every attribute off.
    ResetAttributes,
}

/// The commands for one pixel, given the pixel before it: a colour or
/// attribute command only where it differs from the one before, then the
/// glyph.
pub open spec fn pixel_commands(prev: Pixel, p: Pixel) -> Seq<Command> {
    (if prev.bg != p.bg {
        seq![Command::SetBackground(p.bg)]
    } else {
        Seq::empty()
    }) + (if prev.fg != p.fg {
        seq![Command::SetForeground(p.fg)]
    } else {
        Seq::empty()
    }) + (if prev.attrs != p.attrs {
        seq![Command::SetAttributes(p.attrs)]
    } else {
        Seq::empty()
    }) + seq![Command::Print(p.glyph)]
}

/// The pixel that the one at `k` of a row follows: the blank pixel for the
/// first one.
pub open spec fn before_pixel(row: Seq<Pixel>, k: int) -> Pixel {
    if k == 0 {
        blank()
    } else {
        row[k - 1]
    }
}

pub open spec fn pixels_commands(row: Seq<Pixel>) -> Seq<Command>
    decreases row.len(),
{
    if row.len() == 0 {
        Seq::empty()
    } else {
        pixels_commands(row.drop_last()) + pixel_commands(
            before_pixel(row, row.len() - 1),
            row.last(),
        )
    }
}

/// The commands that open a row: the cursor to its start, and the blank
/// pixel's colours and attributes.
pub open spec fn row_prelude(y: int) -> Seq<Command> {
    seq![
        Command::MoveTo { col: 0, row: y as u16 },
        Command::SetForeground(blank().fg),
        Command::SetBackground(blank().bg),
        Command::SetAttributes(blank().attrs),
    ]
}

pub open spec fn row_commands(row: Seq<Pixel>, y: int) -> Seq<Command> {
    row_prelude(y) + pixels_commands(row) + seq![Command::ResetColor, Command::ResetAttributes]
}

/// Row `y` of a row-major buffer of width `w`.
pub open spec fn row_of(buf: Seq<Pixel>, w: int, y: int) -> Seq<Pixel> {
    buf.subrange(y * w, (y + 1) * w)
}

/// The commands for the first `n` rows.
pub open spec fn rows_commands(buf: Seq<Pixel>, w: int, n: int) -> Seq<Command>
    decreases n,
{
    if n <= 0 {
        Seq::empty()
    } else {
        rows_commands(buf, w, n - 1) + row_commands(row_of(buf, w, n - 1), n - 1)
    }
}

/// The commands that draw a frame: clear, home, then every row but the last
/// one of the screen.
pub open spec fn frame_commands(buf: Seq<Pixel>, w: int, h: int) -> Seq<Command> {
    seq![Command::Clear, Command::MoveTo { col: 0, row: 0 }] + rows_commands(buf, w, h - 1)
}

proof fn lemma_row_bounds(y: int, w: int, n: int)
    by (nonlinear_arith)
    requires
        0 <= y,
        0 <= w,
        (y + 1) * w <= n,
    ensures
        0 <= y * w <= (y + 1) * w,
        (y + 1) * w == y * w + w,
{
}

proof fn lemma_rows_fit(y: int, h: int, w: int, n: int)
    by (nonlinear_arith)
    requires
        0 <= y < h,
        0 <= w,
        h * w <= n,
    ensures
        (y + 1) * w <= n,
{
}

impl Framebuffer {
    /// Row `index` of the screen.
    pub fn row(&self, index: usize, config: &Config) -> (r: &[Pixel])
        requires
            (index + 1) * config.screen_width <= self.buf@.len(),
        ensures
            r@ == row_of(self.buf@, config.screen_width as int, index as int),
    {
        let n: usize = self.buf.len();
        proof {
            lemma_row_bounds(index as int, config.screen_width as int, n as int);
        }
        let start: usize = index * config.screen_width;
        let end: usize = start + config.screen_width;
        let all = self.buf.as_slice();
        &all[start..end]
    }

    /// The commands that put the frame on screen, as `frame_commands` says:
    /// each row starts from the blank pixel's colours, and a colour or
    /// attribute command is sent only where a pixel differs from the one
    /// before it, so that as few escapes as possible reach the terminal.
    pub fn render(&self, config: &Config) -> (r: Vec<Command>)
        requires
            config.screen_height >= 1,
            (config.screen_height - 1) * config.screen_width <= self.buf@.len(),
        ensures
            r@ == frame_commands(
                self.buf@,
                config.screen_width as int,
                config.screen_height as int,
            ),
    {
        let mut out: Vec<Command> = Vec::new();
        out.push(Command::Clear);
        out.push(Command::MoveTo { col: 0, row: 0 });
        let rows: usize = config.screen_height - 1;
        let ghost w = config.screen_width as int;
        for y in 0..rows
            invariant
                rows == config.screen_height - 1,
                w == config.screen_width,
                rows * w <= self.buf@.len(),
                out@ == seq![Command::Clear, Command::MoveTo { col: 0, row: 0 }] + rows_commands(
                    self.buf@,
                    w,
                    y as int,
                ),
        {
            proof {
                lemma_rows_fit(y as int, rows as int, w, self.buf@.len() as int);
            }
            let row = self.row(y, config);
            let ghost row_start = out@;
            let row_no: u16 = #[verifier::truncate] (y as u16);
            out.push(Command::MoveTo { col: 0, row: row_no });
            let pix = Pixel::default();
            out.push(Command::SetForeground(pix.fg));
            out.push(Command::SetBackground(pix.bg));
            out.push(Command::SetAttributes(pix.attrs));
            assert(out@ == row_start + row_prelude(y as int));
            let mut last_bg = pix.bg;
            let mut last_fg = pix.fg;
            let mut last_attrs = pix.attrs;
            assert(row@.take(0) =~= Seq::<Pixel>::empty());
            assert(out@ =~= row_start + row_prelude(y as int) + pixels_commands(row@.take(0)));
            for k in 0..row.len()
                invariant
                    out@ == row_start + row_prelude(y as int) + pixels_commands(row@.take(k as int)),
                    last_bg == before_pixel(row@, k as int).bg,
                    last_fg == before_pixel(row@, k as int).fg,
                    last_attrs == before_pixel(row@, k as int).attrs,
            {
                let p = row[k];
                let ghost mid = out@;
                if last_bg != p.bg {
                    out.push(Command::SetBackground(p.bg));
                    last_bg = p.bg;
                }
                if last_fg != p.fg {
                    out.push(Command::SetForeground(p.fg));
                    last_fg = p.fg;
                }
                if last_attrs != p.attrs {
                    out.push(Command::SetAttributes(p.attrs));
                    last_attrs = p.attrs;
                }
                out.push(Command::Print(p.glyph));
                proof {
                    let taken = row@.take(k + 1);
                    assert(taken.drop_last() =~= row@.take(k as int));
                    assert(taken.last() == p);
                    if k > 0 {
                        assert(before_pixel(taken, k as int) == before_pixel(row@, k as int));
                    }
                    assert(out@ =~= mid + pixel_commands(before_pixel(row@, k as int), p));
                    assert(pixels_commands(taken) == pixels_commands(row@.take(k as int)) + pixel_commands(
                        before_pixel(row@, k as int),
                        p,
                    ));
                }
            }
            out.push(Command::ResetColor);
            out.push(Command::ResetAttributes);
            assert(row@.take(row@.len() as int) =~= row@);
            assert(out@ =~= seq![Command::Clear, Command::MoveTo { col: 0, row: 0 }] + rows_commands(
                self.buf@,
                w,
                y + 1,
            ));
        }
        out
    }
}

// ---------------------------------------------------------------------------
// What the terminal shows

/// A model of the terminal: the cursor, the current colours and attributes,
/// and what each cell (column, row) shows.
pub struct Terminal {
    pub col: int,
    pub row: int,
    pub fg: Color,
    pub bg: Color,
    pub attrs: u32,
    pub screen: Map<(int, int), Pixel>,
}

pub open spec fn printed(t: Terminal, glyph: char) -> Pixel {
    Pixel { glyph, fg: t.fg, bg: t.bg, attrs: t.attrs }
}

/// The effect of one command on the terminal.
pub open spec fn apply_command(t: Terminal, c: Command) -> Terminal {
    match c {
        Command::Clear => Terminal { screen: Map::empty(), ..t },
        Command::MoveTo { col, row } => Terminal { col: col as int, row: row as int, ..t },
        Command::SetForeground(c) => Terminal { fg: c, ..t },
        Command::SetBackground(c) => Terminal { bg: c, ..t },
        Command::SetAttributes(a) => Terminal { attrs: t.attrs | a, ..t },
        Command::Print(g) => Terminal {
            screen: t.screen.insert((t.col, t.row), printed(t, g)),
            col: t.col + 1,
            ..t
        },
        Command::ResetColor => Terminal { fg: Color::Reset, bg: Color::Reset, ..t },
        Command::ResetAttributes => Terminal { attrs: 0, ..t },
    }
}

/// The terminal after the commands, in order.
pub open spec fn run(t: Terminal, cmds: Seq<Command>) -> Terminal
    decreases cmds.len(),
{
    if cmds.len() == 0 {
        t
    } else {
        apply_command(run(t, cmds.drop_last()), cmds.last())
    }
}

/// A cell shows a pixel when glyph and colours agree.
pub open spec fn shows(cell: Pixel, p: Pixel) -> bool {
    cell.glyph == p.glyph && cell.fg == p.fg && cell.bg == p.bg
}

/// No pixel carries an attribute.
pub open spec fn plain(cells: Seq<Pixel>) -> bool {
    forall|i: int| 0 <= i < cells.len() ==> (#[trigger] cells[i]).attrs == 0
}

pub proof fn lemma_run_append(t: Terminal, a: Seq<Command>, b: Seq<Command>)
    ensures
        run(t, a + b) == run(run(t, a), b),
    decreases b.len(),
{
    if b.len() == 0 {
        assert(a + b =~= a);
    } else {
        assert((a + b).drop_last() =~= a + b.drop_last());
        lemma_run_append(t, a, b.drop_last());
    }
}

proof fn lemma_run_one(t: Terminal, c: Command)
    ensures
        run(t, seq![c]) == apply_command(t, c),
{
    assert(seq![c].drop_last() =~= Seq::<Command>::empty());
    assert(run(t, Seq::<Command>::empty()) == t);
    assert(seq![c].last() == c);
}

proof fn lemma_run_opt(t: Terminal, cond: bool, c: Command)
    ensures
        run(t, if cond { seq![c] } else { Seq::empty() }) == (if cond {
            apply_command(t, c)
        } else {
            t
        }),
{
    lemma_run_one(t, c);
}

/// One pixel's commands, from a terminal on the colours of the pixel before:
/// the terminal takes the pixel's colours and prints its glyph at the cursor.
proof fn lemma_pixel_run(s: Terminal, prev: Pixel, p: Pixel)
    requires
        s.fg == prev.fg,
        s.bg == prev.bg,
    ensures
        ({
            let u = run(s, pixel_commands(prev, p));
            &&& u.fg == p.fg
            &&& u.bg == p.bg
            &&& u.col == s.col + 1
            &&& u.row == s.row
            &&& u.attrs == (if prev.attrs != p.attrs {
                s.attrs | p.attrs
            } else {
                s.attrs
            })
            &&& u.screen == s.screen.insert(
                (s.col, s.row),
                Pixel { glyph: p.glyph, fg: p.fg, bg: p.bg, attrs: u.attrs },
            )
        }),
{
    let a: Seq<Command> = if prev.bg != p.bg {
        seq![Command::SetBackground(p.bg)]
    } else {
        Seq::empty()
    };
    let b: Seq<Command> = if prev.fg != p.fg {
        seq![Command::SetForeground(p.fg)]
    } else {
        Seq::empty()
    };
    let c: Seq<Command> = if prev.attrs != p.attrs {
        seq![Command::SetAttributes(p.attrs)]
    } else {
        Seq::empty()
    };
    let d = seq![Command::Print(p.glyph)];
    lemma_run_append(s, a + b + c, d);
    lemma_run_append(s, a + b, c);
    lemma_run_append(s, a, b);
    lemma_run_opt(s, prev.bg != p.bg, Command::SetBackground(p.bg));
    let s1 = run(s, a);
    lemma_run_opt(s1, prev.fg != p.fg, Command::SetForeground(p.fg));
    let s2 = run(s1, b);
    lemma_run_opt(s2, prev.attrs != p.attrs, Command::SetAttributes(p.attrs));
    let s3 = run(s2, c);
    lemma_run_one(s3, Command::Print(p.glyph));
}

/// A row's prelude puts the cursor at the row's start on the blank colours.
proof fn lemma_prelude_run(t: Terminal, y: int)
    requires
        0 <= y < 65536,
    ensures
        ({
            let s = run(t, row_prelude(y));
            &&& s.col == 0
            &&& s.row == y
            &&& s.fg == blank().fg
            &&& s.bg == blank().bg
            &&& s.attrs == t.attrs
            &&& s.screen == t.screen
        }),
{
    let c0 = Command::MoveTo { col: 0, row: y as u16 };
    let c1 = Command::SetForeground(blank().fg);
    let c2 = Command::SetBackground(blank().bg);
    let c3 = Command::SetAttributes(blank().attrs);
    assert(row_prelude(y) =~= seq![c0] + seq![c1] + seq![c2] + seq![c3]);
    lemma_run_append(t, seq![c0] + seq![c1] + seq![c2], seq![c3]);
    lemma_run_append(t, seq![c0] + seq![c1], seq![c2]);
    lemma_run_append(t, seq![c0], seq![c1]);
    lemma_run_one(t, c0);
    let s0 = apply_command(t, c0);
    lemma_run_one(s0, c1);
    let s1 = apply_command(s0, c1);
    lemma_run_one(s1, c2);
    let s2 = apply_command(s1, c2);
    lemma_run_one(s2, c3);
    let a = t.attrs;
    assert(a | 0u32 == a) by (bit_vector);
    assert((y as u16) as int == y);
}

/// After the prelude and the first `k` pixels of a row: the cursor stands
/// after them, the terminal has the `k`-th pixel's predecessor's colours, and
/// the row's first `k` cells show those pixels while every other cell is as
/// before.
proof fn lemma_pixels_run(t: Terminal, row: Seq<Pixel>, y: int, k: int)
    requires
        0 <= y < 65536,
        0 <= k <= row.len(),
    ensures
        ({
            let s = run(t, row_prelude(y) + pixels_commands(row.take(k)));
            &&& s.col == k
            &&& s.row == y
            &&& s.fg == before_pixel(row, k).fg
            &&& s.bg == before_pixel(row, k).bg
            &&& (plain(row) && t.attrs == 0 ==> s.attrs == 0)
            &&& forall|key: (int, int)|
                #[trigger] s.screen.contains_key(key) <==> (t.screen.contains_key(key) || (key.1 == y
                    && 0 <= key.0 < k))
            &&& forall|key: (int, int)|
                !(key.1 == y && 0 <= key.0 < k) && t.screen.contains_key(key) ==> #[trigger] s.screen[key]
                    == t.screen[key]
            &&& forall|x: int|
                0 <= x < k ==> shows(#[trigger] s.screen[(x, y)], row[x]) && (plain(row) && t.attrs
                    == 0 ==> s.screen[(x, y)] == row[x])
        }),
    decreases k,
{
    lemma_prelude_run(t, y);
    if k == 0 {
        assert(row.take(0) =~= Seq::<Pixel>::empty());
        assert(row_prelude(y) + pixels_commands(row.take(0)) =~= row_prelude(y));
    } else {
        lemma_pixels_run(t, row, y, k - 1);
        let prefix = row_prelude(y) + pixels_commands(row.take(k - 1));
        let s = run(t, prefix);
        let taken = row.take(k);
        assert(taken.drop_last() =~= row.take(k - 1));
        assert(taken.last() == row[k - 1]);
        if k > 1 {
            assert(before_pixel(taken, k - 1) == before_pixel(row, k - 1));
        }
        assert(pixels_commands(taken) == pixels_commands(row.take(k - 1)) + pixel_commands(
            before_pixel(row, k - 1),
            row[k - 1],
        ));
        assert(row_prelude(y) + pixels_commands(taken) =~= prefix + pixel_commands(
            before_pixel(row, k - 1),
            row[k - 1],
        ));
        lemma_run_append(t, prefix, pixel_commands(before_pixel(row, k - 1), row[k - 1]));
        lemma_pixel_run(s, before_pixel(row, k - 1), row[k - 1]);
        let u = run(s, pixel_commands(before_pixel(row, k - 1), row[k - 1]));
        if plain(row) && t.attrs == 0 {
            assert(row[k - 1].attrs == 0);
            if k > 1 {
                assert(row[k - 2].attrs == 0);
            }
        }
        assert forall|x: int| 0 <= x < k implies shows(#[trigger] u.screen[(x, y)], row[x]) && (plain(
            row,
        ) && t.attrs == 0 ==> u.screen[(x, y)] == row[x]) by {
            if x < k - 1 {
                assert(u.screen[(x, y)] == s.screen[(x, y)]);
            } else {
                if plain(row) && t.attrs == 0 {
                    assert(row[x].attrs == 0);
                }
            }
        }
        assert forall|key: (int, int)|
            !(key.1 == y && 0 <= key.0 < k) && t.screen.contains_key(key) implies #[trigger] u.screen[key]
                == t.screen[key] by {
            assert(key != (k - 1, y));
        }
    }
}

/// A row's commands, from any terminal: the row's cells show its pixels,
/// cells of other rows keep what they showed, and the colours and attributes
/// end reset.
proof fn lemma_row_run(t: Terminal, row: Seq<Pixel>, y: int)
    requires
        0 <= y < 65536,
    ensures
        ({
            let u = run(t, row_commands(row, y));
            &&& u.attrs == 0
            &&& forall|key: (int, int)|
                #[trigger] u.screen.contains_key(key) <==> (t.screen.contains_key(key) || (key.1 == y
                    && 0 <= key.0 < row.len()))
            &&& forall|key: (int, int)|
                key.1 != y && t.screen.contains_key(key) ==> #[trigger] u.screen[key] == t.screen[key]
            &&& forall|x: int|
                0 <= x < row.len() ==> shows(#[trigger] u.screen[(x, y)], row[x]) && (plain(row)
                    && t.attrs == 0 ==> u.screen[(x, y)] == row[x])
        }),
{
    lemma_pixels_run(t, row, y, row.len() as int);
    assert(row.take(row.len() as int) =~= row);
    let body = row_prelude(y) + pixels_commands(row);
    let s = run(t, body);
    let tail = seq![Command::ResetColor, Command::ResetAttributes];
    assert(row_commands(row, y) =~= body + tail);
    lemma_run_append(t, body, tail);
    assert(tail =~= seq![Command::ResetColor] + seq![Command::ResetAttributes]);
    lemma_run_append(s, seq![Command::ResetColor], seq![Command::ResetAttributes]);
    lemma_run_one(s, Command::ResetColor);
    lemma_run_one(apply_command(s, Command::ResetColor), Command::ResetAttributes);
}

proof fn lemma_cell_index(x: int, y: int, w: int, n: int)
    by (nonlinear_arith)
    requires
        0 <= x < w,
        0 <= y,
        (y + 1) * w <= n,
    ensures
        0 <= y * w,
        0 <= y * w + x < n,
        (y + 1) * w == y * w + w,
{
}

/// The first `n` rows, from a blank terminal.
proof fn lemma_rows_run(t: Terminal, buf: Seq<Pixel>, w: int, n: int)
    requires
        t.screen == Map::<(int, int), Pixel>::empty(),
        0 <= n <= 65536,
        0 <= w,
        n * w <= buf.len(),
    ensures
        ({
            let u = run(t, rows_commands(buf, w, n));
            &&& n > 0 ==> u.attrs == 0
            &&& forall|key: (int, int)|
                #[trigger] u.screen.contains_key(key) <==> (0 <= key.1 < n && 0 <= key.0 < w)
            &&& forall|x: int, y: int|
                0 <= y < n && 0 <= x < w ==> shows(#[trigger] u.screen[(x, y)], buf[y * w + x]) && (
                plain(buf) && t.attrs == 0 ==> u.screen[(x, y)] == buf[y * w + x])
        }),
    decreases n,
{
    if n == 0 {
    } else {
        assert((n - 1) * w <= n * w) by (nonlinear_arith)
            requires
                n >= 1,
                w >= 0,
        ;
        lemma_rows_run(t, buf, w, n - 1);
        let s = run(t, rows_commands(buf, w, n - 1));
        let row = row_of(buf, w, n - 1);
        assert(n * w == (n - 1) * w + w) by (nonlinear_arith);
        assert(0 <= (n - 1) * w) by (nonlinear_arith)
            requires
                n >= 1,
                w >= 0,
        ;
        lemma_run_append(t, rows_commands(buf, w, n - 1), row_commands(row, n - 1));
        lemma_row_run(s, row, n - 1);
        let u = run(s, row_commands(row, n - 1));
        if plain(buf) {
            assert forall|i: int| 0 <= i < row.len() implies (#[trigger] row[i]).attrs == 0 by {
                assert(row[i] == buf[(n - 1) * w + i]);
            }
        }
        assert forall|x: int, y: int|
            0 <= y < n && 0 <= x < w implies shows(#[trigger] u.screen[(x, y)], buf[y * w + x]) && (
            plain(buf) && t.attrs == 0 ==> u.screen[(x, y)] == buf[y * w + x]) by {
            lemma_rows_fit(y, n, w, buf.len() as int);
            lemma_cell_index(x, y, w, buf.len() as int);
            if y < n - 1 {
                assert(s.screen.contains_key((x, y)));
                assert(u.screen[(x, y)] == s.screen[(x, y)]);
            } else {
                assert(row[x] == buf[(n - 1) * w + x]);
                if n - 1 > 0 {
                    assert(s.attrs == 0);
                }
            }
        }
    }
}

/// The frame's commands make the terminal show the frame: from any terminal,
/// every cell of every row but the screen's last shows its pixel's glyph and
/// colours, no other cell shows anything, and, for a frame without attributes
/// sent to a terminal with none switched on, each cell is its pixel exactly.
pub proof fn lemma_frame_shown(t0: Terminal, buf: Seq<Pixel>, w: int, h: int)
    requires
        1 <= h <= 65537,
        0 <= w,
        (h - 1) * w <= buf.len(),
    ensures
        ({
            let t = run(t0, frame_commands(buf, w, h));
            &&& forall|key: (int, int)|
                #[trigger] t.screen.contains_key(key) <==> (0 <= key.1 < h - 1 && 0 <= key.0 < w)
            &&& forall|x: int, y: int|
                0 <= y < h - 1 && 0 <= x < w ==> shows(#[trigger] t.screen[(x, y)], buf[y * w + x])
            &&& plain(buf) && t0.attrs == 0 ==> forall|x: int, y: int|
                0 <= y < h - 1 && 0 <= x < w ==> #[trigger] t.screen[(x, y)] == buf[y * w + x]
        }),
{
    let head = seq![Command::Clear, Command::MoveTo { col: 0, row: 0 }];
    lemma_run_append(t0, head, rows_commands(buf, w, h - 1));
    assert(head =~= seq![Command::Clear] + seq![Command::MoveTo { col: 0, row: 0 }]);
    lemma_run_append(t0, seq![Command::Clear], seq![Command::MoveTo { col: 0, row: 0 }]);
    lemma_run_one(t0, Command::Clear);
    lemma_run_one(apply_command(t0, Command::Clear), Command::MoveTo { col: 0, row: 0 });
    let s = run(t0, head);
    lemma_rows_run(s, buf, w, h - 1);
}

} // verus!

verus! {

/// How often, along a row, a pixel's background, foreground or attributes
/// differ from the pixel's before it (the blank pixel for the first one).
pub open spec fn style_changes(row: Seq<Pixel>) -> int
    decreases row.len(),
{
    if row.len() == 0 {
        0
    } else {
        let prev = before_pixel(row, row.len() - 1);
        let p = row.last();
        style_changes(row.drop_last()) + (if prev.bg != p.bg {
            1int
        } else {
            0
        }) + (if prev.fg != p.fg {
            1int
        } else {
            0
        }) + (if prev.attrs != p.attrs {
            1int
        } else {
            0
        })
    }
}

/// A row costs one command per glyph and one per change of style along it,
/// and nothing more.
pub proof fn lemma_row_command_count(row: Seq<Pixel>)
    ensures
        pixels_commands(row).len() == row.len() + style_changes(row),
    decreases row.len(),
{
    if row.len() > 0 {
        lemma_row_command_count(row.drop_last());
    }
}

} // verus!
