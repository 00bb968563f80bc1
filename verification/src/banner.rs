use vstd::prelude::*;

use crate::config::Config;
use crate::frame::{blank, Color, Framebuffer, Pixel};
use crate::text::{line_views, split_lines, text_lines};

verus! {

/// The title screen's banner.
pub const SPRITE: &'static str = "
         ███████╗ ██████╗   █████╗   ██████╗ ███████╗
         ██╔════╝ ██╔══██╗ ██╔══██╗ ██╔════╝ ██╔════╝
         ███████╗ ██████╔╝ ███████║ ██║      █████╗
         ╚════██║ ██╔═══╝  ██╔══██║ ██║      ██╔══╝
         ███████║ ██║      ██║  ██║ ╚██████╗ ███████╗
         ╚══════╝ ╚═╝      ╚═╝  ╚═╝  ╚═════╝ ╚══════╝

██╗ ███╗   ██╗ ██╗   ██╗  █████╗  ██████╗  ███████╗ ██████╗  ███████╗
██║ ████╗  ██║ ██║   ██║ ██╔══██╗ ██╔══██╗ ██╔════╝ ██╔══██╗ ██╔════╝
██║ ██╔██╗ ██║ ██║   ██║ ███████║ ██║  ██║ █████╗   ██████╔╝ ███████╗
██║ ██║╚██╗██║ ╚██╗ ██╔╝ ██╔══██║ ██║  ██║ ██╔══╝   ██╔══██╗ ╚════██║
██║ ██║ ╚████║  ╚████╔╝  ██║  ██║ ██████╔╝ ███████╗ ██║  ██║ ███████║
╚═╝ ╚═╝  ╚═══╝   ╚═══╝   ╚═╝  ╚═╝ ╚═════╝  ╚══════╝ ╚═╝  ╚═╝ ╚══════╝

                          V 0.0.1, Mia Celeste



                         PRESS ENTER TO START
                         PRESS CTRL-C TO QUIT
";

/// The widest line of the banner; it is centred by this width.
pub const SPRITE_WIDTH: usize = 69;

/// The number of rows the banner is centred by.
pub const SPRITE_HEIGHT: usize = 22;

pub open spec fn blanks(n: int) -> Seq<Pixel> {
    Seq::new(n as nat, |i: int| blank())
}

/// The glyphs of a line, each on the default colours.
pub open spec fn glyph_cell(c: char) -> Pixel {
    Pixel { glyph: c, ..blank() }
}

pub open spec fn glyph_cells(line: Seq<char>) -> Seq<Pixel> {
    Seq::new(line.len(), |k: int| glyph_cell(line[k]))
}

pub open spec fn left_fill(w: int) -> int {
    (w - SPRITE_WIDTH) / 2
}

pub open spec fn top_fill(h: int) -> int {
    (h - SPRITE_HEIGHT) / 2
}

/// One banner line on screen: indented by the left fill, then padded with
/// `w - (indent + length)` blanks, but only when that end column is left of
/// the screen's last column.
pub open spec fn banner_row(line: Seq<char>, w: int) -> Seq<Pixel> {
    let end = left_fill(w) + line.len();
    blanks(left_fill(w)) + glyph_cells(line) + (if end < w - 1 {
        blanks(w - end)
    } else {
        Seq::empty()
    })
}

pub open spec fn banner_rows(lines: Seq<Seq<char>>, w: int) -> Seq<Pixel>
    decreases lines.len(),
{
    if lines.len() == 0 {
        Seq::empty()
    } else {
        banner_rows(lines.drop_last(), w) + banner_row(lines.last(), w)
    }
}

/// The banner of `text` below the top fill, before the padding at the end.
pub open spec fn banner_body(text: Seq<char>, w: int, h: int) -> Seq<Pixel> {
    blanks(top_fill(h) * w) + banner_rows(text_lines(text), w)
}

/// The title screen: the banner body padded with blanks to the screen size.
pub open spec fn banner_screen(text: Seq<char>, w: int, h: int) -> Seq<Pixel> {
    banner_body(text, w, h) + blanks(w * h - banner_body(text, w, h).len())
}

/// When the banner of `text` can be drawn: the screen is at least as large as
/// the banner's centring box, its cell count fits, and the banner does not
/// run past the last cell.
pub open spec fn banner_fits(text: Seq<char>, w: int, h: int) -> bool {
    &&& w >= SPRITE_WIDTH
    &&& h >= SPRITE_HEIGHT
    &&& w * h <= usize::MAX
    &&& banner_body(text, w, h).len() <= w * h
}

proof fn lemma_rows_prefix(lines: Seq<Seq<char>>, w: int, r: int)
    requires
        0 <= r < lines.len(),
    ensures
        banner_rows(lines.take(r), w).len() + banner_row(lines[r], w).len() <= banner_rows(
            lines,
            w,
        ).len(),
        banner_rows(lines.take(r + 1), w) == banner_rows(lines.take(r), w) + banner_row(lines[r], w),
    decreases lines.len(),
{
    assert(lines.take(r + 1).drop_last() =~= lines.take(r));
    if r < lines.len() - 1 {
        lemma_rows_prefix(lines.drop_last(), w, r);
        assert(lines.drop_last().take(r) =~= lines.take(r));
    } else {
        assert(lines.drop_last() =~= lines.take(r));
    }
}

fn push_blanks(buf: &mut Vec<Pixel>, n: usize)
    ensures
        final(buf)@ == old(buf)@ + blanks(n as int),
{
    let ghost start = buf@;
    for k in 0..n
        invariant
            start == old(buf)@,
            buf@ == start + blanks(k as int),
    {
        buf.push(Pixel::default());
        assert(buf@ =~= start + blanks(k + 1));
    }
}

fn push_glyphs(buf: &mut Vec<Pixel>, line: &Vec<char>)
    ensures
        final(buf)@ == old(buf)@ + glyph_cells(line@),
{
    let ghost start = buf@;
    assert(start + glyph_cells(line@.take(0)) =~= start);
    for k in 0..line.len()
        invariant
            start == old(buf)@,
            buf@ == start + glyph_cells(line@.take(k as int)),
    {
        let mut pix = Pixel::default();
        pix.glyph = line[k];
        buf.push(pix);
        assert(glyph_cells(line@.take(k + 1))[k as int] == pix);
        assert(buf@ =~= start + glyph_cells(line@.take(k + 1)));
    }
    assert(line@.take(line@.len() as int) =~= line@);
}

proof fn lemma_fill_fits(top: int, w: int, h: int)
    by (nonlinear_arith)
    requires
        0 <= top <= h,
        0 <= w,
    ensures
        0 <= top * w <= w * h,
{
}

impl Framebuffer {
    /// The title screen: the banner centred on the screen, padded with blank
    /// cells to the screen's size.
    pub fn sprite(config: &Config) -> (f: Framebuffer)
        requires
            banner_fits(SPRITE@, config.screen_width as int, config.screen_height as int),
        ensures
            f.buf@ == banner_screen(SPRITE@, config.screen_width as int, config.screen_height as int),
    {
        let w = config.screen_width;
        let h = config.screen_height;
        let ghost wi = w as int;
        let ghost hi = h as int;
        let mut buf = Vec::<Pixel>::with_capacity(w * h);
        let left = (w - SPRITE_WIDTH) / 2;
        let top = (h - SPRITE_HEIGHT) / 2;
        proof {
            lemma_fill_fits(top as int, wi, hi);
        }
        push_blanks(&mut buf, top * w);
        let lines = split_lines(SPRITE);
        let ghost views = line_views(lines@);
        assert(views == text_lines(SPRITE@));
        assert(views.take(0) =~= Seq::<Seq<char>>::empty());
        assert(buf@ =~= blanks(top * w) + banner_rows(views.take(0), wi));
        for r in 0..lines.len()
            invariant
                w == config.screen_width,
                h == config.screen_height,
                wi == w,
                hi == h,
                left == left_fill(wi),
                top == top_fill(hi),
                banner_fits(SPRITE@, wi, hi),
                views == line_views(lines@),
                views == text_lines(SPRITE@),
                buf@ == blanks(top * w) + banner_rows(views.take(r as int), wi),
        {
            proof {
                lemma_rows_prefix(views, wi, r as int);
            }
            let line = &lines[r];
            assert(line@ == views[r as int]);
            let ghost row_start = buf@;
            assert(banner_row(views[r as int], wi).len() >= left + line@.len());
            assert(banner_body(SPRITE@, wi, hi).len() == top * w + banner_rows(views, wi).len());
            push_blanks(&mut buf, left);
            push_glyphs(&mut buf, line);
            let i: usize = left + line.len();
            if i < w - 1 {
                push_blanks(&mut buf, w - i);
            }
            assert(buf@ =~= row_start + banner_row(views[r as int], wi));
        }
        assert(views.take(lines.len() as int) =~= views);
        let n: usize = buf.len();
        push_blanks(&mut buf, w * h - n);
        Framebuffer { buf }
    }

    /// Whether the title screen fits the configured screen, that is, whether
    /// `sprite` may be called.
    pub fn sprite_fits(config: &Config) -> (r: bool)
        ensures
            r == banner_fits(SPRITE@, config.screen_width as int, config.screen_height as int),
    {
        let w = config.screen_width;
        let h = config.screen_height;
        let ghost wi = w as int;
        let ghost hi = h as int;
        if w < SPRITE_WIDTH || h < SPRITE_HEIGHT {
            return false;
        }
        let cells = match w.checked_mul(h) {
            Some(c) => c,
            None => {
                return false;
            },
        };
        let left = (w - SPRITE_WIDTH) / 2;
        let top = (h - SPRITE_HEIGHT) / 2;
        proof {
            lemma_fill_fits(top as int, wi, hi);
        }
        let mut total: usize = top * w;
        let lines = split_lines(SPRITE);
        let ghost views = line_views(lines@);
        assert(views.take(0) =~= Seq::<Seq<char>>::empty());
        for r in 0..lines.len()
            invariant
                w == config.screen_width,
                h == config.screen_height,
                wi == w,
                hi == h,
                w >= SPRITE_WIDTH,
                h >= SPRITE_HEIGHT,
                cells == w * h,
                left == left_fill(wi),
                top == top_fill(hi),
                views == line_views(lines@),
                views == text_lines(SPRITE@),
                total == blanks(top * w).len() + banner_rows(views.take(r as int), wi).len(),
                total <= cells,
        {
            proof {
                lemma_rows_prefix(views, wi, r as int);
            }
            let line = &lines[r];
            assert(line@ == views[r as int]);
            let ghost row = banner_row(views[r as int], wi);
            assert(row.len() == left + line@.len() + (if left + line@.len() < wi - 1 {
                wi - (left + line@.len())
            } else {
                0
            }));
            assert(banner_body(SPRITE@, wi, hi).len() == top * w + banner_rows(views, wi).len());
            let end: usize = match left.checked_add(line.len()) {
                Some(e) => e,
                None => {
                    return false;
                },
            };
            let row_len: usize = if end < w - 1 {
                w
            } else {
                end
            };
            assert(row_len == banner_row(views[r as int], wi).len());
            if row_len > cells - total {
                return false;
            }
            total = total + row_len;
        }
        assert(views.take(lines.len() as int) =~= views);
        true
    }
}

} // verus!

verus! {

/// Every line ends left of the screen's last column once indented.
pub open spec fn aligned(lines: Seq<Seq<char>>, w: int) -> bool {
    forall|r: int| 0 <= r < lines.len() ==> left_fill(w) + (#[trigger] lines[r]).len() < w - 1
}

proof fn lemma_rows_grid(lines: Seq<Seq<char>>, w: int)
    requires
        w >= SPRITE_WIDTH,
        aligned(lines, w),
    ensures
        banner_rows(lines, w).len() == lines.len() * w,
        forall|r: int, k: int|
            0 <= r < lines.len() && 0 <= k < lines[r].len() ==> banner_rows(lines, w)[r * w + left_fill(w)
                + k] == glyph_cell(#[trigger] lines[r][k]),
    decreases lines.len(),
{
    if lines.len() > 0 {
        let rest = lines.drop_last();
        assert(aligned(rest, w)) by {
            assert forall|r: int| 0 <= r < rest.len() implies left_fill(w) + (#[trigger] rest[r]).len()
                < w - 1 by {
                assert(rest[r] == lines[r]);
            }
        }
        lemma_rows_grid(rest, w);
        let last = lines.last();
        assert(left_fill(w) + lines[lines.len() - 1].len() < w - 1);
        let row = banner_row(last, w);
        assert(row.len() == w);
        assert(rest.len() * w + w == lines.len() * w) by (nonlinear_arith)
            requires
                rest.len() + 1 == lines.len(),
        ;
        assert forall|r: int, k: int|
            0 <= r < lines.len() && 0 <= k < lines[r].len() implies banner_rows(lines, w)[r * w
                + left_fill(w) + k] == glyph_cell(#[trigger] lines[r][k]) by {
            let n = rest.len() as int;
            if r < n {
                assert(lines[r] == rest[r]);
                assert(r * w + w <= n * w) by (nonlinear_arith)
                    requires
                        r < n,
                        w >= 0,
                ;
                assert(left_fill(w) + k < w);
            } else {
                assert(r * w == n * w);
                assert(row[left_fill(w) + k] == glyph_cell(last[k]));
            }
        }
    }
}

/// When every banner line fits left of the screen's last column, line `r`
/// of the banner stands in row `top_fill + r` from column `left_fill` on.
pub proof fn lemma_banner_centred(text: Seq<char>, w: int, h: int, r: int, k: int)
    requires
        banner_fits(text, w, h),
        aligned(text_lines(text), w),
        0 <= r < text_lines(text).len(),
        0 <= k < text_lines(text)[r].len(),
    ensures
        banner_screen(text, w, h)[(top_fill(h) + r) * w + left_fill(w) + k] == glyph_cell(
            text_lines(text)[r][k],
        ),
{
    let lines = text_lines(text);
    lemma_rows_grid(lines, w);
    assert((top_fill(h) + r) * w == top_fill(h) * w + r * w) by (nonlinear_arith);
    assert(r * w + w <= lines.len() * w) by (nonlinear_arith)
        requires
            r < lines.len(),
            w >= 0,
    ;
    assert(left_fill(w) + k < w);
    assert(0 <= r * w) by (nonlinear_arith)
        requires
            r >= 0,
            w >= 0,
    ;
    assert(0 <= top_fill(h) * w) by (nonlinear_arith)
        requires
            top_fill(h) >= 0,
            w >= 0,
    ;
}

} // verus!
