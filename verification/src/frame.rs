use vstd::prelude::*;

use crate::config::Config;
use crate::game::{Alien, Game, Missile, MissileDirection, Player};

verus! {

/// The terminal colours the game draws with.
#[derive(Clone, Copy, Debug, PartialEq, Eq, Structural)]
pub enum Color {
    Reset,
    Black,
    Red,
    DarkGreen,
    Yellow,
    Blue,
    Magenta,
    Cyan,
    AnsiValue(u8),
}

/// One character cell: its glyph, its colours, and its text attributes as a
/// bit set (no bit set means plain text).
#[derive(Clone, Copy, Debug, PartialEq, Eq, Structural)]
pub struct Pixel {
    pub glyph: char,
    pub bg: Color,
    pub fg: Color,
    pub attrs: u32,
}

pub open spec fn blank() -> Pixel {
    Pixel { glyph: ' ', bg: Color::AnsiValue(7), fg: Color::Black, attrs: 0 }
}

/// A pixel of the given glyph and foreground on the default background.
pub open spec fn ink(glyph: char, fg: Color) -> Pixel {
    Pixel { glyph, bg: Color::AnsiValue(7), fg, attrs: 0 }
}

impl Pixel {
    /// An empty cell: a space, black on light grey, plain.
    pub fn default() -> (p: Pixel)
        ensures
            p == blank(),
    {
        Pixel { glyph: ' ', bg: Color::AnsiValue(7), fg: Color::Black, attrs: 0 }
    }
}

/// The screen as a row-major sequence of cells.
pub struct Framebuffer {
    pub buf: Vec<Pixel>,
}

/// A write of `pixel` to column `x` of row `y`.
pub struct Stroke {
    pub x: int,
    pub y: int,
    pub pixel: Pixel,
}

/// The cells after the strokes, applied in order, each to index `y * width + x`.
pub open spec fn paint(cells: Seq<Pixel>, width: int, strokes: Seq<Stroke>) -> Seq<Pixel>
    decreases strokes.len(),
{
    if strokes.len() == 0 {
        cells
    } else {
        let s = strokes.last();
        paint(cells, width, strokes.drop_last()).update(s.y * width + s.x, s.pixel)
    }
}

pub open spec fn alien_color(value: i32) -> Color {
    if value == 100 {
        Color::Yellow
    } else if value == 200 {
        Color::Cyan
    } else if value == 300 {
        Color::Blue
    } else if value == 400 {
        Color::Magenta
    } else {
        Color::Red
    }
}

pub open spec fn missile_pixel(d: MissileDirection) -> Pixel {
    ink(
        '┃',
        match d {
            MissileDirection::Down => Color::AnsiValue(13),
            MissileDirection::Up => Color::AnsiValue(2),
        },
    )
}

/// An alien is two cells wide, coloured by its value.
pub open spec fn alien_strokes(aliens: Seq<Alien>) -> Seq<Stroke>
    decreases aliens.len(),
{
    if aliens.len() == 0 {
        Seq::empty()
    } else {
        let a = aliens.last();
        alien_strokes(aliens.drop_last()).push(
            Stroke { x: a.x as int, y: a.y as int, pixel: ink('▛', alien_color(a.value)) },
        ).push(Stroke { x: a.x + 1, y: a.y as int, pixel: ink('▜', alien_color(a.value)) })
    }
}

pub open spec fn missile_strokes(missiles: Seq<Missile>) -> Seq<Stroke>
    decreases missiles.len(),
{
    if missiles.len() == 0 {
        Seq::empty()
    } else {
        let m = missiles.last();
        missile_strokes(missiles.drop_last()).push(
            Stroke { x: m.x as int, y: m.y as int, pixel: missile_pixel(m.direction) },
        )
    }
}

/// The player: a row of feet as wide as its hitbox, with a three-cell cannon
/// above it.
pub open spec fn player_strokes(p: Player) -> Seq<Stroke> {
    Seq::new(
        p.hitbox.width as nat,
        |k: int| Stroke { x: p.x + k, y: p.y + 1, pixel: ink('▀', Color::DarkGreen) },
    ) + seq![
        Stroke { x: p.x + 1, y: p.y as int, pixel: ink('▟', Color::DarkGreen) },
        Stroke { x: p.x + 2, y: p.y as int, pixel: ink('▄', Color::DarkGreen) },
        Stroke { x: p.x + 3, y: p.y as int, pixel: ink('▙', Color::DarkGreen) },
    ]
}

/// Everything a frame draws, in drawing order: aliens, missiles, player.
pub open spec fn game_strokes(g: Game) -> Seq<Stroke> {
    alien_strokes(g.aliens@) + missile_strokes(g.missiles@) + player_strokes(g.player)
}

pub open spec fn in_frame(x: int, y: int, c: Config) -> bool {
    0 <= y * c.screen_width + x < c.screen_width * c.screen_height
}

/// Every cell that a frame of `g` draws lies inside the screen.
pub open spec fn frame_fits(g: Game, c: Config) -> bool {
    &&& c.screen_width * c.screen_height <= usize::MAX
    &&& forall|i: int|
        0 <= i < g.aliens@.len() ==> in_frame(#[trigger] g.aliens@[i].x as int, g.aliens@[i].y as int, c)
            && in_frame(g.aliens@[i].x + 1, g.aliens@[i].y as int, c)
    &&& forall|i: int|
        0 <= i < g.missiles@.len() ==> in_frame(
            #[trigger] g.missiles@[i].x as int,
            g.missiles@[i].y as int,
            c,
        )
    &&& forall|k: int|
        0 <= k < g.player.hitbox.width ==> #[trigger] in_frame(g.player.x + k, g.player.y + 1, c)
    &&& in_frame(g.player.x + 1, g.player.y as int, c)
    &&& in_frame(g.player.x + 2, g.player.y as int, c)
    &&& in_frame(g.player.x + 3, g.player.y as int, c)
}

pub proof fn lemma_paint_append(cells: Seq<Pixel>, width: int, s: Seq<Stroke>, t: Seq<Stroke>)
    ensures
        paint(cells, width, s + t) == paint(paint(cells, width, s), width, t),
    decreases t.len(),
{
    if t.len() == 0 {
        assert(s + t =~= s);
    } else {
        assert((s + t).drop_last() =~= s + t.drop_last());
        lemma_paint_append(cells, width, s, t.drop_last());
    }
}

/// Strokes whose cells lie inside `cells`.
pub open spec fn strokes_within(cells: Seq<Pixel>, width: int, s: Seq<Stroke>) -> bool {
    forall|k: int| 0 <= k < s.len() ==> 0 <= #[trigger] s[k].y * width + s[k].x < cells.len()
}

pub proof fn lemma_paint_len(cells: Seq<Pixel>, width: int, s: Seq<Stroke>)
    requires
        strokes_within(cells, width, s),
    ensures
        paint(cells, width, s).len() == cells.len(),
    decreases s.len(),
{
    if s.len() > 0 {
        assert forall|k: int| 0 <= k < s.drop_last().len() implies 0 <= #[trigger] s.drop_last()[k].y
            * width + s.drop_last()[k].x < cells.len() by {
            assert(s.drop_last()[k] == s[k]);
        }
        lemma_paint_len(cells, width, s.drop_last());
    }
}

/// A cell that no stroke writes keeps its content.
pub proof fn lemma_paint_untouched(cells: Seq<Pixel>, width: int, s: Seq<Stroke>, i: int)
    requires
        strokes_within(cells, width, s),
        0 <= i < cells.len(),
        forall|k: int| 0 <= k < s.len() ==> #[trigger] s[k].y * width + s[k].x != i,
    ensures
        paint(cells, width, s)[i] == cells[i],
    decreases s.len(),
{
    if s.len() > 0 {
        assert forall|k: int| 0 <= k < s.drop_last().len() implies #[trigger] s.drop_last()[k].y
            * width + s.drop_last()[k].x != i by {
            assert(s.drop_last()[k] == s[k]);
        }
        assert forall|k: int| 0 <= k < s.drop_last().len() implies 0 <= #[trigger] s.drop_last()[k].y
            * width + s.drop_last()[k].x < cells.len() by {
            assert(s.drop_last()[k] == s[k]);
        }
        lemma_paint_untouched(cells, width, s.drop_last(), i);
        lemma_paint_len(cells, width, s.drop_last());
    }
}

impl Framebuffer {
    /// A blank screen.
    pub fn new(config: &Config) -> (f: Framebuffer)
        requires
            config.screen_width * config.screen_height <= usize::MAX,
        ensures
            f.buf@ == Seq::new(
                (config.screen_width * config.screen_height) as nat,
                |i: int| blank(),
            ),
    {
        let n: usize = config.screen_width * config.screen_height;
        let mut buf: Vec<Pixel> = Vec::new();
        let mut k: usize = 0;
        while k < n
            invariant
                k <= n,
                buf@ == Seq::new(k as nat, |i: int| blank()),
            decreases n - k,
        {
            buf.push(Pixel::default());
            k = k + 1;
            assert(buf@ =~= Seq::new(k as nat, |i: int| blank()));
        }
        Framebuffer { buf }
    }

    /// Writes `pix` to column `x` of row `y`.
    pub fn putpixel(&mut self, x: usize, y: usize, pix: Pixel, config: &Config)
        requires
            y * config.screen_width + x < old(self).buf@.len(),
        ensures
            final(self).buf@ == old(self).buf@.update(y * config.screen_width + x, pix),
    {
        let n: usize = self.buf.len();
        proof {
            assert(0 <= y * config.screen_width) by (nonlinear_arith);
        }
        let i: usize = y * config.screen_width + x;
        self.buf.set(i, pix);
    }
}

/// An empty screen of the configured size.
pub open spec fn blank_screen(c: Config) -> Seq<Pixel> {
    Seq::new((c.screen_width * c.screen_height) as nat, |i: int| blank())
}

proof fn lemma_alien_strokes_fit(aliens: Seq<Alien>, c: Config)
    requires
        forall|i: int|
            0 <= i < aliens.len() ==> in_frame(#[trigger] aliens[i].x as int, aliens[i].y as int, c)
                && in_frame(aliens[i].x + 1, aliens[i].y as int, c),
    ensures
        forall|k: int|
            0 <= k < alien_strokes(aliens).len() ==> in_frame(
                #[trigger] alien_strokes(aliens)[k].x,
                alien_strokes(aliens)[k].y,
                c,
            ),
    decreases aliens.len(),
{
    if aliens.len() > 0 {
        let rest = aliens.drop_last();
        assert forall|i: int| 0 <= i < rest.len() implies in_frame(
            #[trigger] rest[i].x as int,
            rest[i].y as int,
            c,
        ) && in_frame(rest[i].x + 1, rest[i].y as int, c) by {
            assert(rest[i] == aliens[i]);
        }
        lemma_alien_strokes_fit(rest, c);
        let a = aliens.last();
        assert(in_frame(aliens[aliens.len() - 1].x as int, aliens[aliens.len() - 1].y as int, c));
    }
}

proof fn lemma_missile_strokes_fit(missiles: Seq<Missile>, c: Config)
    requires
        forall|i: int|
            0 <= i < missiles.len() ==> in_frame(#[trigger] missiles[i].x as int, missiles[i].y as int, c),
    ensures
        forall|k: int|
            0 <= k < missile_strokes(missiles).len() ==> in_frame(
                #[trigger] missile_strokes(missiles)[k].x,
                missile_strokes(missiles)[k].y,
                c,
            ),
    decreases missiles.len(),
{
    if missiles.len() > 0 {
        let rest = missiles.drop_last();
        assert forall|i: int| 0 <= i < rest.len() implies in_frame(
            #[trigger] rest[i].x as int,
            rest[i].y as int,
            c,
        ) by {
            assert(rest[i] == missiles[i]);
        }
        lemma_missile_strokes_fit(rest, c);
        assert(in_frame(missiles[missiles.len() - 1].x as int, missiles[missiles.len() - 1].y as int, c));
    }
}

proof fn lemma_game_strokes_fit(g: Game, c: Config)
    requires
        frame_fits(g, c),
    ensures
        strokes_within(blank_screen(c), c.screen_width as int, game_strokes(g)),
{
    lemma_alien_strokes_fit(g.aliens@, c);
    lemma_missile_strokes_fit(g.missiles@, c);
    let a = alien_strokes(g.aliens@);
    let m = missile_strokes(g.missiles@);
    let p = player_strokes(g.player);
    let all = game_strokes(g);
    assert forall|k: int| 0 <= k < all.len() implies 0 <= #[trigger] all[k].y * c.screen_width
        + all[k].x < blank_screen(c).len() by {
        if k < a.len() {
            assert(all[k] == a[k]);
        } else if k < a.len() + m.len() {
            assert(all[k] == m[k - a.len()]);
        } else {
            let j = k - a.len() - m.len();
            assert(all[k] == p[j]);
            if j < g.player.hitbox.width {
                assert(in_frame(g.player.x + j, g.player.y + 1, c));
            }
        }
    }
}

/// Overflow-free bound on the first cell of a row.
proof fn lemma_row_start(x: int, y: int, w: int, h: int)
    by (nonlinear_arith)
    requires
        0 <= x,
        0 <= y,
        0 <= w,
        y * w + x < w * h,
    ensures
        0 <= y * w,
        x < w * h,
        y * w < w * h,
        y < w * h,
{
}

/// Colour of an alien of the given value.
fn alien_color_of(value: i32) -> (c: Color)
    ensures
        c == alien_color(value),
{
    match value {
        100 => Color::Yellow,
        200 => Color::Cyan,
        300 => Color::Blue,
        400 => Color::Magenta,
        _ => Color::Red,
    }
}

impl Framebuffer {
    /// Draws a game: the aliens, then the missiles, then the player, on a
    /// blank screen.  The player's cannon is never covered, and every cell
    /// that nothing draws stays blank.
    pub fn from_game(game: &Game, config: &Config) -> (f: Framebuffer)
        requires
            frame_fits(*game, *config),
        ensures
            f.buf@ == paint(blank_screen(*config), config.screen_width as int, game_strokes(*game)),
            f.buf@.len() == config.screen_width * config.screen_height,
            f.buf@[game.player.y * config.screen_width + game.player.x + 1] == ink('▟', Color::DarkGreen),
            f.buf@[game.player.y * config.screen_width + game.player.x + 2] == ink('▄', Color::DarkGreen),
            f.buf@[game.player.y * config.screen_width + game.player.x + 3] == ink('▙', Color::DarkGreen),
            config.screen_width > 3 ==> forall|k: int|
                0 <= k < game.player.hitbox.width ==> #[trigger] f.buf@[(game.player.y + 1)
                    * config.screen_width + game.player.x + k] == ink('▀', Color::DarkGreen),
            forall|i: int|
                0 <= i < f.buf@.len() && (forall|k: int|
                    0 <= k < game_strokes(*game).len() ==> #[trigger] game_strokes(*game)[k].y
                        * config.screen_width + game_strokes(*game)[k].x != i) ==> f.buf@[i] == blank(),
    {
        let w = config.screen_width;
        let ghost width = w as int;
        let ghost total = config.screen_width * config.screen_height;
        let mut buf = Framebuffer::new(config);
        let ghost a_strokes = alien_strokes(game.aliens@);
        let ghost m_strokes = missile_strokes(game.missiles@);
        let ghost p_strokes = player_strokes(game.player);
        let n = game.aliens.len();
        let mut k: usize = 0;
        while k < n
            invariant
                n == game.aliens@.len(),
                k <= n,
                w == config.screen_width,
                width == w,
                total == config.screen_width * config.screen_height,
                frame_fits(*game, *config),
                buf.buf@.len() == total,
                buf.buf@ == paint(blank_screen(*config), width, alien_strokes(game.aliens@.take(k as int))),
            decreases n - k,
        {
            let a = game.aliens[k];
            assert(game.aliens@.take(k + 1).drop_last() =~= game.aliens@.take(k as int));
            assert(in_frame(game.aliens@[k as int].x as int, game.aliens@[k as int].y as int, *config));
            proof {
                lemma_row_start(a.x + 1, a.y as int, width, config.screen_height as int);
            }
            let color = alien_color_of(a.value);
            let left_pix = Pixel { glyph: '▛', bg: Color::AnsiValue(7), fg: color, attrs: 0 };
            let mut right_pix = left_pix;
            right_pix.glyph = '▜';
            let ghost before = buf.buf@;
            let ghost s0 = alien_strokes(game.aliens@.take(k as int));
            let ghost l = Stroke { x: a.x as int, y: a.y as int, pixel: left_pix };
            let ghost r = Stroke { x: a.x + 1, y: a.y as int, pixel: right_pix };
            buf.putpixel(a.x, a.y, left_pix, config);
            buf.putpixel(a.x + 1, a.y, right_pix, config);
            proof {
                assert(alien_strokes(game.aliens@.take(k + 1)) == s0.push(l).push(r));
                assert(s0.push(l).push(r).drop_last() =~= s0.push(l));
                assert(s0.push(l).drop_last() =~= s0);
                assert(paint(blank_screen(*config), width, s0.push(l)) == before.update(
                    a.y * width + a.x,
                    left_pix,
                ));
            }
            k = k + 1;
        }
        assert(game.aliens@.take(n as int) =~= game.aliens@);
        let ghost after_aliens = buf.buf@;
        let n = game.missiles.len();
        let mut k: usize = 0;
        while k < n
            invariant
                n == game.missiles@.len(),
                k <= n,
                w == config.screen_width,
                width == w,
                total == config.screen_width * config.screen_height,
                frame_fits(*game, *config),
                buf.buf@.len() == total,
                buf.buf@ == paint(after_aliens, width, missile_strokes(game.missiles@.take(k as int))),
            decreases n - k,
        {
            let m = game.missiles[k];
            assert(game.missiles@.take(k + 1).drop_last() =~= game.missiles@.take(k as int));
            assert(in_frame(game.missiles@[k as int].x as int, game.missiles@[k as int].y as int, *config));
            let fg = if m.direction == MissileDirection::Down {
                Color::AnsiValue(13)
            } else {
                Color::AnsiValue(2)
            };
            let ghost s0 = missile_strokes(game.missiles@.take(k as int));
            let pix = Pixel { glyph: '┃', bg: Color::AnsiValue(7), fg, attrs: 0 };
            buf.putpixel(m.x, m.y, pix, config);
            proof {
                let st = Stroke { x: m.x as int, y: m.y as int, pixel: pix };
                assert(missile_strokes(game.missiles@.take(k + 1)) == s0.push(st));
                assert(s0.push(st).drop_last() =~= s0);
            }
            k = k + 1;
        }
        assert(game.missiles@.take(n as int) =~= game.missiles@);
        let ghost after_missiles = buf.buf@;
        let p = game.player;
        let ghost feet = Seq::new(
            p.hitbox.width as nat,
            |k: int| Stroke { x: p.x + k, y: p.y + 1, pixel: ink('▀', Color::DarkGreen) },
        );
        for x in 0..p.hitbox.width
            invariant
                p == game.player,
                w == config.screen_width,
                width == w,
                total == config.screen_width * config.screen_height,
                frame_fits(*game, *config),
                buf.buf@.len() == total,
                feet == Seq::new(
                    p.hitbox.width as nat,
                    |k: int| Stroke { x: p.x + k, y: p.y + 1, pixel: ink('▀', Color::DarkGreen) },
                ),
                buf.buf@ == paint(after_missiles, width, feet.take(x as int)),
                forall|j: int|
                    0 <= j < x ==> #[trigger] buf.buf@[(p.y + 1) * width + p.x + j] == ink(
                        '▀',
                        Color::DarkGreen,
                    ),
        {
            assert(feet.take(x + 1).drop_last() =~= feet.take(x as int));
            assert(in_frame(p.x + x, p.y + 1, *config));
            proof {
                lemma_row_start(p.x + x, p.y + 1, width, config.screen_height as int);
            }
            let foot = Pixel { glyph: '▀', bg: Color::AnsiValue(7), fg: Color::DarkGreen, attrs: 0 };
            buf.putpixel(p.x + x, p.y + 1, foot, config);
        }
        assert(feet.take(p.hitbox.width as int) =~= feet);
        let ghost after_feet = buf.buf@;
        proof {
            lemma_row_start(p.x + 3, p.y as int, width, config.screen_height as int);
        }
        buf.putpixel(
            p.x + 1,
            p.y,
            Pixel { glyph: '▟', bg: Color::AnsiValue(7), fg: Color::DarkGreen, attrs: 0 },
            config,
        );
        buf.putpixel(
            p.x + 2,
            p.y,
            Pixel { glyph: '▄', bg: Color::AnsiValue(7), fg: Color::DarkGreen, attrs: 0 },
            config,
        );
        buf.putpixel(
            p.x + 3,
            p.y,
            Pixel { glyph: '▙', bg: Color::AnsiValue(7), fg: Color::DarkGreen, attrs: 0 },
            config,
        );
        proof {
            let cannon = seq![
                Stroke { x: p.x + 1, y: p.y as int, pixel: ink('▟', Color::DarkGreen) },
                Stroke { x: p.x + 2, y: p.y as int, pixel: ink('▄', Color::DarkGreen) },
                Stroke { x: p.x + 3, y: p.y as int, pixel: ink('▙', Color::DarkGreen) },
            ];
            assert(cannon.drop_last().drop_last().drop_last() =~= Seq::<Stroke>::empty());
            assert(cannon.drop_last().drop_last() =~= seq![cannon[0]]);
            assert(cannon.drop_last() =~= seq![cannon[0], cannon[1]]);
            assert(paint(after_feet, width, cannon.drop_last().drop_last().drop_last()) == after_feet);
            assert(paint(after_feet, width, cannon.drop_last().drop_last()) == after_feet.update(
                p.y * width + p.x + 1,
                cannon[0].pixel,
            ));
            assert(paint(after_feet, width, cannon.drop_last()) == after_feet.update(
                p.y * width + p.x + 1,
                cannon[0].pixel,
            ).update(p.y * width + p.x + 2, cannon[1].pixel));
            assert(paint(after_feet, width, cannon) == buf.buf@);
            assert(p_strokes =~= feet + cannon);
            lemma_paint_append(after_missiles, width, feet, cannon);
            lemma_paint_append(after_aliens, width, m_strokes, p_strokes);
            lemma_paint_append(blank_screen(*config), width, a_strokes, m_strokes);
            lemma_paint_append(blank_screen(*config), width, a_strokes + m_strokes, p_strokes);
            lemma_game_strokes_fit(*game, *config);
            assert forall|i: int|
                0 <= i < buf.buf@.len() && (forall|k: int|
                    0 <= k < game_strokes(*game).len() ==> #[trigger] game_strokes(*game)[k].y
                        * config.screen_width + game_strokes(*game)[k].x != i) implies buf.buf@[i]
                == blank() by {
                lemma_paint_untouched(blank_screen(*config), width, game_strokes(*game), i);
            }
            if w > 3 {
                assert forall|j: int| 0 <= j < p.hitbox.width implies #[trigger] buf.buf@[(p.y + 1)
                    * width + p.x + j] == ink('▀', Color::DarkGreen) by {
                    assert((p.y + 1) * width == p.y * width + width) by (nonlinear_arith);
                    assert(in_frame(p.x + j, p.y + 1, *config));
                    assert(after_feet[(p.y + 1) * width + p.x + j] == ink('▀', Color::DarkGreen));
                    assert(buf.buf@ == after_feet.update(p.y * width + p.x + 1, ink('▟', Color::DarkGreen)).update(
                        p.y * width + p.x + 2,
                        ink('▄', Color::DarkGreen),
                    ).update(p.y * width + p.x + 3, ink('▙', Color::DarkGreen)));
                }
            }
        }
        buf
    }
}

} // verus!

verus! {

/// Exact, overflow-free test of `in_frame(x + dx, y + dy, c)`.
fn cell_inside(x: usize, dx: usize, y: usize, dy: usize, config: &Config, cells: usize) -> (r: bool)
    requires
        cells == config.screen_width * config.screen_height,
    ensures
        r == in_frame(x + dx, y + dy, *config),
{
    let w = config.screen_width;
    let ghost h = config.screen_height as int;
    let row_no: usize = match y.checked_add(dy) {
        Some(v) => v,
        None => {
            proof {
                if w > 0 {
                    assert((y + dy) * w >= y + dy) by (nonlinear_arith)
                        requires
                            w >= 1,
                            y + dy >= 0,
                    ;
                }
                assert(0 <= (y + dy) * w) by (nonlinear_arith)
                    requires
                        w >= 0,
                        y + dy >= 0,
                ;
                if w == 0 {
                    assert(w * h == 0) by (nonlinear_arith)
                        requires
                            w == 0,
                    ;
                }
                assert(cells <= usize::MAX);
            }
            return false;
        },
    };
    proof {
        assert(0 <= row_no * w) by (nonlinear_arith)
            requires
                w >= 0,
                row_no >= 0,
        ;
    }
    let start: usize = match row_no.checked_mul(w) {
        Some(v) => v,
        None => {
            return false;
        },
    };
    let col: usize = match x.checked_add(dx) {
        Some(v) => v,
        None => {
            return false;
        },
    };
    let index: usize = match start.checked_add(col) {
        Some(v) => v,
        None => {
            return false;
        },
    };
    index < cells
}

impl Framebuffer {
    /// Whether every cell that a frame of `game` draws lies inside the
    /// screen, that is, whether `from_game` may be called.
    pub fn can_draw(game: &Game, config: &Config) -> (r: bool)
        ensures
            r == frame_fits(*game, *config),
    {
        let cells: usize = match config.screen_width.checked_mul(config.screen_height) {
            Some(c) => c,
            None => {
                return false;
            },
        };
        let n = game.aliens.len();
        let mut k: usize = 0;
        while k < n
            invariant
                n == game.aliens@.len(),
                k <= n,
                cells == config.screen_width * config.screen_height,
                forall|i: int|
                    0 <= i < k ==> in_frame(#[trigger] game.aliens@[i].x as int, game.aliens@[i].y as int, *config)
                        && in_frame(game.aliens@[i].x + 1, game.aliens@[i].y as int, *config),
            decreases n - k,
        {
            let a = game.aliens[k];
            if !cell_inside(a.x, 0, a.y, 0, config, cells) || !cell_inside(a.x, 1, a.y, 0, config, cells) {
                assert(!(in_frame(game.aliens@[k as int].x as int, game.aliens@[k as int].y as int, *config)
                    && in_frame(game.aliens@[k as int].x + 1, game.aliens@[k as int].y as int, *config)));
                return false;
            }
            k = k + 1;
        }
        let n = game.missiles.len();
        let mut k: usize = 0;
        while k < n
            invariant
                n == game.missiles@.len(),
                k <= n,
                cells == config.screen_width * config.screen_height,
                forall|i: int|
                    0 <= i < k ==> in_frame(
                        #[trigger] game.missiles@[i].x as int,
                        game.missiles@[i].y as int,
                        *config,
                    ),
            decreases n - k,
        {
            let m = game.missiles[k];
            if !cell_inside(m.x, 0, m.y, 0, config, cells) {
                assert(!in_frame(game.missiles@[k as int].x as int, game.missiles@[k as int].y as int, *config));
                return false;
            }
            k = k + 1;
        }
        let p = game.player;
        let width = p.hitbox.width;
        let mut k: usize = 0;
        while k < width
            invariant
                p == game.player,
                width == p.hitbox.width,
                k <= width,
                cells == config.screen_width * config.screen_height,
                forall|j: int| 0 <= j < k ==> #[trigger] in_frame(p.x + j, p.y + 1, *config),
            decreases width - k,
        {
            if !cell_inside(p.x, k, p.y, 1, config, cells) {
                return false;
            }
            k = k + 1;
        }
        cell_inside(p.x, 1, p.y, 0, config, cells) && cell_inside(p.x, 2, p.y, 0, config, cells)
            && cell_inside(p.x, 3, p.y, 0, config, cells)
    }
}

} // verus!

verus! {

/// A frame shows only the aliens, the missiles and the player: two games that
/// agree on those draw the same strokes, whatever their level, direction,
/// lives or score, so `from_game` gives them the same cells.
pub proof fn lemma_frame_shows_only_objects(g1: Game, g2: Game)
    requires
        g1.aliens@ == g2.aliens@,
        g1.missiles@ == g2.missiles@,
        g1.player == g2.player,
    ensures
        game_strokes(g1) == game_strokes(g2),
{
}

} // verus!

verus! {

/// The cell index a stroke writes.
pub open spec fn stroke_cell(s: Stroke, width: int) -> int {
    s.y * width + s.x
}

/// A cell shows the pixel of the last stroke that writes it.
proof fn lemma_paint_last_writer(cells: Seq<Pixel>, width: int, s: Seq<Stroke>, k: int)
    requires
        strokes_within(cells, width, s),
        0 <= k < s.len(),
        forall|j: int| k < j < s.len() ==> #[trigger] stroke_cell(s[j], width) != stroke_cell(s[k], width),
    ensures
        paint(cells, width, s)[stroke_cell(s[k], width)] == s[k].pixel,
    decreases s.len(),
{
    let rest = s.drop_last();
    assert forall|j: int| 0 <= j < rest.len() implies 0 <= #[trigger] rest[j].y * width + rest[j].x
        < cells.len() by {
        assert(rest[j] == s[j]);
    }
    lemma_paint_len(cells, width, rest);
    if k < s.len() - 1 {
        assert forall|j: int| k < j < rest.len() implies #[trigger] stroke_cell(rest[j], width)
            != stroke_cell(rest[k], width) by {
            assert(rest[j] == s[j]);
        }
        assert(stroke_cell(s[s.len() - 1], width) != stroke_cell(s[k], width));
        lemma_paint_last_writer(cells, width, rest, k);
    }
}

proof fn lemma_missile_strokes_index(missiles: Seq<Missile>, i: int)
    requires
        0 <= i < missiles.len(),
    ensures
        missile_strokes(missiles)[i] == (Stroke {
            x: missiles[i].x as int,
            y: missiles[i].y as int,
            pixel: missile_pixel(missiles[i].direction),
        }),
    decreases missiles.len(),
{
    lemma_missile_strokes_len(missiles.drop_last());
    if i < missiles.len() - 1 {
        lemma_missile_strokes_index(missiles.drop_last(), i);
    }
}

proof fn lemma_missile_strokes_len(missiles: Seq<Missile>)
    ensures
        missile_strokes(missiles).len() == missiles.len(),
    decreases missiles.len(),
{
    if missiles.len() > 0 {
        lemma_missile_strokes_len(missiles.drop_last());
    }
}

/// Whether a stroke of the player falls on column `x` of row `y`.
pub open spec fn player_covers_cell(p: Player, x: int, y: int, width: int) -> bool {
    ||| exists|k: int| 0 <= k < p.hitbox.width && #[trigger] ((p.y + 1) * width + p.x + k) == y
        * width + x
    ||| (p.y * width + p.x + 1) == y * width + x
    ||| (p.y * width + p.x + 2) == y * width + x
    ||| (p.y * width + p.x + 3) == y * width + x
}

/// Missiles are drawn over aliens: a cell where missile `i` stands, which no
/// later missile and no part of the player reaches, shows that missile, a
/// thin bar coloured by its direction, whatever alien stands there.
pub proof fn lemma_missile_on_top(g: Game, c: Config, i: int)
    requires
        frame_fits(g, c),
        0 <= i < g.missiles@.len(),
        forall|j: int|
            i < j < g.missiles@.len() ==> #[trigger] g.missiles@[j].y * c.screen_width
                + g.missiles@[j].x != g.missiles@[i].y * c.screen_width + g.missiles@[i].x,
        !player_covers_cell(
            g.player,
            g.missiles@[i].x as int,
            g.missiles@[i].y as int,
            c.screen_width as int,
        ),
    ensures
        paint(blank_screen(c), c.screen_width as int, game_strokes(g))[g.missiles@[i].y * c.screen_width
            + g.missiles@[i].x] == (Pixel {
            glyph: '┃',
            bg: Color::AnsiValue(7),
            fg: if g.missiles@[i].direction == MissileDirection::Down {
                Color::AnsiValue(13)
            } else {
                Color::AnsiValue(2)
            },
            attrs: 0,
        }),
{
    let w = c.screen_width as int;
    let a = alien_strokes(g.aliens@);
    let m = missile_strokes(g.missiles@);
    let p = player_strokes(g.player);
    let all = game_strokes(g);
    let ms = g.missiles@;
    lemma_missile_strokes_len(ms);
    lemma_missile_strokes_index(ms, i);
    lemma_game_strokes_fit(g, c);
    let k = a.len() + i;
    assert(all[k] == m[i]);
    let target = ms[i].y * w + ms[i].x;
    assert forall|j: int| k < j < all.len() implies #[trigger] stroke_cell(all[j], w) != stroke_cell(
        all[k],
        w,
    ) by {
        if j < a.len() + m.len() {
            let jj = j - a.len();
            assert(all[j] == m[jj]);
            lemma_missile_strokes_index(ms, jj);
        } else {
            let jj = j - a.len() - m.len();
            assert(all[j] == p[jj]);
            if jj < g.player.hitbox.width {
                assert(stroke_cell(p[jj], w) == (g.player.y + 1) * w + g.player.x + jj);
            }
        }
    }
    lemma_paint_last_writer(blank_screen(c), w, all, k);
}

} // verus!

verus! {

proof fn lemma_alien_strokes_index(aliens: Seq<Alien>, i: int)
    requires
        0 <= i < aliens.len(),
    ensures
        alien_strokes(aliens).len() == 2 * aliens.len(),
        alien_strokes(aliens)[2 * i] == (Stroke {
            x: aliens[i].x as int,
            y: aliens[i].y as int,
            pixel: ink('▛', alien_color(aliens[i].value)),
        }),
        alien_strokes(aliens)[2 * i + 1] == (Stroke {
            x: aliens[i].x + 1,
            y: aliens[i].y as int,
            pixel: ink('▜', alien_color(aliens[i].value)),
        }),
    decreases aliens.len(),
{
    lemma_alien_strokes_len(aliens.drop_last());
    if i < aliens.len() - 1 {
        lemma_alien_strokes_index(aliens.drop_last(), i);
    }
}

proof fn lemma_alien_strokes_len(aliens: Seq<Alien>)
    ensures
        alien_strokes(aliens).len() == 2 * aliens.len(),
    decreases aliens.len(),
{
    if aliens.len() > 0 {
        lemma_alien_strokes_len(aliens.drop_last());
    }
}

/// An alien's left cell shows its left glyph in the colour of its value (100
/// yellow, 200 cyan, 300 blue, 400 magenta, any other red) unless a later
/// alien, a missile or the player is drawn over it.
pub proof fn lemma_alien_drawn(g: Game, c: Config, i: int)
    requires
        frame_fits(g, c),
        0 <= i < g.aliens@.len(),
        forall|j: int|
            i < j < g.aliens@.len() ==> #[trigger] g.aliens@[j].y * c.screen_width + g.aliens@[j].x
                != g.aliens@[i].y * c.screen_width + g.aliens@[i].x && g.aliens@[j].y
                * c.screen_width + g.aliens@[j].x + 1 != g.aliens@[i].y * c.screen_width
                + g.aliens@[i].x,
        forall|j: int|
            0 <= j < g.missiles@.len() ==> #[trigger] g.missiles@[j].y * c.screen_width
                + g.missiles@[j].x != g.aliens@[i].y * c.screen_width + g.aliens@[i].x,
        !player_covers_cell(g.player, g.aliens@[i].x as int, g.aliens@[i].y as int, c.screen_width as int),
    ensures
        paint(blank_screen(c), c.screen_width as int, game_strokes(g))[g.aliens@[i].y * c.screen_width
            + g.aliens@[i].x] == (Pixel {
            glyph: '▛',
            bg: Color::AnsiValue(7),
            fg: if g.aliens@[i].value == 100 {
                Color::Yellow
            } else if g.aliens@[i].value == 200 {
                Color::Cyan
            } else if g.aliens@[i].value == 300 {
                Color::Blue
            } else if g.aliens@[i].value == 400 {
                Color::Magenta
            } else {
                Color::Red
            },
            attrs: 0,
        }),
{
    let w = c.screen_width as int;
    let al = g.aliens@;
    let a = alien_strokes(al);
    let m = missile_strokes(g.missiles@);
    let p = player_strokes(g.player);
    let all = game_strokes(g);
    lemma_alien_strokes_index(al, i);
    lemma_missile_strokes_len(g.missiles@);
    lemma_game_strokes_fit(g, c);
    let k = 2 * i;
    assert(all[k] == a[k]);
    assert forall|j: int| k < j < all.len() implies #[trigger] stroke_cell(all[j], w) != stroke_cell(
        all[k],
        w,
    ) by {
        if j < a.len() {
            assert(all[j] == a[j]);
            if j == k + 1 {
            } else {
                let ii = j / 2;
                lemma_alien_strokes_index(al, ii);
                if j % 2 == 0 {
                    assert(j == 2 * ii);
                } else {
                    assert(j == 2 * ii + 1);
                }
            }
        } else if j < a.len() + m.len() {
            let jj = j - a.len();
            assert(all[j] == m[jj]);
            lemma_missile_strokes_index(g.missiles@, jj);
        } else {
            let jj = j - a.len() - m.len();
            assert(all[j] == p[jj]);
            if jj < g.player.hitbox.width {
                assert(stroke_cell(p[jj], w) == (g.player.y + 1) * w + g.player.x + jj);
            }
        }
    }
    lemma_paint_last_writer(blank_screen(c), w, all, k);
}

} // verus!
