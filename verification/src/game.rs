use vstd::prelude::*;

use crate::config::Config;
use crate::frame::{frame_fits, in_frame};

verus! {

/// The extent of an object, measured from its top-left cell.
#[derive(Clone, Copy, Debug, PartialEq, Eq, Structural)]
pub struct Hitbox {
    pub width: usize,
    pub height: usize,
}

/// Whether the box at (`left`, `top`) with the given extent covers (`x`, `y`);
/// both ends of each range count.
pub open spec fn covers(left: int, top: int, hitbox: Hitbox, x: int, y: int) -> bool {
    &&& left <= x <= left + hitbox.width
    &&& top <= y <= top + hitbox.height
}

/// Exact, overflow-free test of `covers`.
fn box_covers(left: usize, top: usize, hitbox: Hitbox, x: usize, y: usize) -> (r: bool)
    ensures
        r == covers(left as int, top as int, hitbox, x as int, y as int),
{
    left <= x && x - left <= hitbox.width && top <= y && y - top <= hitbox.height
}

/// An object that a missile can hit.
pub trait Hittable {
    spec fn hit_at(&self, x: int, y: int) -> bool;

    fn hit(&self, x: usize, y: usize) -> (r: bool)
        ensures
            r == self.hit_at(x as int, y as int),
    ;
}

#[derive(Clone, Copy, Debug, PartialEq, Eq, Structural)]
pub struct Player {
    pub x: usize,
    pub y: usize,
    pub hitbox: Hitbox,
}

impl Hittable for Player {
    open spec fn hit_at(&self, x: int, y: int) -> bool {
        covers(self.x as int, self.y as int, self.hitbox, x, y)
    }

    fn hit(&self, x: usize, y: usize) -> (r: bool) {
        box_covers(self.x, self.y, self.hitbox, x, y)
    }
}

#[derive(Clone, Copy, Debug, PartialEq, Eq, Structural)]
pub enum MissileDirection {
    Up,
    Down,
}

#[derive(Clone, Copy, Debug, PartialEq, Eq, Structural)]
pub enum AlienDirection {
    Left,
    Right,
}

#[derive(Clone, Copy, Debug, PartialEq, Eq, Structural)]
pub struct Missile {
    pub x: usize,
    pub y: usize,
    pub hitbox: Hitbox,
    pub direction: MissileDirection,
}

#[derive(Clone, Copy, Debug, PartialEq, Eq, Structural)]
pub struct Alien {
    pub x: usize,
    pub y: usize,
    pub hitbox: Hitbox,
    pub value: i32,
}

impl Hittable for Alien {
    open spec fn hit_at(&self, x: int, y: int) -> bool {
        covers(self.x as int, self.y as int, self.hitbox, x, y)
    }

    fn hit(&self, x: usize, y: usize) -> (r: bool) {
        box_covers(self.x, self.y, self.hitbox, x, y)
    }
}

/// The whole state of a game in progress.
pub struct Game {
    pub aliens: Vec<Alien>,
    pub alien_direction: AlienDirection,
    pub alien_level: i32,
    pub missiles: Vec<Missile>,
    pub player: Player,
    pub lives_left: i32,
    pub score: i32,
}

/// Column where the alien formation starts, so that it is centred.
pub open spec fn formation_left(c: Config) -> int {
    (c.screen_width - c.alien_counts * 3) / 2
}

/// The alien that a new game places in `row` and `col` of its formation: rows
/// are two cells apart, columns three, and the top row is worth the most.
pub open spec fn formation_alien(c: Config, row: int, col: int) -> Alien {
    Alien {
        x: (col * 3 + 1 + formation_left(c)) as usize,
        y: (row * 2 + 1) as usize,
        hitbox: Hitbox { width: 2, height: 1 },
        value: ((c.alien_rows - row) * 100) as i32,
    }
}

/// Where the player starts: centred, three rows above the bottom.
pub open spec fn start_player(c: Config) -> Player {
    Player {
        x: ((c.screen_width - 5) / 2) as usize,
        y: (c.screen_height - 3) as usize,
        hitbox: Hitbox { width: 5, height: 2 },
    }
}

/// Which configurations a new game can be laid out for.
pub open spec fn new_game_fits(c: Config) -> bool {
    &&& c.alien_counts * 3 <= c.screen_width
    &&& c.alien_counts == 0 || c.alien_rows * 100 <= usize::MAX
    &&& c.screen_width >= 5
    &&& c.screen_height >= 3
}

/// A cell inside the screen lies inside its row-major buffer.
pub proof fn lemma_cell_in(x: int, y: int, w: int, h: int)
    by (nonlinear_arith)
    requires
        0 <= x < w,
        0 <= y < h,
    ensures
        0 <= y * w + x < w * h,
{
}

proof fn lemma_row_major(r: int, c: int, y: int, n: int)
    by (nonlinear_arith)
    requires
        0 <= r < y,
        0 <= c < n,
    ensures
        r * n + c < y * n,
        0 <= r * n + c,
{
}

impl Game {
    /// A new game: the full alien formation moving left, the player at the
    /// bottom, no missiles, no score.
    pub fn new(config: &Config) -> (g: Game)
        requires
            new_game_fits(*config),
        ensures
            g.aliens@.len() == config.alien_rows * config.alien_counts,
            forall|r: int, c: int|
                0 <= r < config.alien_rows && 0 <= c < config.alien_counts ==> #[trigger] g.aliens@[r
                    * config.alien_counts + c] == formation_alien(*config, r, c),
            g.alien_direction == AlienDirection::Left,
            g.alien_level == 0,
            g.missiles@.len() == 0,
            g.player == start_player(*config),
            g.lives_left == config.player_lives as i32,
            g.score == 0,
            2 * config.alien_rows <= config.screen_height && config.screen_width * config.screen_height
                <= usize::MAX ==> frame_fits(g, *config),
    {
        let mut aliens = Vec::<Alien>::new();
        let left_beg = (config.screen_width - config.alien_counts * 3) / 2;
        let rows = config.alien_rows;
        let counts = config.alien_counts;
        assert(0 * counts == 0);
        for y in 0..rows
            invariant
                rows == config.alien_rows,
                counts == config.alien_counts,
                new_game_fits(*config),
                left_beg == formation_left(*config),
                aliens@.len() == y * counts,
                forall|i: int|
                    0 <= i < aliens@.len() ==> #[trigger] aliens@[i].x + 1 < config.screen_width
                        && aliens@[i].y < 2 * config.alien_rows,
                forall|r: int, c: int|
                    0 <= r < y && 0 <= c < counts ==> #[trigger] aliens@[r * counts + c]
                        == formation_alien(*config, r, c),
        {
            for x in 0..counts
                invariant
                    rows == config.alien_rows,
                    counts == config.alien_counts,
                    new_game_fits(*config),
                    left_beg == formation_left(*config),
                    y < rows,
                    aliens@.len() == y * counts + x,
                    forall|i: int|
                        0 <= i < aliens@.len() ==> #[trigger] aliens@[i].x + 1 < config.screen_width
                            && aliens@[i].y < 2 * config.alien_rows,
                    forall|r: int, c: int|
                        0 <= r < y && 0 <= c < counts ==> #[trigger] aliens@[r * counts + c]
                            == formation_alien(*config, r, c),
                    forall|c: int| 0 <= c < x ==> #[trigger] aliens@[y * counts + c]
                        == formation_alien(*config, y as int, c),
            {
                assert((rows - y) * 100 <= rows * 100) by (nonlinear_arith)
                    requires y < rows;
                let ghost before = aliens@;
                aliens.push(
                    Alien {
                        x: x * 3 + 1 + left_beg,
                        y: y * 2 + 1,
                        hitbox: Hitbox { width: 2, height: 1 },
                        value: #[verifier::truncate] (((rows - y) * 100) as i32),
                    },
                );
                assert forall|r: int, c: int|
                    0 <= r < y && 0 <= c < counts implies #[trigger] aliens@[r * counts + c]
                        == formation_alien(*config, r, c) by {
                    lemma_row_major(r, c, y as int, counts as int);
                    assert(aliens@[r * counts + c] == before[r * counts + c]);
                }
            }
            assert forall|r: int, c: int|
                0 <= r < y + 1 && 0 <= c < counts implies #[trigger] aliens@[r * counts + c]
                    == formation_alien(*config, r, c) by {
                if r == y {
                } else {
                }
            }
            assert(aliens@.len() == (y + 1) * counts) by (nonlinear_arith)
                requires aliens@.len() == y * counts + counts;
        }
        let player = Player {
            x: (config.screen_width - 5) / 2,
            y: config.screen_height - 3,
            hitbox: Hitbox { width: 5, height: 2 },
        };
        let g = Game {
            aliens,
            alien_direction: AlienDirection::Left,
            missiles: Vec::<Missile>::new(),
            score: 0,
            lives_left: #[verifier::truncate] (config.player_lives as i32),
            player,
            alien_level: 0,
        };
        proof {
            let w = config.screen_width as int;
            let h = config.screen_height as int;
            if 2 * config.alien_rows <= h && w * h <= usize::MAX {
                assert forall|i: int| 0 <= i < g.aliens@.len() implies in_frame(
                    #[trigger] g.aliens@[i].x as int,
                    g.aliens@[i].y as int,
                    *config,
                ) && in_frame(g.aliens@[i].x + 1, g.aliens@[i].y as int, *config) by {
                    lemma_cell_in(g.aliens@[i].x as int, g.aliens@[i].y as int, w, h);
                    lemma_cell_in(g.aliens@[i].x + 1, g.aliens@[i].y as int, w, h);
                }
                assert forall|k: int| 0 <= k < g.player.hitbox.width implies #[trigger] in_frame(
                    g.player.x + k,
                    g.player.y + 1,
                    *config,
                ) by {
                    lemma_cell_in(g.player.x + k, g.player.y + 1, w, h);
                }
                lemma_cell_in(g.player.x + 1, g.player.y as int, w, h);
                lemma_cell_in(g.player.x + 2, g.player.y as int, w, h);
                lemma_cell_in(g.player.x + 3, g.player.y as int, w, h);
            }
        }
        g
    }
}

/// How a frame leaves the game.
#[derive(Clone, Copy, Debug, PartialEq, Eq, Structural)]
pub enum Outcome {
    Running,
    Died,
    Won,
}

/// The deepest level the aliens may reach: the rows of the screen that the
/// formation does not fill, in `i32`.
pub open spec fn last_level(c: Config) -> int {
    ((c.screen_height - c.alien_rows * 2) as i32) as int
}

impl Game {
    /// The game is lost when the lives run out or the aliens have come too
    /// far down; otherwise it is won once no alien is left.
    pub fn outcome(&self, config: &Config) -> (r: Outcome)
        requires
            config.alien_rows * 2 <= config.screen_height,
        ensures
            r == (if self.lives_left < 0 || self.alien_level > last_level(*config) {
                Outcome::Died
            } else if self.aliens@.len() == 0 {
                Outcome::Won
            } else {
                Outcome::Running
            }),
    {
        let last: i32 = #[verifier::truncate] ((config.screen_height - config.alien_rows * 2) as i32);
        if self.lives_left < 0 || self.alien_level > last {
            Outcome::Died
        } else if self.aliens.len() == 0 {
            Outcome::Won
        } else {
            Outcome::Running
        }
    }
}

/// The pause between frames, in nanoseconds: one second over the frame rate.
pub fn frame_delay(config: &Config) -> (r: u32)
    requires
        config.framerate > 0,
    ensures
        r == 1_000_000_000int / config.framerate as int,
{
    let nanos: usize = 1_000_000_000usize / config.framerate;
    nanos as u32
}

} // verus!

verus! {

/// The shape of a new game's formation: the first alien stands in row 1,
/// one column right of a margin that is half the room the formation leaves;
/// neighbours in a row stand three columns apart and are worth the same;
/// each row is two rows below the one above it and, while values fit `i32`,
/// worth 100 less; the top row is worth 100 per row.  Every alien is two
/// cells wide and one high.
pub proof fn lemma_formation_shape(c: Config, r: int, col: int)
    requires
        new_game_fits(c),
        0 <= r < c.alien_rows,
        0 <= col < c.alien_counts,
    ensures
        ({
            let a = formation_alien(c, r, col);
            &&& a.hitbox == Hitbox { width: 2, height: 1 }
            &&& formation_alien(c, 0, 0).x == (c.screen_width - 3 * c.alien_counts) / 2 + 1
            &&& formation_alien(c, 0, 0).y == 1
            &&& col + 1 < c.alien_counts ==> formation_alien(c, r, col + 1).x == a.x + 3
                && formation_alien(c, r, col + 1).y == a.y && formation_alien(c, r, col + 1).value
                == a.value
            &&& r + 1 < c.alien_rows ==> formation_alien(c, r + 1, col).y == a.y + 2
                && formation_alien(c, r + 1, col).x == a.x
            &&& (r + 1 < c.alien_rows && c.alien_rows * 100 <= i32::MAX) ==> formation_alien(
                c,
                r + 1,
                col,
            ).value == a.value - 100
            &&& c.alien_rows * 100 <= i32::MAX ==> formation_alien(c, 0, col).value
                == c.alien_rows * 100
        }),
{
    assert((c.alien_rows - r) * 100 <= c.alien_rows * 100) by (nonlinear_arith)
        requires
            0 <= r < c.alien_rows,
    ;
    assert(c.alien_rows * 100 <= i32::MAX ==> ((c.alien_rows - r) * 100) as i32 == (c.alien_rows
        - r) * 100);
    assert(c.alien_rows * 100 <= i32::MAX && r + 1 < c.alien_rows ==> ((c.alien_rows - (r + 1))
        * 100) as i32 == (c.alien_rows - (r + 1)) * 100);
    assert(c.alien_rows * 100 <= i32::MAX ==> ((c.alien_rows - 0) * 100) as i32 == c.alien_rows
        * 100);
}

} // verus!
