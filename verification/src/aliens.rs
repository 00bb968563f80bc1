use vstd::prelude::*;

use crate::config::Config;
use crate::game::{Alien, AlienDirection, Game, Hitbox, Missile, MissileDirection};

verus! {

pub open spec fn min_int(a: int, b: int) -> int {
    if a <= b {
        a
    } else {
        b
    }
}

pub open spec fn max_int(a: int, b: int) -> int {
    if a >= b {
        a
    } else {
        b
    }
}

/// The free room that a step to the right is clipped to, computed in `i32`
/// from the screen width and the alien speed.
pub open spec fn right_room(c: Config) -> int {
    (c.screen_width as i32) as int - (c.alien_speed as i32) as int - 1
}

/// How far a step to the right moves an alien: the alien speed, but no more
/// than the (non-negative part of the) room.
pub open spec fn right_step(c: Config) -> int {
    min_int(c.alien_speed as int, max_int(right_room(c), 0))
}

/// An alien after one step in `dir`: to the left it stops at column 0.
pub open spec fn stepped_alien(a: Alien, dir: AlienDirection, c: Config) -> Alien {
    match dir {
        AlienDirection::Left => Alien { x: (a.x - min_int(c.alien_speed as int, a.x as int)) as usize, ..a },
        AlienDirection::Right => Alien { x: (a.x + right_step(c)) as usize, ..a },
    }
}

/// When a step of the aliens can be taken: to the right the room must be
/// computable in `i32` and no alien may be pushed past `usize::MAX`.
pub open spec fn step_fits(g: Game, c: Config) -> bool {
    g.alien_direction == AlienDirection::Right && g.aliens@.len() > 0 ==> {
        &&& right_room(c) >= i32::MIN
        &&& right_room(c) + 1 <= i32::MAX
        &&& forall|i: int| 0 <= i < g.aliens@.len() ==> #[trigger] g.aliens@[i].x + right_step(c)
            <= usize::MAX
    }
}

/// Whether an alien stands in the first or the last column.
pub open spec fn at_edge(a: Alien, width: int) -> bool {
    a.x == 0 || a.x == width - 1
}

pub open spec fn any_at_edge(aliens: Seq<Alien>, width: int) -> bool {
    exists|i: int| 0 <= i < aliens.len() && #[trigger] at_edge(aliens[i], width)
}

/// When the edge check can run: with a zero width the check of an alien that
/// is not in column 0 is refused, and a turn must not overflow the level or
/// any row.
pub open spec fn turn_fits(g: Game, c: Config) -> bool {
    &&& c.screen_width == 0 ==> g.aliens@.len() == 0 || g.aliens@[0].x == 0
    &&& any_at_edge(g.aliens@, c.screen_width as int) ==> {
        &&& g.alien_level < i32::MAX
        &&& forall|i: int| 0 <= i < g.aliens@.len() ==> #[trigger] g.aliens@[i].y < usize::MAX
    }
}

/// An alien one row further down.
pub open spec fn lowered(a: Alien) -> Alien {
    Alien { y: (a.y + 1) as usize, ..a }
}

pub open spec fn flipped(d: AlienDirection) -> AlienDirection {
    match d {
        AlienDirection::Left => AlienDirection::Right,
        AlienDirection::Right => AlienDirection::Left,
    }
}

/// The missiles that the aliens marked in `fires` drop, in alien order: each
/// one cell below its alien, falling.
pub open spec fn dropped(aliens: Seq<Alien>, fires: Seq<bool>) -> Seq<Missile>
    decreases aliens.len(),
{
    if aliens.len() == 0 || fires.len() == 0 {
        Seq::empty()
    } else {
        let rest = dropped(aliens.drop_last(), fires.drop_last());
        if fires.last() {
            rest.push(bomb(aliens.last()))
        } else {
            rest
        }
    }
}

pub open spec fn bomb(a: Alien) -> Missile {
    Missile {
        x: a.x,
        y: (a.y + 1) as usize,
        hitbox: Hitbox { width: 1, height: 1 },
        direction: MissileDirection::Down,
    }
}

impl Game {
    /// Moves every alien one step in the current direction.
    pub fn move_aliens(&mut self, config: &Config)
        requires
            step_fits(*old(self), *config),
        ensures
            final(self).aliens@.len() == old(self).aliens@.len(),
            forall|i: int|
                0 <= i < old(self).aliens@.len() ==> #[trigger] final(self).aliens@[i]
                    == stepped_alien(old(self).aliens@[i], old(self).alien_direction, *config),
            final(self).missiles@ == old(self).missiles@,
            final(self).player == old(self).player,
            final(self).alien_direction == old(self).alien_direction,
            final(self).alien_level == old(self).alien_level,
            final(self).lives_left == old(self).lives_left,
            final(self).score == old(self).score,
    {
        let distance = config.alien_speed;
        let n = self.aliens.len();
        let mut k: usize = 0;
        while k < n
            invariant
                n == self.aliens@.len(),
                n == old(self).aliens@.len(),
                k <= n,
                distance == config.alien_speed,
                step_fits(*old(self), *config),
                forall|i: int|
                    0 <= i < k ==> #[trigger] self.aliens@[i] == stepped_alien(
                        old(self).aliens@[i],
                        old(self).alien_direction,
                        *config,
                    ),
                forall|i: int| k <= i < n ==> #[trigger] self.aliens@[i] == old(self).aliens@[i],
                self.missiles@ == old(self).missiles@,
                self.player == old(self).player,
                self.alien_direction == old(self).alien_direction,
                self.alien_level == old(self).alien_level,
                self.lives_left == old(self).lives_left,
                self.score == old(self).score,
            decreases n - k,
        {
            let a = self.aliens[k];
            let x: usize = match self.alien_direction {
                AlienDirection::Left => {
                    let back: usize = if distance <= a.x {
                        distance
                    } else {
                        a.x
                    };
                    a.x - back
                },
                AlienDirection::Right => {
                    let w: i32 = #[verifier::truncate] (config.screen_width as i32);
                    let d: i32 = #[verifier::truncate] (distance as i32);
                    let room: i32 = w - d - 1;
                    let room: i32 = if room >= 0 {
                        room
                    } else {
                        0
                    };
                    let room: usize = room as usize;
                    let step: usize = if distance <= room {
                        distance
                    } else {
                        room
                    };
                    assert(a == old(self).aliens@[k as int]);
                    a.x + step
                },
            };
            self.aliens.set(k, Alien { x, y: a.y, hitbox: a.hitbox, value: a.value });
            k = k + 1;
        }
    }

    /// When an alien stands in the first or the last column: the level goes
    /// up, every alien moves one row down, and the direction turns.  At most
    /// once per call.
    pub fn turn_at_edge(&mut self, config: &Config)
        requires
            turn_fits(*old(self), *config),
        ensures
            any_at_edge(old(self).aliens@, config.screen_width as int) ==> {
                &&& final(self).alien_level == old(self).alien_level + 1
                &&& final(self).alien_direction == flipped(old(self).alien_direction)
                &&& final(self).aliens@.len() == old(self).aliens@.len()
                &&& forall|i: int|
                    0 <= i < old(self).aliens@.len() ==> #[trigger] final(self).aliens@[i] == lowered(old(self).aliens@[i])
            },
            !any_at_edge(old(self).aliens@, config.screen_width as int) ==> {
                &&& final(self).alien_level == old(self).alien_level
                &&& final(self).alien_direction == old(self).alien_direction
                &&& final(self).aliens@ == old(self).aliens@
            },
            final(self).missiles@ == old(self).missiles@,
            final(self).player == old(self).player,
            final(self).lives_left == old(self).lives_left,
            final(self).score == old(self).score,
    {
        let n = self.aliens.len();
        let width = config.screen_width;
        let mut k: usize = 0;
        let mut found = false;
        while k < n && !found
            invariant
                n == self.aliens@.len(),
                width == config.screen_width,
                k <= n,
                turn_fits(*old(self), *config),
                self.aliens@ == old(self).aliens@,
                forall|i: int|
                    0 <= i < k && !(found && i == k - 1) ==> !(#[trigger] at_edge(
                        self.aliens@[i],
                        width as int,
                    )),
                found ==> k > 0 && at_edge(self.aliens@[k - 1], width as int),
                width == 0 ==> k == 0 || found,
                self.alien_level == old(self).alien_level,
                self.alien_direction == old(self).alien_direction,
                self.missiles@ == old(self).missiles@,
                self.player == old(self).player,
                self.lives_left == old(self).lives_left,
                self.score == old(self).score,
            decreases n - k + (if found { 0int } else { 1int }),
        {
            let x = self.aliens[k].x;
            if x == 0 || x == width - 1 {
                found = true;
            }
            k = k + 1;
        }
        if found {
            assert(at_edge(old(self).aliens@[k - 1], width as int));
            self.alien_level = self.alien_level + 1;
            let mut j: usize = 0;
            while j < n
                invariant
                    n == self.aliens@.len(),
                    n == old(self).aliens@.len(),
                    j <= n,
                    turn_fits(*old(self), *config),
                    any_at_edge(old(self).aliens@, config.screen_width as int),
                    forall|i: int|
                        0 <= i < j ==> #[trigger] self.aliens@[i] == lowered(old(self).aliens@[i]),
                    forall|i: int| j <= i < n ==> #[trigger] self.aliens@[i] == old(self).aliens@[i],
                    self.alien_level == old(self).alien_level + 1,
                    self.alien_direction == old(self).alien_direction,
                    self.missiles@ == old(self).missiles@,
                    self.player == old(self).player,
                    self.lives_left == old(self).lives_left,
                    self.score == old(self).score,
                decreases n - j,
            {
                let a = self.aliens[j];
                assert(a == old(self).aliens@[j as int]);
                self.aliens.set(j, Alien { x: a.x, y: a.y + 1, hitbox: a.hitbox, value: a.value });
                j = j + 1;
            }
            self.alien_direction = match self.alien_direction {
                AlienDirection::Left => AlienDirection::Right,
                AlienDirection::Right => AlienDirection::Left,
            };
        } else {
            assert(!any_at_edge(old(self).aliens@, config.screen_width as int));
        }
    }

    /// Every alien whose entry in `fires` is set drops a missile one row below
    /// itself, in alien order, after the missiles already in flight.
    pub fn drop_missiles(&mut self, fires: &Vec<bool>)
        requires
            fires@.len() == old(self).aliens@.len(),
            forall|i: int|
                0 <= i < fires@.len() && #[trigger] fires@[i] ==> old(self).aliens@[i].y
                    < usize::MAX,
        ensures
            final(self).missiles@ == old(self).missiles@ + dropped(old(self).aliens@, fires@),
            final(self).aliens@ == old(self).aliens@,
            final(self).player == old(self).player,
            final(self).alien_direction == old(self).alien_direction,
            final(self).alien_level == old(self).alien_level,
            final(self).lives_left == old(self).lives_left,
            final(self).score == old(self).score,
    {
        let n = self.aliens.len();
        let mut k: usize = 0;
        while k < n
            invariant
                n == self.aliens@.len(),
                n == fires@.len(),
                k <= n,
                self.aliens@ == old(self).aliens@,
                forall|i: int|
                    0 <= i < fires@.len() && #[trigger] fires@[i] ==> old(self).aliens@[i].y
                        < usize::MAX,
                self.missiles@ == old(self).missiles@ + dropped(
                    self.aliens@.take(k as int),
                    fires@.take(k as int),
                ),
                self.player == old(self).player,
                self.alien_direction == old(self).alien_direction,
                self.alien_level == old(self).alien_level,
                self.lives_left == old(self).lives_left,
                self.score == old(self).score,
            decreases n - k,
        {
            let a = self.aliens[k];
            assert(self.aliens@.take(k + 1).drop_last() =~= self.aliens@.take(k as int));
            assert(fires@.take(k + 1).drop_last() =~= fires@.take(k as int));
            if fires[k] {
                self.missiles.push(
                    Missile {
                        direction: MissileDirection::Down,
                        x: a.x,
                        y: a.y + 1,
                        hitbox: Hitbox { width: 1, height: 1 },
                    },
                );
            }
            k = k + 1;
        }
        assert(self.aliens@.take(n as int) =~= self.aliens@);
        assert(fires@.take(n as int) =~= fires@);
    }
}

} // verus!

verus! {

impl Game {
    /// Whether the aliens' step can be taken, that is, whether `move_aliens`
    /// may be called.
    pub fn can_move_aliens(&self, config: &Config) -> (r: bool)
        ensures
            r == step_fits(*self, *config),
    {
        if self.alien_direction == AlienDirection::Left || self.aliens.len() == 0 {
            return true;
        }
        let w: i32 = #[verifier::truncate] (config.screen_width as i32);
        let d: i32 = #[verifier::truncate] (config.alien_speed as i32);
        let room: i64 = (w as i64) - (d as i64) - 1;
        if room < (i32::MIN as i64) || room + 1 > (i32::MAX as i64) {
            return false;
        }
        let clipped: usize = if room > 0 {
            room as usize
        } else {
            0
        };
        let step: usize = if config.alien_speed <= clipped {
            config.alien_speed
        } else {
            clipped
        };
        assert(step == right_step(*config));
        assert(room == right_room(*config));
        let n = self.aliens.len();
        let mut k: usize = 0;
        while k < n
            invariant
                n == self.aliens@.len(),
                k <= n,
                step == right_step(*config),
                self.alien_direction == AlienDirection::Right,
                n > 0,
                right_room(*config) >= i32::MIN,
                right_room(*config) + 1 <= i32::MAX,
                forall|i: int| 0 <= i < k ==> #[trigger] self.aliens@[i].x + right_step(*config) <= usize::MAX,
            decreases n - k,
        {
            if self.aliens[k].x > usize::MAX - step {
                assert(!(self.aliens@[k as int].x + right_step(*config) <= usize::MAX));
                return false;
            }
            k = k + 1;
        }
        true
    }

    /// Whether the edge check can run, that is, whether `turn_at_edge` may be
    /// called.
    pub fn can_turn(&self, config: &Config) -> (r: bool)
        ensures
            r == turn_fits(*self, *config),
    {
        let n = self.aliens.len();
        let w = config.screen_width;
        if w == 0 && n > 0 && self.aliens[0].x != 0 {
            return false;
        }
        let mut edge = false;
        let mut k: usize = 0;
        while k < n
            invariant
                n == self.aliens@.len(),
                w == config.screen_width,
                k <= n,
                edge == exists|i: int| 0 <= i < k && #[trigger] at_edge(self.aliens@[i], w as int),
            decreases n - k,
        {
            let x = self.aliens[k].x;
            if x == 0 || (w > 0 && x == w - 1) {
                edge = true;
            }
            proof {
                if edge {
                    if at_edge(self.aliens@[k as int], w as int) {
                        assert(at_edge(self.aliens@[k as int], w as int));
                    }
                } else {
                    assert forall|i: int| 0 <= i < k + 1 implies !#[trigger] at_edge(self.aliens@[i], w as int) by {
                        if i == k {
                        }
                    }
                }
            }
            k = k + 1;
        }
        if !edge {
            return true;
        }
        if self.alien_level == i32::MAX {
            assert(any_at_edge(self.aliens@, w as int));
            return false;
        }
        let mut j: usize = 0;
        while j < n
            invariant
                n == self.aliens@.len(),
                j <= n,
                forall|i: int| 0 <= i < j ==> #[trigger] self.aliens@[i].y < usize::MAX,
                w == config.screen_width,
                self.alien_level < i32::MAX,
                exists|i: int| 0 <= i < n && #[trigger] at_edge(self.aliens@[i], w as int),
            decreases n - j,
        {
            if self.aliens[j].y == usize::MAX {
                assert(any_at_edge(self.aliens@, w as int));
                assert(!(self.aliens@[j as int].y < usize::MAX));
                return false;
            }
            j = j + 1;
        }
        true
    }
}

} // verus!

verus! {

/// How far one step moves an alien, in terms of its column and the
/// settings: to the left by the alien speed, or to column 0 if that is
/// nearer; to the right by the alien speed, but (on a screen and speed that
/// `i32` holds) by no more than the room `width - speed - 1`, and not at all
/// when that room is negative.  Its row, box and value stay.
pub proof fn lemma_alien_step(a: Alien, dir: AlienDirection, c: Config)
    requires
        dir == AlienDirection::Right ==> a.x + right_step(c) <= usize::MAX,
    ensures
        ({
            let b = stepped_alien(a, dir, c);
            let d = c.alien_speed as int;
            let w = c.screen_width as int;
            &&& b.y == a.y && b.hitbox == a.hitbox && b.value == a.value
            &&& dir == AlienDirection::Left ==> a.x - b.x == (if d <= a.x {
                d
            } else {
                a.x as int
            })
            &&& dir == AlienDirection::Right ==> a.x <= b.x <= a.x + d
            &&& (dir == AlienDirection::Right && w <= i32::MAX && d <= i32::MAX) ==> b.x - a.x == (
            if w - d - 1 <= 0 {
                0
            } else if d <= w - d - 1 {
                d
            } else {
                w - d - 1
            })
        }),
{
    assert(c.screen_width <= i32::MAX ==> (c.screen_width as i32) as int == c.screen_width);
    assert(c.alien_speed <= i32::MAX ==> (c.alien_speed as i32) as int == c.alien_speed);
}

/// Count of the set entries of `fires`.
pub open spec fn count_set(fires: Seq<bool>) -> int
    decreases fires.len(),
{
    if fires.len() == 0 {
        0
    } else {
        count_set(fires.drop_last()) + (if fires.last() {
            1int
        } else {
            0
        })
    }
}

/// One missile drops per alien that fires, and each one is a falling,
/// one-cell missile in its alien's column, one row below it.
pub proof fn lemma_dropped(aliens: Seq<Alien>, fires: Seq<bool>)
    requires
        aliens.len() == fires.len(),
    ensures
        dropped(aliens, fires).len() == count_set(fires),
        forall|j: int|
            0 <= j < dropped(aliens, fires).len() ==> exists|i: int|
                0 <= i < aliens.len() && fires[i] && #[trigger] dropped(aliens, fires)[j] == (Missile {
                    x: aliens[i].x,
                    y: (aliens[i].y + 1) as usize,
                    hitbox: Hitbox { width: 1, height: 1 },
                    direction: MissileDirection::Down,
                }),
    decreases aliens.len(),
{
    if aliens.len() > 0 {
        let a0 = aliens.drop_last();
        let f0 = fires.drop_last();
        lemma_dropped(a0, f0);
        let rest = dropped(a0, f0);
        let n = aliens.len() - 1;
        assert forall|j: int| 0 <= j < dropped(aliens, fires).len() implies exists|i: int|
            0 <= i < aliens.len() && fires[i] && #[trigger] dropped(aliens, fires)[j] == (Missile {
                x: aliens[i].x,
                y: (aliens[i].y + 1) as usize,
                hitbox: Hitbox { width: 1, height: 1 },
                direction: MissileDirection::Down,
            }) by {
            if j < rest.len() {
                assert(dropped(aliens, fires)[j] == rest[j]);
                let i = choose|i: int|
                    0 <= i < a0.len() && f0[i] && #[trigger] rest[j] == (Missile {
                        x: a0[i].x,
                        y: (a0[i].y + 1) as usize,
                        hitbox: Hitbox { width: 1, height: 1 },
                        direction: MissileDirection::Down,
                    });
                assert(aliens[i] == a0[i] && fires[i] == f0[i]);
            } else {
                assert(fires[n]);
                assert(dropped(aliens, fires)[j] == bomb(aliens[n]));
            }
        }
    }
}

} // verus!
