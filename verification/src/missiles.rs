use vstd::prelude::*;

use crate::config::Config;
use crate::game::{Alien, Game, Hittable, Missile, MissileDirection, Player};

verus! {

/// Two rows are adjacent when they are equal or one apart.
pub open spec fn adjacent(a: int, b: int) -> bool {
    a == b - 1 || a == b || a == b + 1
}

/// Two missiles flying in opposite directions in the same column, at
/// adjacent rows, destroy each other.
pub open spec fn collide(m: Missile, n: Missile) -> bool {
    &&& adjacent(m.y as int, n.y as int)
    &&& m.x == n.x
    &&& n.direction != m.direction
}

/// The first index `k >= j` whose missile collides with missile `i`.
pub open spec fn collision_from(ms: Seq<Missile>, i: int, j: int) -> Option<int>
    decreases ms.len() - j,
{
    if j < 0 || j >= ms.len() {
        None
    } else if collide(ms[i], ms[j]) {
        Some(j)
    } else {
        collision_from(ms, i, j + 1)
    }
}

/// The first index `k >= j` whose alien covers (`x`, `y`).
pub open spec fn alien_hit_from(aliens: Seq<Alien>, x: int, y: int, j: int) -> Option<int>
    decreases aliens.len() - j,
{
    if j < 0 || j >= aliens.len() {
        None
    } else if aliens[j].hit_at(x, y) {
        Some(j)
    } else {
        alien_hit_from(aliens, x, y, j + 1)
    }
}

/// The state of one frame's pass over the missiles: the index of the missile
/// being looked at, what is left of the missiles and aliens, the score, the
/// lives, and whether the pass has ended early.
pub struct Pass {
    pub index: int,
    pub missiles: Seq<Missile>,
    pub aliens: Seq<Alien>,
    pub score: int,
    pub lives: int,
    pub stopped: bool,
}

/// The missiles once missile `i` and the first missile from `i` on that
/// collides with it are both gone.
pub open spec fn after_collision(ms: Seq<Missile>, i: int) -> Seq<Missile> {
    match collision_from(ms, i, i) {
        Some(j) => ms.remove(j).remove(i),
        None => ms,
    }
}

/// One step of the pass: first the collision check of missile `index`, then
/// the move of whatever missile now stands at `index`.  A missile that leaves
/// the screen disappears; a rising missile that reaches an alien destroys it
/// and scores its value times the level; a falling missile that reaches the
/// player costs a life, clears every missile and ends the pass.
pub open spec fn pass_step(st: Pass, speed: int, height: int, player: Player, level: int) -> Pass {
    let i = st.index;
    let ms = after_collision(st.missiles, i);
    if i >= ms.len() {
        Pass { missiles: ms, stopped: true, ..st }
    } else {
        let m = ms[i];
        match m.direction {
            MissileDirection::Up => {
                if m.y <= speed {
                    Pass { missiles: ms.remove(i), ..st }
                } else {
                    let moved = Missile { y: (m.y - speed) as usize, ..m };
                    let ms2 = ms.update(i, moved);
                    match alien_hit_from(st.aliens, moved.x as int, moved.y as int, 0) {
                        Some(k) => Pass {
                            index: i + 1,
                            missiles: ms2.remove(i),
                            aliens: st.aliens.remove(k),
                            score: st.score + st.aliens[k].value * level,
                            ..st
                        },
                        None => Pass { index: i + 1, missiles: ms2, ..st },
                    }
                }
            },
            MissileDirection::Down => {
                if m.y + speed >= height {
                    Pass { missiles: ms.remove(i), ..st }
                } else {
                    let moved = Missile { y: (m.y + speed) as usize, ..m };
                    let ms2 = ms.update(i, moved);
                    if player.hit_at(moved.x as int, moved.y as int) {
                        Pass { missiles: Seq::empty(), lives: st.lives - 1, stopped: true, ..st }
                    } else {
                        Pass { index: i + 1, missiles: ms2, ..st }
                    }
                }
            },
        }
    }
}

/// How much of the pass is left to do.
pub open spec fn pass_measure(st: Pass) -> nat {
    if st.stopped || st.index < 0 || st.index >= st.missiles.len() {
        0
    } else {
        (st.missiles.len() - st.index) as nat
    }
}

pub proof fn lemma_collision_bounds(ms: Seq<Missile>, i: int, j: int)
    requires
        0 <= i < ms.len(),
        i <= j,
    ensures
        collision_from(ms, i, j) matches Some(k) ==> i < k < ms.len() && collide(ms[i], ms[k]),
    decreases ms.len() - j,
{
    if j < ms.len() && !collide(ms[i], ms[j]) {
        lemma_collision_bounds(ms, i, j + 1);
    }
}

pub proof fn lemma_alien_hit_bounds(aliens: Seq<Alien>, x: int, y: int, j: int)
    requires
        0 <= j,
    ensures
        alien_hit_from(aliens, x, y, j) matches Some(k) ==> j <= k < aliens.len()
            && aliens[k].hit_at(x, y),
    decreases aliens.len() - j,
{
    if j < aliens.len() && !aliens[j].hit_at(x, y) {
        lemma_alien_hit_bounds(aliens, x, y, j + 1);
    }
}

pub proof fn lemma_step_shrinks(st: Pass, speed: int, height: int, player: Player, level: int)
    requires
        pass_measure(st) > 0,
    ensures
        pass_measure(pass_step(st, speed, height, player, level)) < pass_measure(st),
{
    lemma_collision_bounds(st.missiles, st.index, st.index);
}

/// The whole pass: steps until it ends early or runs past the last missile.
pub open spec fn pass_run(st: Pass, speed: int, height: int, player: Player, level: int) -> Pass
    decreases pass_measure(st),
{
    if pass_measure(st) == 0 {
        st
    } else {
        proof {
            lemma_step_shrinks(st, speed, height, player, level);
        }
        pass_run(pass_step(st, speed, height, player, level), speed, height, player, level)
    }
}

/// Whether one step of the pass stays within `i32`: a hit's gain (value times
/// level) and the new score, or a lost life.
pub open spec fn pass_step_fits(st: Pass, speed: int, height: int, player: Player, level: int) -> bool {
    let i = st.index;
    let ms = after_collision(st.missiles, i);
    if i >= ms.len() {
        true
    } else {
        let m = ms[i];
        match m.direction {
            MissileDirection::Up => {
                if m.y <= speed {
                    true
                } else {
                    let moved = Missile { y: (m.y - speed) as usize, ..m };
                    match alien_hit_from(st.aliens, moved.x as int, moved.y as int, 0) {
                        Some(k) => {
                            let gain = st.aliens[k].value * level;
                            &&& i32::MIN <= gain <= i32::MAX
                            &&& i32::MIN <= st.score + gain <= i32::MAX
                        },
                        None => true,
                    }
                }
            },
            MissileDirection::Down => {
                if m.y + speed >= height {
                    true
                } else {
                    let moved = Missile { y: (m.y + speed) as usize, ..m };
                    player.hit_at(moved.x as int, moved.y as int) ==> st.lives - 1 >= i32::MIN
                }
            },
        }
    }
}

/// Whether every step of the pass stays within `i32`.
pub open spec fn pass_fits(st: Pass, speed: int, height: int, player: Player, level: int) -> bool
    decreases pass_measure(st),
{
    if pass_measure(st) == 0 {
        true
    } else {
        proof {
            lemma_step_shrinks(st, speed, height, player, level);
        }
        pass_step_fits(st, speed, height, player, level) && pass_fits(
            pass_step(st, speed, height, player, level),
            speed,
            height,
            player,
            level,
        )
    }
}

} // verus!

verus! {

/// The sum of `f` over the aliens.
pub open spec fn alien_sum(aliens: Seq<Alien>, f: spec_fn(Alien) -> int) -> int
    decreases aliens.len(),
{
    if aliens.len() == 0 {
        0
    } else {
        alien_sum(aliens.drop_last(), f) + f(aliens.last())
    }
}

/// The total value of the aliens.
pub open spec fn value_total(aliens: Seq<Alien>) -> int {
    alien_sum(aliens, |a: Alien| a.value as int)
}

pub proof fn lemma_sum_remove(aliens: Seq<Alien>, f: spec_fn(Alien) -> int, k: int)
    requires
        0 <= k < aliens.len(),
    ensures
        alien_sum(aliens, f) == alien_sum(aliens.remove(k), f) + f(aliens[k]),
    decreases aliens.len(),
{
    if k == aliens.len() - 1 {
        assert(aliens.remove(k) =~= aliens.drop_last());
    } else {
        lemma_sum_remove(aliens.drop_last(), f, k);
        assert(aliens.remove(k).drop_last() =~= aliens.drop_last().remove(k));
        assert(aliens.remove(k).last() == aliens.last());
    }
}

/// What a pass keeps from `a` to `b`: every point scored is the value of an
/// alien that left times the level, aliens only leave, missiles only leave, at
/// most one life is lost and then no missile is left.
pub open spec fn pass_keeps(a: Pass, b: Pass, level: int) -> bool {
    &&& b.score == a.score + level * (value_total(a.aliens) - value_total(b.aliens))
    &&& b.aliens.len() <= a.aliens.len()
    &&& forall|x: Alien| b.aliens.contains(x) ==> a.aliens.contains(x)
    &&& b.missiles.len() <= a.missiles.len()
    &&& (b.lives == a.lives || (b.lives == a.lives - 1 && b.missiles.len() == 0 && b.stopped))
}

pub proof fn lemma_step_keeps(st: Pass, speed: int, height: int, player: Player, level: int)
    requires
        pass_measure(st) > 0,
    ensures
        pass_keeps(st, pass_step(st, speed, height, player, level), level),
{
    let i = st.index;
    lemma_collision_bounds(st.missiles, i, i);
    let ms = after_collision(st.missiles, i);
    let nx = pass_step(st, speed, height, player, level);
    if i < ms.len() {
        let m = ms[i];
        if m.direction == MissileDirection::Up && m.y > speed {
            let moved = Missile { y: (m.y - speed) as usize, ..m };
            lemma_alien_hit_bounds(st.aliens, moved.x as int, moved.y as int, 0);
            match alien_hit_from(st.aliens, moved.x as int, moved.y as int, 0) {
                Some(k) => {
                    let v = st.aliens[k].value as int;
                    lemma_sum_remove(st.aliens, |a: Alien| a.value as int, k);
                    let t0 = value_total(st.aliens);
                    let t1 = value_total(st.aliens.remove(k));
                    assert(t0 == t1 + v);
                    assert(level * (t0 - t0) == 0) by (nonlinear_arith);
                    assert(level * (t0 - t1) == v * level) by (nonlinear_arith)
                        requires
                            t0 == t1 + v,
                    ;
                    assert forall|x: Alien| nx.aliens.contains(x) implies st.aliens.contains(x) by {
                        let j = choose|j: int| 0 <= j < nx.aliens.len() && nx.aliens[j] == x;
                        if j < k {
                            assert(st.aliens[j] == x);
                        } else {
                            assert(st.aliens[j + 1] == x);
                        }
                    }
                },
                None => {
                    assert(level * (value_total(st.aliens) - value_total(st.aliens)) == 0)
                        by (nonlinear_arith);
                },
            }
        } else {
            assert(level * (value_total(st.aliens) - value_total(st.aliens)) == 0)
                by (nonlinear_arith);
        }
    } else {
        assert(level * (value_total(st.aliens) - value_total(st.aliens)) == 0) by (nonlinear_arith);
    }
}

pub proof fn lemma_run_keeps(st: Pass, speed: int, height: int, player: Player, level: int)
    ensures
        pass_keeps(st, pass_run(st, speed, height, player, level), level),
    decreases pass_measure(st),
{
    if pass_measure(st) == 0 {
        assert(level * (value_total(st.aliens) - value_total(st.aliens)) == 0) by (nonlinear_arith);
    } else {
        let nx = pass_step(st, speed, height, player, level);
        lemma_step_shrinks(st, speed, height, player, level);
        lemma_step_keeps(st, speed, height, player, level);
        lemma_run_keeps(nx, speed, height, player, level);
        let fin = pass_run(nx, speed, height, player, level);
        let t0 = value_total(st.aliens);
        let t1 = value_total(nx.aliens);
        let t2 = value_total(fin.aliens);
        assert(level * (t0 - t1) + level * (t1 - t2) == level * (t0 - t2)) by (nonlinear_arith);
        if nx.stopped {
            assert(pass_measure(nx) == 0);
        }
    }
}

} // verus!

verus! {

pub open spec fn opt_index(o: Option<usize>) -> Option<int> {
    match o {
        Some(k) => Some(k as int),
        None => None,
    }
}

/// Exact, overflow-free test of `adjacent`.
fn adjacent_rows(a: usize, b: usize) -> (r: bool)
    ensures
        r == adjacent(a as int, b as int),
{
    if a <= b {
        b - a <= 1
    } else {
        a - b <= 1
    }
}

fn find_collision(ms: &Vec<Missile>, i: usize) -> (r: Option<usize>)
    requires
        i < ms.len(),
    ensures
        opt_index(r) == collision_from(ms@, i as int, i as int),
{
    let m = ms[i];
    let mut j: usize = i;
    while j < ms.len()
        invariant
            i <= j <= ms.len(),
            i < ms.len(),
            m == ms@[i as int],
            collision_from(ms@, i as int, i as int) == collision_from(ms@, i as int, j as int),
        decreases ms.len() - j,
    {
        let n = ms[j];
        if adjacent_rows(m.y, n.y) && m.x == n.x && n.direction != m.direction {
            return Some(j);
        }
        j = j + 1;
    }
    None
}

fn find_hit_alien(aliens: &Vec<Alien>, x: usize, y: usize) -> (r: Option<usize>)
    ensures
        opt_index(r) == alien_hit_from(aliens@, x as int, y as int, 0),
{
    let mut j: usize = 0;
    while j < aliens.len()
        invariant
            j <= aliens.len(),
            alien_hit_from(aliens@, x as int, y as int, 0) == alien_hit_from(
                aliens@,
                x as int,
                y as int,
                j as int,
            ),
        decreases aliens.len() - j,
    {
        if aliens[j].hit(x, y) {
            return Some(j);
        }
        j = j + 1;
    }
    None
}

/// The pass that a frame starts with.
pub open spec fn start_pass(g: Game) -> Pass {
    Pass {
        index: 0,
        missiles: g.missiles@,
        aliens: g.aliens@,
        score: g.score as int,
        lives: g.lives_left as int,
        stopped: false,
    }
}

/// The pass that a frame runs on `g`.
pub open spec fn missile_pass(g: Game, c: Config) -> Pass {
    pass_run(
        start_pass(g),
        c.missile_speed as int,
        c.screen_height as int,
        g.player,
        g.alien_level as int,
    )
}

/// Whether the pass that a frame runs on `g` stays within `i32`.
pub open spec fn missile_pass_fits(g: Game, c: Config) -> bool {
    pass_fits(
        start_pass(g),
        c.missile_speed as int,
        c.screen_height as int,
        g.player,
        g.alien_level as int,
    )
}

fn copy_vec<T: Copy>(v: &Vec<T>) -> (r: Vec<T>)
    ensures
        r@ == v@,
{
    let mut r: Vec<T> = Vec::new();
    for i in 0..v.len()
        invariant
            r@ == v@.take(i as int),
    {
        r.push(v[i]);
        assert(r@ =~= v@.take(i + 1));
    }
    assert(v@.take(v.len() as int) =~= v@);
    r
}

impl Game {
    /// Runs the missile pass with checked arithmetic: false, with the game in
    /// some state, as soon as a step leaves `i32`; otherwise true, with the
    /// game as `missile_pass` says.
    fn run_pass(&mut self, config: &Config) -> (ok: bool)
        ensures
            ok == missile_pass_fits(*old(self), *config),
            ok ==> {
                &&& final(self).missiles@ == missile_pass(*old(self), *config).missiles
                &&& final(self).aliens@ == missile_pass(*old(self), *config).aliens
                &&& final(self).score == missile_pass(*old(self), *config).score
                &&& final(self).lives_left == missile_pass(*old(self), *config).lives
            },
            final(self).player == old(self).player,
            final(self).alien_level == old(self).alien_level,
            final(self).alien_direction == old(self).alien_direction,
    {
        let speed: usize = config.missile_speed;
        let height: usize = config.screen_height;
        let player = self.player;
        let level: i32 = self.alien_level;
        let ghost target = missile_pass(*old(self), *config);
        let ghost fits = missile_pass_fits(*old(self), *config);
        let mut i: usize = 0;
        let mut stopped = false;
        while !stopped && i < self.missiles.len()
            invariant
                speed == config.missile_speed,
                height == config.screen_height,
                player == old(self).player,
                self.player == old(self).player,
                level == old(self).alien_level,
                self.alien_level == old(self).alien_level,
                self.alien_direction == old(self).alien_direction,
                target == missile_pass(*old(self), *config),
                fits == missile_pass_fits(*old(self), *config),
                pass_run(
                    Pass {
                        index: i as int,
                        missiles: self.missiles@,
                        aliens: self.aliens@,
                        score: self.score as int,
                        lives: self.lives_left as int,
                        stopped,
                    },
                    speed as int,
                    height as int,
                    player,
                    level as int,
                ) == target,
                pass_fits(
                    Pass {
                        index: i as int,
                        missiles: self.missiles@,
                        aliens: self.aliens@,
                        score: self.score as int,
                        lives: self.lives_left as int,
                        stopped,
                    },
                    speed as int,
                    height as int,
                    player,
                    level as int,
                ) == fits,
            decreases pass_measure(
                Pass {
                    index: i as int,
                    missiles: self.missiles@,
                    aliens: self.aliens@,
                    score: self.score as int,
                    lives: self.lives_left as int,
                    stopped,
                },
            ),
        {
            let ghost cur = Pass {
                index: i as int,
                missiles: self.missiles@,
                aliens: self.aliens@,
                score: self.score as int,
                lives: self.lives_left as int,
                stopped,
            };
            proof {
                lemma_collision_bounds(self.missiles@, i as int, i as int);
                lemma_step_shrinks(cur, speed as int, height as int, player, level as int);
            }
            match find_collision(&self.missiles, i) {
                Some(j) => {
                    self.missiles.remove(j);
                    self.missiles.remove(i);
                },
                None => {},
            }
            assert(self.missiles@ == after_collision(cur.missiles, i as int));
            if i >= self.missiles.len() {
                stopped = true;
            } else {
                let m = self.missiles[i];
                match m.direction {
                    MissileDirection::Up => {
                        if m.y <= speed {
                            self.missiles.remove(i);
                        } else {
                            let moved = Missile {
                                x: m.x,
                                y: m.y - speed,
                                hitbox: m.hitbox,
                                direction: m.direction,
                            };
                            self.missiles.set(i, moved);
                            proof {
                                lemma_alien_hit_bounds(
                                    self.aliens@,
                                    moved.x as int,
                                    moved.y as int,
                                    0,
                                );
                            }
                            match find_hit_alien(&self.aliens, moved.x, moved.y) {
                                Some(k) => {
                                    let a = self.aliens[k];
                                    let gain: i32 = match a.value.checked_mul(level) {
                                        Some(g) => g,
                                        None => {
                                            return false;
                                        },
                                    };
                                    let score: i32 = match self.score.checked_add(gain) {
                                        Some(t) => t,
                                        None => {
                                            return false;
                                        },
                                    };
                                    self.aliens.remove(k);
                                    self.missiles.remove(i);
                                    self.score = score;
                                },
                                None => {},
                            }
                            i = i + 1;
                        }
                    },
                    MissileDirection::Down => {
                        if m.y >= height || speed >= height - m.y {
                            self.missiles.remove(i);
                        } else {
                            let moved = Missile {
                                x: m.x,
                                y: m.y + speed,
                                hitbox: m.hitbox,
                                direction: m.direction,
                            };
                            self.missiles.set(i, moved);
                            if player.hit(moved.x, moved.y) {
                                let lives: i32 = match self.lives_left.checked_sub(1) {
                                    Some(l) => l,
                                    None => {
                                        return false;
                                    },
                                };
                                self.lives_left = lives;
                                self.missiles.clear();
                                stopped = true;
                            } else {
                                i = i + 1;
                            }
                        }
                    },
                }
            }
            assert(Pass {
                index: i as int,
                missiles: self.missiles@,
                aliens: self.aliens@,
                score: self.score as int,
                lives: self.lives_left as int,
                stopped,
            } == pass_step(cur, speed as int, height as int, player, level as int));
        }
        true
    }

    /// Moves every missile and settles what it hits, as `missile_pass` says.
    pub fn update_missiles(&mut self, config: &Config)
        requires
            missile_pass_fits(*old(self), *config),
        ensures
            final(self).missiles@ == missile_pass(*old(self), *config).missiles,
            final(self).aliens@ == missile_pass(*old(self), *config).aliens,
            final(self).score == missile_pass(*old(self), *config).score,
            final(self).lives_left == missile_pass(*old(self), *config).lives,
            final(self).player == old(self).player,
            final(self).alien_level == old(self).alien_level,
            final(self).alien_direction == old(self).alien_direction,
            pass_keeps(start_pass(*old(self)), missile_pass(*old(self), *config), old(self).alien_level as int),
    {
        proof {
            lemma_run_keeps(
                start_pass(*old(self)),
                config.missile_speed as int,
                config.screen_height as int,
                old(self).player,
                old(self).alien_level as int,
            );
        }
        self.run_pass(config);
    }

    /// Whether this frame's missile pass stays within `i32`, that is, whether
    /// `update_missiles` may be called.
    pub fn missiles_fit(&self, config: &Config) -> (r: bool)
        ensures
            r == missile_pass_fits(*self, *config),
    {
        let mut trial = Game {
            aliens: copy_vec(&self.aliens),
            alien_direction: self.alien_direction,
            alien_level: self.alien_level,
            missiles: copy_vec(&self.missiles),
            player: self.player,
            lives_left: self.lives_left,
            score: self.score,
        };
        assert(start_pass(trial) == start_pass(*self));
        trial.run_pass(config)
    }
}

} // verus!

verus! {

/// Two missiles in one column flying in opposite directions, at rows at most
/// one apart (equal rows included), destroy each other whichever of them is
/// listed first: a pass over just those two leaves no missile, and changes
/// no alien, score or life.
pub proof fn lemma_opposite_pair_destroyed(g: Game, c: Config)
    requires
        g.missiles@.len() == 2,
        g.missiles@[0].x == g.missiles@[1].x,
        g.missiles@[0].direction != g.missiles@[1].direction,
        -1 <= g.missiles@[0].y - g.missiles@[1].y <= 1,
    ensures
        missile_pass(g, c).missiles.len() == 0,
        missile_pass(g, c).aliens == g.aliens@,
        missile_pass(g, c).score == g.score,
        missile_pass(g, c).lives == g.lives_left,
{
    let st = start_pass(g);
    let ms = g.missiles@;
    let speed = c.missile_speed as int;
    let height = c.screen_height as int;
    let level = g.alien_level as int;
    assert(!collide(ms[0], ms[0]));
    assert(collide(ms[0], ms[1]));
    assert(collision_from(ms, 0, 1) == Some(1int));
    assert(collision_from(ms, 0, 0) == Some(1int));
    assert(after_collision(ms, 0).len() == 0);
    let nx = pass_step(st, speed, height, g.player, level);
    assert(nx.stopped);
    assert(pass_measure(nx) == 0);
    assert(pass_measure(st) > 0);
    assert(pass_run(st, speed, height, g.player, level) == pass_run(nx, speed, height, g.player, level));
}

} // verus!

verus! {

/// Whether the box at (`left`, `top`) with the given extent covers (`x`,
/// `y`), written out.
pub open spec fn box_has(left: int, top: int, w: int, h: int, x: int, y: int) -> bool {
    left <= x && x <= left + w && top <= y && y <= top + h
}

proof fn lemma_first_alien_hit(aliens: Seq<Alien>, x: int, y: int, j: int, k: int)
    requires
        0 <= j <= k < aliens.len(),
        forall|i: int| j <= i < k ==> !(#[trigger] aliens[i]).hit_at(x, y),
        aliens[k].hit_at(x, y),
    ensures
        alien_hit_from(aliens, x, y, j) == Some(k),
    decreases k - j,
{
    if j < k {
        lemma_first_alien_hit(aliens, x, y, j + 1, k);
    }
}

proof fn lemma_no_alien_hit(aliens: Seq<Alien>, x: int, y: int, j: int)
    requires
        0 <= j,
        forall|i: int| j <= i < aliens.len() ==> !(#[trigger] aliens[i]).hit_at(x, y),
    ensures
        alien_hit_from(aliens, x, y, j) is None,
    decreases aliens.len() - j,
{
    if j < aliens.len() {
        lemma_no_alien_hit(aliens, x, y, j + 1);
    }
}

/// What a pass does to a lone missile, in terms of the game and the
/// settings.  Rising, it leaves the screen when its row is at most the
/// missile speed; otherwise it climbs by the missile speed, and if an alien's
/// box covers its new cell the first such alien and the missile are gone and
/// the score grows by that alien's value times the level.  Falling, it leaves
/// the screen when it would reach the screen height; otherwise it drops by the
/// missile speed, and if the player's box covers its new cell a life is lost
/// and the missile is gone.  Nothing else changes.
pub proof fn lemma_lone_missile(g: Game, c: Config)
    requires
        g.missiles@.len() == 1,
    ensures
        ({
            let m = g.missiles@[0];
            let r = missile_pass(g, c);
            let s = c.missile_speed as int;
            let h = c.screen_height as int;
            let p = g.player;
            &&& m.direction == MissileDirection::Up && m.y <= s ==> r.missiles.len() == 0
                && r.aliens == g.aliens@ && r.score == g.score && r.lives == g.lives_left
            &&& (m.direction == MissileDirection::Up && m.y > s && forall|i: int|
                0 <= i < g.aliens@.len() ==> !box_has(
                    #[trigger] g.aliens@[i].x as int,
                    g.aliens@[i].y as int,
                    g.aliens@[i].hitbox.width as int,
                    g.aliens@[i].hitbox.height as int,
                    m.x as int,
                    m.y - s,
                )) ==> r.missiles == seq![Missile { y: (m.y - s) as usize, ..m }] && r.aliens
                == g.aliens@ && r.score == g.score && r.lives == g.lives_left
            &&& forall|k: int|
                #![trigger g.aliens@[k]]
                (m.direction == MissileDirection::Up && m.y > s && 0 <= k < g.aliens@.len()
                    && box_has(
                    g.aliens@[k].x as int,
                    g.aliens@[k].y as int,
                    g.aliens@[k].hitbox.width as int,
                    g.aliens@[k].hitbox.height as int,
                    m.x as int,
                    m.y - s,
                ) && forall|i: int|
                    0 <= i < k ==> !box_has(
                        #[trigger] g.aliens@[i].x as int,
                        g.aliens@[i].y as int,
                        g.aliens@[i].hitbox.width as int,
                        g.aliens@[i].hitbox.height as int,
                        m.x as int,
                        m.y - s,
                    )) ==> r.missiles.len() == 0 && r.aliens == g.aliens@.remove(k) && r.score
                    == g.score + g.aliens@[k].value * g.alien_level && r.lives == g.lives_left
            &&& m.direction == MissileDirection::Down && m.y + s >= h ==> r.missiles.len() == 0
                && r.aliens == g.aliens@ && r.score == g.score && r.lives == g.lives_left
            &&& (m.direction == MissileDirection::Down && m.y + s < h && box_has(
                p.x as int,
                p.y as int,
                p.hitbox.width as int,
                p.hitbox.height as int,
                m.x as int,
                m.y + s,
            )) ==> r.missiles.len() == 0 && r.aliens == g.aliens@ && r.score == g.score && r.lives
                == g.lives_left - 1
            &&& (m.direction == MissileDirection::Down && m.y + s < h && !box_has(
                p.x as int,
                p.y as int,
                p.hitbox.width as int,
                p.hitbox.height as int,
                m.x as int,
                m.y + s,
            )) ==> r.missiles == seq![Missile { y: (m.y + s) as usize, ..m }] && r.aliens
                == g.aliens@ && r.score == g.score && r.lives == g.lives_left
        }),
{
    let st = start_pass(g);
    let ms = g.missiles@;
    let m = ms[0];
    let speed = c.missile_speed as int;
    let height = c.screen_height as int;
    let level = g.alien_level as int;
    assert(!collide(ms[0], ms[0]));
    assert(collision_from(ms, 0, 1) is None);
    assert(collision_from(ms, 0, 0) is None);
    assert(after_collision(ms, 0) == ms);
    let nx = pass_step(st, speed, height, g.player, level);
    assert(pass_measure(st) > 0);
    assert(pass_run(st, speed, height, g.player, level) == pass_run(nx, speed, height, g.player, level));
    assert(pass_measure(nx) == 0);
    assert(pass_run(nx, speed, height, g.player, level) == nx);
    if m.direction == MissileDirection::Up && m.y > speed {
        let moved = Missile { y: (m.y - speed) as usize, ..m };
        assert(ms.update(0, moved) =~= seq![moved]);
        assert(seq![moved].remove(0) =~= Seq::<Missile>::empty());
        if forall|i: int|
            0 <= i < g.aliens@.len() ==> !box_has(
                #[trigger] g.aliens@[i].x as int,
                g.aliens@[i].y as int,
                g.aliens@[i].hitbox.width as int,
                g.aliens@[i].hitbox.height as int,
                m.x as int,
                m.y - speed,
            ) {
            assert forall|i: int| 0 <= i < g.aliens@.len() implies !(#[trigger] g.aliens@[i]).hit_at(
                moved.x as int,
                moved.y as int,
            ) by {
                assert(!box_has(
                    g.aliens@[i].x as int,
                    g.aliens@[i].y as int,
                    g.aliens@[i].hitbox.width as int,
                    g.aliens@[i].hitbox.height as int,
                    m.x as int,
                    m.y - speed,
                ));
            }
            lemma_no_alien_hit(g.aliens@, moved.x as int, moved.y as int, 0);
        }
        assert forall|k: int|
            #![trigger g.aliens@[k]]
            (0 <= k < g.aliens@.len() && box_has(
                g.aliens@[k].x as int,
                g.aliens@[k].y as int,
                g.aliens@[k].hitbox.width as int,
                g.aliens@[k].hitbox.height as int,
                m.x as int,
                m.y - speed,
            ) && forall|i: int|
                0 <= i < k ==> !box_has(
                    #[trigger] g.aliens@[i].x as int,
                    g.aliens@[i].y as int,
                    g.aliens@[i].hitbox.width as int,
                    g.aliens@[i].hitbox.height as int,
                    m.x as int,
                    m.y - speed,
                )) implies nx.missiles.len() == 0 && nx.aliens == g.aliens@.remove(k) && nx.score
            == g.score + g.aliens@[k].value * g.alien_level && nx.lives == g.lives_left by {
            assert forall|i: int| 0 <= i < k implies !(#[trigger] g.aliens@[i]).hit_at(
                moved.x as int,
                moved.y as int,
            ) by {
                assert(!box_has(
                    g.aliens@[i].x as int,
                    g.aliens@[i].y as int,
                    g.aliens@[i].hitbox.width as int,
                    g.aliens@[i].hitbox.height as int,
                    m.x as int,
                    m.y - speed,
                ));
            }
            lemma_first_alien_hit(g.aliens@, moved.x as int, moved.y as int, 0, k);
        }
    }
    if m.direction == MissileDirection::Down && m.y + speed < height {
        let moved = Missile { y: (m.y + speed) as usize, ..m };
        assert(ms.update(0, moved) =~= seq![moved]);
    }
    if m.direction == MissileDirection::Up && m.y <= speed {
        assert(ms.remove(0) =~= Seq::<Missile>::empty());
    }
    if m.direction == MissileDirection::Down && m.y + speed >= height {
        assert(ms.remove(0) =~= Seq::<Missile>::empty());
    }
}

} // verus!
