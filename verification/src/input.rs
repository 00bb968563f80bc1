use vstd::prelude::*;

use crate::aliens::min_int;
use crate::config::Config;
use crate::game::{Game, Hitbox, Missile, MissileDirection, Player};

verus! {

/// A key press, as far as the game tells keys apart.
#[derive(Clone, Copy, Debug, PartialEq, Eq, Structural)]
pub enum Key {
    Char { c: char, ctrl: bool },
    Enter,
    Left,
    Right,
    Other,
}

/// Something the terminal reported: a key press or anything else (mouse,
/// resize, focus).
#[derive(Clone, Copy, Debug, PartialEq, Eq, Structural)]
pub enum InputEvent {
    Key(Key),
    Other,
}

/// The key that a frame acts on: that of the last event waiting, if the last
/// event is a key press; none if there was no event or the last one was not a
/// key press.
pub open spec fn last_key(events: Seq<InputEvent>) -> Option<Key> {
    if events.len() == 0 {
        None
    } else {
        match events.last() {
            InputEvent::Key(k) => Some(k),
            InputEvent::Other => None,
        }
    }
}

/// The key that a frame acts on, from the events that were waiting in order.
pub fn latest_key(events: &Vec<InputEvent>) -> (r: Option<Key>)
    ensures
        r == last_key(events@),
{
    let mut e: Option<Key> = None;
    let mut k: usize = 0;
    while k < events.len()
        invariant
            k <= events.len(),
            e == last_key(events@.take(k as int)),
        decreases events.len() - k,
    {
        e = match events[k] {
            InputEvent::Key(key) => Some(key),
            InputEvent::Other => None,
        };
        k = k + 1;
        assert(events@.take(k as int).last() == events@[k - 1]);
    }
    assert(events@.take(k as int) =~= events@);
    e
}

pub open spec fn is_quit(k: Key) -> bool {
    k == Key::Char { c: 'c', ctrl: true }
}

pub open spec fn is_fire(k: Key) -> bool {
    k matches Key::Char { c, .. } && c == ' '
}

/// What the title screen does with a key.
#[derive(Clone, Copy, Debug, PartialEq, Eq, Structural)]
pub enum TitleAction {
    Quit,
    Start,
    Wait,
}

/// Ctrl-C quits, Enter starts the game, any other key is ignored.
pub fn title_key(key: Key) -> (r: TitleAction)
    ensures
        r == (if is_quit(key) {
            TitleAction::Quit
        } else if key == Key::Enter {
            TitleAction::Start
        } else {
            TitleAction::Wait
        }),
{
    match key {
        Key::Char { c, ctrl } => {
            if c == 'c' && ctrl {
                TitleAction::Quit
            } else {
                TitleAction::Wait
            }
        },
        Key::Enter => TitleAction::Start,
        _ => TitleAction::Wait,
    }
}

/// What a key press during the game asks of the program.
#[derive(Clone, Copy, Debug, PartialEq, Eq, Structural)]
pub enum KeyAction {
    Quit,
    Continue,
}

/// The missile that the player fires: two cells right of its left edge, one
/// row above it, rising.
pub open spec fn shot(p: Player) -> Missile {
    Missile {
        x: (p.x + 2) as usize,
        y: (p.y - 1) as usize,
        hitbox: Hitbox { width: 1, height: 1 },
        direction: MissileDirection::Up,
    }
}

/// The room between the player's right edge and the screen's, in `i32`.
pub open spec fn right_edge(c: Config, p: Player) -> int {
    (c.screen_width as i32) as int - ((p.x + p.hitbox.width) as i32) as int
}

/// Where a key moves the player: left by the player speed but not past
/// column 0; right by the player speed but no further than the room, and only
/// if there is room.
pub open spec fn moved_player(p: Player, key: Key, c: Config) -> Player {
    match key {
        Key::Left => Player { x: (p.x - min_int(c.player_speed as int, p.x as int)) as usize, ..p },
        Key::Right => if right_edge(c, p) > 0 {
            Player { x: (p.x + min_int(c.player_speed as int, right_edge(c, p))) as usize, ..p }
        } else {
            p
        },
        _ => p,
    }
}

/// When a key can be handled: firing needs a row above the player, and a
/// step right must be computable.
pub open spec fn key_fits(g: Game, key: Key, c: Config) -> bool {
    &&& is_fire(key) ==> g.player.y >= 1 && g.player.x + 2 <= usize::MAX
    &&& key == Key::Right ==> {
        &&& g.player.x + g.player.hitbox.width <= usize::MAX
        &&& i32::MIN <= right_edge(c, g.player) <= i32::MAX
        &&& right_edge(c, g.player) > 0 ==> g.player.x + min_int(
            c.player_speed as int,
            right_edge(c, g.player),
        ) <= usize::MAX
    }
}

impl Game {
    /// Acts on a key during the game: Ctrl-C asks to quit; space fires; the
    /// arrows move the player.
    pub fn handle_key(&mut self, key: Key, config: &Config) -> (r: KeyAction)
        requires
            key_fits(*old(self), key, *config),
        ensures
            r == (if is_quit(key) {
                KeyAction::Quit
            } else {
                KeyAction::Continue
            }),
            final(self).player == moved_player(old(self).player, key, *config),
            final(self).missiles@ == (if is_fire(key) {
                old(self).missiles@.push(shot(old(self).player))
            } else {
                old(self).missiles@
            }),
            final(self).aliens@ == old(self).aliens@,
            final(self).alien_direction == old(self).alien_direction,
            final(self).alien_level == old(self).alien_level,
            final(self).lives_left == old(self).lives_left,
            final(self).score == old(self).score,
    {
        match key {
            Key::Char { c, ctrl } => {
                if c == 'c' && ctrl {
                    return KeyAction::Quit;
                }
                if c == ' ' {
                    self.missiles.push(
                        Missile {
                            x: self.player.x + 2,
                            y: self.player.y - 1,
                            hitbox: Hitbox { width: 1, height: 1 },
                            direction: MissileDirection::Up,
                        },
                    );
                }
            },
            Key::Left => {
                let back: usize = if config.player_speed <= self.player.x {
                    config.player_speed
                } else {
                    self.player.x
                };
                self.player.x = self.player.x - back;
            },
            Key::Right => {
                let reach: usize = self.player.x + self.player.hitbox.width;
                let w: i32 = #[verifier::truncate] (config.screen_width as i32);
                let r: i32 = #[verifier::truncate] (reach as i32);
                let edge: i32 = w - r;
                if edge > 0 {
                    let room: usize = edge as usize;
                    let step: usize = if config.player_speed <= room {
                        config.player_speed
                    } else {
                        room
                    };
                    self.player.x = self.player.x + step;
                }
            },
            _ => {},
        }
        KeyAction::Continue
    }
}

} // verus!

verus! {

/// A key never carries a player that is inside the screen out of it: a step
/// left stops at column 0, and a step right stops at the right edge (for
/// screens and positions that `i32` holds).
pub proof fn lemma_player_stays_on_screen(p: Player, key: Key, c: Config)
    requires
        c.screen_width <= i32::MAX,
        p.x + p.hitbox.width <= c.screen_width,
    ensures
        moved_player(p, key, c).x + p.hitbox.width <= c.screen_width,
        moved_player(p, key, c).y == p.y,
        moved_player(p, key, c).hitbox == p.hitbox,
{
    let reach = p.x + p.hitbox.width;
    assert((c.screen_width as i32) as int == c.screen_width);
    assert((reach as i32) as int == reach);
}

} // verus!

verus! {

impl Game {
    /// Whether a key can be handled, that is, whether `handle_key` may be
    /// called with it.
    pub fn can_handle_key(&self, key: Key, config: &Config) -> (r: bool)
        ensures
            r == key_fits(*self, key, *config),
    {
        let p = self.player;
        match key {
            Key::Char { c, ctrl } => {
                if c == ' ' {
                    p.y >= 1 && p.x <= usize::MAX - 2
                } else {
                    true
                }
            },
            Key::Right => {
                let reach: usize = match p.x.checked_add(p.hitbox.width) {
                    Some(v) => v,
                    None => {
                        return false;
                    },
                };
                let w: i32 = #[verifier::truncate] (config.screen_width as i32);
                let r: i32 = #[verifier::truncate] (reach as i32);
                let edge: i64 = (w as i64) - (r as i64);
                assert(edge == right_edge(*config, p));
                if edge < (i32::MIN as i64) || edge > (i32::MAX as i64) {
                    return false;
                }
                if edge > 0 {
                    let room: usize = edge as usize;
                    let step: usize = if config.player_speed <= room {
                        config.player_speed
                    } else {
                        room
                    };
                    p.x <= usize::MAX - step
                } else {
                    true
                }
            },
            _ => true,
        }
    }
}

} // verus!

verus! {

/// What a key does to the player, in terms of the player and the settings:
/// Left moves it left by the player speed, or to column 0 if that is nearer;
/// Right moves it right by at most the player speed, and, on a screen that
/// `i32` holds with the player inside it, by the player speed or the room to
/// the right edge, whichever is smaller; other keys leave it where it is.
/// No key changes its row or its size.
pub proof fn lemma_key_moves(g: Game, key: Key, c: Config)
    requires
        key_fits(g, key, c),
    ensures
        ({
            let p = g.player;
            let q = moved_player(p, key, c);
            &&& q.y == p.y
            &&& q.hitbox == p.hitbox
            &&& key == Key::Left ==> p.x - q.x == (if c.player_speed <= p.x {
                c.player_speed as int
            } else {
                p.x as int
            })
            &&& key == Key::Right ==> p.x <= q.x <= p.x + c.player_speed
            &&& (key == Key::Right && c.screen_width <= i32::MAX && p.x + p.hitbox.width
                <= c.screen_width) ==> q.x - p.x == (if c.player_speed <= c.screen_width - (p.x
                + p.hitbox.width) {
                c.player_speed as int
            } else {
                c.screen_width - (p.x + p.hitbox.width)
            })
            &&& key != Key::Left && key != Key::Right ==> q == p
        }),
{
    let p = g.player;
    let reach = p.x + p.hitbox.width;
    if key == Key::Right && c.screen_width <= i32::MAX && reach <= c.screen_width {
        assert((c.screen_width as i32) as int == c.screen_width);
        assert((reach as i32) as int == reach);
    }
}

} // verus!
