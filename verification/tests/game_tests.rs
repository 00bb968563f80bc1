use space_invaders::config::Config;
use space_invaders::game::{
    frame_delay, Alien, AlienDirection, Game, Hitbox, Hittable, Missile, MissileDirection, Outcome, Player,
};
use space_invaders::input::{latest_key, title_key, InputEvent, Key, KeyAction, TitleAction};

fn alien(x: usize, y: usize, value: i32) -> Alien {
    Alien { x, y, hitbox: Hitbox { width: 2, height: 1 }, value }
}

fn missile(x: usize, y: usize, direction: MissileDirection) -> Missile {
    Missile { x, y, hitbox: Hitbox { width: 1, height: 1 }, direction }
}

fn game(aliens: Vec<Alien>, missiles: Vec<Missile>) -> Game {
    Game {
        aliens,
        alien_direction: AlienDirection::Left,
        alien_level: 1,
        missiles,
        player: Player { x: 37, y: 21, hitbox: Hitbox { width: 5, height: 2 } },
        lives_left: 3,
        score: 0,
    }
}

#[test]
fn new_game_lays_out_the_formation() {
    let c = Config::default();
    let g = Game::new(&c);
    assert_eq!(g.aliens.len(), 55);
    assert_eq!(g.aliens[0], alien(24, 1, 500));
    assert_eq!(g.aliens[1], alien(27, 1, 500));
    assert_eq!(g.aliens[10], alien(54, 1, 500));
    assert_eq!(g.aliens[11], alien(24, 3, 400));
    assert_eq!(g.aliens[54], alien(54, 9, 100));
    assert_eq!(g.player, Player { x: 37, y: 21, hitbox: Hitbox { width: 5, height: 2 } });
    assert_eq!(g.alien_direction, AlienDirection::Left);
    assert_eq!(g.alien_level, 0);
    assert_eq!(g.lives_left, 3);
    assert_eq!(g.score, 0);
    assert!(g.missiles.is_empty());
}

#[test]
fn hitboxes_include_both_ends() {
    let a = alien(10, 5, 100);
    assert!(a.hit(10, 5));
    assert!(a.hit(12, 6));
    assert!(!a.hit(13, 6));
    assert!(!a.hit(9, 5));
    assert!(!a.hit(10, 7));
    let p = Player { x: 37, y: 21, hitbox: Hitbox { width: 5, height: 2 } };
    assert!(p.hit(42, 23));
    assert!(!p.hit(43, 23));
}

#[test]
fn opposite_missiles_destroy_each_other() {
    let mut g = game(vec![], vec![missile(10, 10, MissileDirection::Up), missile(10, 11, MissileDirection::Down)]);
    g.update_missiles(&Config::default());
    assert!(g.missiles.is_empty());
}

#[test]
fn missile_after_a_collision_moves_unchecked() {
    let mut g = game(
        vec![],
        vec![
            missile(5, 10, MissileDirection::Up),
            missile(5, 11, MissileDirection::Down),
            missile(20, 10, MissileDirection::Up),
        ],
    );
    g.update_missiles(&Config::default());
    assert_eq!(g.missiles, vec![missile(20, 9, MissileDirection::Up)]);
}

#[test]
fn a_rising_missile_shoots_an_alien() {
    let mut g = game(vec![alien(30, 2, 100), alien(10, 5, 300)], vec![missile(11, 7, MissileDirection::Up)]);
    g.alien_level = 2;
    g.update_missiles(&Config::default());
    assert_eq!(g.aliens, vec![alien(30, 2, 100)]);
    assert!(g.missiles.is_empty());
    assert_eq!(g.score, 600);
}

#[test]
fn the_missile_after_a_hit_waits_a_frame() {
    let mut g = game(
        vec![alien(10, 5, 300)],
        vec![missile(11, 7, MissileDirection::Up), missile(50, 10, MissileDirection::Up)],
    );
    g.update_missiles(&Config::default());
    assert_eq!(g.missiles, vec![missile(50, 10, MissileDirection::Up)]);
    assert_eq!(g.score, 300);
}

#[test]
fn missiles_leave_the_screen() {
    let mut g = game(
        vec![],
        vec![
            missile(3, 1, MissileDirection::Up),
            missile(4, 23, MissileDirection::Down),
            missile(5, 5, MissileDirection::Down),
        ],
    );
    g.update_missiles(&Config::default());
    assert_eq!(g.missiles, vec![missile(5, 6, MissileDirection::Down)]);
}

#[test]
fn a_falling_missile_costs_a_life_and_clears_the_sky() {
    let mut g = game(
        vec![alien(10, 5, 300)],
        vec![
            missile(60, 10, MissileDirection::Up),
            missile(38, 20, MissileDirection::Down),
            missile(70, 3, MissileDirection::Down),
        ],
    );
    g.update_missiles(&Config::default());
    assert_eq!(g.lives_left, 2);
    assert!(g.missiles.is_empty());
    assert_eq!(g.aliens.len(), 1);
}

#[test]
fn score_is_the_value_of_the_shot_aliens_times_the_level() {
    let aliens = vec![alien(10, 5, 300), alien(20, 5, 200), alien(40, 5, 100)];
    let mut g = game(
        aliens.clone(),
        vec![missile(11, 7, MissileDirection::Up), missile(0, 20, MissileDirection::Up), missile(41, 6, MissileDirection::Up)],
    );
    g.alien_level = 3;
    g.score = 10;
    g.update_missiles(&Config::default());
    let before: i32 = aliens.iter().map(|a| a.value).sum();
    let after: i32 = g.aliens.iter().map(|a| a.value).sum();
    assert_eq!(g.score, 10 + 3 * (before - after));
    assert_eq!(g.score, 10 + 3 * 400);
}

#[test]
fn aliens_step_left_and_stop_at_the_edge() {
    let mut g = game(vec![alien(0, 1, 100), alien(5, 1, 100)], vec![]);
    let c = Config { alien_speed: 2, ..Config::default() };
    g.move_aliens(&c);
    assert_eq!(g.aliens[0].x, 0);
    assert_eq!(g.aliens[1].x, 3);
}

#[test]
fn aliens_step_right_within_the_room() {
    let mut g = game(vec![alien(5, 1, 100)], vec![]);
    g.alien_direction = AlienDirection::Right;
    g.move_aliens(&Config::default());
    assert_eq!(g.aliens[0].x, 6);
    let wide = Config { alien_speed: 100, ..Config::default() };
    g.move_aliens(&wide);
    assert_eq!(g.aliens[0].x, 6);
}

#[test]
fn aliens_turn_and_descend_at_an_edge() {
    let mut g = game(vec![alien(4, 1, 100), alien(78, 3, 100)], vec![]);
    g.turn_at_edge(&Config::default());
    assert_eq!(g.alien_level, 2);
    assert_eq!(g.alien_direction, AlienDirection::Right);
    assert_eq!(g.aliens, vec![alien(4, 2, 100), alien(78, 4, 100)]);
    g.aliens[1].x = 40;
    g.turn_at_edge(&Config::default());
    assert_eq!(g.alien_level, 2);
    assert_eq!(g.alien_direction, AlienDirection::Right);
    g.aliens[0].x = 0;
    g.turn_at_edge(&Config::default());
    assert_eq!(g.alien_level, 3);
    assert_eq!(g.alien_direction, AlienDirection::Left);
}

#[test]
fn aliens_drop_missiles_below_themselves() {
    let mut g = game(vec![alien(3, 4, 100), alien(7, 8, 100)], vec![missile(1, 1, MissileDirection::Up)]);
    g.drop_missiles(&vec![false, true]);
    assert_eq!(g.missiles, vec![missile(1, 1, MissileDirection::Up), missile(7, 9, MissileDirection::Down)]);
}

#[test]
fn keys_move_fire_and_quit() {
    let c = Config::default();
    let mut g = game(vec![], vec![]);
    assert_eq!(g.handle_key(Key::Char { c: 'c', ctrl: true }, &c), KeyAction::Quit);
    assert!(g.missiles.is_empty());
    assert_eq!(g.handle_key(Key::Char { c: 'c', ctrl: false }, &c), KeyAction::Continue);
    assert_eq!(g.handle_key(Key::Char { c: ' ', ctrl: false }, &c), KeyAction::Continue);
    assert_eq!(g.missiles, vec![missile(39, 20, MissileDirection::Up)]);
    g.player.x = 1;
    g.handle_key(Key::Left, &c);
    assert_eq!(g.player.x, 0);
    g.player.x = 73;
    g.handle_key(Key::Right, &c);
    assert_eq!(g.player.x, 74);
    g.handle_key(Key::Right, &c);
    assert_eq!(g.player.x, 74);
    g.handle_key(Key::Enter, &c);
    assert_eq!(g.player.x, 74);
}

#[test]
fn title_screen_keys() {
    assert_eq!(title_key(Key::Char { c: 'c', ctrl: true }), TitleAction::Quit);
    assert_eq!(title_key(Key::Enter), TitleAction::Start);
    assert_eq!(title_key(Key::Char { c: 'x', ctrl: true }), TitleAction::Wait);
    assert_eq!(title_key(Key::Left), TitleAction::Wait);
}

#[test]
fn the_last_event_decides_the_key() {
    assert_eq!(latest_key(&vec![]), None);
    assert_eq!(latest_key(&vec![InputEvent::Key(Key::Left), InputEvent::Key(Key::Right)]), Some(Key::Right));
    assert_eq!(latest_key(&vec![InputEvent::Key(Key::Left), InputEvent::Other]), None);
    assert_eq!(latest_key(&vec![InputEvent::Other, InputEvent::Key(Key::Enter)]), Some(Key::Enter));
}

#[test]
fn outcomes() {
    let c = Config::default();
    let mut g = game(vec![alien(1, 1, 100)], vec![]);
    assert_eq!(g.outcome(&c), Outcome::Running);
    g.alien_level = 14;
    assert_eq!(g.outcome(&c), Outcome::Running);
    g.alien_level = 15;
    assert_eq!(g.outcome(&c), Outcome::Died);
    g.alien_level = 0;
    g.lives_left = -1;
    assert_eq!(g.outcome(&c), Outcome::Died);
    g.aliens.clear();
    assert_eq!(g.outcome(&c), Outcome::Died);
    g.lives_left = 0;
    assert_eq!(g.outcome(&c), Outcome::Won);
}

#[test]
fn frame_delays() {
    assert_eq!(frame_delay(&Config::default()), 100_000_000);
    assert_eq!(frame_delay(&Config { framerate: 3, ..Config::default() }), 333_333_333);
}

#[test]
fn the_missile_pass_is_checked_for_overflow() {
    let mut g = game(vec![alien(10, 5, 300)], vec![missile(11, 7, MissileDirection::Up)]);
    g.score = i32::MAX - 10;
    assert!(!g.missiles_fit(&Config::default()));
    g.score = i32::MAX - 300;
    assert!(g.missiles_fit(&Config::default()));
    g.update_missiles(&Config::default());
    assert_eq!(g.score, i32::MAX);
    let mut g = game(vec![], vec![missile(38, 20, MissileDirection::Down)]);
    g.lives_left = i32::MIN;
    assert!(!g.missiles_fit(&Config::default()));
    let mut g = game(vec![], vec![missile(3, 5, MissileDirection::Down)]);
    g.lives_left = i32::MIN;
    assert!(g.missiles_fit(&Config::default()));
    g.update_missiles(&Config::default());
    assert_eq!(g.lives_left, i32::MIN);
    assert_eq!(g.missiles, vec![missile(3, 6, MissileDirection::Down)]);
}

#[test]
fn alien_steps_and_turns_are_checked_for_overflow() {
    let c = Config::default();
    let mut g = game(vec![alien(usize::MAX, 1, 100)], vec![]);
    assert!(g.can_move_aliens(&c));
    g.alien_direction = AlienDirection::Right;
    assert!(!g.can_move_aliens(&c));
    g.aliens[0].x = 5;
    assert!(g.can_move_aliens(&c));
    g.aliens[0].x = 0;
    assert!(g.can_turn(&c));
    g.alien_level = i32::MAX;
    assert!(!g.can_turn(&c));
    g.aliens[0].x = 5;
    assert!(g.can_turn(&c));
    let narrow = Config { screen_width: 0, ..c };
    assert!(!g.can_turn(&narrow));
}

#[test]
fn keys_are_checked_for_overflow() {
    let c = Config::default();
    let mut g = game(vec![], vec![]);
    assert!(g.can_handle_key(Key::Char { c: ' ', ctrl: false }, &c));
    g.player.y = 0;
    assert!(!g.can_handle_key(Key::Char { c: ' ', ctrl: false }, &c));
    assert!(g.can_handle_key(Key::Left, &c));
    g.player.x = usize::MAX;
    assert!(!g.can_handle_key(Key::Right, &c));
}
