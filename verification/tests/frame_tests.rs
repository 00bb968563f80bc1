use space_invaders::banner::SPRITE;
use space_invaders::config::Config;
use space_invaders::frame::{Color, Framebuffer, Pixel};
use space_invaders::game::{Game, Hitbox, Missile, MissileDirection};
use space_invaders::render::Command;
use std::collections::HashMap;

fn ink(glyph: char, fg: Color) -> Pixel {
    Pixel { glyph, bg: Color::AnsiValue(7), fg, attrs: 0 }
}

#[test]
fn a_new_framebuffer_is_blank() {
    let c = Config::default();
    let f = Framebuffer::new(&c);
    assert_eq!(f.buf.len(), 79 * 24);
    assert!(f.buf.iter().all(|p| *p == Pixel::default()));
    assert_eq!(Pixel::default(), Pixel { glyph: ' ', bg: Color::AnsiValue(7), fg: Color::Black, attrs: 0 });
}

#[test]
fn putpixel_writes_row_major() {
    let c = Config::default();
    let mut f = Framebuffer::new(&c);
    f.putpixel(3, 2, ink('x', Color::Red), &c);
    assert_eq!(f.buf[2 * 79 + 3], ink('x', Color::Red));
    assert_eq!(f.buf.iter().filter(|p| **p != Pixel::default()).count(), 1);
}

#[test]
fn a_new_game_is_drawn() {
    let c = Config::default();
    let g = Game::new(&c);
    let f = Framebuffer::from_game(&g, &c);
    let at = |x: usize, y: usize| f.buf[y * 79 + x];
    assert_eq!(at(38, 21), ink('▟', Color::DarkGreen));
    assert_eq!(at(39, 21), ink('▄', Color::DarkGreen));
    assert_eq!(at(40, 21), ink('▙', Color::DarkGreen));
    for x in 37..42 {
        assert_eq!(at(x, 22), ink('▀', Color::DarkGreen));
    }
    assert_eq!(at(37, 21), Pixel::default());
    assert_eq!(at(24, 1), ink('▛', Color::Red));
    assert_eq!(at(25, 1), ink('▜', Color::Red));
    assert_eq!(at(24, 3), ink('▛', Color::Magenta));
    assert_eq!(at(24, 5), ink('▛', Color::Blue));
    assert_eq!(at(24, 7), ink('▛', Color::Cyan));
    assert_eq!(at(24, 9), ink('▛', Color::Yellow));
    assert_eq!(at(26, 9), Pixel::default());
    assert_eq!(at(0, 0), Pixel::default());
    let drawn = f.buf.iter().filter(|p| **p != Pixel::default()).count();
    assert_eq!(drawn, 55 * 2 + 5 + 3);
}

#[test]
fn missiles_are_drawn_by_direction() {
    let c = Config::default();
    let mut g = Game::new(&c);
    g.missiles.push(Missile { x: 5, y: 12, hitbox: Hitbox { width: 1, height: 1 }, direction: MissileDirection::Up });
    g.missiles.push(Missile { x: 6, y: 13, hitbox: Hitbox { width: 1, height: 1 }, direction: MissileDirection::Down });
    let f = Framebuffer::from_game(&g, &c);
    assert_eq!(f.buf[12 * 79 + 5], ink('┃', Color::AnsiValue(2)));
    assert_eq!(f.buf[13 * 79 + 6], ink('┃', Color::AnsiValue(13)));
}

#[test]
fn the_title_screen_is_centred() {
    let c = Config::default();
    assert!(Framebuffer::sprite_fits(&c));
    let f = Framebuffer::sprite(&c);
    assert_eq!(f.buf.len(), 79 * 24);
    let top = (24 - 22) / 2;
    let left = (79 - 69) / 2;
    for (r, line) in SPRITE.lines().enumerate() {
        for (k, ch) in line.chars().enumerate() {
            let p = f.buf[(top + r) * 79 + left + k];
            assert_eq!(p, Pixel { glyph: ch, ..Pixel::default() });
        }
        for k in 0..left {
            assert_eq!(f.buf[(top + r) * 79 + k], Pixel::default());
        }
    }
    assert!(f.buf[..top * 79].iter().all(|p| *p == Pixel::default()));
}

#[test]
fn the_title_screen_needs_room() {
    assert!(!Framebuffer::sprite_fits(&Config { screen_width: 68, ..Config::default() }));
    assert!(!Framebuffer::sprite_fits(&Config { screen_height: 21, ..Config::default() }));
    assert!(Framebuffer::sprite_fits(&Config { screen_width: 69, screen_height: 22, ..Config::default() }));
    assert!(!Framebuffer::sprite_fits(&Config { screen_width: usize::MAX, screen_height: 22, ..Config::default() }));
}

#[test]
fn a_narrow_title_screen_keeps_its_size() {
    let c = Config { screen_width: 70, screen_height: 22, ..Config::default() };
    assert!(Framebuffer::sprite_fits(&c));
    let f = Framebuffer::sprite(&c);
    assert_eq!(f.buf.len(), 70 * 22);
}

#[test]
fn rows_are_slices_of_the_buffer() {
    let c = Config::default();
    let g = Game::new(&c);
    let f = Framebuffer::from_game(&g, &c);
    let row = f.row(21, &c);
    assert_eq!(row.len(), 79);
    assert_eq!(row[38], ink('▟', Color::DarkGreen));
}

#[test]
fn a_plain_row_renders_without_colour_changes() {
    let c = Config { screen_width: 3, screen_height: 2, ..Config::default() };
    let f = Framebuffer::new(&c);
    let cmds = f.render(&c);
    assert_eq!(
        cmds,
        vec![
            Command::Clear,
            Command::MoveTo { col: 0, row: 0 },
            Command::MoveTo { col: 0, row: 0 },
            Command::SetForeground(Color::Black),
            Command::SetBackground(Color::AnsiValue(7)),
            Command::SetAttributes(0),
            Command::Print(' '),
            Command::Print(' '),
            Command::Print(' '),
            Command::ResetColor,
            Command::ResetAttributes,
        ]
    );
}

#[test]
fn colours_are_sent_only_when_they_change() {
    let c = Config { screen_width: 4, screen_height: 2, ..Config::default() };
    let mut f = Framebuffer::new(&c);
    f.putpixel(1, 0, ink('a', Color::Red), &c);
    f.putpixel(2, 0, ink('b', Color::Red), &c);
    let cmds = f.render(&c);
    assert_eq!(
        cmds[6..],
        [
            Command::Print(' '),
            Command::SetForeground(Color::Red),
            Command::Print('a'),
            Command::Print('b'),
            Command::SetForeground(Color::Black),
            Command::Print(' '),
            Command::ResetColor,
            Command::ResetAttributes,
        ]
    );
}

/// Plays commands on a model terminal and returns what each cell shows.
fn play(cmds: &[Command]) -> HashMap<(usize, usize), Pixel> {
    let mut screen = HashMap::new();
    let (mut col, mut row) = (0usize, 0usize);
    let (mut fg, mut bg, mut attrs) = (Color::Reset, Color::Reset, 0u32);
    for c in cmds {
        match *c {
            Command::Clear => screen.clear(),
            Command::MoveTo { col: x, row: y } => {
                col = x as usize;
                row = y as usize;
            }
            Command::SetForeground(c) => fg = c,
            Command::SetBackground(c) => bg = c,
            Command::SetAttributes(a) => attrs |= a,
            Command::Print(g) => {
                screen.insert((col, row), Pixel { glyph: g, fg, bg, attrs });
                col += 1;
            }
            Command::ResetColor => {
                fg = Color::Reset;
                bg = Color::Reset;
            }
            Command::ResetAttributes => attrs = 0,
        }
    }
    screen
}

#[test]
fn a_rendered_frame_shows_every_pixel_but_the_last_row() {
    let c = Config::default();
    let mut g = Game::new(&c);
    g.player.y = 10;
    let f = Framebuffer::from_game(&g, &c);
    let screen = play(&f.render(&c));
    assert_eq!(screen.len(), 79 * 23);
    for y in 0..23 {
        for x in 0..79 {
            assert_eq!(screen[&(x, y)], f.buf[y * 79 + x]);
        }
    }
}

#[test]
fn drawing_is_checked_against_the_screen() {
    let c = Config::default();
    let mut g = Game::new(&c);
    assert!(Framebuffer::can_draw(&g, &c));
    g.player.y = 23;
    assert!(!Framebuffer::can_draw(&g, &c));
    g.player.y = 21;
    g.missiles.push(Missile { x: 0, y: 24, hitbox: Hitbox { width: 1, height: 1 }, direction: MissileDirection::Up });
    assert!(!Framebuffer::can_draw(&g, &c));
}

#[test]
fn a_frame_shows_only_the_objects() {
    let c = Config::default();
    let g1 = Game::new(&c);
    let mut g2 = Game::new(&c);
    g2.score = 1234;
    g2.alien_level = 3;
    g2.lives_left = 1;
    assert_eq!(Framebuffer::from_game(&g1, &c).buf, Framebuffer::from_game(&g2, &c).buf);
}
