use space_invaders::config::{load_config, load_config_text, parse_usize, Config, ConfigError, IniSection};
use space_invaders::text::split_lines;

fn section(name: Option<&str>, entries: &[(&str, &str)]) -> IniSection {
    IniSection {
        name: name.map(|n| n.to_string()),
        entries: entries.iter().map(|(k, v)| (k.to_string(), v.to_string())).collect(),
    }
}

#[test]
fn parse_plain_and_signed_numbers() {
    assert_eq!(parse_usize("42"), Some(42));
    assert_eq!(parse_usize("+7"), Some(7));
    assert_eq!(parse_usize("007"), Some(7));
    assert_eq!(parse_usize("0"), Some(0));
}

#[test]
fn parse_refuses_what_is_not_a_number() {
    assert_eq!(parse_usize(""), None);
    assert_eq!(parse_usize("+"), None);
    assert_eq!(parse_usize("-1"), None);
    assert_eq!(parse_usize("1a"), None);
    assert_eq!(parse_usize(" 1"), None);
    assert_eq!(parse_usize("++1"), None);
    assert_eq!(parse_usize("1.5"), None);
}

#[test]
fn parse_refuses_overflow() {
    let max = usize::MAX.to_string();
    assert_eq!(parse_usize(&max), Some(usize::MAX));
    let over = format!("{}0", max);
    assert_eq!(parse_usize(&over), None);
    assert_eq!(parse_usize("99999999999999999999999999"), None);
}

#[test]
fn empty_file_gives_defaults() {
    let loaded = load_config(&Vec::new()).unwrap();
    assert_eq!(loaded.config, Config::default());
    assert_eq!(loaded.config.screen_width, 79);
    assert_eq!(loaded.config.screen_height, 24);
    assert_eq!(loaded.config.framerate, 10);
    assert_eq!(loaded.config.missile_speed, 1);
    assert_eq!(loaded.config.player_speed, 2);
    assert_eq!(loaded.config.player_lives, 3);
    assert_eq!(loaded.config.alien_speed, 1);
    assert_eq!(loaded.config.alien_rows, 5);
    assert_eq!(loaded.config.alien_counts, 11);
    assert_eq!(loaded.alien_missile_frequency, None);
}

#[test]
fn every_setting_is_read_from_its_section() {
    let file = vec![
        section(
            Some("Game"),
            &[("screen_width", "100"), ("screen_height", "40"), ("framerate", "30"), ("missile_speed", "2")],
        ),
        section(Some("Player"), &[("speed", "3"), ("lives", "5")]),
        section(
            Some("Alien"),
            &[("speed", "4"), ("rows", "6"), ("counts", "12"), ("missile_frequency", "0.5")],
        ),
    ];
    let loaded = load_config(&file).unwrap();
    let c = loaded.config;
    assert_eq!(
        c,
        Config {
            screen_width: 100,
            screen_height: 40,
            framerate: 30,
            missile_speed: 2,
            player_speed: 3,
            player_lives: 5,
            alien_speed: 4,
            alien_rows: 6,
            alien_counts: 12,
        }
    );
    assert_eq!(loaded.alien_missile_frequency, Some("0.5".to_string()));
}

#[test]
fn unknown_sections_and_keys_are_ignored() {
    let file = vec![
        section(Some("Sound"), &[("screen_width", "abc")]),
        section(Some("Game"), &[("colour", "red"), ("speed", "9")]),
        section(Some("Player"), &[("screen_width", "3")]),
    ];
    let loaded = load_config(&file).unwrap();
    assert_eq!(loaded.config, Config::default());
}

#[test]
fn the_last_value_wins() {
    let file = vec![
        section(Some("Game"), &[("framerate", "20"), ("framerate", "25")]),
        section(Some("Game"), &[("framerate", "15")]),
        section(Some("Alien"), &[("missile_frequency", "0.1"), ("missile_frequency", "0.2")]),
    ];
    let loaded = load_config(&file).unwrap();
    assert_eq!(loaded.config.framerate, 15);
    assert_eq!(loaded.alien_missile_frequency, Some("0.2".to_string()));
}

#[test]
fn a_bad_number_is_refused() {
    let file = vec![section(Some("Player"), &[("lives", "three")])];
    assert_eq!(load_config(&file).err(), Some(ConfigError::InvalidNumber));
    let file = vec![section(Some("Alien"), &[("rows", "-2")])];
    assert_eq!(load_config(&file).err(), Some(ConfigError::InvalidNumber));
}

#[test]
fn entries_outside_a_section_are_refused() {
    let file = vec![section(None, &[("framerate", "20")]), section(Some("Game"), &[("framerate", "x")])];
    assert_eq!(load_config(&file).err(), Some(ConfigError::UnnamedSection));
}

#[test]
fn an_empty_unnamed_section_is_skipped() {
    let file = vec![section(None, &[]), section(Some("Game"), &[("framerate", "20")])];
    assert_eq!(load_config(&file).unwrap().config.framerate, 20);
}

#[test]
fn the_first_error_is_reported() {
    let file = vec![section(Some("Game"), &[("framerate", "x")]), section(None, &[("a", "b")])];
    assert_eq!(load_config(&file).err(), Some(ConfigError::InvalidNumber));
}

fn lines(text: &str) -> Vec<String> {
    split_lines(text).into_iter().map(|l| l.into_iter().collect()).collect()
}

#[test]
fn lines_split_at_newlines() {
    assert_eq!(lines("\nab\ncd\n"), vec!["", "ab", "cd"]);
    assert_eq!(lines("ab"), vec!["ab"]);
    assert_eq!(lines(""), Vec::<String>::new());
    assert_eq!(lines("\n"), vec![""]);
    assert_eq!(lines("a\n\nb"), vec!["a", "", "b"]);
}

#[test]
fn lines_drop_the_carriage_return_before_a_newline_only() {
    assert_eq!(lines("a\r\nb\r\n"), vec!["a", "b"]);
    assert_eq!(lines("a\r"), vec!["a\r"]);
    assert_eq!(lines("a\rb\n"), vec!["a\rb"]);
}

#[test]
fn lines_agree_with_std() {
    for text in ["x\ny\n", "\r\n\r\n", "██╗\n╚═╝", "a\r\r\nb", " \n \n "] {
        let expected: Vec<String> = text.lines().map(|l| l.to_string()).collect();
        assert_eq!(lines(text), expected);
    }
}

#[test]
fn lines_rejoin_to_the_text() {
    let text = "first\n\nthird line\n";
    let rejoined: String = lines(text).iter().map(|l| format!("{}\n", l)).collect();
    assert_eq!(rejoined, text);
}

#[test]
fn a_config_text_is_read_through_the_ini_parser() {
    let text = "[Game]\nscreen_width = 100\nframerate=30\n\n[Player]\nlives = 7\n[Sound]\nvolume = 11\n[Alien]\nmissile_frequency = 0.25\n";
    let loaded = load_config_text(text).unwrap();
    assert_eq!(loaded.config.screen_width, 100);
    assert_eq!(loaded.config.framerate, 30);
    assert_eq!(loaded.config.player_lives, 7);
    assert_eq!(loaded.config.alien_rows, 5);
    assert_eq!(loaded.alien_missile_frequency, Some("0.25".to_string()));
}

#[test]
fn an_empty_config_text_gives_defaults() {
    let loaded = load_config_text("").unwrap();
    assert_eq!(loaded.config, Config::default());
    assert_eq!(loaded.alien_missile_frequency, None);
}

#[test]
fn a_config_text_that_is_not_ini_is_refused() {
    assert_eq!(load_config_text("[Game\nframerate = 3\n").err(), Some(ConfigError::Syntax));
    assert_eq!(load_config_text("=5\n").err(), Some(ConfigError::Syntax));
}

#[test]
fn a_config_text_with_entries_before_any_section_is_refused() {
    assert_eq!(load_config_text("framerate = 3\n[Game]\n").err(), Some(ConfigError::UnnamedSection));
}

#[test]
fn a_config_text_with_a_bad_number_is_refused() {
    assert_eq!(load_config_text("[Alien]\nrows = many\n").err(), Some(ConfigError::InvalidNumber));
}
