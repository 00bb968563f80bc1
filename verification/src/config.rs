use vstd::prelude::*;

verus! {

/// The tunable parameters of a game, in character cells and frames.
#[derive(Clone, Copy, Debug, PartialEq, Eq, Structural)]
pub struct Config {
    pub screen_width: usize,
    pub screen_height: usize,
    pub framerate: usize,
    pub missile_speed: usize,
    pub player_speed: usize,
    pub player_lives: usize,
    pub alien_speed: usize,
    pub alien_rows: usize,
    pub alien_counts: usize,
}

/// The settings a game starts from when the configuration file sets nothing.
pub open spec fn default_config() -> Config {
    Config {
        screen_width: 79,
        screen_height: 24,
        framerate: 10,
        missile_speed: 1,
        player_speed: 2,
        player_lives: 3,
        alien_speed: 1,
        alien_rows: 5,
        alien_counts: 11,
    }
}

impl Default for Config {
    fn default() -> (c: Config)
        ensures
            c == default_config(),
    {
        Config {
            screen_width: 79,
            screen_height: 24,
            framerate: 10,
            missile_speed: 1,
            player_speed: 2,
            player_lives: 3,
            alien_speed: 1,
            alien_rows: 5,
            alien_counts: 11,
        }
    }
}

// ---------------------------------------------------------------------------
// Decimal numbers
pub open spec fn is_digit(c: char) -> bool {
    '0' <= c <= '9'
}

pub open spec fn all_digits(s: Seq<char>) -> bool {
    forall|i: int| 0 <= i < s.len() ==> is_digit(#[trigger] s[i])
}

/// The number that a string of decimal digits spells.
pub open spec fn digits_value(s: Seq<char>) -> int
    decreases s.len(),
{
    if s.len() == 0 {
        0
    } else {
        digits_value(s.drop_last()) * 10 + (s.last() as int - '0' as int)
    }
}

/// The digits of a number written with an optional leading `+`.
pub open spec fn unsigned_digits(s: Seq<char>) -> Seq<char> {
    if s.len() > 0 && s[0] == '+' {
        s.skip(1)
    } else {
        s
    }
}

/// The `usize` that a text spells: an optional `+`, then one or more decimal
/// digits, and a value no larger than `usize::MAX`; nothing else.
pub open spec fn usize_of(s: Seq<char>) -> Option<usize> {
    let d = unsigned_digits(s);
    if d.len() > 0 && all_digits(d) && digits_value(d) <= usize::MAX {
        Some(digits_value(d) as usize)
    } else {
        None
    }
}

proof fn lemma_digits_grow(s: Seq<char>, k: int)
    requires
        all_digits(s),
        0 <= k <= s.len(),
    ensures
        0 <= digits_value(s.take(k)) <= digits_value(s),
    decreases s.len(),
{
    if k < s.len() {
        assert(all_digits(s.drop_last()));
        lemma_digits_grow(s.drop_last(), k);
        assert(s.drop_last().take(k) =~= s.take(k));
        lemma_digits_grow(s.drop_last(), s.len() - 1);
        assert(s.drop_last().take(s.len() - 1) =~= s.drop_last());
    } else {
        assert(s.take(k) =~= s);
        if s.len() > 0 {
            assert(all_digits(s.drop_last()));
            lemma_digits_grow(s.drop_last(), s.len() - 1);
            assert(s.drop_last().take(s.len() - 1) =~= s.drop_last());
        }
    }
}

/// Reads a `usize` written in decimal, as `usize_of` says.
pub fn parse_usize(text: &str) -> (r: Option<usize>)
    ensures
        r == usize_of(text@),
{
    let ghost s = text@;
    let ghost plus = s.len() > 0 && s[0] == '+';
    let ghost start: int = if plus {
        1
    } else {
        0
    };
    let mut acc: usize = 0;
    let mut any: bool = false;
    let mut first: bool = true;
    for c in it: text.chars()
        invariant
            first == (it.index() == 0),
            it.seq() == s,
            s == text@,
            plus == (s.len() > 0 && s[0] == '+'),
            start == (if plus {
                1int
            } else {
                0int
            }),
            it.index() >= start ==> {
                &&& all_digits(s.subrange(start, it.index() as int))
                &&& acc == digits_value(s.subrange(start, it.index() as int))
                &&& any == (it.index() > start)
            },
            it.index() < start ==> acc == 0 && !any,
    {
        let ghost idx = it.index() as int;
        assert(s[idx] == c);
        if first && c == '+' {
            assert(s.subrange(start, idx + 1) =~= Seq::<char>::empty());
        } else {
            let ghost seen = s.subrange(start, idx);
            assert(s.subrange(start, idx + 1) =~= seen.push(c));
            assert(s.subrange(start, idx + 1).drop_last() =~= seen);
            if c < '0' || c > '9' {
                proof {
                    let d = unsigned_digits(s);
                    assert(d =~= s.subrange(start, s.len() as int));
                    assert(d[idx - start] == c);
                }
                return None;
            }
            let digit: usize = ((c as u32) - ('0' as u32)) as usize;
            let next = match acc.checked_mul(10) {
                Some(t) => t.checked_add(digit),
                None => None,
            };
            match next {
                Some(v) => {
                    acc = v;
                    any = true;
                },
                None => {
                    proof {
                        let d = unsigned_digits(s);
                        assert(d =~= s.subrange(start, s.len() as int));
                        if all_digits(d) {
                            lemma_digits_grow(d, idx + 1 - start);
                            assert(d.take(idx + 1 - start) =~= s.subrange(start, idx + 1));
                        }
                    }
                    return None;
                },
            }
        }
        first = false;
    }
    proof {
        let d = unsigned_digits(s);
        assert(d =~= s.subrange(start, s.len() as int));
    }
    if !any {
        None
    } else {
        Some(acc)
    }
}

// ---------------------------------------------------------------------------
// The configuration file

/// A section of the configuration file as read: its name (none for the
/// entries before the first section header) and its `key = value` entries in
/// file order.
pub struct IniSection {
    pub name: Option<String>,
    pub entries: Vec<(String, String)>,
}

/// Why a configuration file is refused.
#[derive(Clone, Copy, Debug, PartialEq, Eq, Structural)]
pub enum ConfigError {
    /// Entries stand before the first section header.
    UnnamedSection,
    /// A numeric setting does not hold a `usize`.
    InvalidNumber,
    /// The text is not INI.
    Syntax,
}

/// The settings a configuration file gives: the game's parameters, and the
/// text of the aliens' missile frequency, the last one given, if any.
pub struct LoadedConfig {
    pub config: Config,
    pub alien_missile_frequency: Option<String>,
}

/// What the settings of a file stand for.
pub struct Settings {
    pub config: Config,
    pub frequency: Option<Seq<char>>,
}

/// The setting that a key of a section names.
#[derive(Clone, Copy, Debug, PartialEq, Eq, Structural)]
pub enum Field {
    ScreenWidth,
    ScreenHeight,
    Framerate,
    MissileSpeed,
    PlayerSpeed,
    PlayerLives,
    AlienSpeed,
    AlienRows,
    AlienCounts,
    MissileFrequency,
}

/// Section `Game` holds the screen size, frame rate and missile speed;
/// `Player` the player's speed and lives; `Alien` the aliens' speed, rows,
/// counts per row and missile frequency.  Any other key, or section, is
/// ignored.
pub open spec fn field_of(section: Seq<char>, key: Seq<char>) -> Option<Field> {
    if section == "Game"@ {
        if key == "screen_width"@ {
            Some(Field::ScreenWidth)
        } else if key == "screen_height"@ {
            Some(Field::ScreenHeight)
        } else if key == "framerate"@ {
            Some(Field::Framerate)
        } else if key == "missile_speed"@ {
            Some(Field::MissileSpeed)
        } else {
            None
        }
    } else if section == "Player"@ {
        if key == "speed"@ {
            Some(Field::PlayerSpeed)
        } else if key == "lives"@ {
            Some(Field::PlayerLives)
        } else {
            None
        }
    } else if section == "Alien"@ {
        if key == "speed"@ {
            Some(Field::AlienSpeed)
        } else if key == "rows"@ {
            Some(Field::AlienRows)
        } else if key == "counts"@ {
            Some(Field::AlienCounts)
        } else if key == "missile_frequency"@ {
            Some(Field::MissileFrequency)
        } else {
            None
        }
    } else {
        None
    }
}

/// The configuration with one numeric field replaced.
pub open spec fn with_field(c: Config, f: Field, v: usize) -> Config {
    match f {
        Field::ScreenWidth => Config { screen_width: v, ..c },
        Field::ScreenHeight => Config { screen_height: v, ..c },
        Field::Framerate => Config { framerate: v, ..c },
        Field::MissileSpeed => Config { missile_speed: v, ..c },
        Field::PlayerSpeed => Config { player_speed: v, ..c },
        Field::PlayerLives => Config { player_lives: v, ..c },
        Field::AlienSpeed => Config { alien_speed: v, ..c },
        Field::AlienRows => Config { alien_rows: v, ..c },
        Field::AlienCounts => Config { alien_counts: v, ..c },
        Field::MissileFrequency => c,
    }
}

/// One entry applied: a numeric setting must hold a `usize`; the missile
/// frequency is kept as text; unknown keys change nothing.
pub open spec fn apply_entry(st: Settings, section: Seq<char>, key: Seq<char>, value: Seq<char>) -> Result<
    Settings,
    ConfigError,
> {
    match field_of(section, key) {
        None => Ok(st),
        Some(Field::MissileFrequency) => Ok(Settings { frequency: Some(value), ..st }),
        Some(f) => match usize_of(value) {
            Some(v) => Ok(Settings { config: with_field(st.config, f, v), ..st }),
            None => Err(ConfigError::InvalidNumber),
        },
    }
}

/// A `key = value` entry as text.
pub open spec fn entry_text(e: (String, String)) -> (Seq<char>, Seq<char>) {
    (e.0@, e.1@)
}

/// A section as text: its name, if any, and its entries.
pub open spec fn section_text(sec: IniSection) -> (Option<Seq<char>>, Seq<(Seq<char>, Seq<char>)>) {
    (opt_text(sec.name), sec.entries@.map_values(|e: (String, String)| entry_text(e)))
}

pub open spec fn sections_text(secs: Seq<IniSection>) -> Seq<
    (Option<Seq<char>>, Seq<(Seq<char>, Seq<char>)>),
> {
    secs.map_values(|sec: IniSection| section_text(sec))
}

/// The entries of a section applied in order; the first error stops.
pub open spec fn apply_entries(st: Settings, section: Seq<char>, entries: Seq<(Seq<char>, Seq<char>)>) -> Result<
    Settings,
    ConfigError,
>
    decreases entries.len(),
{
    if entries.len() == 0 {
        Ok(st)
    } else {
        match apply_entries(st, section, entries.drop_last()) {
            Ok(s) => apply_entry(s, section, entries.last().0, entries.last().1),
            Err(e) => Err(e),
        }
    }
}

/// A section applied: entries outside any section are refused.
pub open spec fn apply_section(st: Settings, sec: (Option<Seq<char>>, Seq<(Seq<char>, Seq<char>)>)) -> Result<
    Settings,
    ConfigError,
> {
    match sec.0 {
        None => if sec.1.len() == 0 {
            Ok(st)
        } else {
            Err(ConfigError::UnnamedSection)
        },
        Some(name) => apply_entries(st, name, sec.1),
    }
}

/// The sections applied in order; the first error stops.
pub open spec fn apply_sections(st: Settings, secs: Seq<(Option<Seq<char>>, Seq<(Seq<char>, Seq<char>)>)>) -> Result<
    Settings,
    ConfigError,
>
    decreases secs.len(),
{
    if secs.len() == 0 {
        Ok(st)
    } else {
        match apply_sections(st, secs.drop_last()) {
            Ok(s) => apply_section(s, secs.last()),
            Err(e) => Err(e),
        }
    }
}

pub open spec fn start_settings() -> Settings {
    Settings { config: default_config(), frequency: None }
}

/// What a configuration file's sections set, starting from the defaults.
pub open spec fn file_settings(secs: Seq<(Option<Seq<char>>, Seq<(Seq<char>, Seq<char>)>)>) -> Result<
    Settings,
    ConfigError,
> {
    apply_sections(start_settings(), secs)
}

pub open spec fn opt_text(o: Option<String>) -> Option<Seq<char>> {
    match o {
        Some(s) => Some(s@),
        None => None,
    }
}

pub open spec fn loaded_settings(l: LoadedConfig) -> Settings {
    Settings { config: l.config, frequency: opt_text(l.alien_missile_frequency) }
}

fn same_text(s: &String, lit: &str) -> (r: bool)
    ensures
        r == (s@ == lit@),
{
    let owned: String = lit.to_owned();
    *s == owned
}

fn field_named(section: &String, key: &String) -> (r: Option<Field>)
    ensures
        r == field_of(section@, key@),
{
    if same_text(section, "Game") {
        if same_text(key, "screen_width") {
            Some(Field::ScreenWidth)
        } else if same_text(key, "screen_height") {
            Some(Field::ScreenHeight)
        } else if same_text(key, "framerate") {
            Some(Field::Framerate)
        } else if same_text(key, "missile_speed") {
            Some(Field::MissileSpeed)
        } else {
            None
        }
    } else if same_text(section, "Player") {
        if same_text(key, "speed") {
            Some(Field::PlayerSpeed)
        } else if same_text(key, "lives") {
            Some(Field::PlayerLives)
        } else {
            None
        }
    } else if same_text(section, "Alien") {
        if same_text(key, "speed") {
            Some(Field::AlienSpeed)
        } else if same_text(key, "rows") {
            Some(Field::AlienRows)
        } else if same_text(key, "counts") {
            Some(Field::AlienCounts)
        } else if same_text(key, "missile_frequency") {
            Some(Field::MissileFrequency)
        } else {
            None
        }
    } else {
        None
    }
}

fn set_field(c: &mut Config, f: Field, v: usize)
    ensures
        *final(c) == with_field(*old(c), f, v),
{
    match f {
        Field::ScreenWidth => c.screen_width = v,
        Field::ScreenHeight => c.screen_height = v,
        Field::Framerate => c.framerate = v,
        Field::MissileSpeed => c.missile_speed = v,
        Field::PlayerSpeed => c.player_speed = v,
        Field::PlayerLives => c.player_lives = v,
        Field::AlienSpeed => c.alien_speed = v,
        Field::AlienRows => c.alien_rows = v,
        Field::AlienCounts => c.alien_counts = v,
        Field::MissileFrequency => {},
    }
}

/// Reads the settings of a configuration file's sections, in file order, over
/// the defaults, as `file_settings` says.
pub fn load_config(sections: &Vec<IniSection>) -> (r: Result<LoadedConfig, ConfigError>)
    ensures
        match r {
            Ok(l) => file_settings(sections_text(sections@)) == Ok::<Settings, ConfigError>(
                loaded_settings(l),
            ),
            Err(e) => file_settings(sections_text(sections@)) == Err::<Settings, ConfigError>(e),
        },
{
    let ghost secs = sections_text(sections@);
    let mut conf = Config::default();
    let mut frequency: Option<String> = None;
    for i in 0..sections.len()
        invariant
            secs == sections_text(sections@),
            apply_sections(start_settings(), secs.take(i as int)) == Ok::<Settings, ConfigError>(
                Settings { config: conf, frequency: opt_text(frequency) },
            ),
    {
        let sec = &sections[i];
        assert(secs.take(i + 1).drop_last() =~= secs.take(i as int));
        assert(secs[i as int] == section_text(*sec));
        let ghost ents = section_text(*sec).1;
        match &sec.name {
            None => {
                if sec.entries.len() > 0 {
                    proof {
                        lemma_sections_stop(secs, i as int + 1);
                    }
                    return Err(ConfigError::UnnamedSection);
                }
            },
            Some(name) => {
                let ghost before = Settings { config: conf, frequency: opt_text(frequency) };
                for j in 0..sec.entries.len()
                    invariant
                        i < sections@.len(),
                        secs == sections_text(sections@),
                        *sec == sections@[i as int],
                        sec.name == Some(*name),
                        secs[i as int] == section_text(*sec),
                        ents == section_text(*sec).1,
                        secs.take(i + 1).drop_last() == secs.take(i as int),
                        apply_sections(start_settings(), secs.take(i as int)) == Ok::<
                            Settings,
                            ConfigError,
                        >(before),
                        apply_entries(before, name@, ents.take(j as int)) == Ok::<
                            Settings,
                            ConfigError,
                        >(Settings { config: conf, frequency: opt_text(frequency) }),
                {
                    assert(ents.take(j + 1).drop_last() =~= ents.take(j as int));
                    assert(ents[j as int] == entry_text(sec.entries@[j as int]));
                    let key = &sec.entries[j].0;
                    let value = &sec.entries[j].1;
                    match field_named(name, key) {
                        None => {},
                        Some(Field::MissileFrequency) => {
                            frequency = Some(value.clone());
                        },
                        Some(f) => match parse_usize(value.as_str()) {
                            Some(v) => set_field(&mut conf, f, v),
                            None => {
                                proof {
                                    lemma_entries_stop(before, name@, ents, j as int + 1);
                                    lemma_sections_stop(secs, i as int + 1);
                                }
                                return Err(ConfigError::InvalidNumber);
                            },
                        },
                    }
                }
                assert(ents.take(ents.len() as int) =~= ents);
            },
        }
    }
    assert(secs.take(secs.len() as int) =~= secs);
    Ok(LoadedConfig { config: conf, alien_missile_frequency: frequency })
}

/// Once a prefix of the entries fails, all of them fail the same way.
proof fn lemma_entries_stop(
    st: Settings,
    section: Seq<char>,
    entries: Seq<(Seq<char>, Seq<char>)>,
    k: int,
)
    requires
        0 <= k <= entries.len(),
        apply_entries(st, section, entries.take(k)) is Err,
    ensures
        apply_entries(st, section, entries) == apply_entries(st, section, entries.take(k)),
    decreases entries.len(),
{
    if k < entries.len() {
        assert(entries.drop_last().take(k) =~= entries.take(k));
        lemma_entries_stop(st, section, entries.drop_last(), k);
    } else {
        assert(entries.take(k) =~= entries);
    }
}

/// Once a prefix of the sections fails, all of them fail the same way.
proof fn lemma_sections_stop(secs: Seq<(Option<Seq<char>>, Seq<(Seq<char>, Seq<char>)>)>, k: int)
    requires
        0 <= k <= secs.len(),
        apply_sections(start_settings(), secs.take(k)) is Err,
    ensures
        apply_sections(start_settings(), secs) == apply_sections(start_settings(), secs.take(k)),
    decreases secs.len(),
{
    if k < secs.len() {
        assert(secs.drop_last().take(k) =~= secs.take(k));
        lemma_sections_stop(secs.drop_last(), k);
    } else {
        assert(secs.take(k) =~= secs);
    }
}

} // verus!

verus! {

/// What `ini::Ini::load_from_str` reads from a text, as text: each section's
/// name (none for the general section) and its entries, in the order the
/// crate lists them; none when the crate refuses the text.
pub uninterp spec fn ini_sections(text: Seq<char>) -> Option<
    Seq<(Option<Seq<char>>, Seq<(Seq<char>, Seq<char>)>)>,
>;

/// Calls `ini::Ini::load_from_str` (default parse options) and hands out its
/// sections and their entries as strings, in the crate's order.  The contract
/// claims only that the result, read as text, is `ini_sections` of the text,
/// and that it is none exactly when the crate refuses the text.
#[verifier::external_body]
fn parse_ini(text: &str) -> (r: Option<Vec<IniSection>>)
    ensures
        match r {
            Some(v) => ini_sections(text@) == Some(sections_text(v@)),
            None => ini_sections(text@) is None,
        },
{
    match ini::Ini::load_from_str(text) {
        Ok(ini) => Some(
            ini.iter().map(|(name, props)| IniSection {
                name: name.map(|n| n.to_string()),
                entries: props.iter().map(|(k, v)| (k.to_string(), v.to_string())).collect(),
            }).collect(),
        ),
        Err(_) => None,
    }
}

/// Reads the settings of a configuration file's text: a text that is not INI
/// is refused; otherwise its sections are read as `load_config` does.
pub fn load_config_text(text: &str) -> (r: Result<LoadedConfig, ConfigError>)
    ensures
        match ini_sections(text@) {
            None => r == Err::<LoadedConfig, ConfigError>(ConfigError::Syntax),
            Some(secs) => match r {
                Ok(l) => file_settings(secs) == Ok::<Settings, ConfigError>(loaded_settings(l)),
                Err(e) => file_settings(secs) == Err::<Settings, ConfigError>(e),
            },
        },
{
    match parse_ini(text) {
        Some(sections) => load_config(&sections),
        None => Err(ConfigError::Syntax),
    }
}

// ---------------------------------------------------------------------------
// What a file's settings depend on

/// Whether a section name is one the game reads.
pub open spec fn known_section(name: Seq<char>) -> bool {
    name == "Game"@ || name == "Player"@ || name == "Alien"@
}

/// The entries of a section whose keys name a setting of that section.
pub open spec fn kept_entries(section: Seq<char>, entries: Seq<(Seq<char>, Seq<char>)>) -> Seq<
    (Seq<char>, Seq<char>),
>
    decreases entries.len(),
{
    if entries.len() == 0 {
        Seq::empty()
    } else {
        let rest = kept_entries(section, entries.drop_last());
        if field_of(section, entries.last().0) is Some {
            rest.push(entries.last())
        } else {
            rest
        }
    }
}

/// The part of a file that the game reads: unnamed sections, and the
/// `Game`, `Player` and `Alien` sections with only the keys they name.
pub open spec fn recognised(secs: Seq<(Option<Seq<char>>, Seq<(Seq<char>, Seq<char>)>)>) -> Seq<
    (Option<Seq<char>>, Seq<(Seq<char>, Seq<char>)>),
>
    decreases secs.len(),
{
    if secs.len() == 0 {
        Seq::empty()
    } else {
        let rest = recognised(secs.drop_last());
        let sec = secs.last();
        match sec.0 {
            None => rest.push(sec),
            Some(n) => if known_section(n) {
                rest.push((Some(n), kept_entries(n, sec.1)))
            } else {
                rest
            },
        }
    }
}

proof fn lemma_unknown_entries(st: Settings, section: Seq<char>, entries: Seq<(Seq<char>, Seq<char>)>)
    requires
        !known_section(section),
    ensures
        apply_entries(st, section, entries) == Ok::<Settings, ConfigError>(st),
    decreases entries.len(),
{
    if entries.len() > 0 {
        lemma_unknown_entries(st, section, entries.drop_last());
    }
}

proof fn lemma_kept_entries(st: Settings, section: Seq<char>, entries: Seq<(Seq<char>, Seq<char>)>)
    ensures
        apply_entries(st, section, entries) == apply_entries(st, section, kept_entries(section, entries)),
    decreases entries.len(),
{
    if entries.len() > 0 {
        let rest = entries.drop_last();
        lemma_kept_entries(st, section, rest);
        let k = kept_entries(section, rest);
        if field_of(section, entries.last().0) is Some {
            assert(k.push(entries.last()).drop_last() =~= k);
        }
    }
}

proof fn lemma_recognised(st: Settings, secs: Seq<(Option<Seq<char>>, Seq<(Seq<char>, Seq<char>)>)>)
    ensures
        apply_sections(st, secs) == apply_sections(st, recognised(secs)),
    decreases secs.len(),
{
    if secs.len() > 0 {
        let rest = secs.drop_last();
        lemma_recognised(st, rest);
        let r = recognised(rest);
        let sec = secs.last();
        match sec.0 {
            None => {
                assert(r.push(sec).drop_last() =~= r);
            },
            Some(n) => {
                match apply_sections(st, rest) {
                    Ok(s) => {
                        if known_section(n) {
                            let kept = (Some(n), kept_entries(n, sec.1));
                            assert(r.push(kept).drop_last() =~= r);
                            lemma_kept_entries(s, n, sec.1);
                        } else {
                            lemma_unknown_entries(s, n, sec.1);
                        }
                    },
                    Err(e) => {
                        if known_section(n) {
                            let kept = (Some(n), kept_entries(n, sec.1));
                            assert(r.push(kept).drop_last() =~= r);
                        }
                    },
                }
            },
        }
    }
}

/// A file's settings depend only on the part the game reads: sections other
/// than `Game`, `Player` and `Alien`, and keys that name no setting of their
/// section, change nothing, in any number and any mix, wherever they stand.
pub proof fn lemma_only_recognised_matters(
    a: Seq<(Option<Seq<char>>, Seq<(Seq<char>, Seq<char>)>)>,
    b: Seq<(Option<Seq<char>>, Seq<(Seq<char>, Seq<char>)>)>,
)
    requires
        recognised(a) == recognised(b),
    ensures
        file_settings(a) == file_settings(b),
        file_settings(a) == file_settings(recognised(a)),
{
    lemma_recognised(start_settings(), a);
    lemma_recognised(start_settings(), b);
}

} // verus!
