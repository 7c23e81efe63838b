//! The launcher's languages and configuration records.

use vstd::prelude::*;

verus! {

/// The languages the launcher speaks.
#[derive(Clone, Copy, Debug, PartialEq, Eq, Structural)]
pub enum Language {
    English,
    Chinese,
}

/// What `str::to_lowercase` makes of a string.
pub uninterp spec fn lowercase_of(s: Seq<char>) -> Seq<char>;

/// Relies on `str::to_lowercase`: the result depends on the characters alone,
/// and the empty string stays empty.
#[verifier::external_body]
fn to_lowercase(s: &str) -> (r: String)
    ensures
        r@ == lowercase_of(s@),
        s@.len() == 0 ==> r@.len() == 0,
{
    s.to_lowercase()
}

/// The language of a locale that is already in lower case.
pub open spec fn language_of(lower: Seq<char>) -> Language {
    if lower == "zh-cn"@ || lower == "zh-hk"@ {
        Language::Chinese
    } else {
        Language::English
    }
}

/// The locale string of each language.
pub open spec fn locale_of(l: Language) -> Seq<char> {
    match l {
        Language::English => "en-US"@,
        Language::Chinese => "zh-CN"@,
    }
}

impl Language {
    /// The language of a locale that is already in lower case: Chinese for
    /// `zh-cn` and `zh-hk`, English for anything else.
    pub fn from_lowercase(lower: &str) -> (r: Language)
        ensures
            r == language_of(lower@),
    {
        let s = lower.to_owned();
        if s == "zh-cn".to_owned() || s == "zh-hk".to_owned() {
            Language::Chinese
        } else {
            Language::English
        }
    }

    /// The language of a locale string, whatever its case.
    pub fn from_locale(locale: String) -> (r: Language)
        ensures
            r == language_of(lowercase_of(locale@)),
    {
        let lower = to_lowercase(locale.as_str());
        Language::from_lowercase(lower.as_str())
    }

    /// The locale string of the language.
    pub fn locale(&self) -> (r: &'static str)
        ensures
            r@ == locale_of(*self),
    {
        match self {
            Language::English => "en-US",
            Language::Chinese => "zh-CN",
        }
    }
}

/// The launcher's own settings.
#[derive(Debug, PartialEq, Eq, Structural)]
pub struct Launcher {
    /// Whether to elevate the launcher on start up.
    pub always_elevate: bool,
}

impl Default for Launcher {
    fn default() -> (r: Self)
        ensures
            r.always_elevate,
    {
        Launcher { always_elevate: true }
    }
}

/// Settings of the game launch.
#[derive(Debug, PartialEq, Eq, Structural)]
pub struct Game {
    /// Whether to hold the game suspended until the anti-cheat driver has
    /// unloaded, so that DLLs can be injected.
    pub disable_anti_cheat: bool,
}

impl Default for Game {
    fn default() -> (r: Self)
        ensures
            !r.disable_anti_cheat,
    {
        Game { disable_anti_cheat: false }
    }
}

/// Settings of the packet sniffer.
#[derive(Debug)]
pub struct Sniffer {
    /// The network interface to capture from.
    pub device_name: String,
    /// The capture filter.
    pub filter: String,
    /// The ports the game server listens on.
    pub server_ports: Vec<u16>,
    /// The file of recently used encryption seeds.
    pub seeds_file: String,
}

impl Default for Sniffer {
    fn default() -> (r: Self)
        ensures
            r.device_name@.len() == 0,
            r.filter@ == "udp portrange 22101-22102"@,
            r.server_ports@ == seq![22101u16, 22102u16],
            r.seeds_file@ == "$APPDATA/sniffer/known-seeds.txt"@,
    {
        let mut server_ports: Vec<u16> = Vec::new();
        server_ports.push(22101);
        server_ports.push(22102);
        assert(server_ports@ =~= seq![22101u16, 22102u16]);
        Sniffer {
            device_name: String::new(),
            filter: "udp portrange 22101-22102".to_owned(),
            server_ports,
            seeds_file: "$APPDATA/sniffer/known-seeds.txt".to_owned(),
        }
    }
}

/// The launcher's configuration.
#[derive(Debug)]
pub struct Config {
    /// The application language, as a locale string.
    pub language: String,
    /// The SQLite file that keeps the launcher's data.
    pub data_file: String,
    pub launcher: Launcher,
    pub game: Game,
    pub sniffer: Sniffer,
}

impl Config {
    /// The language setting of a fresh configuration on a system whose
    /// language is `system`.
    pub fn default_language(system: Language) -> (r: String)
        ensures
            r@ == locale_of(system),
    {
        system.locale().to_owned()
    }

    /// The data file setting of a fresh configuration.
    pub fn default_data_file() -> (r: String)
        ensures
            r@ == "$APPDATA/data.db"@,
    {
        "$APPDATA/data.db".to_owned()
    }

    /// A fresh configuration on a system whose language is `system`.
    pub fn for_system(system: Language) -> (r: Config)
        ensures
            r.language@ == locale_of(system),
            r.data_file@ == "$APPDATA/data.db"@,
            r.launcher.always_elevate,
            !r.game.disable_anti_cheat,
            r.sniffer.filter@ == "udp portrange 22101-22102"@,
    {
        Config {
            language: Config::default_language(system),
            data_file: Config::default_data_file(),
            launcher: Launcher::default(),
            game: Game::default(),
            sniffer: Sniffer::default(),
        }
    }
}

} // verus!
