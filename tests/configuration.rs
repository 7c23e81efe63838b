use ys_compass::config::{Config, Game, Language, Launcher, Sniffer};

#[test]
fn chinese_locales_in_any_case() {
    assert_eq!(Language::from_locale("zh-CN".to_string()), Language::Chinese);
    assert_eq!(Language::from_locale("ZH-HK".to_string()), Language::Chinese);
    assert_eq!(Language::from_lowercase("zh-cn"), Language::Chinese);
}

#[test]
fn other_locales_are_english() {
    assert_eq!(Language::from_locale("en-US".to_string()), Language::English);
    assert_eq!(Language::from_locale("zh-TW".to_string()), Language::English);
    assert_eq!(Language::from_locale(String::new()), Language::English);
    assert_eq!(Language::from_lowercase("ZH-CN"), Language::English);
}

#[test]
fn locale_strings() {
    assert_eq!(Language::English.locale(), "en-US");
    assert_eq!(Language::Chinese.locale(), "zh-CN");
}

#[test]
fn defaults() {
    assert!(Launcher::default().always_elevate);
    assert!(!Game::default().disable_anti_cheat);
    let s = Sniffer::default();
    assert_eq!(s.device_name, "");
    assert_eq!(s.filter, "udp portrange 22101-22102");
    assert_eq!(s.server_ports, vec![22101, 22102]);
    assert_eq!(s.seeds_file, "$APPDATA/sniffer/known-seeds.txt");
    assert_eq!(Config::default_data_file(), "$APPDATA/data.db");
    assert_eq!(Config::default_language(Language::Chinese), "zh-CN");
    let c = Config::for_system(Language::English);
    assert_eq!(c.language, "en-US");
    assert_eq!(c.data_file, "$APPDATA/data.db");
}
