use ys_compass::error::ErrorCode;
use ys_compass::game::{GameManager, Mod, Profile, Tool, Version};
use ys_compass::state::{PersistentState, SelectedProfile};
use ys_compass::storage::{ModRecord, ProfileRecord};

fn tool(id: &str, path: &str) -> Tool {
    Tool { id: id.to_string(), name: format!("tool {id}"), icon: String::new(), path: path.to_string() }
}

fn version(token: &str, path: &str) -> Version {
    Version { version: token.to_string(), path: path.to_string() }
}

fn manager() -> GameManager {
    let t1 = tool("t1", "C:\\Mods\\a.dll");
    let t2 = tool("t2", "$APPDATA\\tools\\b.exe");
    let t3 = tool("t3", "C:\\Mods\\c.dll");
    let m1 = Mod {
        id: "m1".to_string(),
        name: "mod".to_string(),
        icon: String::new(),
        path: "mods/m1".to_string(),
        version: "1.0".to_string(),
        tool: t1.clone(),
    };
    GameManager {
        profiles: vec![],
        versions: vec![version("OSRELWin4.0.1", "C:\\Game\\Game.exe"), version("CNRELWin4.0.1", "D:\\CN\\Game.exe")],
        tools: vec![t1, t2, t3],
        mods: vec![m1],
    }
}

fn profile(m: &GameManager, tools: &[usize]) -> Profile {
    Profile {
        id: "p1".to_string(),
        name: "Main".to_string(),
        icon: "icon.png".to_string(),
        version: m.versions[1].clone(),
        tools: tools.iter().map(|i| m.tools[*i].clone()).collect(),
        mods: m.mods.clone(),
        launch_args: "-screen-fullscreen 0".to_string(),
    }
}

fn ids(tools: &[Tool]) -> Vec<String> {
    tools.iter().map(|t| t.id.clone()).collect()
}

#[test]
fn profile_round_trips_through_its_record() {
    let m = manager();
    let p = profile(&m, &[2, 0, 1]);
    let rec = p.to_record();
    assert_eq!(rec.tools.as_deref(), Some("t3,t1,t2"));
    assert_eq!(rec.mods.as_deref(), Some("m1"));
    assert_eq!(rec.version, "CNRELWin4.0.1");
    let q = m.profile_from_record(&rec).unwrap();
    assert_eq!(ids(&q.tools), vec!["t3", "t1", "t2"]);
    assert_eq!(q.tools[0].path, "C:\\Mods\\c.dll");
    assert_eq!(q.version.version, "CNRELWin4.0.1");
    assert_eq!(q.version.path, "D:\\CN\\Game.exe");
    assert_eq!(q.mods.len(), 1);
    assert_eq!(q.mods[0].tool.id, "t1");
    assert_eq!(q.id, p.id);
    assert_eq!(q.name, p.name);
    assert_eq!(q.icon, p.icon);
    assert_eq!(q.launch_args, p.launch_args);
}

#[test]
fn profile_without_tools_round_trips_to_no_tools() {
    let m = manager();
    let p = profile(&m, &[]);
    let rec = p.to_record();
    assert_eq!(rec.tools.as_deref(), Some(""));
    let q = m.profile_from_record(&rec).unwrap();
    assert!(q.tools.is_empty());
}

fn record(version: &str, tools: Option<&str>) -> ProfileRecord {
    ProfileRecord {
        id: "r".to_string(),
        name: "n".to_string(),
        icon: String::new(),
        version: version.to_string(),
        tools: tools.map(|s| s.to_string()),
        mods: None,
        launch_args: String::new(),
    }
}

#[test]
fn record_with_unknown_version_stands_for_nothing() {
    let m = manager();
    assert!(m.profile_from_record(&record("OSRELWin9.9.9", Some("t1"))).is_none());
}

#[test]
fn unknown_tool_ids_are_passed_over() {
    let m = manager();
    let q = m.profile_from_record(&record("OSRELWin4.0.1", Some("t2,zz,t1,t2"))).unwrap();
    assert_eq!(ids(&q.tools), vec!["t2", "t1", "t2"]);
    let q = m.profile_from_record(&record("OSRELWin4.0.1", None)).unwrap();
    assert!(q.tools.is_empty());
    assert!(q.mods.is_empty());
}

#[test]
fn loading_profiles_keeps_order_and_drops_unresolvable() {
    let mut m = manager();
    let recs = vec![
        record("OSRELWin4.0.1", Some("t1")),
        record("nope", Some("t1")),
        record("CNRELWin4.0.1", Some("t3")),
    ];
    m.load_profiles(&recs);
    assert_eq!(m.profiles.len(), 2);
    assert_eq!(m.profiles[0].version.version, "OSRELWin4.0.1");
    assert_eq!(ids(&m.profiles[1].tools), vec!["t3"]);
}

#[test]
fn mod_record_takes_its_tool_from_the_catalogue() {
    let m = manager();
    let rec = ModRecord {
        id: "m2".to_string(),
        name: "other".to_string(),
        icon: String::new(),
        path: "mods/m2".to_string(),
        version: "2.0".to_string(),
        tool: "t3".to_string(),
    };
    let md = m.mod_from_record(&rec).unwrap();
    assert_eq!(md.tool.path, "C:\\Mods\\c.dll");
    let missing = ModRecord { tool: "none".to_string(), ..rec };
    assert!(m.mod_from_record(&missing).is_none());
}

#[test]
fn get_profile_finds_by_id() {
    let mut m = manager();
    let p = profile(&m, &[0]);
    m.profiles.push(p);
    let mut other = profile(&m, &[1]);
    other.id = "p2".to_string();
    m.profiles.push(other);
    assert_eq!(ids(&m.get_profile("p2").unwrap().tools), vec!["t2"]);
    assert_eq!(ids(&m.get_profile("p1").unwrap().tools), vec!["t1"]);
    assert!(m.get_profile("p3").is_none());
}

#[test]
fn add_version_refuses_a_known_token() {
    let mut m = manager();
    assert_eq!(m.add_version(version("OSRELWin4.0.1", "E:\\Other.exe")), Err(ErrorCode::VersionAlreadyKnown));
    assert_eq!(m.versions.len(), 2);
    assert_eq!(m.add_version(version("OSRELWin4.1.0", "E:\\New.exe")), Ok(()));
    assert_eq!(m.versions.len(), 3);
    assert_eq!(m.versions[2].path, "E:\\New.exe");
}

#[test]
fn selection_at_start_up_follows_the_persistent_state() {
    let mut m = manager();
    m.profiles.push(profile(&m, &[0]));
    let s = SelectedProfile::new(&m, &PersistentState { selected_profile: Some("p1".to_string()) });
    assert_eq!(s.0.unwrap().id, "p1");
    let s = SelectedProfile::new(&m, &PersistentState { selected_profile: Some("gone".to_string()) });
    assert!(s.0.is_none());
    let s = SelectedProfile::new(&m, &PersistentState::default());
    assert!(s.0.is_none());
}

#[test]
fn saved_profile_gets_a_fresh_alphanumeric_id() {
    let m = manager();
    let p = profile(&m, &[1, 2]);
    let a = m.save_profile(p.clone());
    let b = m.save_profile(p);
    assert_eq!(a.id.len(), 16);
    assert!(a.id.chars().all(|c| c.is_ascii_alphanumeric()));
    assert_ne!(a.id, "p1");
    assert_ne!(a.id, b.id);
    assert_eq!(a.tools.as_deref(), Some("t2,t3"));
    assert_eq!(a.version, "CNRELWin4.0.1");
    assert_eq!(a.name, "Main");
}

#[test]
fn selecting_a_known_profile_updates_both_states() {
    let mut m = manager();
    m.profiles.push(profile(&m, &[0]));
    let mut sel = SelectedProfile(None);
    let mut state = PersistentState::default();
    assert!(sel.select(&mut state, &m, "p1"));
    assert_eq!(state.selected_profile.as_deref(), Some("p1"));
    assert_eq!(sel.0.as_ref().unwrap().id, "p1");
    assert!(!sel.select(&mut state, &m, "unknown"));
    assert_eq!(state.selected_profile.as_deref(), Some("p1"));
    assert_eq!(sel.0.as_ref().unwrap().id, "p1");
}

#[test]
fn new_profile_is_adopted_only_without_a_selection() {
    let m = manager();
    let mut sel = SelectedProfile(None);
    let mut state = PersistentState { selected_profile: Some("old".to_string()) };
    let mut first = profile(&m, &[0]);
    first.id = "first".to_string();
    assert!(sel.adopt_new(&mut state, first));
    assert_eq!(state.selected_profile.as_deref(), Some("first"));
    let mut second = profile(&m, &[1]);
    second.id = "second".to_string();
    assert!(!sel.adopt_new(&mut state, second));
    assert_eq!(sel.0.as_ref().unwrap().id, "first");
    assert_eq!(state.selected_profile.as_deref(), Some("first"));
}
