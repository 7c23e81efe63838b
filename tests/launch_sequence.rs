use ys_compass::error::ErrorCode;
use ys_compass::launch::{Action, Event, Launch, ToolKind};
use ys_compass::watcher::Watcher;

/// Runs a launch, answering each action with the event `answer` picks, and
/// returns every action asked for.
fn drive(mut launch: Launch, mut answer: impl FnMut(&Action) -> Event) -> Vec<Action> {
    let mut actions = Vec::new();
    let mut a = launch.begin();
    for _ in 0..1000 {
        actions.push(a);
        if matches!(a, Action::Complete | Action::Fail(_)) {
            break;
        }
        let e = answer(&a);
        a = launch.step(e);
    }
    assert!(launch.is_finished());
    actions
}

fn count(actions: &[Action], a: Action) -> usize {
    actions.iter().filter(|x| **x == a).count()
}

/// A world in which every call succeeds, the game is not yet running, and the
/// anti-cheat driver is seen for `load_polls` polls before loading and
/// `unload_polls` polls before unloading.
fn happy(load_polls: usize, unload_polls: usize) -> impl FnMut(&Action) -> Event {
    let mut polls = 0usize;
    let mut loaded = false;
    move |a| match a {
        Action::CheckRunning => Event::Absent,
        Action::PollDriver => {
            polls += 1;
            if !loaded {
                if polls > load_polls {
                    loaded = true;
                    polls = 0;
                    Event::Present
                } else {
                    Event::Absent
                }
            } else if polls > unload_polls {
                Event::Absent
            } else {
                Event::Present
            }
        }
        _ => Event::Done,
    }
}

#[test]
fn scenario_single_dll_profile_launches_and_is_watched() {
    let launch = Launch::new(false, true, vec![ToolKind::Dll]);
    let actions = drive(launch, happy(0, 0));
    assert_eq!(
        actions,
        vec![
            Action::CheckRunning,
            Action::OpenToken,
            Action::FindShell,
            Action::CanonicalizePath,
            Action::CreateProcess,
            Action::InjectDll(0),
            Action::ReleaseHandles,
            Action::StartWatcher,
            Action::Complete,
        ]
    );
    assert_eq!(count(&actions, Action::InjectDll(0)), 1);

    let mut w = Watcher::new();
    let mut sent = Vec::new();
    for present in [false, true, true, true, false, false] {
        if let Some(v) = w.observe(present) {
            sent.push(v);
        }
    }
    assert_eq!(sent, vec![true, false]);
    assert!(w.is_finished());
}

#[test]
fn already_running_fails_before_any_process_exists() {
    let mut launch = Launch::new(true, true, vec![ToolKind::Dll]);
    assert_eq!(launch.begin(), Action::CheckRunning);
    assert_eq!(launch.step(Event::Present), Action::Fail(ErrorCode::AlreadyRunning));
    assert_eq!(launch.step(Event::Done), Action::Idle);
    assert_eq!(launch.step(Event::Done), Action::Idle);
    assert!(launch.is_finished());
}

#[test]
fn gate_enabled_gives_one_suspend_and_one_resume_before_release() {
    let launch = Launch::new(true, true, vec![ToolKind::Dll, ToolKind::Exe]);
    let actions = drive(launch, happy(3, 2));
    let release = actions.iter().position(|a| *a == Action::ReleaseHandles).unwrap();
    let before = &actions[..release];
    assert_eq!(count(before, Action::SuspendProcess), 1);
    assert_eq!(count(before, Action::ResumeProcess), 1);
    let resume = actions.iter().position(|a| *a == Action::ResumeProcess).unwrap();
    let inject = actions.iter().position(|a| *a == Action::InjectDll(0)).unwrap();
    assert!(resume < inject);
    assert_eq!(count(&actions, Action::PollDriver), 4 + 3);
    assert_eq!(actions.last(), Some(&Action::Complete));
}

#[test]
fn gate_disabled_gives_no_suspend_and_no_resume() {
    let launch = Launch::new(false, true, vec![ToolKind::Dll, ToolKind::Dll]);
    let actions = drive(launch, happy(0, 0));
    assert_eq!(count(&actions, Action::SuspendProcess), 0);
    assert_eq!(count(&actions, Action::ResumeProcess), 0);
    assert_eq!(count(&actions, Action::PollDriver), 0);
    assert_eq!(actions.last(), Some(&Action::Complete));
}

#[test]
fn invalid_tool_does_not_stop_a_valid_dll() {
    let launch = Launch::new(false, true, vec![ToolKind::Missing, ToolKind::Dll]);
    let actions = drive(launch, happy(0, 0));
    let tools: Vec<Action> = actions
        .iter()
        .copied()
        .filter(|a| matches!(a, Action::InjectDll(_) | Action::SkipTool(_) | Action::SpawnExe(_)))
        .collect();
    assert_eq!(tools, vec![Action::SkipTool(0), Action::InjectDll(1)]);
    assert_eq!(actions.last(), Some(&Action::Complete));
}

#[test]
fn failed_injection_is_followed_by_remaining_tools() {
    let launch = Launch::new(false, true, vec![ToolKind::Dll, ToolKind::Unknown, ToolKind::Exe, ToolKind::Dll]);
    let mut ok = happy(0, 0);
    let actions = drive(launch, move |a| match a {
        Action::InjectDll(0) => Event::Failed,
        Action::SpawnExe(_) => Event::Failed,
        other => ok(other),
    });
    let tools: Vec<Action> = actions
        .iter()
        .copied()
        .filter(|a| matches!(a, Action::InjectDll(_) | Action::SkipTool(_) | Action::SpawnExe(_)))
        .collect();
    assert_eq!(
        tools,
        vec![Action::InjectDll(0), Action::SkipTool(1), Action::SpawnExe(2), Action::InjectDll(3)]
    );
    assert_eq!(actions.last(), Some(&Action::Complete));
}

#[test]
fn no_tools_still_releases_and_watches() {
    let launch = Launch::new(false, true, vec![]);
    let actions = drive(launch, happy(0, 0));
    assert_eq!(&actions[4..], &[Action::CreateProcess, Action::ReleaseHandles, Action::StartWatcher, Action::Complete]);
}

#[test]
fn unsupported_platform_fails_after_the_running_check() {
    let launch = Launch::new(false, false, vec![ToolKind::Dll]);
    let actions = drive(launch, happy(0, 0));
    assert_eq!(actions, vec![Action::CheckRunning, Action::Fail(ErrorCode::Unsupported)]);
}

fn failing_at(step: Action) -> impl FnMut(&Action) -> Event {
    let mut ok = happy(0, 0);
    move |a| if *a == step { Event::Failed } else { ok(a) }
}

#[test]
fn token_failure_is_not_elevated() {
    let actions = drive(Launch::new(false, true, vec![]), failing_at(Action::OpenToken));
    assert_eq!(actions.last(), Some(&Action::Fail(ErrorCode::NotElevated)));
    assert_eq!(count(&actions, Action::ReleaseHandles), 0);
}

#[test]
fn shell_failure_is_no_parent_shell() {
    let actions = drive(Launch::new(false, true, vec![]), failing_at(Action::FindShell));
    assert_eq!(actions.last(), Some(&Action::Fail(ErrorCode::NoParentShell)));
}

#[test]
fn canonicalization_failure_is_bad_path() {
    let actions = drive(Launch::new(false, true, vec![]), failing_at(Action::CanonicalizePath));
    assert_eq!(actions.last(), Some(&Action::Fail(ErrorCode::BadPath)));
    assert_eq!(count(&actions, Action::CreateProcess), 0);
}

#[test]
fn creation_failure_is_launch_failed_without_handles() {
    let actions = drive(Launch::new(true, true, vec![]), failing_at(Action::CreateProcess));
    assert_eq!(actions.last(), Some(&Action::Fail(ErrorCode::LaunchFailed)));
    assert_eq!(count(&actions, Action::ReleaseHandles), 0);
}

#[test]
fn driver_enumeration_failure_while_suspended_resumes_then_releases() {
    let mut polls = 0usize;
    let actions = drive(Launch::new(true, true, vec![ToolKind::Dll]), move |a| match a {
        Action::CheckRunning => Event::Absent,
        Action::PollDriver => {
            polls += 1;
            if polls == 1 { Event::Present } else { Event::Failed }
        }
        _ => Event::Done,
    });
    assert_eq!(
        &actions[5..],
        &[
            Action::PollDriver,
            Action::SuspendProcess,
            Action::PollDriver,
            Action::ResumeProcess,
            Action::ReleaseHandles,
            Action::Fail(ErrorCode::LaunchFailed),
        ]
    );
    assert_eq!(count(&actions, Action::InjectDll(0)), 0);
}

#[test]
fn suspend_failure_still_balances_and_fails() {
    let actions = drive(Launch::new(true, true, vec![]), failing_at(Action::SuspendProcess));
    assert_eq!(count(&actions, Action::SuspendProcess), 1);
    assert_eq!(count(&actions, Action::ResumeProcess), 1);
    assert_eq!(actions.last(), Some(&Action::Fail(ErrorCode::LaunchFailed)));
}

#[test]
fn error_keys_are_stable() {
    assert_eq!(ErrorCode::AlreadyRunning.key(), "game.error.already-open");
    assert_eq!(ErrorCode::Unsupported.key(), "game.error.launch.unsupported");
    assert_eq!(ErrorCode::NotElevated.key(), "game.error.launch.not-elevated");
    assert_eq!(ErrorCode::NoParentShell.key(), "game.error.launch.no-parent");
    assert_eq!(ErrorCode::BadPath.key(), "game.error.launch.bad-path");
    assert_eq!(ErrorCode::LaunchFailed.key(), "game.error.launch.unknown");
    assert_eq!(ErrorCode::DllInjectionFailed.key(), "game.error.launch.dll-fail");
    assert_eq!(ErrorCode::UnknownToolType.key(), "game.error.launch.unknown-tool");
    assert_eq!(ErrorCode::VersionResolutionFailed.key(), "backend.version.resolve.error");
    assert_eq!(ErrorCode::VersionAlreadyKnown.key(), "backend.version.resolve.exists");
}
