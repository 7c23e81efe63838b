use ys_compass::error::ErrorCode;
use ys_compass::version::{engine_runtime_path, find_version_token, locate_version};

fn binary(before: &[u8], token: &[u8], after: &[u8]) -> Vec<u8> {
    let mut v = before.to_vec();
    v.extend_from_slice(token);
    v.extend_from_slice(after);
    v
}

#[test]
fn single_token_is_returned_exactly() {
    let data = binary(&[0x00, 0xFF, 0x10, b'x'], b"OSRELWin4.0.1", &[0x00, 0xC3, b'z']);
    let v = locate_version("C:\\Game\\Game.exe".to_string(), &data).unwrap();
    assert_eq!(v.version, "OSRELWin4.0.1");
    assert_eq!(v.path, "C:\\Game\\Game.exe");
}

#[test]
fn no_token_fails_to_resolve() {
    let data = b"nothing to see here OSRELWin0.1.2 CNXXWin1.2.3".to_vec();
    let r = locate_version("game.exe".to_string(), &data);
    assert_eq!(r.unwrap_err(), ErrorCode::VersionResolutionFailed);
}

#[test]
fn empty_binary_fails_to_resolve() {
    let r = locate_version("game.exe".to_string(), &[]);
    assert_eq!(r.unwrap_err(), ErrorCode::VersionResolutionFailed);
}

#[test]
fn first_of_two_tokens_wins() {
    let data = binary(b"..CNCBWin3.7.22..", b"OSRELWin4.0.1", b"");
    let v = locate_version("g".to_string(), &data).unwrap();
    assert_eq!(v.version, "CNCBWin3.7.22");
}

#[test]
fn patch_takes_every_following_digit() {
    let data = b"xxOSCBWin1.2.34567abc".to_vec();
    assert_eq!(find_version_token(&data), Some((2, 18)));
    let v = locate_version("g".to_string(), &data).unwrap();
    assert_eq!(v.version, "OSCBWin1.2.34567");
}

#[test]
fn patch_may_be_empty() {
    let data = b"CNRELWin9.9.-".to_vec();
    let v = locate_version("g".to_string(), &data).unwrap();
    assert_eq!(v.version, "CNRELWin9.9.");
}

#[test]
fn major_zero_and_two_digit_minor_are_no_token() {
    assert_eq!(find_version_token(b"OSRELWin0.1.2"), None);
    assert_eq!(find_version_token(b"OSRELWin1.10.2"), None);
    assert_eq!(find_version_token(b"OSRELWin1.1"), None);
}

#[test]
fn token_is_found_between_invalid_utf8() {
    let data = binary(&[0xF0, 0x28, 0x8C], b"CNCBWin2.5.0", &[0x80, 0x80]);
    assert_eq!(find_version_token(&data), Some((3, 15)));
}

#[test]
fn engine_runtime_lies_beside_the_executable() {
    assert_eq!(engine_runtime_path("C:\\Game\\Game.exe"), "C:\\Game/UnityPlayer.dll");
    assert_eq!(engine_runtime_path("/opt/game/Game.exe"), "/opt/game/UnityPlayer.dll");
    assert_eq!(engine_runtime_path("Game.exe"), "UnityPlayer.dll");
}
