//! The version resolver: finds the version token in a game binary.

use crate::error::ErrorCode;
use crate::game::Version;
use crate::paths::{chars_of, parent_of, string_from_chars, working_dir_of};
use vstd::prelude::*;

verus! {

/// Whether `b` is an ASCII decimal digit.
pub open spec fn is_digit(b: u8) -> bool {
    0x30 <= b <= 0x39
}

/// Whether `d` holds byte `b` at `i`.
pub open spec fn byte_is(d: Seq<u8>, i: int, b: u8) -> bool {
    0 <= i < d.len() && d[i] == b
}

/// The length of the channel tag at `i`: `REL` or `CB`, or 0 if neither.
pub open spec fn channel_len(d: Seq<u8>, i: int) -> int {
    if byte_is(d, i, 0x52) && byte_is(d, i + 1, 0x45) && byte_is(d, i + 2, 0x4C) {
        3
    } else if byte_is(d, i, 0x43) && byte_is(d, i + 1, 0x42) {
        2
    } else {
        0
    }
}

/// Where the fixed part of a token starting at `i` ends: after region,
/// channel, `Win`, `<major>.<minor>.`.
pub open spec fn head_end(d: Seq<u8>, i: int) -> int {
    i + 2 + channel_len(d, i + 2) + 7
}

/// Whether a version token `<OS|CN><REL|CB>Win<1-9>.<0-9>.<digits>` starts
/// at `i`.
pub open spec fn token_at(d: Seq<u8>, i: int) -> bool {
    let k = i + 2 + channel_len(d, i + 2);
    &&& (byte_is(d, i, 0x4F) && byte_is(d, i + 1, 0x53)) || (byte_is(d, i, 0x43) && byte_is(
        d,
        i + 1,
        0x4E,
    ))
    &&& channel_len(d, i + 2) > 0
    &&& byte_is(d, k, 0x57) && byte_is(d, k + 1, 0x69) && byte_is(d, k + 2, 0x6E)
    &&& k + 7 <= d.len()
    &&& 0x31 <= d[k + 3] <= 0x39
    &&& d[k + 4] == 0x2E
    &&& is_digit(d[k + 5])
    &&& d[k + 6] == 0x2E
}

/// The end of the run of digits that starts at `i`.
pub open spec fn digits_end(d: Seq<u8>, i: int) -> int
    decreases d.len() - i,
{
    if i < 0 || i >= d.len() || !is_digit(d[i]) {
        i
    } else {
        digits_end(d, i + 1)
    }
}

/// Where the token that starts at `i` ends: its patch number takes every
/// digit that follows.
pub open spec fn token_end(d: Seq<u8>, i: int) -> int {
    digits_end(d, head_end(d, i))
}

/// The first position at or after `i` where a token starts.
pub open spec fn first_token_from(d: Seq<u8>, i: int) -> Option<int>
    decreases d.len() - i,
{
    if i < 0 || i >= d.len() {
        None
    } else if token_at(d, i) {
        Some(i)
    } else {
        first_token_from(d, i + 1)
    }
}

/// The version token of a binary: the first match in it, or none.
pub open spec fn version_token(d: Seq<u8>) -> Option<Seq<u8>> {
    match first_token_from(d, 0) {
        Some(i) => Some(d.subrange(i, token_end(d, i))),
        None => None,
    }
}

/// The characters of ASCII bytes.
pub open spec fn ascii_chars(b: Seq<u8>) -> Seq<char> {
    b.map_values(|x: u8| x as char)
}

proof fn lemma_first_token_bounds(d: Seq<u8>, i: int)
    ensures
        first_token_from(d, i) matches Some(j) ==> i <= j < d.len() && token_at(d, j),
    decreases d.len() - i,
{
    if 0 <= i < d.len() && !token_at(d, i) {
        lemma_first_token_bounds(d, i + 1);
    }
}

proof fn lemma_digits_end_bounds(d: Seq<u8>, i: int)
    requires
        0 <= i <= d.len(),
    ensures
        i <= digits_end(d, i) <= d.len(),
        forall|j: int| i <= j < digits_end(d, i) ==> is_digit(#[trigger] d[j]),
    decreases d.len() - i,
{
    if i < d.len() && is_digit(d[i]) {
        lemma_digits_end_bounds(d, i + 1);
    }
}

fn channel_length(d: &[u8], i: usize) -> (r: usize)
    requires
        i <= d@.len(),
    ensures
        r == channel_len(d@, i as int),
{
    if i < d.len() && d[i] == 0x52 && i + 1 < d.len() && d[i + 1] == 0x45 && i + 2 < d.len() && d[i
        + 2] == 0x4C {
        3
    } else if i < d.len() && d[i] == 0x43 && i + 1 < d.len() && d[i + 1] == 0x42 {
        2
    } else {
        0
    }
}

fn is_token_at(d: &[u8], i: usize) -> (r: bool)
    requires
        i < d@.len(),
    ensures
        r == token_at(d@, i as int),
{
    let n = d.len();
    if !(i + 1 < n && ((d[i] == 0x4F && d[i + 1] == 0x53) || (d[i] == 0x43 && d[i + 1]
        == 0x4E))) {
        return false;
    }
    let c = channel_length(d, i + 2);
    if c == 0 {
        return false;
    }
    let k = i + 2 + c;
    if n - k < 7 {
        return false;
    }
    d[k] == 0x57 && d[k + 1] == 0x69 && d[k + 2] == 0x6E && 0x31 <= d[k + 3] && d[k + 3] <= 0x39
        && d[k + 4] == 0x2E && 0x30 <= d[k + 5] && d[k + 5] <= 0x39 && d[k + 6] == 0x2E
}

/// Finds the first version token in a binary's bytes, as the range it spans.
///
/// Matching bytes gives the same token as matching the binary's lossy text:
/// the token is ASCII, and no byte of a multi-byte or invalid sequence is.
pub fn find_version_token(d: &[u8]) -> (r: Option<(usize, usize)>)
    ensures
        match r {
            Some((s, e)) => first_token_from(d@, 0) == Some(s as int) && e == token_end(d@, s as int)
                && s < e <= d@.len(),
            None => first_token_from(d@, 0) is None,
        },
{
    let mut i: usize = 0;
    while i < d.len()
        invariant
            i <= d@.len(),
            first_token_from(d@, 0) == first_token_from(d@, i as int),
        decreases d@.len() - i,
    {
        if is_token_at(d, i) {
            let c = channel_length(d, i + 2);
            let mut e: usize = i + 2 + c + 7;
            proof {
                lemma_digits_end_bounds(d@, e as int);
            }
            while e < d.len() && 0x30 <= d[e] && d[e] <= 0x39
                invariant
                    i + 2 + c + 7 <= e <= d@.len(),
                    digits_end(d@, e as int) == token_end(d@, i as int),
                decreases d@.len() - e,
            {
                e = e + 1;
            }
            return Some((i, e));
        }
        i = i + 1;
    }
    None
}

/// Relies on `String::from_utf8_lossy`: ASCII bytes are valid UTF-8 and come
/// out as the same characters.
#[verifier::external_body]
fn ascii_string(b: &[u8]) -> (r: String)
    requires
        forall|i: int| 0 <= i < b@.len() ==> b@[i] < 0x80,
    ensures
        r@ == ascii_chars(b@),
{
    String::from_utf8_lossy(b).into_owned()
}

/// Resolves the version of a game from the bytes of its binary (the engine
/// runtime library beside the executable when there is one, else the
/// executable), installed at `path`.
///
/// The first version token found is the version; a binary without one fails
/// with `VersionResolutionFailed`.
pub fn locate_version(path: String, data: &[u8]) -> (r: Result<Version, ErrorCode>)
    ensures
        match version_token(data@) {
            Some(t) => r matches Ok(v) && v.version@ == ascii_chars(t) && v.path@ == path@,
            None => r == Err::<Version, ErrorCode>(ErrorCode::VersionResolutionFailed),
        },
{
    match find_version_token(data) {
        None => Err(ErrorCode::VersionResolutionFailed),
        Some((s, e)) => {
            let mut token: Vec<u8> = Vec::new();
            let mut k: usize = s;
            while k < e
                invariant
                    s <= k <= e <= data@.len(),
                    token@ == data@.subrange(s as int, k as int),
                decreases e - k,
            {
                token.push(data[k]);
                k = k + 1;
                assert(token@ =~= data@.subrange(s as int, k as int));
            }
            proof {
                lemma_first_token_bounds(data@, 0);
                lemma_digits_end_bounds(data@, head_end(data@, s as int));
                assert forall|i: int| 0 <= i < token@.len() implies token@[i] < 0x80 by {
                    let j = s + i;
                    let h = head_end(data@, s as int);
                    if j >= h {
                        assert(is_digit(data@[j]));
                    } else {
                    }
                }
            }
            let version = ascii_string(token.as_slice());
            Ok(Version { version, path })
        },
    }
}

/// A binary that holds exactly one well-formed version token resolves to
/// exactly that token; one that holds none resolves to nothing.
pub proof fn lemma_single_token_resolves(d: Seq<u8>, i: int)
    requires
        token_at(d, i),
        i < d.len(),
        forall|j: int| j != i ==> !token_at(d, j),
    ensures
        version_token(d) == Some(d.subrange(i, token_end(d, i))),
{
    lemma_first_token_from_unique(d, i, 0);
}

proof fn lemma_first_token_from_unique(d: Seq<u8>, i: int, k: int)
    requires
        token_at(d, i),
        0 <= k <= i < d.len(),
        forall|j: int| j != i ==> !token_at(d, j),
    ensures
        first_token_from(d, k) == Some(i),
    decreases i - k,
{
    if k < i {
        lemma_first_token_from_unique(d, i, k + 1);
    }
}

proof fn lemma_no_token_from(d: Seq<u8>, k: int)
    requires
        forall|j: int| !token_at(d, j),
    ensures
        first_token_from(d, k) is None,
    decreases d.len() - k,
{
    if 0 <= k < d.len() {
        lemma_no_token_from(d, k + 1);
    }
}

/// A binary without any version token resolves to nothing.
pub proof fn lemma_no_token_fails(d: Seq<u8>)
    requires
        forall|j: int| !token_at(d, j),
    ensures
        version_token(d) is None,
{
    lemma_no_token_from(d, 0);
}

/// The engine runtime library that, when it lies beside the executable,
/// carries the version token more reliably than the executable itself.
pub const ENGINE_RUNTIME: &'static str = "UnityPlayer.dll";

/// Where the engine runtime library beside an executable would lie.
pub open spec fn engine_runtime_of(executable: Seq<char>) -> Seq<char> {
    if parent_of(executable).len() == 0 {
        ENGINE_RUNTIME@
    } else {
        parent_of(executable) + seq!['/'] + ENGINE_RUNTIME@
    }
}

/// The path of the engine runtime library beside the executable at
/// `executable`: the file to scan for the version when it exists.
pub fn engine_runtime_path(executable: &str) -> (r: String)
    ensures
        r@ == engine_runtime_of(executable@),
{
    let dir = working_dir_of(executable);
    let mut out = chars_of(dir.as_str());
    let name = chars_of(ENGINE_RUNTIME);
    if out.len() > 0 {
        out.push('/');
    }
    let ghost base = out@;
    let mut i: usize = 0;
    while i < name.len()
        invariant
            i <= name@.len(),
            out@ == base + name@.take(i as int),
        decreases name@.len() - i,
    {
        out.push(name[i]);
        i = i + 1;
        assert(out@ =~= base + name@.take(i as int));
    }
    assert(name@.take(name@.len() as int) =~= name@);
    assert(Seq::<char>::empty() + name@ =~= name@);
    string_from_chars(&out)
}

} // verus!
