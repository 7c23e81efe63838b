//! Path handling: executable names, `$APPDATA` expansion, tool kinds,
//! canonical paths and the anti-cheat driver's name match.

use crate::launch::ToolKind;
use vstd::prelude::*;
use vstd::string::StrSliceExecFns;

verus! {

/// The name of the launcher's own directory under the user's data directory.
pub const APP_IDENTIFIER: &'static str = "ys-compass";

/// Whether `c` separates path components (either slash).
pub open spec fn is_separator(c: char) -> bool {
    c == '/' || c == '\\'
}

/// The last component of a path: what follows its last separator.
pub open spec fn executable_name_of(s: Seq<char>) -> Seq<char>
    decreases s.len(),
{
    if s.len() == 0 {
        s
    } else if is_separator(s.last()) {
        Seq::empty()
    } else {
        executable_name_of(s.drop_last()).push(s.last())
    }
}

/// A path with every backslash turned into a forward slash.
pub open spec fn forward_slashes(s: Seq<char>) -> Seq<char> {
    s.map_values(|c: char| if c == '\\' { '/' } else { c })
}

/// `s` with each occurrence of `pat`, from left to right and without
/// overlap, replaced by `rep`.
pub open spec fn replace_all(s: Seq<char>, pat: Seq<char>, rep: Seq<char>) -> Seq<char>
    decreases s.len(),
{
    if s.len() == 0 || pat.len() == 0 {
        s
    } else if pat.len() <= s.len() && s.take(pat.len() as int) == pat {
        rep + replace_all(s.skip(pat.len() as int), pat, rep)
    } else {
        seq![s[0]] + replace_all(s.drop_first(), pat, rep)
    }
}

/// A path as the launcher resolves it: forward slashes, and `$APPDATA`
/// standing for the application's data directory `app_dir`.
pub open spec fn expanded(path: Seq<char>, app_dir: Seq<char>) -> Seq<char> {
    replace_all(forward_slashes(path), "$APPDATA"@, app_dir)
}

/// The extension of a file name: what follows its last dot, unless that dot
/// opens the name, and never for `..`.
pub open spec fn extension_of(name: Seq<char>) -> Option<Seq<char>> {
    if name == ".."@ {
        None
    } else {
        match last_dot(name) {
            Some(k) => if k > 0 {
                Some(name.skip(k + 1))
            } else {
                None
            },
            None => None,
        }
    }
}

/// The index of the last dot in `s`, if any.
pub open spec fn last_dot(s: Seq<char>) -> Option<int>
    decreases s.len(),
{
    if s.len() == 0 {
        None
    } else if s.last() == '.' {
        Some(s.len() - 1)
    } else {
        last_dot(s.drop_last())
    }
}

/// What a tool at a resolved path is, given whether a file exists there.
pub open spec fn tool_kind_of(path: Seq<char>, exists: bool) -> ToolKind {
    if !exists {
        ToolKind::Missing
    } else {
        match extension_of(executable_name_of(path)) {
            Some(e) => if e == "dll"@ {
                ToolKind::Dll
            } else if e == "exe"@ {
                ToolKind::Exe
            } else {
                ToolKind::Unknown
            },
            None => ToolKind::Unknown,
        }
    }
}

/// A path without the `\\?\` prefix that Windows puts on canonical paths.
pub open spec fn without_verbatim_prefix(s: Seq<char>) -> Seq<char> {
    if s.len() >= 4 && s.take(4) == "\\\\?\\"@ {
        s.skip(4)
    } else {
        s
    }
}

/// Relies on `String`'s `FromIterator<&char>`: the characters, in order.
#[verifier::external_body]
pub(crate) fn string_from_chars(v: &Vec<char>) -> (r: String)
    ensures
        r@ == v@,
{
    v.iter().collect()
}

pub(crate) fn chars_of(s: &str) -> (r: Vec<char>)
    ensures
        r@ == s@,
{
    let n = s.unicode_len();
    let mut out: Vec<char> = Vec::new();
    let mut i: usize = 0;
    while i < n
        invariant
            n == s@.len(),
            i <= n,
            out@ == s@.take(i as int),
        decreases n - i,
    {
        out.push(s.get_char(i));
        i = i + 1;
        assert(out@ =~= s@.take(i as int));
    }
    assert(out@ =~= s@);
    out
}

proof fn lemma_executable_name_suffix(s: Seq<char>, k: int)
    requires
        0 <= k <= s.len(),
        k == 0 || is_separator(s[k - 1]),
        forall|j: int| k <= j < s.len() ==> !is_separator(#[trigger] s[j]),
    ensures
        executable_name_of(s) == s.skip(k),
    decreases s.len(),
{
    if s.len() > 0 {
        if k == s.len() {
            assert(s.skip(k) =~= Seq::<char>::empty());
        } else {
            if k > 0 {
                assert(s.drop_last()[k - 1] == s[k - 1]);
            }
            lemma_executable_name_suffix(s.drop_last(), k);
            assert(s.skip(k) =~= s.drop_last().skip(k).push(s.last()));
        }
    }
}

/// The name of the executable at the end of a path: what follows its last
/// slash or backslash, or the whole path if it has neither.
pub fn get_executable_name(path: &str) -> (r: String)
    ensures
        r@ == executable_name_of(path@),
{
    let cs = chars_of(path);
    let mut k: usize = cs.len();
    while k > 0 && cs[k - 1] != '/' && cs[k - 1] != '\\'
        invariant
            k <= cs@.len(),
            forall|j: int| k <= j < cs@.len() ==> !is_separator(#[trigger] cs@[j]),
        decreases k,
    {
        k = k - 1;
    }
    proof {
        lemma_executable_name_suffix(cs@, k as int);
    }
    let mut out: Vec<char> = Vec::new();
    let mut i: usize = k;
    while i < cs.len()
        invariant
            k <= i <= cs@.len(),
            out@ == cs@.subrange(k as int, i as int),
        decreases cs@.len() - i,
    {
        out.push(cs[i]);
        i = i + 1;
        assert(out@ =~= cs@.subrange(k as int, i as int));
    }
    assert(out@ =~= cs@.skip(k as int));
    string_from_chars(&out)
}

fn matches_at(s: &Vec<char>, i: usize, pat: &Vec<char>) -> (r: bool)
    requires
        i <= s@.len(),
    ensures
        r == (pat@.len() <= s@.len() - i && s@.skip(i as int).take(pat@.len() as int) == pat@),
{
    let n = s.len();
    if pat.len() > n - i {
        return false;
    }
    let mut k: usize = 0;
    while k < pat.len()
        invariant
            k <= pat@.len(),
            n == s@.len(),
            i <= s@.len(),
            pat@.len() <= s@.len() - i,
            forall|m: int| 0 <= m < k ==> s@[i + m] == pat@[m],
        decreases pat@.len() - k,
    {
        assert(i + k < s@.len());
        if s[i + k] != pat[k] {
            assert(s@.skip(i as int).take(pat@.len() as int)[k as int] != pat@[k as int]);
            return false;
        }
        k = k + 1;
    }
    assert(s@.skip(i as int).take(pat@.len() as int) =~= pat@);
    true
}

/// Replaces each occurrence of `pat` in `s`, left to right, by `rep`.
pub fn replace_all_chars(s: &Vec<char>, pat: &Vec<char>, rep: &Vec<char>) -> (r: Vec<char>)
    ensures
        r@ == replace_all(s@, pat@, rep@),
{
    let mut out: Vec<char> = Vec::new();
    if pat.len() == 0 {
        let mut j: usize = 0;
        while j < s.len()
            invariant
                j <= s@.len(),
                out@ == s@.take(j as int),
            decreases s@.len() - j,
        {
            out.push(s[j]);
            j = j + 1;
            assert(out@ =~= s@.take(j as int));
        }
        assert(out@ =~= s@);
        return out;
    }
    let mut i: usize = 0;
    assert(s@.skip(0) =~= s@);
    while i < s.len()
        invariant
            i <= s@.len(),
            pat@.len() > 0,
            out@ + replace_all(s@.skip(i as int), pat@, rep@) == replace_all(s@, pat@, rep@),
        decreases s@.len() - i,
    {
        let ghost rest = s@.skip(i as int);
        let ghost base = out@;
        if matches_at(s, i, pat) {
            let mut j: usize = 0;
            while j < rep.len()
                invariant
                    j <= rep@.len(),
                    out@ == base + rep@.take(j as int),
                decreases rep@.len() - j,
            {
                out.push(rep[j]);
                j = j + 1;
                assert(out@ =~= base + rep@.take(j as int));
            }
            assert(rep@.take(rep@.len() as int) =~= rep@);
            assert(s@.skip(i + pat@.len()) =~= rest.skip(pat@.len() as int));
            assert(replace_all(rest, pat@, rep@) == rep@ + replace_all(rest.skip(pat@.len() as int), pat@, rep@));
            assert(base + (rep@ + replace_all(rest.skip(pat@.len() as int), pat@, rep@)) =~= out@ + replace_all(rest.skip(pat@.len() as int), pat@, rep@));
            i = i + pat.len();
        } else {
            out.push(s[i]);
            assert(s@.skip(i + 1) =~= rest.drop_first());
            assert(rest[0] == s@[i as int]);
            assert(replace_all(rest, pat@, rep@) == seq![rest[0]] + replace_all(rest.drop_first(), pat@, rep@));
            assert(base + (seq![rest[0]] + replace_all(rest.drop_first(), pat@, rep@)) =~= out@ + replace_all(rest.drop_first(), pat@, rep@));
            i = i + 1;
        }
    }
    assert(s@.skip(i as int) =~= Seq::<char>::empty());
    assert(out@ + Seq::<char>::empty() =~= out@);
    out
}

/// The launcher's data directory under the user's data directory `d`.
pub open spec fn app_dir_of(d: Seq<char>) -> Seq<char> {
    d + seq!['/'] + APP_IDENTIFIER@
}

/// Relies on `dirs::data_dir`: the user's data directory, if the platform
/// has one. It depends on the machine and its environment.
#[verifier::external_body]
fn user_data_dir() -> (r: Option<String>) {
    dirs::data_dir().map(|d| d.to_string_lossy().into_owned())
}

/// The launcher's data directory under the user's data directory `data_dir`.
pub fn app_dir_under(data_dir: &str) -> (r: String)
    ensures
        r@ == app_dir_of(data_dir@),
{
    let mut v = chars_of(data_dir);
    v.push('/');
    let id = chars_of(APP_IDENTIFIER);
    let mut i: usize = 0;
    let ghost base = v@;
    while i < id.len()
        invariant
            i <= id@.len(),
            v@ == base + id@.take(i as int),
        decreases id@.len() - i,
    {
        v.push(id[i]);
        i = i + 1;
        assert(v@ =~= base + id@.take(i as int));
    }
    assert(id@.take(id@.len() as int) =~= id@);
    string_from_chars(&v)
}

/// The launcher's data directory, if the user's data directory is known.
pub fn app_data_dir() -> (r: Option<String>)
    ensures
        r matches Some(x) ==> exists|d: Seq<char>| x@ == app_dir_of(d),
{
    match user_data_dir() {
        Some(d) => Some(app_dir_under(d.as_str())),
        None => None,
    }
}

/// Resolves a path against the launcher's data directory `app_dir`:
/// backslashes become slashes, then each `$APPDATA` becomes `app_dir`.
pub fn expand_path(path: &str, app_dir: &str) -> (r: String)
    ensures
        r@ == expanded(path@, app_dir@),
{
    let cs = chars_of(path);
    let mut fwd: Vec<char> = Vec::new();
    let mut i: usize = 0;
    while i < cs.len()
        invariant
            i <= cs@.len(),
            fwd@ == forward_slashes(cs@).take(i as int),
        decreases cs@.len() - i,
    {
        let c = cs[i];
        fwd.push(if c == '\\' { '/' } else { c });
        i = i + 1;
        assert(fwd@ =~= forward_slashes(cs@).take(i as int));
    }
    assert(fwd@ =~= forward_slashes(cs@));
    let pat = chars_of("$APPDATA");
    let rep = chars_of(app_dir);
    let out = replace_all_chars(&fwd, &pat, &rep);
    string_from_chars(&out)
}

/// Resolves a path as the launcher stores it: backslashes become slashes and
/// `$APPDATA` stands for the launcher's data directory. `None` when the
/// user's data directory is unknown.
pub fn resolve_path(path: &str) -> (r: Option<String>)
    ensures
        r matches Some(x) ==> exists|d: Seq<char>| x@ == expanded(path@, app_dir_of(d)),
{
    match app_data_dir() {
        Some(dir) => Some(expand_path(path, dir.as_str())),
        None => None,
    }
}

fn equals_literal(v: &Vec<char>, lit: &str) -> (r: bool)
    ensures
        r == (v@ == lit@),
{
    string_from_chars(v) == lit.to_owned()
}

proof fn lemma_last_dot(s: Seq<char>, k: int)
    requires
        -1 <= k < s.len(),
        k == -1 || s[k] == '.',
        forall|j: int| k < j < s.len() ==> #[trigger] s[j] != '.',
    ensures
        last_dot(s) == if k == -1 { None::<int> } else { Some(k) },
    decreases s.len(),
{
    if s.len() > 0 && k < s.len() - 1 {
        if k >= 0 {
            assert(s.drop_last()[k] == s[k]);
        }
        lemma_last_dot(s.drop_last(), k);
    }
}

/// What a tool is, from its resolved path and whether a file exists there: a
/// DLL or an EXE by the file name's extension, else unknown; missing where
/// nothing exists.
pub fn classify_tool(resolved: &str, exists: bool) -> (r: ToolKind)
    ensures
        r == tool_kind_of(resolved@, exists),
{
    if !exists {
        return ToolKind::Missing;
    }
    let name_string = get_executable_name(resolved);
    let name = chars_of(name_string.as_str());
    if equals_literal(&name, "..") {
        return ToolKind::Unknown;
    }
    let mut k: usize = name.len();
    while k > 0 && name[k - 1] != '.'
        invariant
            k <= name@.len(),
            forall|j: int| k <= j < name@.len() ==> #[trigger] name@[j] != '.',
        decreases k,
    {
        k = k - 1;
    }
    proof {
        lemma_last_dot(name@, k - 1);
    }
    if k <= 1 {
        return ToolKind::Unknown;
    }
    let mut ext: Vec<char> = Vec::new();
    let mut i: usize = k;
    while i < name.len()
        invariant
            k <= i <= name@.len(),
            ext@ == name@.subrange(k as int, i as int),
        decreases name@.len() - i,
    {
        ext.push(name[i]);
        i = i + 1;
        assert(ext@ =~= name@.subrange(k as int, i as int));
    }
    assert(ext@ =~= name@.skip(k as int));
    if equals_literal(&ext, "dll") {
        ToolKind::Dll
    } else if equals_literal(&ext, "exe") {
        ToolKind::Exe
    } else {
        ToolKind::Unknown
    }
}

/// A canonical path as the launcher uses it: without the `\\?\` prefix that
/// Windows puts on canonical paths.
pub fn strip_verbatim_prefix(s: &str) -> (r: String)
    ensures
        r@ == without_verbatim_prefix(s@),
{
    let cs = chars_of(s);
    if cs.len() >= 4 && cs[0] == '\\' && cs[1] == '\\' && cs[2] == '?' && cs[3] == '\\' {
        assert(cs@.take(4) =~= "\\\\?\\"@) by {
            reveal_strlit("\\\\?\\");
        }
        let mut out: Vec<char> = Vec::new();
        let mut i: usize = 4;
        while i < cs.len()
            invariant
                4 <= i <= cs@.len(),
                out@ == cs@.subrange(4, i as int),
            decreases cs@.len() - i,
        {
            out.push(cs[i]);
            i = i + 1;
            assert(out@ =~= cs@.subrange(4, i as int));
        }
        assert(out@ =~= cs@.skip(4));
        string_from_chars(&out)
    } else {
        proof {
            reveal_strlit("\\\\?\\");
            if cs@.len() >= 4 && cs@.take(4) == "\\\\?\\"@ {
                assert(cs@.take(4)[0] == '\\');
                assert(cs@.take(4)[1] == '\\');
                assert(cs@.take(4)[2] == '?');
                assert(cs@.take(4)[3] == '\\');
            }
        }
        string_from_chars(&cs)
    }
}

/// What `str::trim` makes of a string.
pub uninterp spec fn trimmed_of(s: Seq<char>) -> Seq<char>;

/// Relies on `str::trim`: the string without leading and trailing white
/// space; the result depends on the characters alone.
#[verifier::external_body]
fn trim(s: &str) -> (r: String)
    ensures
        r@ == trimmed_of(s@),
{
    s.trim().to_owned()
}

/// Relies on `Path::canonicalize`: the absolute form of a path that exists,
/// with links resolved. It depends on what is on disk.
#[verifier::external_body]
fn canonical_path(path: &str) -> (r: Option<String>) {
    std::path::Path::new(path).canonicalize().ok().map(|p| p.to_string_lossy().into_owned())
}

/// Canonicalizes a path by the system's rules, resolving links and relative
/// parts; `None` where that fails (nothing exists there).
pub fn canonicalize(path: &str) -> (r: Option<String>)
    ensures
        r matches Some(x) ==> exists|raw: Seq<char>| x@ == without_verbatim_prefix(trimmed_of(raw)),
{
    match canonical_path(path) {
        Some(raw) => {
            let t = trim(raw.as_str());
            Some(strip_verbatim_prefix(t.as_str()))
        },
        None => None,
    }
}

/// Whether `s` begins with `p`.
pub open spec fn starts_with(s: Seq<char>, p: Seq<char>) -> bool {
    p.len() <= s.len() && s.take(p.len() as int) == p
}

/// The directory part of a path: everything before its last separator, or
/// nothing when it has none.
pub open spec fn parent_of(s: Seq<char>) -> Seq<char>
    decreases s.len(),
{
    if s.len() == 0 {
        s
    } else if is_separator(s.last()) {
        s.drop_last()
    } else {
        parent_of(s.drop_last())
    }
}

proof fn lemma_parent_prefix(s: Seq<char>, k: int)
    requires
        0 <= k <= s.len(),
        k == 0 || is_separator(s[k - 1]),
        forall|j: int| k <= j < s.len() ==> !is_separator(#[trigger] s[j]),
    ensures
        parent_of(s) == if k == 0 { Seq::<char>::empty() } else { s.take(k - 1) },
    decreases s.len(),
{
    if s.len() > 0 {
        if k == s.len() {
            assert(s.drop_last() =~= s.take(k - 1));
        } else {
            if k > 0 {
                assert(s.drop_last()[k - 1] == s[k - 1]);
                assert(s.drop_last().take(k - 1) =~= s.take(k - 1));
            }
            lemma_parent_prefix(s.drop_last(), k);
        }
    }
}

/// The directory that a program at `path` is started in: the path without
/// its last component.
pub fn working_dir_of(path: &str) -> (r: String)
    ensures
        r@ == parent_of(path@),
{
    let cs = chars_of(path);
    let mut k: usize = cs.len();
    while k > 0 && cs[k - 1] != '/' && cs[k - 1] != '\\'
        invariant
            k <= cs@.len(),
            forall|j: int| k <= j < cs@.len() ==> !is_separator(#[trigger] cs@[j]),
        decreases k,
    {
        k = k - 1;
    }
    proof {
        lemma_parent_prefix(cs@, k as int);
    }
    let mut out: Vec<char> = Vec::new();
    if k == 0 {
        return string_from_chars(&out);
    }
    let mut i: usize = 0;
    while i < k - 1
        invariant
            0 < k <= cs@.len(),
            i <= k - 1,
            out@ == cs@.take(i as int),
        decreases k - 1 - i,
    {
        out.push(cs[i]);
        i = i + 1;
        assert(out@ =~= cs@.take(i as int));
    }
    string_from_chars(&out)
}

fn has_prefix(s: &str, prefix: &str) -> (r: bool)
    ensures
        r == starts_with(s@, prefix@),
{
    let cs = chars_of(s);
    let ps = chars_of(prefix);
    if ps.len() > cs.len() {
        return false;
    }
    let mut i: usize = 0;
    while i < ps.len()
        invariant
            cs@ == s@,
            ps@ == prefix@,
            ps@.len() <= cs@.len(),
            i <= ps@.len(),
            forall|j: int| 0 <= j < i ==> cs@[j] == ps@[j],
        decreases ps@.len() - i,
    {
        if cs[i] != ps[i] {
            assert(s@.take(prefix@.len() as int)[i as int] != prefix@[i as int]);
            assert(s@.take(prefix@.len() as int) != prefix@);
            return false;
        }
        i = i + 1;
    }
    assert(cs@.take(ps@.len() as int) =~= ps@);
    true
}

/// Whether the anti-cheat driver is among the loaded drivers: some driver's
/// base name begins with the driver's name prefix.
pub fn driver_present(names: &Vec<String>, prefix: &str) -> (r: bool)
    ensures
        r == exists|i: int| 0 <= i < names@.len() && starts_with(#[trigger] names@[i]@, prefix@),
{
    let mut i: usize = 0;
    while i < names.len()
        invariant
            i <= names@.len(),
            forall|j: int| 0 <= j < i ==> !starts_with(#[trigger] names@[j]@, prefix@),
        decreases names@.len() - i,
    {
        if has_prefix(names[i].as_str(), prefix) {
            return true;
        }
        i = i + 1;
    }
    false
}

} // verus!
