//! Profiles and mods as storage keeps them, and their rebuilding against
//! the catalogue.

use crate::game::{GameManager, Mod, Profile, ProfileView, Tool, Version};
use crate::paths::{chars_of, string_from_chars};
use rand::Rng;
use vstd::prelude::*;

verus! {

/// A profile as storage keeps it: the version by its token, tools and mods
/// by their ids joined with commas.
#[derive(Debug)]
pub struct ProfileRecord {
    pub id: String,
    pub name: String,
    pub icon: String,
    pub version: String,
    pub tools: Option<String>,
    pub mods: Option<String>,
    pub launch_args: String,
}

/// A mod as storage keeps it: its tool by id.
#[derive(Debug)]
pub struct ModRecord {
    pub id: String,
    pub name: String,
    pub icon: String,
    pub path: String,
    pub version: String,
    pub tool: String,
}

/// What a profile record holds, as values.
pub struct ProfileRecordView {
    pub id: Seq<char>,
    pub name: Seq<char>,
    pub icon: Seq<char>,
    pub version: Seq<char>,
    pub tools: Option<Seq<char>>,
    pub mods: Option<Seq<char>>,
    pub launch_args: Seq<char>,
}

impl View for ProfileRecord {
    type V = ProfileRecordView;

    open spec fn view(&self) -> ProfileRecordView {
        ProfileRecordView {
            id: self.id@,
            name: self.name@,
            icon: self.icon@,
            version: self.version@,
            tools: match self.tools {
                Some(s) => Some(s@),
                None => None,
            },
            mods: match self.mods {
                Some(s) => Some(s@),
                None => None,
            },
            launch_args: self.launch_args@,
        }
    }
}

/// Ids joined with commas.
pub open spec fn join_ids(ids: Seq<Seq<char>>) -> Seq<char>
    decreases ids.len(),
{
    if ids.len() == 0 {
        Seq::empty()
    } else if ids.len() == 1 {
        ids[0]
    } else {
        join_ids(ids.drop_last()) + seq![','] + ids.last()
    }
}

/// The pieces of `s` between commas, the first one prefixed by `cur`.
pub open spec fn split_from(s: Seq<char>, cur: Seq<char>) -> Seq<Seq<char>>
    decreases s.len(),
{
    if s.len() == 0 {
        seq![cur]
    } else if s[0] == ',' {
        seq![cur] + split_from(s.drop_first(), Seq::empty())
    } else {
        split_from(s.drop_first(), cur.push(s[0]))
    }
}

/// The pieces of `s` between commas (one piece when there is no comma).
pub open spec fn split_ids(s: Seq<char>) -> Seq<Seq<char>> {
    split_from(s, Seq::empty())
}

/// The ids of tools.
pub open spec fn tool_ids(tools: Seq<Tool>) -> Seq<Seq<char>> {
    tools.map_values(|t: Tool| t.id@)
}

/// The ids of mods.
pub open spec fn mod_ids(mods: Seq<Mod>) -> Seq<Seq<char>> {
    mods.map_values(|m: Mod| m.id@)
}

/// The tokens of versions.
pub open spec fn version_tokens(versions: Seq<Version>) -> Seq<Seq<char>> {
    versions.map_values(|v: Version| v.version@)
}

/// The index of the first key equal to `id`.
pub open spec fn key_index(keys: Seq<Seq<char>>, id: Seq<char>) -> Option<int>
    decreases keys.len(),
{
    if keys.len() == 0 {
        None
    } else {
        match key_index(keys.drop_last(), id) {
            Some(i) => Some(i),
            None => if keys.last() == id {
                Some(keys.len() - 1)
            } else {
                None
            },
        }
    }
}

/// The items whose keys are `wanted`, in that order, each the first with its
/// key; a wanted key that no item has is passed over.
pub open spec fn resolve<T>(all: Seq<T>, keys: Seq<Seq<char>>, wanted: Seq<Seq<char>>) -> Seq<T>
    decreases wanted.len(),
{
    if wanted.len() == 0 {
        Seq::empty()
    } else {
        let prev = resolve(all, keys, wanted.drop_last());
        match key_index(keys, wanted.last()) {
            Some(i) => prev.push(all[i]),
            None => prev,
        }
    }
}

/// The items that a stored id list names.
pub open spec fn resolve_field<T>(all: Seq<T>, keys: Seq<Seq<char>>, field: Option<Seq<char>>) -> Seq<T> {
    match field {
        Some(s) => resolve(all, keys, split_ids(s)),
        None => Seq::empty(),
    }
}

/// The record under which a profile is stored.
pub open spec fn record_of(p: ProfileView) -> ProfileRecordView {
    ProfileRecordView {
        id: p.id,
        name: p.name,
        icon: p.icon,
        version: p.version.version@,
        tools: Some(join_ids(tool_ids(p.tools))),
        mods: Some(join_ids(mod_ids(p.mods))),
        launch_args: p.launch_args,
    }
}

/// The profile that a record stands for against a catalogue, if its version
/// is known.
pub open spec fn profile_of_record(
    versions: Seq<Version>,
    tools: Seq<Tool>,
    mods: Seq<Mod>,
    r: ProfileRecordView,
) -> Option<ProfileView> {
    match key_index(version_tokens(versions), r.version) {
        Some(i) => Some(
            ProfileView {
                id: r.id,
                name: r.name,
                icon: r.icon,
                version: versions[i],
                tools: resolve_field(tools, tool_ids(tools), r.tools),
                mods: resolve_field(mods, mod_ids(mods), r.mods),
                launch_args: r.launch_args,
            },
        ),
        None => None,
    }
}

proof fn lemma_key_index(keys: Seq<Seq<char>>, id: Seq<char>)
    ensures
        match key_index(keys, id) {
            Some(i) => 0 <= i < keys.len() && keys[i] == id && forall|j: int|
                0 <= j < i ==> #[trigger] keys[j] != id,
            None => forall|j: int| 0 <= j < keys.len() ==> #[trigger] keys[j] != id,
        },
    decreases keys.len(),
{
    if keys.len() > 0 {
        lemma_key_index(keys.drop_last(), id);
        assert forall|j: int| 0 <= j < keys.len() - 1 implies keys[j] == keys.drop_last()[j] by {}
    }
}

proof fn lemma_key_index_first(keys: Seq<Seq<char>>, id: Seq<char>, i: int)
    requires
        0 <= i < keys.len(),
        keys[i] == id,
        forall|j: int| 0 <= j < i ==> #[trigger] keys[j] != id,
    ensures
        key_index(keys, id) == Some(i),
{
    lemma_key_index(keys, id);
    if let Some(k) = key_index(keys, id) {
        if k < i {
            assert(keys[k] != id);
        } else if k > i {
            assert(keys[i] != id);
        }
    }
}

proof fn lemma_join_front(ids: Seq<Seq<char>>)
    requires
        ids.len() >= 2,
    ensures
        join_ids(ids) == ids[0] + seq![','] + join_ids(ids.drop_first()),
    decreases ids.len(),
{
    let rest = ids.drop_first();
    assert(join_ids(ids) == join_ids(ids.drop_last()) + seq![','] + ids.last());
    if ids.len() == 2 {
        assert(ids.drop_last().len() == 1);
        assert(join_ids(ids.drop_last()) == ids.drop_last()[0]);
        assert(ids.drop_last()[0] == ids[0]);
        assert(rest.len() == 1);
        assert(join_ids(rest) == rest[0]);
        assert(rest[0] == ids.last());
    } else {
        lemma_join_front(ids.drop_last());
        assert(ids.drop_last().drop_first() =~= rest.drop_last());
        assert(ids.drop_last()[0] == ids[0]);
        assert(rest.last() == ids.last());
        assert(join_ids(rest) == join_ids(rest.drop_last()) + seq![','] + rest.last());
        let a = ids[0] + seq![','];
        assert(a + join_ids(rest.drop_last()) + seq![','] + ids.last() =~= a + (join_ids(
            rest.drop_last(),
        ) + seq![','] + ids.last()));
    }
}

/// Whether `s` holds no comma.
pub open spec fn comma_free(s: Seq<char>) -> bool {
    forall|k: int| 0 <= k < s.len() ==> #[trigger] s[k] != ','
}

proof fn lemma_split_plain(x: Seq<char>, c: Seq<char>)
    requires
        comma_free(x),
    ensures
        split_from(x, c) == seq![c + x],
    decreases x.len(),
{
    if x.len() == 0 {
        assert(c + x =~= c);
    } else {
        assert(comma_free(x.drop_first())) by {
            assert forall|k: int| 0 <= k < x.drop_first().len() implies #[trigger] x.drop_first()[k] != ',' by {
                assert(x.drop_first()[k] == x[k + 1]);
            }
        }
        lemma_split_plain(x.drop_first(), c.push(x[0]));
        assert(c.push(x[0]) + x.drop_first() =~= c + x);
    }
}

proof fn lemma_split_piece(x: Seq<char>, r: Seq<char>, c: Seq<char>)
    requires
        comma_free(x),
    ensures
        split_from(x + seq![','] + r, c) == seq![c + x] + split_from(r, Seq::empty()),
    decreases x.len(),
{
    let s = x + seq![','] + r;
    if x.len() == 0 {
        assert(s[0] == ',');
        assert(s.drop_first() =~= r);
        assert(c + x =~= c);
    } else {
        assert(s[0] == x[0]);
        assert(s.drop_first() =~= x.drop_first() + seq![','] + r);
        assert(comma_free(x.drop_first())) by {
            assert forall|k: int| 0 <= k < x.drop_first().len() implies #[trigger] x.drop_first()[k] != ',' by {
                assert(x.drop_first()[k] == x[k + 1]);
            }
        }
        lemma_split_piece(x.drop_first(), r, c.push(x[0]));
        assert(c.push(x[0]) + x.drop_first() =~= c + x);
    }
}

proof fn lemma_split_join(ids: Seq<Seq<char>>)
    requires
        ids.len() >= 1,
        forall|i: int| 0 <= i < ids.len() ==> comma_free(#[trigger] ids[i]),
    ensures
        split_ids(join_ids(ids)) == ids,
    decreases ids.len(),
{
    if ids.len() == 1 {
        lemma_split_plain(ids[0], Seq::empty());
        assert(Seq::<char>::empty() + ids[0] =~= ids[0]);
        assert(seq![ids[0]] =~= ids);
    } else {
        lemma_join_front(ids);
        assert(comma_free(ids[0]));
        lemma_split_piece(ids[0], join_ids(ids.drop_first()), Seq::empty());
        assert forall|i: int| 0 <= i < ids.drop_first().len() implies comma_free(#[trigger] ids.drop_first()[i]) by {
            assert(ids.drop_first()[i] == ids[i + 1]);
        }
        lemma_split_join(ids.drop_first());
        assert(Seq::<char>::empty() + ids[0] =~= ids[0]);
        assert(seq![ids[0]] + ids.drop_first() =~= ids);
    }
}

proof fn lemma_resolve_own<T>(all: Seq<T>, keys: Seq<Seq<char>>, items: Seq<T>, ids: Seq<Seq<char>>)
    requires
        ids.len() == items.len(),
        forall|i: int| 0 <= i < items.len() ==> match key_index(keys, #[trigger] ids[i]) {
            Some(j) => 0 <= j < all.len() && all[j] == items[i],
            None => false,
        },
    ensures
        resolve(all, keys, ids) == items,
    decreases ids.len(),
{
    if ids.len() > 0 {
        assert forall|i: int| 0 <= i < items.drop_last().len() implies match key_index(keys, #[trigger] ids.drop_last()[i]) {
            Some(j) => 0 <= j < all.len() && all[j] == items.drop_last()[i],
            None => false,
        } by {
            assert(ids.drop_last()[i] == ids[i]);
        }
        lemma_resolve_own(all, keys, items.drop_last(), ids.drop_last());
        let k = ids.len() - 1;
        assert(ids.last() == ids[k]);
        assert(items.drop_last().push(items.last()) =~= items);
    }
}

/// Storing a profile and reading it back against the catalogue gives the
/// same profile, with the same tools and mods in the same order and the same
/// version. This holds when the catalogue's first version with the profile's
/// token is the profile's version; each tool and mod of the profile is the
/// catalogue's first with its id, and its id holds no comma; and no tool or
/// mod of the catalogue has an empty id.
pub proof fn lemma_profile_round_trip(
    versions: Seq<Version>,
    tools: Seq<Tool>,
    mods: Seq<Mod>,
    p: ProfileView,
)
    requires
        match key_index(version_tokens(versions), p.version.version@) {
            Some(i) => versions[i] == p.version,
            None => false,
        },
        forall|i: int| 0 <= i < p.tools.len() ==> match key_index(tool_ids(tools), #[trigger] p.tools[i].id@) {
            Some(j) => tools[j] == p.tools[i],
            None => false,
        },
        forall|i: int| 0 <= i < p.mods.len() ==> match key_index(mod_ids(mods), #[trigger] p.mods[i].id@) {
            Some(j) => mods[j] == p.mods[i],
            None => false,
        },
        forall|i: int| 0 <= i < p.tools.len() ==> comma_free(#[trigger] p.tools[i].id@),
        forall|i: int| 0 <= i < p.mods.len() ==> comma_free(#[trigger] p.mods[i].id@),
        forall|i: int| 0 <= i < tools.len() ==> (#[trigger] tools[i]).id@.len() > 0,
        forall|i: int| 0 <= i < mods.len() ==> (#[trigger] mods[i]).id@.len() > 0,
    ensures
        profile_of_record(versions, tools, mods, record_of(p)) == Some(p),
{
    lemma_field_round_trip(tools, tool_ids(tools), p.tools, tool_ids(p.tools));
    lemma_field_round_trip(mods, mod_ids(mods), p.mods, mod_ids(p.mods));
    lemma_key_index(version_tokens(versions), p.version.version@);
}

proof fn lemma_field_round_trip<T>(all: Seq<T>, keys: Seq<Seq<char>>, items: Seq<T>, ids: Seq<Seq<char>>)
    requires
        ids.len() == items.len(),
        keys.len() == all.len(),
        forall|i: int| 0 <= i < items.len() ==> match key_index(keys, #[trigger] ids[i]) {
            Some(j) => all[j] == items[i],
            None => false,
        },
        forall|i: int| 0 <= i < ids.len() ==> comma_free(#[trigger] ids[i]),
        forall|i: int| 0 <= i < keys.len() ==> (#[trigger] keys[i]).len() > 0,
    ensures
        resolve_field(all, keys, Some(join_ids(ids))) == items,
{
    if ids.len() == 0 {
        assert(join_ids(ids) == Seq::<char>::empty());
        assert(split_ids(Seq::<char>::empty()) == seq![Seq::<char>::empty()]);
        lemma_key_index(keys, Seq::<char>::empty());
        assert(key_index(keys, Seq::<char>::empty()) is None) by {
            if let Some(j) = key_index(keys, Seq::<char>::empty()) {
                assert(keys[j].len() > 0);
            }
        }
        let w = seq![Seq::<char>::empty()];
        assert(w.drop_last() =~= Seq::<Seq<char>>::empty());
        assert(resolve(all, keys, w.drop_last()) == Seq::<T>::empty());
        assert(w.last() == Seq::<char>::empty());
        assert(resolve(all, keys, w) == Seq::<T>::empty());
        assert(items =~= Seq::<T>::empty());
    } else {
        lemma_split_join(ids);
        assert forall|i: int| 0 <= i < items.len() implies match key_index(keys, #[trigger] ids[i]) {
            Some(j) => 0 <= j < all.len() && all[j] == items[i],
            None => false,
        } by {
            lemma_key_index(keys, ids[i]);
        }
        lemma_resolve_own(all, keys, items, ids);
    }
}

/// The views of strings.
pub open spec fn views(v: Seq<String>) -> Seq<Seq<char>> {
    v.map_values(|x: String| x@)
}

proof fn lemma_views_push(v: Seq<String>, x: String)
    ensures
        views(v.push(x)) == views(v).push(x@),
{
    assert(views(v.push(x)) =~= views(v).push(x@));
}

proof fn lemma_take_push<A>(s: Seq<A>, i: int)
    requires
        0 <= i < s.len(),
    ensures
        s.take(i + 1) == s.take(i).push(s[i]),
{
    assert(s.take(i + 1) =~= s.take(i).push(s[i]));
}

fn join_strings(ids: &Vec<String>) -> (r: String)
    ensures
        r@ == join_ids(views(ids@)),
{
    let ghost all = views(ids@);
    let mut out: Vec<char> = Vec::new();
    let mut i: usize = 0;
    while i < ids.len()
        invariant
            i <= ids@.len(),
            all == views(ids@),
            out@ == join_ids(all.take(i as int)),
        decreases ids@.len() - i,
    {
        let ghost before = out@;
        if i > 0 {
            out.push(',');
        }
        let cs = chars_of(ids[i].as_str());
        let mut k: usize = 0;
        let ghost mid = out@;
        while k < cs.len()
            invariant
                k <= cs@.len(),
                out@ == mid + cs@.take(k as int),
            decreases cs@.len() - k,
        {
            out.push(cs[k]);
            k = k + 1;
            assert(out@ =~= mid + cs@.take(k as int));
        }
        assert(cs@.take(cs@.len() as int) =~= cs@);
        let ghost t = all.take(i + 1);
        assert(t.drop_last() =~= all.take(i as int));
        assert(t.last() == all[i as int]);
        if i == 0 {
            assert(t.len() == 1);
            assert(mid =~= Seq::<char>::empty());
            assert(out@ =~= t[0]);
        } else {
            assert(out@ =~= before + seq![','] + all[i as int]);
        }
        i = i + 1;
    }
    assert(all.take(ids@.len() as int) =~= all);
    string_from_chars(&out)
}

fn split_field(s: &str) -> (r: Vec<String>)
    ensures
        views(r@) == split_ids(s@),
{
    let cs = chars_of(s);
    let mut pieces: Vec<String> = Vec::new();
    let mut cur: Vec<char> = Vec::new();
    let mut i: usize = 0;
    assert(cs@.skip(0) =~= cs@);
    while i < cs.len()
        invariant
            i <= cs@.len(),
            cs@ == s@,
            views(pieces@) + split_from(cs@.skip(i as int), cur@) == split_ids(s@),
        decreases cs@.len() - i,
    {
        let ghost rest = cs@.skip(i as int);
        let ghost before = views(pieces@);
        assert(rest[0] == cs@[i as int]);
        assert(rest.drop_first() =~= cs@.skip(i + 1));
        if cs[i] == ',' {
            let piece = string_from_chars(&cur);
            pieces.push(piece);
            assert(views(pieces@) =~= before + seq![cur@]);
            cur = Vec::new();
            assert(before + (seq![piece@] + split_from(rest.drop_first(), Seq::empty())) =~= views(pieces@)
                + split_from(cs@.skip(i + 1), cur@));
        } else {
            cur.push(cs[i]);
        }
        i = i + 1;
    }
    assert(cs@.skip(i as int) =~= Seq::<char>::empty());
    let last = string_from_chars(&cur);
    let ghost before = views(pieces@);
    pieces.push(last);
    assert(views(pieces@) =~= before + seq![cur@]);
    pieces
}

fn key_position(keys: &Vec<String>, id: &String) -> (r: Option<usize>)
    ensures
        match key_index(views(keys@), id@) {
            Some(i) => r matches Some(j) && j as int == i,
            None => r is None,
        },
{
    let ghost all = views(keys@);
    let mut i: usize = 0;
    while i < keys.len()
        invariant
            i <= keys@.len(),
            all == views(keys@),
            forall|j: int| 0 <= j < i ==> #[trigger] all[j] != id@,
        decreases keys@.len() - i,
    {
        if keys[i] == *id {
            proof {
                lemma_key_index_first(all, id@, i as int);
            }
            return Some(i);
        }
        i = i + 1;
    }
    proof {
        lemma_key_index(all, id@);
    }
    None
}

fn tool_keys(tools: &Vec<Tool>) -> (r: Vec<String>)
    ensures
        views(r@) == tool_ids(tools@),
{
    let mut out: Vec<String> = Vec::new();
    let mut i: usize = 0;
    while i < tools.len()
        invariant
            i <= tools@.len(),
            views(out@) == tool_ids(tools@).take(i as int),
        decreases tools@.len() - i,
    {
        let ghost before = out@;
        let x = tools[i].id.clone();
        out.push(x);
        proof {
            lemma_views_push(before, x);
            lemma_take_push(tool_ids(tools@), i as int);
        }
        i = i + 1;
    }
    assert(tool_ids(tools@).take(i as int) =~= tool_ids(tools@));
    out
}

fn mod_keys(mods: &Vec<Mod>) -> (r: Vec<String>)
    ensures
        views(r@) == mod_ids(mods@),
{
    let mut out: Vec<String> = Vec::new();
    let mut i: usize = 0;
    while i < mods.len()
        invariant
            i <= mods@.len(),
            views(out@) == mod_ids(mods@).take(i as int),
        decreases mods@.len() - i,
    {
        let ghost before = out@;
        let x = mods[i].id.clone();
        out.push(x);
        proof {
            lemma_views_push(before, x);
            lemma_take_push(mod_ids(mods@), i as int);
        }
        i = i + 1;
    }
    assert(mod_ids(mods@).take(i as int) =~= mod_ids(mods@));
    out
}

fn version_keys(versions: &Vec<Version>) -> (r: Vec<String>)
    ensures
        views(r@) == version_tokens(versions@),
{
    let mut out: Vec<String> = Vec::new();
    let mut i: usize = 0;
    while i < versions.len()
        invariant
            i <= versions@.len(),
            views(out@) == version_tokens(versions@).take(i as int),
        decreases versions@.len() - i,
    {
        let ghost before = out@;
        let x = versions[i].version.clone();
        out.push(x);
        proof {
            lemma_views_push(before, x);
            lemma_take_push(version_tokens(versions@), i as int);
        }
        i = i + 1;
    }
    assert(version_tokens(versions@).take(i as int) =~= version_tokens(versions@));
    out
}

fn resolve_tools(all: &Vec<Tool>, field: &Option<String>) -> (r: Vec<Tool>)
    ensures
        r@ == resolve_field(all@, tool_ids(all@), match field {
            Some(s) => Some(s@),
            None => None,
        }),
{
    let mut out: Vec<Tool> = Vec::new();
    match field {
        None => {
            assert(out@ =~= Seq::<Tool>::empty());
            out
        },
        Some(s) => {
            let keys = tool_keys(all);
            let wanted = split_field(s.as_str());
            let ghost w = views(wanted@);
            let mut i: usize = 0;
            while i < wanted.len()
                invariant
                    i <= wanted@.len(),
                    w == views(wanted@),
                    views(keys@) == tool_ids(all@),
                    tool_ids(all@).len() == all@.len(),
                    out@ == resolve(all@, tool_ids(all@), w.take(i as int)),
                decreases wanted@.len() - i,
            {
                let ghost t = w.take(i + 1);
                assert(t.drop_last() =~= w.take(i as int));
                assert(t.last() == w[i as int]);
                proof {
                    lemma_key_index(tool_ids(all@), w[i as int]);
                }
                assert(w[i as int] == wanted@[i as int]@);
                let ghost before = out@;
                assert(resolve(all@, tool_ids(all@), t) == match key_index(tool_ids(all@), t.last()) {
                    Some(j) => before.push(all@[j]),
                    None => before,
                });
                match key_position(&keys, &wanted[i]) {
                    Some(j) => {
                        let item = all[j].clone();
                        out.push(item);
                        assert(out@ == before.push(all@[j as int]));
                    },
                    None => {},
                }
                i = i + 1;
            }
            assert(w.take(i as int) =~= w);
            out
        },
    }
}

fn resolve_mods(all: &Vec<Mod>, field: &Option<String>) -> (r: Vec<Mod>)
    ensures
        r@ == resolve_field(all@, mod_ids(all@), match field {
            Some(s) => Some(s@),
            None => None,
        }),
{
    let mut out: Vec<Mod> = Vec::new();
    match field {
        None => {
            assert(out@ =~= Seq::<Mod>::empty());
            out
        },
        Some(s) => {
            let keys = mod_keys(all);
            let wanted = split_field(s.as_str());
            let ghost w = views(wanted@);
            let mut i: usize = 0;
            while i < wanted.len()
                invariant
                    i <= wanted@.len(),
                    w == views(wanted@),
                    views(keys@) == mod_ids(all@),
                    mod_ids(all@).len() == all@.len(),
                    out@ == resolve(all@, mod_ids(all@), w.take(i as int)),
                decreases wanted@.len() - i,
            {
                let ghost t = w.take(i + 1);
                assert(t.drop_last() =~= w.take(i as int));
                assert(t.last() == w[i as int]);
                proof {
                    lemma_key_index(mod_ids(all@), w[i as int]);
                }
                assert(w[i as int] == wanted@[i as int]@);
                let ghost before = out@;
                assert(resolve(all@, mod_ids(all@), t) == match key_index(mod_ids(all@), t.last()) {
                    Some(j) => before.push(all@[j]),
                    None => before,
                });
                match key_position(&keys, &wanted[i]) {
                    Some(j) => {
                        let item = all[j].clone();
                        out.push(item);
                        assert(out@ == before.push(all@[j as int]));
                    },
                    None => {},
                }
                i = i + 1;
            }
            assert(w.take(i as int) =~= w);
            out
        },
    }
}

impl Profile {
    /// The record under which storage keeps this profile.
    pub fn to_record(&self) -> (r: ProfileRecord)
        ensures
            r@ == record_of(self@),
    {
        let mut tool_id_list: Vec<String> = Vec::new();
        let mut i: usize = 0;
        while i < self.tools.len()
            invariant
                i <= self.tools@.len(),
                views(tool_id_list@) == tool_ids(self.tools@).take(i as int),
            decreases self.tools@.len() - i,
        {
            let ghost before = tool_id_list@;
            let x = self.tools[i].id.clone();
            tool_id_list.push(x);
            proof {
                lemma_views_push(before, x);
                lemma_take_push(tool_ids(self.tools@), i as int);
            }
            i = i + 1;
        }
        assert(tool_ids(self.tools@).take(i as int) =~= tool_ids(self.tools@));
        let mut mod_id_list: Vec<String> = Vec::new();
        let mut k: usize = 0;
        while k < self.mods.len()
            invariant
                k <= self.mods@.len(),
                views(mod_id_list@) == mod_ids(self.mods@).take(k as int),
            decreases self.mods@.len() - k,
        {
            let ghost before = mod_id_list@;
            let x = self.mods[k].id.clone();
            mod_id_list.push(x);
            proof {
                lemma_views_push(before, x);
                lemma_take_push(mod_ids(self.mods@), k as int);
            }
            k = k + 1;
        }
        assert(mod_ids(self.mods@).take(k as int) =~= mod_ids(self.mods@));
        ProfileRecord {
            id: self.id.clone(),
            name: self.name.clone(),
            icon: self.icon.clone(),
            version: self.version.version.clone(),
            tools: Some(join_strings(&tool_id_list)),
            mods: Some(join_strings(&mod_id_list)),
            launch_args: self.launch_args.clone(),
        }
    }
}

impl GameManager {
    /// The profile that a stored record stands for: its version is the first
    /// known version with the record's token, its tools and mods are those
    /// the record names, in order (an unknown id is passed over). `None`
    /// when the version is not known.
    pub fn profile_from_record(&self, rec: &ProfileRecord) -> (r: Option<Profile>)
        ensures
            match profile_of_record(self.versions@, self.tools@, self.mods@, rec@) {
                Some(v) => r matches Some(p) && p@ == v,
                None => r is None,
            },
    {
        let keys = version_keys(&self.versions);
        proof {
            lemma_key_index(version_tokens(self.versions@), rec.version@);
        }
        assert(rec@.version == rec.version@);
        match key_position(&keys, &rec.version) {
            None => {
                assert(key_index(version_tokens(self.versions@), rec@.version) is None);
                None
            },
            Some(i) => {
                assert(key_index(version_tokens(self.versions@), rec@.version) == Some(i as int));
                let tools = resolve_tools(&self.tools, &rec.tools);
                let mods = resolve_mods(&self.mods, &rec.mods);
                assert(tools@ == resolve_field(self.tools@, tool_ids(self.tools@), rec@.tools));
                assert(mods@ == resolve_field(self.mods@, mod_ids(self.mods@), rec@.mods));
                Some(
                    Profile {
                        id: rec.id.clone(),
                        name: rec.name.clone(),
                        icon: rec.icon.clone(),
                        version: self.versions[i].clone(),
                        tools,
                        mods,
                        launch_args: rec.launch_args.clone(),
                    },
                )
            },
        }
    }
}

/// The profiles that stored records stand for, in order; a record whose
/// version is unknown is passed over.
pub open spec fn profiles_of_records(
    versions: Seq<Version>,
    tools: Seq<Tool>,
    mods: Seq<Mod>,
    recs: Seq<ProfileRecordView>,
) -> Seq<ProfileView>
    decreases recs.len(),
{
    if recs.len() == 0 {
        Seq::empty()
    } else {
        let prev = profiles_of_records(versions, tools, mods, recs.drop_last());
        match profile_of_record(versions, tools, mods, recs.last()) {
            Some(p) => prev.push(p),
            None => prev,
        }
    }
}

/// The views of profiles.
pub open spec fn profile_views(ps: Seq<Profile>) -> Seq<ProfileView> {
    ps.map_values(|p: Profile| p@)
}

/// The views of profile records.
pub open spec fn record_views(rs: Seq<ProfileRecord>) -> Seq<ProfileRecordView> {
    rs.map_values(|r: ProfileRecord| r@)
}

/// The mod that a stored record stands for: its tool is the first known tool
/// with the record's tool id. `None` when that tool is not known.
pub open spec fn mod_of_record(tools: Seq<Tool>, r: ModRecord) -> Option<Mod> {
    match key_index(tool_ids(tools), r.tool@) {
        Some(i) => Some(
            Mod {
                id: r.id,
                name: r.name,
                icon: r.icon,
                path: r.path,
                version: r.version,
                tool: tools[i],
            },
        ),
        None => None,
    }
}

impl GameManager {
    /// Replaces the profiles with those that stored records stand for,
    /// passing over records whose version is unknown.
    pub fn load_profiles(&mut self, records: &Vec<ProfileRecord>)
        ensures
            profile_views(final(self).profiles@) == profiles_of_records(
                old(self).versions@,
                old(self).tools@,
                old(self).mods@,
                record_views(records@),
            ),
            final(self).versions@ == old(self).versions@,
            final(self).tools@ == old(self).tools@,
            final(self).mods@ == old(self).mods@,
    {
        self.profiles = Vec::new();
        let ghost rs = record_views(records@);
        let mut i: usize = 0;
        assert(profile_views(self.profiles@) =~= Seq::<ProfileView>::empty());
        while i < records.len()
            invariant
                i <= records@.len(),
                rs == record_views(records@),
                self.versions@ == old(self).versions@,
                self.tools@ == old(self).tools@,
                self.mods@ == old(self).mods@,
                profile_views(self.profiles@) == profiles_of_records(
                    self.versions@,
                    self.tools@,
                    self.mods@,
                    rs.take(i as int),
                ),
            decreases records@.len() - i,
        {
            let ghost t = rs.take(i + 1);
            assert(t.drop_last() =~= rs.take(i as int));
            assert(t.last() == records@[i as int]@);
            let ghost before = self.profiles@;
            match self.profile_from_record(&records[i]) {
                Some(p) => {
                    self.profiles.push(p);
                    assert(profile_views(self.profiles@) =~= profile_views(before).push(p@));
                },
                None => {},
            }
            i = i + 1;
        }
        assert(rs.take(i as int) =~= rs);
    }

    /// The mod that a stored record stands for, if its tool is known.
    pub fn mod_from_record(&self, rec: &ModRecord) -> (r: Option<Mod>)
        ensures
            r == mod_of_record(self.tools@, *rec),
    {
        let keys = tool_keys(&self.tools);
        proof {
            lemma_key_index(tool_ids(self.tools@), rec.tool@);
        }
        match key_position(&keys, &rec.tool) {
            None => {
                assert(key_index(tool_ids(self.tools@), rec.tool@) is None);
                None
            },
            Some(i) => Some(
                Mod {
                    id: rec.id.clone(),
                    name: rec.name.clone(),
                    icon: rec.icon.clone(),
                    path: rec.path.clone(),
                    version: rec.version.clone(),
                    tool: self.tools[i].clone(),
                },
            ),
        }
    }
}

/// The length of a profile id.
pub const ID_LEN: usize = 16;

/// Whether `c` is an ASCII letter or digit.
pub open spec fn is_alphanumeric(c: char) -> bool {
    let n = c as u32;
    (0x30 <= n <= 0x39) || (0x41 <= n <= 0x5A) || (0x61 <= n <= 0x7A)
}

/// Relies on rand's `Alphanumeric` distribution over the thread-local
/// generator: `n` draws, each an ASCII letter or digit.
#[verifier::external_body]
fn random_alphanumeric(n: usize) -> (r: String)
    ensures
        r@.len() == n,
        forall|i: int| 0 <= i < r@.len() ==> is_alphanumeric(#[trigger] r@[i]),
{
    rand::rng().sample_iter(&rand::distr::Alphanumeric).take(n).map(char::from).collect()
}

/// A fresh random profile id: sixteen ASCII letters and digits.
pub fn random_id() -> (r: String)
    ensures
        r@.len() == ID_LEN,
        forall|i: int| 0 <= i < r@.len() ==> is_alphanumeric(#[trigger] r@[i]),
{
    random_alphanumeric(ID_LEN)
}

impl GameManager {
    /// Gives a new profile a fresh random id and returns the record under
    /// which storage is to keep it.
    pub fn save_profile(&self, profile: Profile) -> (r: ProfileRecord)
        ensures
            r@ == record_of(ProfileView { id: r@.id, ..profile@ }),
            r@.id.len() == ID_LEN,
            forall|i: int| 0 <= i < r@.id.len() ==> is_alphanumeric(#[trigger] r@.id[i]),
    {
        let mut profile = profile;
        profile.id = random_id();
        profile.to_record()
    }
}

} // verus!
