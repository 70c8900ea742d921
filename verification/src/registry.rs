//! The profile registry: an in-memory mapping from profile name to the
//! path of its backing file, rebuilt on every run from a directory scan.
//!
//! The mapping is held as a vector of entries whose names are pairwise
//! distinct; its mathematical content is the map from name to path.  On a
//! duplicate name the later entry wins, as with a plain map insertion.

use vstd::prelude::*;

use crate::errors::ProfileError;
use crate::names::has_suffix_occurrence;
use crate::names::lemma_suffix_round_trip;
use crate::names::profile_name_of;
use crate::names::split_prefix;
use crate::names::suffix_chars;

verus! {

/// One registered profile: its name and the path of its backing file.
pub struct ProfileEntry {
    pub name: String,
    pub path: String,
}

/// The registry mapping, keyed by profile name.
pub struct Registry {
    entries: Vec<ProfileEntry>,
}

impl Registry {
    /// The entries in scan order.
    pub closed spec fn entries_seq(&self) -> Seq<ProfileEntry> {
        self.entries@
    }

    /// Names are pairwise distinct, so the mapping is a function.
    pub open spec fn wf(&self) -> bool {
        forall|i: int, j: int|
            0 <= i < j < self.entries_seq().len() ==> #[trigger] self.entries_seq()[i].name@
                != #[trigger] self.entries_seq()[j].name@
    }

    /// Backing paths are pairwise distinct, as they are when the entries
    /// come from distinct files of one directory.
    pub open spec fn paths_distinct(&self) -> bool {
        forall|i: int, j: int|
            0 <= i < j < self.entries_seq().len() ==> #[trigger] self.entries_seq()[i].path@
                != #[trigger] self.entries_seq()[j].path@
    }

    /// Some entry carries the name `k`.
    pub open spec fn contains_name(&self, k: Seq<char>) -> bool {
        exists|i: int|
            0 <= i < self.entries_seq().len() && (#[trigger] self.entries_seq()[i]).name@ == k
    }

    /// The position of the entry named `k` (meaningful when `wf()` holds
    /// and `k` is present).
    pub open spec fn index_of_name(&self, k: Seq<char>) -> int {
        choose|i: int|
            0 <= i < self.entries_seq().len() && (#[trigger] self.entries_seq()[i]).name@ == k
    }

    /// The registry as a map from profile name to backing path.
    pub open spec fn as_map(&self) -> Map<Seq<char>, Seq<char>> {
        Map::new(
            |k: Seq<char>| self.contains_name(k),
            |k: Seq<char>| self.entries_seq()[self.index_of_name(k)].path@,
        )
    }

    /// With distinct names, the position of a present name is unique.
    pub proof fn lemma_index_of_name(&self, k: Seq<char>, i: int)
        requires
            self.wf(),
            0 <= i < self.entries_seq().len(),
            self.entries_seq()[i].name@ == k,
        ensures
            self.contains_name(k),
            self.index_of_name(k) == i,
            self.as_map().contains_key(k),
            self.as_map()[k] == self.entries_seq()[i].path@,
    {
        assert(self.contains_name(k));
        let j = self.index_of_name(k);
        if i < j {
            assert(self.entries_seq()[i].name@ != self.entries_seq()[j].name@);
        } else if j < i {
            assert(self.entries_seq()[j].name@ != self.entries_seq()[i].name@);
        }
    }

    /// An empty registry.
    pub fn new() -> (r: Registry)
        ensures
            r.wf(),
            r.paths_distinct(),
            r.entries_seq() == Seq::<ProfileEntry>::empty(),
            r.as_map() == Map::<Seq<char>, Seq<char>>::empty(),
    {
        let r = Registry { entries: Vec::new() };
        proof {
            assert(r.entries_seq() =~= Seq::<ProfileEntry>::empty());
            assert(r.as_map() =~= Map::<Seq<char>, Seq<char>>::empty());
        }
        r
    }

    /// Record `name -> path`, replacing the entry of an already-present
    /// name in place and appending a fresh name at the end.
    pub fn insert(&mut self, name: String, path: String)
        requires
            old(self).wf(),
        ensures
            final(self).wf(),
            final(self).as_map() == old(self).as_map().insert(name@, path@),
            old(self).contains_name(name@) ==> final(self).entries_seq() == old(
                self,
            ).entries_seq().update(
                old(self).index_of_name(name@),
                (ProfileEntry { name, path }),
            ),
            !old(self).contains_name(name@) ==> final(self).entries_seq() == old(
                self,
            ).entries_seq().push((ProfileEntry { name, path })),
    {
        let n = self.entries.len();
        let mut i: usize = 0;
        while i < n
            invariant
                n == self.entries@.len(),
                i <= n,
                old(self).wf(),
                *self == *old(self),
                forall|k: int| 0 <= k < i ==> (#[trigger] self.entries@[k]).name@ != name@,
            decreases n - i,
        {
            if self.entries[i].name == name {
                proof {
                    old(self).lemma_index_of_name(name@, i as int);
                }
                self.entries[i] = ProfileEntry { name, path };
                proof {
                    lemma_insert_replace(*old(self), *self, i as int);
                }
                return ;
            }
            i += 1;
        }
        self.entries.push(ProfileEntry { name, path });
        proof {
            lemma_insert_push(*old(self), *self);
        }
    }

    /// Look up the backing path of the profile named `name`.
    pub fn lookup<'a>(&'a self, name: &String) -> (r: Option<&'a String>)
        requires
            self.wf(),
        ensures
            match r {
                Some(p) => self.contains_name(name@) && p@ == self.as_map()[name@],
                None => !self.contains_name(name@),
            },
    {
        let n = self.entries.len();
        let mut i: usize = 0;
        while i < n
            invariant
                n == self.entries@.len(),
                i <= n,
                self.wf(),
                forall|k: int| 0 <= k < i ==> (#[trigger] self.entries@[k]).name@ != name@,
            decreases n - i,
        {
            if self.entries[i].name == *name {
                proof {
                    self.lemma_index_of_name(name@, i as int);
                }
                return Some(&self.entries[i].path);
            }
            i += 1;
        }
        None
    }
}

/// `i` is the position of an entry whose backing path is `t`.
pub open spec fn path_match_at(reg: Registry, t: Seq<char>, i: int) -> bool {
    0 <= i < reg.entries_seq().len() && reg.entries_seq()[i].path@ == t
}

/// `i` is the position of the first entry whose backing path is `t`.
pub open spec fn is_first_path_match(reg: Registry, t: Seq<char>, i: int) -> bool {
    &&& path_match_at(reg, t, i)
    &&& forall|j: int| 0 <= j < i ==> !path_match_at(reg, t, j)
}

/// The name under which the path `t` is registered: the name of the first
/// entry backed by `t`, or nothing if no entry is.
pub open spec fn spec_name_for_path(reg: Registry, t: Seq<char>) -> Option<Seq<char>> {
    if exists|i: int| path_match_at(reg, t, i) {
        Some(reg.entries_seq()[choose|i: int| is_first_path_match(reg, t, i)].name@)
    } else {
        None
    }
}

/// At most one position is the first match of a path.
pub proof fn lemma_first_path_match_unique(reg: Registry, t: Seq<char>, a: int, b: int)
    requires
        is_first_path_match(reg, t, a),
        is_first_path_match(reg, t, b),
    ensures
        a == b,
{
    if a < b {
        assert(!path_match_at(reg, t, a));
    } else if b < a {
        assert(!path_match_at(reg, t, b));
    }
}

/// A match of a path somewhere implies a first match somewhere.
pub proof fn lemma_first_path_match_exists(reg: Registry, t: Seq<char>, i: int)
    requires
        path_match_at(reg, t, i),
    ensures
        exists|f: int| is_first_path_match(reg, t, f),
    decreases i,
{
    if forall|j: int| 0 <= j < i ==> !path_match_at(reg, t, j) {
        assert(is_first_path_match(reg, t, i));
    } else {
        let j = choose|j: int| 0 <= j < i && path_match_at(reg, t, j);
        lemma_first_path_match_exists(reg, t, j);
    }
}

/// A name the reverse lookup reports is a key of the mapping, bound to
/// the path looked up.
pub proof fn lemma_name_for_path_in_map(reg: Registry, t: Seq<char>)
    requires
        reg.wf(),
        spec_name_for_path(reg, t) is Some,
    ensures
        reg.as_map().contains_key(spec_name_for_path(reg, t)->Some_0),
        reg.as_map()[spec_name_for_path(reg, t)->Some_0] == t,
{
    let w = choose|w: int| path_match_at(reg, t, w);
    lemma_first_path_match_exists(reg, t, w);
    let i = choose|i: int| is_first_path_match(reg, t, i);
    reg.lemma_index_of_name(reg.entries_seq()[i].name@, i);
}

/// With pairwise-distinct backing paths, the reverse lookup of a bound
/// path reports exactly the name it is bound to.
pub proof fn lemma_name_for_path_of_bound(reg: Registry, nm: Seq<char>)
    requires
        reg.wf(),
        reg.paths_distinct(),
        reg.contains_name(nm),
    ensures
        spec_name_for_path(reg, reg.as_map()[nm]) == Some(nm),
{
    let i = choose|i: int|
        0 <= i < reg.entries_seq().len() && (#[trigger] reg.entries_seq()[i]).name@ == nm;
    reg.lemma_index_of_name(nm, i);
    let t = reg.entries_seq()[i].path@;
    assert(path_match_at(reg, t, i));
    assert forall|j: int| 0 <= j < reg.entries_seq().len() && j != i implies !path_match_at(
        reg,
        t,
        j,
    ) by {
        if j < i {
            assert(reg.entries_seq()[j].path@ != reg.entries_seq()[i].path@);
        } else {
            assert(reg.entries_seq()[i].path@ != reg.entries_seq()[j].path@);
        }
    }
    let f = choose|f: int| is_first_path_match(reg, t, f);
    assert(is_first_path_match(reg, t, i));
    lemma_first_path_match_unique(reg, t, f, i);
}

/// The name under which the path `path` is registered, if any: the first
/// entry backed by that path, in scan order.
pub fn get_profile_name_for_path<'a>(path: &String, profiles: &'a Registry) -> (r: Option<
    &'a String,
>)
    ensures
        match r {
            Some(nm) => spec_name_for_path(*profiles, path@) == Some(nm@),
            None => spec_name_for_path(*profiles, path@) is None,
        },
{
    let n = profiles.entries.len();
    let mut i: usize = 0;
    while i < n
        invariant
            n == profiles.entries@.len(),
            i <= n,
            forall|j: int| 0 <= j < i ==> !path_match_at(*profiles, path@, j),
        decreases n - i,
    {
        if profiles.entries[i].path == *path {
            proof {
                assert(is_first_path_match(*profiles, path@, i as int));
                let f = choose|f: int| is_first_path_match(*profiles, path@, f);
                lemma_first_path_match_unique(*profiles, path@, f, i as int);
            }
            return Some(&profiles.entries[i].name);
        }
        i += 1;
    }
    proof {
        assert(forall|j: int| !path_match_at(*profiles, path@, j));
    }
    None
}

impl Registry {
    /// Whether the registry holds no profiles.
    pub fn is_empty(&self) -> (b: bool)
        ensures
            b == (self.entries_seq().len() == 0),
    {
        self.entries.len() == 0
    }

    /// The registered names, in scan order.
    pub fn profile_names(&self) -> (r: Vec<String>)
        ensures
            r@.len() == self.entries_seq().len(),
            forall|i: int| 0 <= i < r@.len() ==> #[trigger] r@[i]@ == self.entries_seq()[i].name@,
    {
        let n = self.entries.len();
        let mut out: Vec<String> = Vec::new();
        let mut i: usize = 0;
        while i < n
            invariant
                n == self.entries@.len(),
                i <= n,
                out@.len() == i,
                forall|j: int| 0 <= j < i ==> #[trigger] out@[j]@ == self.entries@[j].name@,
            decreases n - i,
        {
            out.push(self.entries[i].name.clone());
            i += 1;
        }
        out
    }
}

/// After a replacement at the position of an already-present name, the
/// mapping is the old mapping with that name bound to the new path.
proof fn lemma_insert_replace(pre: Registry, post: Registry, i: int)
    requires
        pre.wf(),
        0 <= i < pre.entries_seq().len(),
        post.entries_seq().len() == pre.entries_seq().len(),
        forall|k: int|
            0 <= k < pre.entries_seq().len() && k != i ==> #[trigger] post.entries_seq()[k]
                == pre.entries_seq()[k],
        post.entries_seq()[i].name@ == pre.entries_seq()[i].name@,
    ensures
        post.wf(),
        post.as_map() == pre.as_map().insert(
            pre.entries_seq()[i].name@,
            post.entries_seq()[i].path@,
        ),
{
    let nm = pre.entries_seq()[i].name@;
    assert forall|a: int, b: int|
        0 <= a < b < post.entries_seq().len() implies #[trigger] post.entries_seq()[a].name@
        != #[trigger] post.entries_seq()[b].name@ by {
        assert(post.entries_seq()[a].name@ == pre.entries_seq()[a].name@);
        assert(post.entries_seq()[b].name@ == pre.entries_seq()[b].name@);
    }
    assert forall|k: Seq<char>| #[trigger]
        post.contains_name(k) implies pre.contains_name(k) by {
        let w = choose|w: int|
            0 <= w < post.entries_seq().len() && (#[trigger] post.entries_seq()[w]).name@ == k;
        assert(pre.entries_seq()[w].name@ == k);
    }
    assert forall|k: Seq<char>| #[trigger]
        pre.contains_name(k) implies post.contains_name(k) by {
        let w = choose|w: int|
            0 <= w < pre.entries_seq().len() && (#[trigger] pre.entries_seq()[w]).name@ == k;
        assert(post.entries_seq()[w].name@ == k);
    }
    assert forall|k: Seq<char>| #[trigger]
        post.as_map().contains_key(k) implies post.as_map()[k] == pre.as_map().insert(
        nm,
        post.entries_seq()[i].path@,
    )[k] by {
        let w = choose|w: int|
            0 <= w < post.entries_seq().len() && (#[trigger] post.entries_seq()[w]).name@ == k;
        post.lemma_index_of_name(k, w);
        pre.lemma_index_of_name(k, w);
        if k == nm {
            pre.lemma_index_of_name(k, i);
            assert(w == i);
        } else {
            assert(w != i);
        }
    }
    assert(post.as_map() =~= pre.as_map().insert(nm, post.entries_seq()[i].path@));
}

/// After appending an entry whose name is fresh, the mapping is the old
/// mapping with that name bound to the appended path.
proof fn lemma_insert_push(pre: Registry, post: Registry)
    requires
        pre.wf(),
        !pre.contains_name(post.entries_seq().last().name@),
        post.entries_seq().len() == pre.entries_seq().len() + 1,
        forall|k: int|
            0 <= k < pre.entries_seq().len() ==> #[trigger] post.entries_seq()[k]
                == pre.entries_seq()[k],
    ensures
        post.wf(),
        post.as_map() == pre.as_map().insert(
            post.entries_seq().last().name@,
            post.entries_seq().last().path@,
        ),
{
    let n = pre.entries_seq().len() as int;
    let nm = post.entries_seq().last().name@;
    assert forall|a: int, b: int|
        0 <= a < b < post.entries_seq().len() implies #[trigger] post.entries_seq()[a].name@
        != #[trigger] post.entries_seq()[b].name@ by {
        if b < n {
            assert(pre.entries_seq()[a].name@ != pre.entries_seq()[b].name@);
        } else {
            assert(post.entries_seq()[b].name@ == nm);
            assert(pre.entries_seq()[a].name@ != nm);
        }
    }
    assert forall|k: Seq<char>| #[trigger]
        post.as_map().contains_key(k) implies pre.as_map().insert(nm, post.entries_seq().last().path@).contains_key(
        k,
    ) by {
        let w = choose|w: int|
            0 <= w < post.entries_seq().len() && (#[trigger] post.entries_seq()[w]).name@ == k;
        if w < n {
            assert(pre.entries_seq()[w].name@ == k);
        }
    }
    assert forall|k: Seq<char>| #[trigger]
        pre.as_map().insert(nm, post.entries_seq().last().path@).contains_key(k)
        implies post.as_map().contains_key(k) && post.as_map()[k] == pre.as_map().insert(
        nm,
        post.entries_seq().last().path@,
    )[k] by {
        if k == nm {
            post.lemma_index_of_name(k, n);
        } else {
            let w = choose|w: int|
                0 <= w < pre.entries_seq().len() && (#[trigger] pre.entries_seq()[w]).name@ == k;
            assert(post.entries_seq()[w].name@ == k);
            post.lemma_index_of_name(k, w);
            pre.lemma_index_of_name(k, w);
        }
    }
    assert(post.as_map() =~= pre.as_map().insert(nm, post.entries_seq().last().path@));
}

/// One directory entry as observed by the scan: its file name and its path.
pub struct ScanEntry {
    pub file_name: String,
    pub path: String,
}

/// The scanned entries have pairwise-distinct paths, as the files of one
/// directory do.
pub open spec fn scan_paths_distinct(s: Seq<ScanEntry>) -> bool {
    forall|i: int, j: int|
        0 <= i < j < s.len() ==> #[trigger] s[i].path@ != #[trigger] s[j].path@
}

/// The mapping read off a sequence of directory entries: each entry whose
/// file name carries a profile name binds that name to the entry's path,
/// later entries winning over earlier ones; an entry without the suffix
/// contributes nothing here.
pub open spec fn spec_load_map(s: Seq<ScanEntry>) -> Map<Seq<char>, Seq<char>>
    decreases s.len(),
{
    if s.len() == 0 {
        Map::empty()
    } else {
        let m = spec_load_map(s.drop_last());
        match split_prefix(s.last().file_name@) {
            Some(k) => m.insert(k, s.last().path@),
            None => m,
        }
    }
}

/// Build the registry from a directory scan.  Every file name must carry
/// a profile name; the first one that does not aborts the whole load.
pub fn get_profiles(entries: Vec<ScanEntry>) -> (r: Result<Registry, ProfileError>)
    ensures
        match r {
            Ok(reg) => {
                &&& forall|i: int|
                    0 <= i < entries@.len() ==> split_prefix(
                        #[trigger] entries@[i].file_name@,
                    ) is Some
                &&& reg.wf()
                &&& reg.as_map() == spec_load_map(entries@)
                &&& scan_paths_distinct(entries@) ==> reg.paths_distinct()
            },
            Err(e) => {
                &&& e is MalformedEntryName
                &&& exists|i: int|
                    0 <= i < entries@.len() && split_prefix(
                        #[trigger] entries@[i].file_name@,
                    ) is None
            },
        },
{
    let mut reg = Registry::new();
    let n = entries.len();
    let mut idx: usize = 0;
    proof {
        assert(entries@.subrange(0, 0) =~= Seq::<ScanEntry>::empty());
    }
    while idx < n
        invariant
            n == entries@.len(),
            idx <= n,
            reg.wf(),
            forall|i: int|
                0 <= i < idx ==> split_prefix(#[trigger] entries@[i].file_name@) is Some,
            reg.as_map() == spec_load_map(entries@.subrange(0, idx as int)),
            forall|e: int|
                0 <= e < reg.entries_seq().len() ==> exists|j: int|
                    0 <= j < idx && (#[trigger] reg.entries_seq()[e]).path@ == entries@[j].path@,
            scan_paths_distinct(entries@) ==> reg.paths_distinct(),
        decreases n - idx,
    {
        let file_name = &entries[idx].file_name;
        match profile_name_of(file_name.as_str()) {
            None => {
                return Err(ProfileError::MalformedEntryName);
            },
            Some(prefix) => {
                let ghost pv = prefix@;
                let ghost prev = reg;
                let p = entries[idx].path.clone();
                reg.insert(prefix, p);
                proof {
                    let pre_seq = entries@.subrange(0, idx as int);
                    let now_seq = entries@.subrange(0, idx as int + 1);
                    assert(now_seq.drop_last() =~= pre_seq);
                    assert(now_seq.last() == entries@[idx as int]);
                    assert(spec_load_map(now_seq) == spec_load_map(pre_seq).insert(
                        pv,
                        entries@[idx as int].path@,
                    ));
                    assert forall|e: int|
                        0 <= e < reg.entries_seq().len() implies exists|j: int|
                        0 <= j <= idx && (#[trigger] reg.entries_seq()[e]).path@
                            == entries@[j].path@ by {
                        if prev.contains_name(pv) {
                            let rep = prev.index_of_name(pv);
                            if e != rep {
                                assert(reg.entries_seq()[e] == prev.entries_seq()[e]);
                                let j = choose|j: int|
                                    0 <= j < idx && (#[trigger] prev.entries_seq()[e]).path@
                                        == entries@[j].path@;
                                assert(reg.entries_seq()[e].path@ == entries@[j].path@);
                            } else {
                                assert(reg.entries_seq()[e].path@ == entries@[idx as int].path@);
                            }
                        } else {
                            if e < prev.entries_seq().len() {
                                assert(reg.entries_seq()[e] == prev.entries_seq()[e]);
                                let j = choose|j: int|
                                    0 <= j < idx && (#[trigger] prev.entries_seq()[e]).path@
                                        == entries@[j].path@;
                                assert(reg.entries_seq()[e].path@ == entries@[j].path@);
                            } else {
                                assert(reg.entries_seq()[e].path@ == entries@[idx as int].path@);
                            }
                        }
                    }
                    if scan_paths_distinct(entries@) {
                        let rep = if prev.contains_name(pv) {
                            prev.index_of_name(pv)
                        } else {
                            prev.entries_seq().len() as int
                        };
                        assert forall|a: int, b: int|
                            0 <= a < b < reg.entries_seq().len() implies #[trigger] reg.entries_seq()[a].path@
                            != #[trigger] reg.entries_seq()[b].path@ by {
                            lemma_step_paths_distinct(
                                entries@,
                                prev,
                                reg,
                                idx as int,
                                rep,
                                a,
                                b,
                            );
                        }
                    }
                }
            },
        }
        idx += 1;
    }
    proof {
        assert(entries@.subrange(0, n as int) =~= entries@);
    }
    Ok(reg)
}

/// A name is a key of the loaded mapping exactly when some scanned entry
/// carries it.
pub proof fn lemma_load_map_domain(s: Seq<ScanEntry>, k: Seq<char>)
    ensures
        spec_load_map(s).contains_key(k) <==> exists|i: int|
            0 <= i < s.len() && split_prefix((#[trigger] s[i]).file_name@) == Some(k),
    decreases s.len(),
{
    if s.len() == 0 {
    } else {
        let d = s.drop_last();
        lemma_load_map_domain(d, k);
        if spec_load_map(s).contains_key(k) {
            if split_prefix(s.last().file_name@) == Some(k) {
                assert(s[s.len() - 1] == s.last());
                assert(split_prefix(s[s.len() - 1].file_name@) == Some(k));
            } else {
                assert(spec_load_map(d).contains_key(k));
                let i = choose|i: int|
                    0 <= i < d.len() && split_prefix((#[trigger] d[i]).file_name@) == Some(k);
                assert(d[i] == s[i]);
                assert(split_prefix((s[i]).file_name@) == Some(k));
            }
        }
        if exists|i: int| 0 <= i < s.len() && split_prefix((#[trigger] s[i]).file_name@) == Some(
            k,
        ) {
            let i = choose|i: int|
                0 <= i < s.len() && split_prefix((#[trigger] s[i]).file_name@) == Some(k);
            if i == s.len() - 1 {
                assert(split_prefix(s.last().file_name@) == Some(k));
            } else {
                assert(d[i] == s[i]);
                assert(spec_load_map(d).contains_key(k));
            }
            assert(spec_load_map(s).contains_key(k));
        }
    }
}

/// When every scanned file name carries a name and those names are
/// pairwise distinct, the loaded mapping binds each carried name to the
/// path of exactly its own file.
pub proof fn lemma_load_map_values(s: Seq<ScanEntry>, i: int)
    requires
        forall|a: int| 0 <= a < s.len() ==> split_prefix((#[trigger] s[a]).file_name@) is Some,
        forall|a: int, b: int|
            0 <= a < b < s.len() ==> split_prefix((#[trigger] s[a]).file_name@) != split_prefix(
                (#[trigger] s[b]).file_name@,
            ),
        0 <= i < s.len(),
    ensures
        spec_load_map(s).contains_key(split_prefix(s[i].file_name@)->Some_0),
        spec_load_map(s)[split_prefix(s[i].file_name@)->Some_0] == s[i].path@,
    decreases s.len(),
{
    let d = s.drop_last();
    let k = split_prefix(s[i].file_name@)->Some_0;
    assert(forall|a: int| 0 <= a < d.len() ==> #[trigger] d[a] == s[a]);
    if i == s.len() - 1 {
        assert(s.last() == s[i]);
    } else {
        lemma_load_map_values(d, i);
        assert(split_prefix(s[i].file_name@) != split_prefix(s[s.len() - 1].file_name@));
        assert(s.last() == s[s.len() - 1]);
    }
}

/// An imported file, scanned together with the rest of the registry
/// directory, registers the imported name, bound to the file it was
/// moved to.
pub proof fn lemma_import_registers_name(
    scan: Seq<ScanEntry>,
    imported: ScanEntry,
    name: Seq<char>,
)
    requires
        !has_suffix_occurrence(name),
        imported.file_name@ == name + suffix_chars(),
    ensures
        spec_load_map(scan.push(imported)) == spec_load_map(scan).insert(name, imported.path@),
        spec_load_map(scan.push(imported)).contains_key(name),
        spec_load_map(scan.push(imported))[name] == imported.path@,
{
    lemma_suffix_round_trip(name);
    let s = scan.push(imported);
    assert(s.drop_last() =~= scan);
    assert(s.last() == imported);
}

/// One load step keeps backing paths pairwise distinct when the scanned
/// paths are: every older entry's path comes from an earlier scan entry,
/// and the path just recorded comes from the current one.
proof fn lemma_step_paths_distinct(
    scan: Seq<ScanEntry>,
    prev: Registry,
    now: Registry,
    idx: int,
    rep: int,
    a: int,
    b: int,
)
    requires
        scan_paths_distinct(scan),
        0 <= idx < scan.len(),
        prev.paths_distinct(),
        forall|e: int|
            0 <= e < prev.entries_seq().len() ==> exists|j: int|
                0 <= j < idx && (#[trigger] prev.entries_seq()[e]).path@ == scan[j].path@,
        0 <= rep < now.entries_seq().len(),
        now.entries_seq()[rep].path@ == scan[idx].path@,
        forall|e: int|
            0 <= e < now.entries_seq().len() && e != rep ==> e < prev.entries_seq().len()
                && #[trigger] now.entries_seq()[e] == prev.entries_seq()[e],
        0 <= a < b < now.entries_seq().len(),
    ensures
        now.entries_seq()[a].path@ != now.entries_seq()[b].path@,
{
    if a != rep && b != rep {
        assert(now.entries_seq()[a] == prev.entries_seq()[a]);
        assert(now.entries_seq()[b] == prev.entries_seq()[b]);
        assert(prev.entries_seq()[a].path@ != prev.entries_seq()[b].path@);
    } else {
        let other = if a == rep {
            b
        } else {
            a
        };
        assert(now.entries_seq()[other] == prev.entries_seq()[other]);
        let j = choose|j: int|
            0 <= j < idx && (#[trigger] prev.entries_seq()[other]).path@ == scan[j].path@;
        assert(scan[j].path@ != scan[idx].path@);
    }
}

} // verus!
