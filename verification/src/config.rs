//! The mapping from source paths to destination paths.
//!
//! A mapping is a list of entries, each pairing one source path with the
//! ordered list of destination paths mirrored from it. Paths are plain
//! strings; the process around the library canonicalizes them before they
//! reach the mapping, so equality of strings is equality of paths here.

use vstd::prelude::*;

verus! {

/// Mathematical model of one mapping entry.
#[verifier::ext_equal]
pub ghost struct EntryModel {
    pub source: Seq<char>,
    pub dests: Seq<Seq<char>>,
}

/// One source path together with its destination paths.
pub struct MappingEntry {
    pub source: String,
    pub destinations: Vec<String>,
}

impl View for MappingEntry {
    type V = EntryModel;

    open spec fn view(&self) -> EntryModel {
        EntryModel { source: self.source@, dests: self.destinations.deep_view() }
    }
}

impl DeepView for MappingEntry {
    type V = EntryModel;

    open spec fn deep_view(&self) -> EntryModel {
        self.view()
    }
}

/// The set of tracked files: each source with its destinations.
pub struct Config {
    pub mappings: Vec<MappingEntry>,
}

impl View for Config {
    type V = Seq<EntryModel>;

    open spec fn view(&self) -> Seq<EntryModel> {
        self.mappings.deep_view()
    }
}

/// The mapping holds an entry whose source is `s`.
pub open spec fn has_source(m: Seq<EntryModel>, s: Seq<char>) -> bool {
    exists|i: int| 0 <= i < m.len() && m[i].source == s
}

/// The path `d` occurs among the destinations of some entry.
pub open spec fn is_dest(m: Seq<EntryModel>, d: Seq<char>) -> bool {
    exists|i: int, j: int|
        0 <= i < m.len() && 0 <= j < m[i].dests.len() && m[i].dests[j] == d
}

/// Index of the last entry that lists `d` among its destinations,
/// or -1 when no entry does. The last entry wins, because the reverse
/// index is built front to back and a later insertion replaces an
/// earlier one.
pub open spec fn owner_index(m: Seq<EntryModel>, d: Seq<char>) -> int
    decreases m.len(),
{
    if m.len() == 0 {
        -1
    } else if m.last().dests.contains(d) {
        m.len() - 1
    } else {
        owner_index(m.drop_last(), d)
    }
}

/// The source owning destination `d`: the source of the last entry
/// listing it.
pub open spec fn owner_of(m: Seq<EntryModel>, d: Seq<char>) -> Seq<char> {
    m[owner_index(m, d)].source
}

/// The destination list `ds` with every occurrence of `p` removed,
/// order preserved.
pub open spec fn dests_without(ds: Seq<Seq<char>>, p: Seq<char>) -> Seq<Seq<char>>
    decreases ds.len(),
{
    if ds.len() == 0 {
        Seq::empty()
    } else if ds.last() == p {
        dests_without(ds.drop_last(), p)
    } else {
        dests_without(ds.drop_last(), p).push(ds.last())
    }
}

/// The mapping after untracking destination `p`: every occurrence of `p`
/// is removed from every destination list, and entries left with no
/// destination (or that had none) are dropped. Order is preserved.
pub open spec fn mapping_without(m: Seq<EntryModel>, p: Seq<char>) -> Seq<EntryModel>
    decreases m.len(),
{
    if m.len() == 0 {
        Seq::empty()
    } else {
        let rest = mapping_without(m.drop_last(), p);
        let e = EntryModel {
            source: m.last().source,
            dests: dests_without(m.last().dests, p),
        };
        if e.dests.len() == 0 {
            rest
        } else {
            rest.push(e)
        }
    }
}

/// The mapping with every entry whose source is `s` removed, order
/// preserved.
pub open spec fn mapping_without_source(m: Seq<EntryModel>, s: Seq<char>) -> Seq<EntryModel>
    decreases m.len(),
{
    if m.len() == 0 {
        Seq::empty()
    } else {
        let rest = mapping_without_source(m.drop_last(), s);
        if m.last().source == s {
            rest
        } else {
            rest.push(m.last())
        }
    }
}

/// How appending one entry moves `owner_index`, `owner_of` and
/// `is_dest`: the new entry owns exactly the destinations it lists,
/// everything else keeps its owner.
pub proof fn lemma_owner_push(m: Seq<EntryModel>, e: EntryModel, d: Seq<char>)
    ensures
        is_dest(m.push(e), d) <==> (is_dest(m, d) || e.dests.contains(d)),
        e.dests.contains(d) ==> owner_index(m.push(e), d) == m.len() && owner_of(m.push(e), d)
            == e.source,
        !e.dests.contains(d) ==> owner_index(m.push(e), d) == owner_index(m, d),
        !e.dests.contains(d) && is_dest(m, d) ==> owner_of(m.push(e), d) == owner_of(m, d),
{
    let mp = m.push(e);
    assert(mp.drop_last() =~= m);
    assert(mp.last() == e);
    if is_dest(mp, d) {
        let (a, b) = choose|a: int, b: int|
            0 <= a < mp.len() && 0 <= b < mp[a].dests.len() && mp[a].dests[b] == d;
        if a < m.len() {
            assert(m[a].dests[b] == d);
            assert(is_dest(m, d));
        } else {
            assert(e.dests[b] == d);
            assert(e.dests.contains(d));
        }
    }
    if is_dest(m, d) {
        let (a, b) = choose|a: int, b: int|
            0 <= a < m.len() && 0 <= b < m[a].dests.len() && m[a].dests[b] == d;
        assert(mp[a].dests[b] == d);
        assert(is_dest(mp, d));
    }
    if e.dests.contains(d) {
        let b = choose|b: int| 0 <= b < e.dests.len() && e.dests[b] == d;
        assert(mp[m.len() as int].dests[b] == d);
        assert(is_dest(mp, d));
    }
    if !e.dests.contains(d) && is_dest(m, d) {
        lemma_owner_index(m, d);
        let k = owner_index(m, d);
        assert(mp[k] == m[k]);
    }
}

/// `owner_index` finds an entry exactly when `d` occurs as a destination,
/// and then finds the last such entry.
pub proof fn lemma_owner_index(m: Seq<EntryModel>, d: Seq<char>)
    ensures
        is_dest(m, d) <==> owner_index(m, d) >= 0,
        is_dest(m, d) ==> {
            let k = owner_index(m, d);
            &&& 0 <= k < m.len()
            &&& m[k].dests.contains(d)
            &&& forall|i: int| k < i < m.len() ==> !m[i].dests.contains(d)
        },
    decreases m.len(),
{
    if m.len() == 0 {
    } else if m.last().dests.contains(d) {
        assert(is_dest(m, d));
    } else {
        lemma_owner_index(m.drop_last(), d);
        let prefix = m.drop_last();
        assert(forall|i: int| 0 <= i < prefix.len() ==> prefix[i] == m[i]);
        if is_dest(m, d) {
            let (i, j) = choose|i: int, j: int|
                0 <= i < m.len() && 0 <= j < m[i].dests.len() && m[i].dests[j] == d;
            if i == m.len() - 1 {
                assert(m.last().dests.contains(d));
            } else {
                assert(prefix[i].dests[j] == d);
                assert(is_dest(prefix, d));
            }
        }
        if is_dest(prefix, d) {
            let (i, j) = choose|i: int, j: int|
                0 <= i < prefix.len() && 0 <= j < prefix[i].dests.len() && prefix[i].dests[j] == d;
            assert(m[i].dests[j] == d);
            assert(is_dest(m, d));
        }
        if is_dest(m, d) {
            let k = owner_index(m, d);
            assert(k == owner_index(prefix, d));
            assert(forall|i: int| k < i < prefix.len() ==> !prefix[i].dests.contains(d));
            assert(forall|i: int| k < i < m.len() - 1 ==> !m[i].dests.contains(d));
            assert(!m[m.len() - 1].dests.contains(d));
        }
    }
}

impl Config {
    /// An empty mapping: nothing is tracked.
    pub fn new() -> (r: Config)
        ensures
            r@ =~= Seq::<EntryModel>::empty(),
    {
        Config { mappings: Vec::new() }
    }

    /// Index of the first entry whose source is `source`, if any.
    fn find_index(&self, source: &String) -> (r: Option<usize>)
        ensures
            match r {
                Some(i) => {
                    &&& i < self@.len()
                    &&& self@[i as int].source == source@
                    &&& forall|j: int| 0 <= j < i ==> self@[j].source != source@
                },
                None => !has_source(self@, source@),
            },
    {
        let mut i: usize = 0;
        while i < self.mappings.len()
            invariant
                0 <= i <= self@.len(),
                self@.len() == self.mappings.len(),
                forall|j: int| 0 <= j < i ==> self@[j].source != source@,
            decreases self@.len() - i,
        {
            if self.mappings[i].source == *source {
                return Some(i);
            }
            i = i + 1;
        }
        None
    }

    /// Adds `destination` under `source`: appends it to the destination
    /// list of the first entry for `source`, or appends a new entry when
    /// no entry for `source` exists yet.
    pub fn add_mapping(&mut self, source: String, destination: String)
        ensures
            has_source(old(self)@, source@) ==> {
                exists|i: int|
                    {
                        &&& 0 <= i < old(self)@.len()
                        &&& old(self)@[i].source == source@
                        &&& (forall|j: int| 0 <= j < i ==> old(self)@[j].source != source@)
                        &&& final(self)@ =~= old(self)@.update(
                            i,
                            EntryModel {
                                source: source@,
                                dests: old(self)@[i].dests.push(destination@),
                            },
                        )
                    }
            },
            !has_source(old(self)@, source@) ==> final(self)@ =~= old(self)@.push(
                EntryModel { source: source@, dests: seq![destination@] },
            ),
    {
        let ghost src_view = source@;
        let ghost dest_view = destination@;
        match self.find_index(&source) {
            Some(i) => {
                let mut entry = self.mappings.remove(i);
                entry.destinations.push(destination);
                self.mappings.insert(i, entry);
                proof {
                    assert(self@ =~~= old(self)@.update(
                        i as int,
                        EntryModel {
                            source: src_view,
                            dests: old(self)@[i as int].dests.push(dest_view),
                        },
                    ));
                }
            },
            None => {
                let mut destinations: Vec<String> = Vec::new();
                destinations.push(destination);
                self.mappings.push(MappingEntry { source, destinations });
                proof {
                    assert(self@ =~~= old(self)@.push(
                        EntryModel { source: src_view, dests: seq![dest_view] },
                    ));
                }
            },
        }
    }

    /// Stops tracking destination `file`: removes every occurrence of it
    /// from every destination list, and drops every entry that is left
    /// without destinations (or had none to begin with). Returns whether
    /// any occurrence was removed.
    pub fn remove_mapping(&mut self, file: &String) -> (removed: bool)
        ensures
            final(self)@ == mapping_without(old(self)@, file@),
            removed <==> is_dest(old(self)@, file@),
    {
        let ghost m0 = self@;
        let mut result: Vec<MappingEntry> = Vec::new();
        let mut removed = false;
        let mut i: usize = 0;
        while i < self.mappings.len()
            invariant
                0 <= i <= m0.len(),
                self@ == m0,
                m0.len() == self.mappings.len(),
                result.deep_view() == mapping_without(m0.take(i as int), file@),
                removed <==> is_dest(m0.take(i as int), file@),
            decreases m0.len() - i,
        {
            let entry = &self.mappings[i];
            proof {
                assert(m0[i as int] == entry@);
            }
            let ghost ds = entry@.dests;
            let mut kept: Vec<String> = Vec::new();
            let mut found = false;
            let mut j: usize = 0;
            while j < entry.destinations.len()
                invariant
                    0 <= j <= ds.len(),
                    entry@.dests == ds,
                    ds.len() == entry.destinations.len(),
                    kept.deep_view() == dests_without(ds.take(j as int), file@),
                    found <==> exists|l: int| 0 <= l < j && ds[l] == file@,
                decreases ds.len() - j,
            {
                proof {
                    assert(ds[j as int] == entry.destinations@[j as int]@);
                    assert(ds.take(j as int + 1).drop_last() =~= ds.take(j as int));
                    assert(ds.take(j as int + 1).last() == ds[j as int]);
                }
                let ghost kept0 = kept.deep_view();
                if entry.destinations[j] == *file {
                    found = true;
                    proof {
                        assert(exists|l: int| 0 <= l < j + 1 && ds[l] == file@);
                    }
                } else {
                    kept.push(entry.destinations[j].clone());
                    proof {
                        assert(kept.deep_view() =~= kept0.push(ds[j as int]));
                    }
                }
                j = j + 1;
            }
            proof {
                assert(ds.take(ds.len() as int) =~= ds);
            }
            if kept.len() > 0 {
                let ghost r0 = result.deep_view();
                result.push(MappingEntry { source: entry.source.clone(), destinations: kept });
                proof {
                    assert(result.deep_view() =~~= r0.push(
                        EntryModel { source: entry@.source, dests: dests_without(ds, file@) },
                    ));
                }
            }
            if found {
                removed = true;
            }
            proof {
                let prev = m0.take(i as int);
                let cur = m0.take(i as int + 1);
                assert(cur.drop_last() =~= prev);
                assert(cur.last() == m0[i as int]);
                if is_dest(cur, file@) {
                    let (a, b) = choose|a: int, b: int|
                        0 <= a < cur.len() && 0 <= b < cur[a].dests.len() && cur[a].dests[b]
                            == file@;
                    if a < i {
                        assert(prev[a].dests[b] == file@);
                        assert(is_dest(prev, file@));
                    } else {
                        assert(ds[b] == file@);
                    }
                }
                if is_dest(prev, file@) {
                    let (a, b) = choose|a: int, b: int|
                        0 <= a < prev.len() && 0 <= b < prev[a].dests.len() && prev[a].dests[b]
                            == file@;
                    assert(cur[a].dests[b] == file@);
                    assert(is_dest(cur, file@));
                }
                if exists|l: int| 0 <= l < ds.len() && ds[l] == file@ {
                    let l = choose|l: int| 0 <= l < ds.len() && ds[l] == file@;
                    assert(cur[i as int].dests[l] == file@);
                    assert(is_dest(cur, file@));
                }
            }
            i = i + 1;
        }
        proof {
            assert(m0.take(m0.len() as int) =~= m0);
        }
        self.mappings = result;
        removed
    }

    /// True iff some entry has `path` as its source.
    pub fn contains_source(&self, path: &String) -> (r: bool)
        ensures
            r == has_source(self@, path@),
    {
        self.find_index(path).is_some()
    }

    /// Drops every entry whose source is `source`, order preserved.
    /// Returns whether any entry was dropped.
    pub fn remove_source(&mut self, source: &String) -> (r: bool)
        ensures
            final(self)@ == mapping_without_source(old(self)@, source@),
            r == has_source(old(self)@, source@),
    {
        let ghost m0 = self@;
        let mut result: Vec<MappingEntry> = Vec::new();
        let mut removed = false;
        let mut i: usize = 0;
        while i < self.mappings.len()
            invariant
                0 <= i <= m0.len(),
                self@ == m0,
                m0.len() == self.mappings.len(),
                result.deep_view() == mapping_without_source(m0.take(i as int), source@),
                removed <==> has_source(m0.take(i as int), source@),
            decreases m0.len() - i,
        {
            let entry = &self.mappings[i];
            proof {
                assert(m0[i as int] == entry@);
                assert(m0.take(i as int + 1).drop_last() =~= m0.take(i as int));
                assert(m0.take(i as int + 1).last() == m0[i as int]);
            }
            let ghost r0 = result.deep_view();
            if entry.source == *source {
                removed = true;
                proof {
                    assert(m0.take(i as int + 1)[i as int].source == source@);
                    assert(has_source(m0.take(i as int + 1), source@));
                }
            } else {
                result.push(MappingEntry {
                    source: entry.source.clone(),
                    destinations: clone_string_vec(&entry.destinations),
                });
                proof {
                    assert(result.deep_view() =~~= r0.push(m0[i as int]));
                }
            }
            proof {
                let prev = m0.take(i as int);
                let cur = m0.take(i as int + 1);
                if has_source(cur, source@) {
                    let a = choose|a: int| 0 <= a < cur.len() && cur[a].source == source@;
                    if a < i {
                        assert(prev[a].source == source@);
                        assert(has_source(prev, source@));
                    }
                }
                if has_source(prev, source@) {
                    let a = choose|a: int| 0 <= a < prev.len() && prev[a].source == source@;
                    assert(cur[a].source == source@);
                    assert(has_source(cur, source@));
                }
            }
            i = i + 1;
        }
        proof {
            assert(m0.take(m0.len() as int) =~= m0);
        }
        self.mappings = result;
        removed
    }

    /// The first entry whose source is `path`, as a copy of the stored
    /// source and its destinations; `None` when `path` is no source.
    pub fn find_by_path(&self, path: &String) -> (r: Option<(String, Vec<String>)>)
        ensures
            match r {
                Some(pair) => {
                    &&& pair.0@ == path@
                    &&& exists|i: int|
                        {
                            &&& 0 <= i < self@.len()
                            &&& self@[i].source == path@
                            &&& (forall|j: int| 0 <= j < i ==> self@[j].source != path@)
                            &&& pair.1.deep_view() == self@[i].dests
                        }
                },
                None => !has_source(self@, path@),
            },
    {
        match self.find_index(path) {
            Some(i) => {
                let dests = clone_string_vec(&self.mappings[i].destinations);
                Some((path.clone(), dests))
            },
            None => None,
        }
    }

    /// Every entry, each as a copy of its source and destinations, in
    /// the stored order.
    pub fn list_mappings(&self) -> (r: Vec<(String, Vec<String>)>)
        ensures
            r@.len() == self@.len(),
            forall|i: int|
                0 <= i < self@.len() ==> #[trigger] r@[i].0@ == self@[i].source && r@[
                    i
                ].1.deep_view() == self@[i].dests,
    {
        let mut r: Vec<(String, Vec<String>)> = Vec::new();
        let mut i: usize = 0;
        while i < self.mappings.len()
            invariant
                0 <= i <= self@.len(),
                self@.len() == self.mappings.len(),
                r@.len() == i,
                forall|k: int|
                    0 <= k < i ==> #[trigger] r@[k].0@ == self@[k].source && r@[
                        k
                    ].1.deep_view() == self@[k].dests,
            decreases self@.len() - i,
        {
            let entry = &self.mappings[i];
            r.push((entry.source.clone(), clone_string_vec(&entry.destinations)));
            i = i + 1;
        }
        r
    }

    /// True iff `path` is tracked at all: as a source or as a destination.
    pub fn is_tracked(&self, path: &String) -> (r: bool)
        ensures
            r <==> has_source(self@, path@) || is_dest(self@, path@),
    {
        if self.find_index(path).is_some() {
            return true;
        }
        let mut i: usize = 0;
        while i < self.mappings.len()
            invariant
                0 <= i <= self@.len(),
                self@.len() == self.mappings.len(),
                !has_source(self@, path@),
                forall|k: int, j: int|
                    0 <= k < i && 0 <= j < self@[k].dests.len() ==> self@[k].dests[j] != path@,
            decreases self@.len() - i,
        {
            let entry = &self.mappings[i];
            proof {
                assert(self@[i as int] == entry@);
            }
            let mut j: usize = 0;
            while j < entry.destinations.len()
                invariant
                    0 <= j <= entry@.dests.len(),
                    entry@.dests.len() == entry.destinations.len(),
                    0 <= i < self@.len(),
                    self@[i as int] == entry@,
                    forall|l: int| 0 <= l < j ==> entry@.dests[l] != path@,
                decreases entry@.dests.len() - j,
            {
                proof {
                    assert(entry@.dests[j as int] == entry.destinations@[j as int]@);
                }
                if entry.destinations[j] == *path {
                    proof {
                        assert(self@[i as int] == entry@);
                        assert(self@[i as int].dests[j as int] == path@);
                    }
                    return true;
                }
                j = j + 1;
            }
            proof {
                assert(self@[i as int] == entry@);
                assert(forall|l: int|
                    0 <= l < self@[i as int].dests.len() ==> self@[i as int].dests[l] != path@);
            }
            i = i + 1;
        }
        false
    }
}

/// A copy of a vector of strings, string by string.
pub fn clone_string_vec(v: &Vec<String>) -> (r: Vec<String>)
    ensures
        r.deep_view() == v.deep_view(),
        r@.len() == v@.len(),
{
    let mut r: Vec<String> = Vec::new();
    let mut i: usize = 0;
    while i < v.len()
        invariant
            0 <= i <= v@.len(),
            r@.len() == i,
            forall|k: int| 0 <= k < i ==> #[trigger] r@[k]@ == v@[k]@,
        decreases v@.len() - i,
    {
        r.push(v[i].clone());
        i = i + 1;
    }
    proof {
        assert(r.deep_view() =~= v.deep_view());
    }
    r
}

} // verus!
