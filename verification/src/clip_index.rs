//! The merged index of a folder scan: dictionary name to the set of clip names found
//! in every file of that name, dictionaries in increasing order.
use vstd::prelude::*;
use crate::error::string_from_chars;
use crate::name_set::{NameSet, chars_less, chars_lt, lemma_chars_lt_irreflexive,
    lemma_chars_lt_total, lemma_chars_lt_transitive};
use crate::short_name::chars_of;

verus! {

/// The names of a list of strings.
pub open spec fn string_set(v: Seq<String>) -> Set<Seq<char>> {
    v.map_values(|s: String| s@).to_set()
}

/// Dictionary keys strictly increasing.
pub open spec fn keys_sorted(v: Seq<(Seq<char>, Seq<Seq<char>>)>) -> bool {
    forall|i: int, j: int| 0 <= i < j < v.len() ==> chars_lt(#[trigger] v[i].0, #[trigger] v[j].0)
}

/// The dictionaries held.
pub open spec fn index_keys(v: Seq<(Seq<char>, Seq<Seq<char>>)>) -> Set<Seq<char>> {
    Set::new(|k: Seq<char>| exists|i: int| 0 <= i < v.len() && #[trigger] v[i].0 == k)
}

/// The clip names held for dictionary `k` (none if it is absent).
pub open spec fn index_names(v: Seq<(Seq<char>, Seq<Seq<char>>)>, k: Seq<char>) -> Set<Seq<char>> {
    Set::new(
        |n: Seq<char>|
            exists|i: int| 0 <= i < v.len() && #[trigger] v[i].0 == k && v[i].1.contains(n),
    )
}

proof fn lemma_index_names_at(v: Seq<(Seq<char>, Seq<Seq<char>>)>, i: int)
    requires
        keys_sorted(v),
        0 <= i < v.len(),
    ensures
        index_names(v, v[i].0) == v[i].1.to_set(),
        index_keys(v).contains(v[i].0),
{
    let k = v[i].0;
    assert forall|n: Seq<char>| index_names(v, k).contains(n) implies v[i].1.contains(n) by {
        let j = choose|j: int| 0 <= j < v.len() && #[trigger] v[j].0 == k && v[j].1.contains(n);
        if j != i {
            if j < i {
                assert(chars_lt(v[j].0, v[i].0));
            } else {
                assert(chars_lt(v[i].0, v[j].0));
            }
            lemma_chars_lt_irreflexive(k);
        }
    }
    assert forall|n: Seq<char>| v[i].1.contains(n) implies index_names(v, k).contains(n) by {
        assert(v[i].0 == k);
    }
    assert(index_names(v, k) =~= v[i].1.to_set());
}

/// Dictionary name to clip names, merged over all files scanned.
pub struct ClipIndex {
    entries: Vec<(Vec<char>, NameSet)>,
}

impl View for ClipIndex {
    type V = Seq<(Seq<char>, Seq<Seq<char>>)>;

    closed spec fn view(&self) -> Seq<(Seq<char>, Seq<Seq<char>>)> {
        self.entries@.map_values(|e: (Vec<char>, NameSet)| (e.0@, e.1@))
    }
}

/// Adds each name of `names` to `set`.
fn insert_all(set: &mut NameSet, names: &Vec<String>)
    requires
        old(set).wf(),
    ensures
        final(set).wf(),
        final(set).names() == old(set).names().union(string_set(names@)),
{
    let mut i: usize = 0;
    while i < names.len()
        invariant
            i <= names@.len(),
            set.wf(),
            set.names() == old(set).names().union(string_set(names@.take(i as int))),
        decreases names@.len() - i,
    {
        let ghost before = set.names();
        let c = chars_of(names[i].as_str());
        set.insert(c);
        proof {
            let t = names@.take(i as int);
            let t1 = names@.take(i + 1);
            assert(t1 =~= t.push(names@[i as int]));
            assert(string_set(t1) =~= string_set(t).insert(names@[i as int]@)) by {
                assert(t1.map_values(|s: String| s@) =~= t.map_values(|s: String| s@).push(
                    names@[i as int]@,
                ));
                assert forall|e: Seq<char>| #[trigger] string_set(t1).contains(e) <==> string_set(
                    t,
                ).insert(names@[i as int]@).contains(e) by {
                    let m1 = t1.map_values(|s: String| s@);
                    let m = t.map_values(|s: String| s@);
                    if m1.contains(e) {
                        let k = choose|k: int| 0 <= k < m1.len() && m1[k] == e;
                        if k < m.len() {
                            assert(m[k] == e);
                        }
                    }
                    if m.contains(e) {
                        let k = choose|k: int| 0 <= k < m.len() && m[k] == e;
                        assert(m1[k] == e);
                    }
                    if e == names@[i as int]@ {
                        assert(m1[i as int] == e);
                    }
                }
            }
            assert(set.names() =~= old(set).names().union(string_set(t1)));
        }
        i = i + 1;
    }
    assert(names@.take(i as int) =~= names@);
}

impl ClipIndex {
    /// Keys strictly increasing and every name list strictly increasing.
    pub open spec fn wf(&self) -> bool {
        &&& keys_sorted(self@)
        &&& forall|i: int| 0 <= i < self@.len() ==> #[trigger] crate::name_set::strictly_sorted(
            self@[i].1,
        )
    }

    pub fn new() -> (s: Self)
        ensures
            s.wf(),
            s@.len() == 0,
    {
        let s = ClipIndex { entries: Vec::new() };
        assert(s@ =~= Seq::<(Seq<char>, Seq<Seq<char>>)>::empty());
        s
    }

    /// Records that a file of dictionary `dict` holds the clips `names`; the dictionary
    /// is listed even when `names` is empty.
    pub fn add(&mut self, dict: &str, names: &Vec<String>)
        requires
            old(self).wf(),
        ensures
            final(self).wf(),
            index_keys(final(self)@) == index_keys(old(self)@).insert(dict@),
            index_names(final(self)@, dict@) == index_names(old(self)@, dict@).union(
                string_set(names@),
            ),
            forall|k: Seq<char>|
                k != dict@ ==> #[trigger] index_names(final(self)@, k) == index_names(
                    old(self)@,
                    k,
                ),
    {
        let ghost ov = self@;
        let key = chars_of(dict);
        let ghost x = key@;
        let n = self.entries.len();
        proof {
            assert forall|i: int| 0 <= i < n implies (#[trigger] self.entries@[i]).1.wf() by {
                assert(self@[i].1 == self.entries@[i].1@);
            }
        }
        let mut i: usize = 0;
        loop
            invariant
                self@ == ov,
                x == key@,
                keys_sorted(ov),
                n == ov.len(),
                n == self.entries@.len(),
                i <= n,
                forall|k: int| 0 <= k < i ==> chars_lt(#[trigger] ov[k].0, x),
            ensures
                i <= n,
                forall|k: int| 0 <= k < i ==> chars_lt(#[trigger] ov[k].0, x),
                i < n ==> !chars_lt(ov[i as int].0, x),
            decreases n - i,
        {
            if i >= n {
                break;
            }
            assert(ov[i as int].0 == self.entries@[i as int].0@);
            if !chars_less(&self.entries[i].0, &key) {
                break;
            }
            i = i + 1;
        }
        let found = i < n && !chars_less(&key, &self.entries[i].0);
        if found {
            proof {
                lemma_chars_lt_total(x, ov[i as int].0);
                assert(ov[i as int].0 == x);
            }
            let (k, mut set) = self.entries.remove(i);
            assert(set@ == ov[i as int].1);
            insert_all(&mut set, names);
            let ghost new_names = set@;
            self.entries.insert(i, (k, set));
            proof {
                let nv = self@;
                assert(nv =~= ov.update(i as int, (x, new_names)));
                assert(keys_sorted(nv)) by {
                    assert forall|a: int, b: int| 0 <= a < b < nv.len() implies chars_lt(
                        #[trigger] nv[a].0,
                        #[trigger] nv[b].0,
                    ) by {
                        assert(nv[a].0 == ov[a].0 && nv[b].0 == ov[b].0);
                    }
                }
                lemma_index_names_at(ov, i as int);
                lemma_index_names_at(nv, i as int);
                assert(index_keys(nv) =~= index_keys(ov).insert(x)) by {
                    assert forall|kk: Seq<char>| index_keys(nv).contains(kk) implies index_keys(
                        ov,
                    ).contains(kk) by {
                        let j = choose|j: int| 0 <= j < nv.len() && #[trigger] nv[j].0 == kk;
                        assert(ov[j].0 == kk);
                    }
                    assert forall|kk: Seq<char>| index_keys(ov).contains(kk) implies index_keys(
                        nv,
                    ).contains(kk) by {
                        let j = choose|j: int| 0 <= j < ov.len() && #[trigger] ov[j].0 == kk;
                        assert(nv[j].0 == kk);
                    }
                }
                assert forall|kk: Seq<char>| kk != x implies #[trigger] index_names(nv, kk)
                    == index_names(ov, kk) by {
                    assert forall|m: Seq<char>| index_names(nv, kk).contains(m) implies index_names(
                        ov,
                        kk,
                    ).contains(m) by {
                        let j = choose|j: int|
                            0 <= j < nv.len() && #[trigger] nv[j].0 == kk && nv[j].1.contains(m);
                        assert(j != i);
                        assert(ov[j] == nv[j]);
                    }
                    assert forall|m: Seq<char>| index_names(ov, kk).contains(m) implies index_names(
                        nv,
                        kk,
                    ).contains(m) by {
                        let j = choose|j: int|
                            0 <= j < ov.len() && #[trigger] ov[j].0 == kk && ov[j].1.contains(m);
                        assert(j != i);
                        assert(ov[j] == nv[j]);
                    }
                    assert(index_names(nv, kk) =~= index_names(ov, kk));
                }
                assert(self.wf()) by {
                    assert forall|a: int| 0 <= a < nv.len() implies #[trigger]
                        crate::name_set::strictly_sorted(nv[a].1) by {
                        if a != i {
                            assert(nv[a] == ov[a]);
                        }
                    }
                }
            }
        } else {
            let mut set = NameSet::new();
            insert_all(&mut set, names);
            let ghost new_names = set@;
            proof {
                assert(Set::<Seq<char>>::empty().union(string_set(names@)) =~= string_set(
                    names@,
                ));
                if i < n {
                    lemma_chars_lt_total(x, ov[i as int].0);
                    assert(chars_lt(x, ov[i as int].0));
                    assert forall|k: int| i <= k < n implies chars_lt(x, #[trigger] ov[k].0) by {
                        if k > i {
                            lemma_chars_lt_transitive(x, ov[i as int].0, ov[k].0);
                        }
                    }
                }
                assert forall|j: int| 0 <= j < n implies #[trigger] ov[j].0 != x by {
                    lemma_chars_lt_irreflexive(x);
                }
            }
            self.entries.insert(i, (key, set));
            proof {
                let nv = self@;
                assert(nv =~= ov.insert(i as int, (x, new_names)));
                assert(keys_sorted(nv)) by {
                    assert forall|a: int, b: int| 0 <= a < b < nv.len() implies chars_lt(
                        #[trigger] nv[a].0,
                        #[trigger] nv[b].0,
                    ) by {
                        if a < i && b < i {
                        } else if a < i && b == i {
                        } else if a < i && b > i {
                            assert(nv[b] == ov[b - 1]);
                            assert(chars_lt(ov[a].0, ov[b - 1].0));
                        } else if a == i {
                            assert(nv[b] == ov[b - 1]);
                        } else {
                            assert(nv[a] == ov[a - 1]);
                            assert(nv[b] == ov[b - 1]);
                        }
                    }
                }
                lemma_index_names_at(nv, i as int);
                assert(index_names(ov, x) =~= Set::<Seq<char>>::empty()) by {
                    assert forall|m: Seq<char>| !index_names(ov, x).contains(m) by {
                        if index_names(ov, x).contains(m) {
                            let j = choose|j: int|
                                0 <= j < ov.len() && #[trigger] ov[j].0 == x && ov[j].1.contains(m);
                            assert(ov[j].0 != x);
                        }
                    }
                }
                assert(index_keys(nv) =~= index_keys(ov).insert(x)) by {
                    assert forall|kk: Seq<char>| index_keys(nv).contains(kk) implies index_keys(
                        ov,
                    ).insert(x).contains(kk) by {
                        let j = choose|j: int| 0 <= j < nv.len() && #[trigger] nv[j].0 == kk;
                        if j < i {
                            assert(ov[j].0 == kk);
                        } else if j > i {
                            assert(ov[j - 1].0 == kk);
                        }
                    }
                    assert forall|kk: Seq<char>| index_keys(ov).contains(kk) implies index_keys(
                        nv,
                    ).contains(kk) by {
                        let j = choose|j: int| 0 <= j < ov.len() && #[trigger] ov[j].0 == kk;
                        if j < i {
                            assert(nv[j].0 == kk);
                        } else {
                            assert(nv[j + 1].0 == kk);
                        }
                    }
                    assert(nv[i as int].0 == x);
                }
                assert forall|kk: Seq<char>| kk != x implies #[trigger] index_names(nv, kk)
                    == index_names(ov, kk) by {
                    assert forall|m: Seq<char>| index_names(nv, kk).contains(m) implies index_names(
                        ov,
                        kk,
                    ).contains(m) by {
                        let j = choose|j: int|
                            0 <= j < nv.len() && #[trigger] nv[j].0 == kk && nv[j].1.contains(m);
                        assert(j != i);
                        if j < i {
                            assert(ov[j] == nv[j]);
                        } else {
                            assert(ov[j - 1] == nv[j]);
                        }
                    }
                    assert forall|m: Seq<char>| index_names(ov, kk).contains(m) implies index_names(
                        nv,
                        kk,
                    ).contains(m) by {
                        let j = choose|j: int|
                            0 <= j < ov.len() && #[trigger] ov[j].0 == kk && ov[j].1.contains(m);
                        if j < i {
                            assert(ov[j] == nv[j]);
                        } else {
                            assert(ov[j] == nv[j + 1]);
                        }
                    }
                    assert(index_names(nv, kk) =~= index_names(ov, kk));
                }
                assert(self.wf()) by {
                    assert forall|a: int| 0 <= a < nv.len() implies #[trigger]
                        crate::name_set::strictly_sorted(nv[a].1) by {
                        if a < i {
                            assert(nv[a] == ov[a]);
                        } else if a > i {
                            assert(nv[a] == ov[a - 1]);
                        }
                    }
                }
            }
        }
    }

    /// The dictionaries in increasing order, each with its clip names in increasing
    /// order.
    pub fn to_listing(&self) -> (v: Vec<(String, Vec<String>)>)
        ensures
            v@.len() == self@.len(),
            forall|i: int|
                0 <= i < v@.len() ==> (#[trigger] v@[i]).0@ == self@[i].0 && v@[i].1@.map_values(
                    |s: String| s@,
                ) == self@[i].1,
    {
        let mut v: Vec<(String, Vec<String>)> = Vec::new();
        let mut i: usize = 0;
        while i < self.entries.len()
            invariant
                i <= self@.len(),
                self@.len() == self.entries@.len(),
                v@.len() == i,
                forall|k: int|
                    0 <= k < i ==> (#[trigger] v@[k]).0@ == self@[k].0 && v@[k].1@.map_values(
                        |s: String| s@,
                    ) == self@[k].1,
            decreases self@.len() - i,
        {
            let key = string_from_chars(&self.entries[i].0);
            let names = self.entries[i].1.to_strings();
            v.push((key, names));
            i = i + 1;
        }
        v
    }
}

} // verus!
