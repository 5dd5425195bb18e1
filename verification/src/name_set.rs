//! A set of names kept as a strictly increasing list, ordered character by character
//! by code point (the order of their UTF-8 bytes).
use vstd::prelude::*;
use crate::error::string_from_chars;

verus! {

/// `a` sorts before `b`, comparing from index `i` on.
pub open spec fn lt_from(a: Seq<char>, b: Seq<char>, i: int) -> bool
    decreases a.len() - i,
{
    if i >= a.len() {
        i < b.len()
    } else if i >= b.len() {
        false
    } else if (a[i] as u32) < (b[i] as u32) {
        true
    } else if a[i] == b[i] {
        lt_from(a, b, i + 1)
    } else {
        false
    }
}

/// Lexicographic order on character sequences, by code point; a proper prefix sorts
/// first.
pub open spec fn chars_lt(a: Seq<char>, b: Seq<char>) -> bool {
    lt_from(a, b, 0)
}

/// Every element sorts strictly before every later one.
pub open spec fn strictly_sorted(s: Seq<Seq<char>>) -> bool {
    forall|i: int, j: int| 0 <= i < j < s.len() ==> chars_lt(#[trigger] s[i], #[trigger] s[j])
}

proof fn lemma_lt_from_irreflexive(a: Seq<char>, i: int)
    requires
        0 <= i,
    ensures
        !lt_from(a, a, i),
    decreases a.len() - i,
{
    if i < a.len() {
        lemma_lt_from_irreflexive(a, i + 1);
    }
}

proof fn lemma_lt_from_transitive(a: Seq<char>, b: Seq<char>, c: Seq<char>, i: int)
    requires
        0 <= i,
        lt_from(a, b, i),
        lt_from(b, c, i),
    ensures
        lt_from(a, c, i),
    decreases a.len() - i,
{
    if i < a.len() && i < b.len() && i < c.len() {
        if a[i] == b[i] && b[i] == c[i] {
            lemma_lt_from_transitive(a, b, c, i + 1);
        }
    }
}

proof fn lemma_lt_from_total(a: Seq<char>, b: Seq<char>, i: int)
    requires
        0 <= i <= a.len(),
        i <= b.len(),
        forall|k: int| 0 <= k < i ==> a[k] == b[k],
        !lt_from(a, b, i),
        !lt_from(b, a, i),
    ensures
        a == b,
    decreases a.len() - i,
{
    if i == a.len() {
        assert(a =~= b);
    } else {
        assert((a[i] as u32) == (b[i] as u32));
        vstd::utf8::char_u32_cast(a[i], a[i] as u32);
        vstd::utf8::char_u32_cast(b[i], b[i] as u32);
        assert(a[i] == b[i]);
        lemma_lt_from_total(a, b, i + 1);
    }
}

/// The order is irreflexive.
pub proof fn lemma_chars_lt_irreflexive(a: Seq<char>)
    ensures
        !chars_lt(a, a),
{
    lemma_lt_from_irreflexive(a, 0);
}

/// The order is transitive.
pub proof fn lemma_chars_lt_transitive(a: Seq<char>, b: Seq<char>, c: Seq<char>)
    requires
        chars_lt(a, b),
        chars_lt(b, c),
    ensures
        chars_lt(a, c),
{
    lemma_lt_from_transitive(a, b, c, 0);
}

/// Two different sequences are ordered one way or the other.
pub proof fn lemma_chars_lt_total(a: Seq<char>, b: Seq<char>)
    ensures
        a == b || chars_lt(a, b) || chars_lt(b, a),
{
    if !chars_lt(a, b) && !chars_lt(b, a) {
        lemma_lt_from_total(a, b, 0);
    }
}

/// Whether `a` sorts before `b`.
pub fn chars_less(a: &Vec<char>, b: &Vec<char>) -> (r: bool)
    ensures
        r == chars_lt(a@, b@),
{
    let mut i: usize = 0;
    loop
        invariant
            i <= a@.len(),
            i <= b@.len(),
            chars_lt(a@, b@) == lt_from(a@, b@, i as int),
        decreases a@.len() - i,
    {
        if i >= a.len() {
            return i < b.len();
        }
        if i >= b.len() {
            return false;
        }
        let x = a[i];
        let y = b[i];
        if (x as u32) < (y as u32) {
            return true;
        }
        if x != y {
            return false;
        }
        i = i + 1;
    }
}

/// A set of names has exactly one strictly increasing listing.
pub proof fn lemma_sorted_listing_unique(a: Seq<Seq<char>>, b: Seq<Seq<char>>)
    requires
        strictly_sorted(a),
        strictly_sorted(b),
        a.to_set() == b.to_set(),
    ensures
        a == b,
    decreases a.len(),
{
    if a.len() == 0 {
        if b.len() > 0 {
            assert(b.to_set().contains(b[0]));
        }
        assert(a =~= b);
    } else {
        assert(a.to_set().contains(a[0]));
        assert(b.len() > 0);
        assert(b.to_set().contains(b[0]));
        let j = choose|j: int| 0 <= j < b.len() && b[j] == a[0];
        let i = choose|i: int| 0 <= i < a.len() && a[i] == b[0];
        if j > 0 {
            assert(chars_lt(b[0], b[j]));
            if i == 0 {
                lemma_chars_lt_irreflexive(a[0]);
            } else {
                assert(chars_lt(a[0], a[i]));
                lemma_chars_lt_transitive(a[0], a[i], a[0]);
                lemma_chars_lt_irreflexive(a[0]);
            }
        }
        assert(a[0] == b[0]);
        let ta = a.drop_first();
        let tb = b.drop_first();
        assert forall|e: Seq<char>| ta.to_set().contains(e) implies tb.to_set().contains(e) by {
            let k = choose|k: int| 0 <= k < ta.len() && ta[k] == e;
            assert(a[k + 1] == e);
            assert(chars_lt(a[0], a[k + 1]));
            lemma_chars_lt_irreflexive(a[0]);
            assert(b.to_set().contains(e));
            let m = choose|m: int| 0 <= m < b.len() && b[m] == e;
            assert(m != 0);
            assert(tb[m - 1] == e);
        }
        assert forall|e: Seq<char>| tb.to_set().contains(e) implies ta.to_set().contains(e) by {
            let k = choose|k: int| 0 <= k < tb.len() && tb[k] == e;
            assert(b[k + 1] == e);
            assert(chars_lt(b[0], b[k + 1]));
            lemma_chars_lt_irreflexive(b[0]);
            assert(a.to_set().contains(e));
            let m = choose|m: int| 0 <= m < a.len() && a[m] == e;
            assert(m != 0);
            assert(ta[m - 1] == e);
        }
        assert(ta.to_set() =~= tb.to_set());
        lemma_sorted_listing_unique(ta, tb);
        assert(a =~= seq![a[0]] + ta);
        assert(b =~= seq![b[0]] + tb);
    }
}

/// A set of names, listed in strictly increasing order.
pub struct NameSet {
    names: Vec<Vec<char>>,
}

impl View for NameSet {
    type V = Seq<Seq<char>>;

    closed spec fn view(&self) -> Seq<Seq<char>> {
        self.names@.map_values(|v: Vec<char>| v@)
    }
}

impl NameSet {
    /// The listing is strictly increasing.
    pub open spec fn wf(&self) -> bool {
        strictly_sorted(self@)
    }

    /// The names held.
    pub open spec fn names(&self) -> Set<Seq<char>> {
        self@.to_set()
    }

    pub fn new() -> (s: Self)
        ensures
            s.wf(),
            s@ == Seq::<Seq<char>>::empty(),
    {
        let s = NameSet { names: Vec::new() };
        assert(s@ =~= Seq::<Seq<char>>::empty());
        s
    }

    pub fn len(&self) -> (n: usize)
        ensures
            n == self@.len(),
    {
        self.names.len()
    }

    /// Adds `name`; the listing stays strictly increasing.
    pub fn insert(&mut self, name: Vec<char>)
        requires
            old(self).wf(),
        ensures
            final(self).wf(),
            final(self).names() == old(self).names().insert(name@),
    {
        let ghost x = name@;
        let ghost old_view = self@;
        let n = self.names.len();
        let mut i: usize = 0;
        loop
            invariant
                self@ == old_view,
                x == name@,
                strictly_sorted(old_view),
                n == old_view.len(),
                i <= n,
                forall|k: int| 0 <= k < i ==> chars_lt(#[trigger] old_view[k], x),
            ensures
                i <= n,
                forall|k: int| 0 <= k < i ==> chars_lt(#[trigger] old_view[k], x),
                i < n ==> !chars_lt(old_view[i as int], x),
            decreases n - i,
        {
            if i >= n {
                break;
            }
            assert(old_view[i as int] == self.names@[i as int]@);
            if !chars_less(&self.names[i], &name) {
                break;
            }
            i = i + 1;
        }
        if i < n && !chars_less(&name, &self.names[i]) {
            proof {
                assert(old_view[i as int] == self.names@[i as int]@);
                lemma_chars_lt_total(x, old_view[i as int]);
                assert(old_view[i as int] == x);
                assert(old_view.to_set().insert(x) =~= old_view.to_set());
            }
            return;
        }
        proof {
            if i < n {
                assert(old_view[i as int] == self.names@[i as int]@);
                lemma_chars_lt_total(x, old_view[i as int]);
                assert(chars_lt(x, old_view[i as int]));
                assert forall|k: int| i <= k < n implies chars_lt(x, #[trigger] old_view[k]) by {
                    if k > i {
                        lemma_chars_lt_transitive(x, old_view[i as int], old_view[k]);
                    }
                }
            }
        }
        self.names.insert(i, name);
        proof {
            let nv = self@;
            assert(nv =~= old_view.insert(i as int, x));
            assert forall|a: int, b: int| 0 <= a < b < nv.len() implies chars_lt(
                #[trigger] nv[a],
                #[trigger] nv[b],
            ) by {
                if a < i && b < i {
                } else if a < i && b == i {
                } else if a < i && b > i {
                    assert(nv[b] == old_view[b - 1]);
                    assert(chars_lt(old_view[a], old_view[b - 1]));
                } else if a == i {
                    assert(nv[b] == old_view[b - 1]);
                } else {
                    assert(nv[a] == old_view[a - 1]);
                    assert(nv[b] == old_view[b - 1]);
                }
            }
            assert forall|e: Seq<char>| nv.to_set().contains(e) <==> old_view.to_set().insert(
                x,
            ).contains(e) by {
                if nv.contains(e) {
                    let k = choose|k: int| 0 <= k < nv.len() && nv[k] == e;
                    if k < i {
                        assert(old_view[k] == e);
                    } else if k > i {
                        assert(old_view[k - 1] == e);
                    }
                }
                if old_view.contains(e) {
                    let k = choose|k: int| 0 <= k < old_view.len() && old_view[k] == e;
                    if k < i {
                        assert(nv[k] == e);
                    } else {
                        assert(nv[k + 1] == e);
                    }
                }
                if e == x {
                    assert(nv[i as int] == x);
                }
            }
            assert(nv.to_set() =~= old_view.to_set().insert(x));
        }
    }

    /// The names, in increasing order, as strings.
    pub fn to_strings(&self) -> (v: Vec<String>)
        ensures
            v@.map_values(|s: String| s@) == self@,
    {
        let mut v: Vec<String> = Vec::new();
        let mut i: usize = 0;
        while i < self.names.len()
            invariant
                i <= self@.len(),
                self@.len() == self.names@.len(),
                v@.map_values(|s: String| s@) == self@.take(i as int),
            decreases self@.len() - i,
        {
            let s = string_from_chars(&self.names[i]);
            assert(s@ == self@[i as int]);
            assert(self@.take(i + 1) =~= self@.take(i as int).push(self@[i as int]));
            v.push(s);
            assert(v@.map_values(|s: String| s@) =~= self@.take(i + 1));
            i = i + 1;
        }
        assert(self@.take(i as int) =~= self@);
        v
    }
}

} // verus!
