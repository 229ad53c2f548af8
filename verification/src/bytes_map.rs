//! Ordered maps and sets of byte strings.

use vstd::prelude::*;

use crate::bytes;

verus! {

/// The keys of `s` rise strictly.
pub open spec fn sorted(s: Seq<(Seq<u8>, Seq<u8>)>) -> bool {
    forall|i: int, j: int| 0 <= i < j < s.len() ==> bytes::lex_lt(#[trigger] s[i].0, #[trigger] s[j].0)
}

/// What the pairs of `s` give when they are written one after the other: the last
/// pair of a key stands.
pub open spec fn map_of(s: Seq<(Seq<u8>, Seq<u8>)>) -> Map<Seq<u8>, Seq<u8>>
    decreases s.len(),
{
    if s.len() == 0 {
        Map::empty()
    } else {
        map_of(s.drop_last()).insert(s.last().0, s.last().1)
    }
}

/// The views of a list of pairs.
pub open spec fn pair_views(v: Seq<(Vec<u8>, Vec<u8>)>) -> Seq<(Seq<u8>, Seq<u8>)> {
    Seq::new(v.len(), |i: int| (v[i].0@, v[i].1@))
}

/// The pairs of a map whose keys lie from `start` on and before `end`; an empty `end` sets
/// no bound.
pub open spec fn range_of(
    m: Map<Seq<u8>, Seq<u8>>,
    start: Seq<u8>,
    end: Seq<u8>,
) -> Map<Seq<u8>, Seq<u8>> {
    Map::new(
        |k: Seq<u8>|
            m.contains_key(k) && !bytes::lex_lt(k, start) && (end.len() == 0 || bytes::lex_lt(k, end)),
        |k: Seq<u8>| m[k],
    )
}

/// `l` lists the members of `s` once each, in rising order.
pub open spec fn lists(l: Seq<Seq<u8>>, s: Set<Seq<u8>>) -> bool {
    &&& forall|i: int, j: int| 0 <= i < j < l.len() ==> bytes::lex_lt(#[trigger] l[i], #[trigger] l[j])
    &&& forall|k: Seq<u8>| #[trigger] l.contains(k) <==> s.contains(k)
}

/// The members of a finite set in rising order.
pub open spec fn rising(s: Set<Seq<u8>>) -> Seq<Seq<u8>> {
    choose|l: Seq<Seq<u8>>| lists(l, s)
}

/// A set has one list in rising order.
pub proof fn lists_unique(l: Seq<Seq<u8>>, m: Seq<Seq<u8>>, s: Set<Seq<u8>>)
    requires
        lists(l, s),
        lists(m, s),
    ensures
        l == m,
    decreases l.len(),
{
    broadcast use bytes::lex_lt_asym;

    if l.len() == 0 {
        if m.len() > 0 {
            assert(m.contains(m[0]));
            assert(l.contains(m[0]));
        }
        assert(l =~= m);
    } else {
        assert(l.contains(l.last()));
        assert(m.contains(l.last()));
        let a = l.last();
        let b = m.last();
        assert(m.contains(b));
        assert(l.contains(b));
        let i = l.index_of(b);
        let j = m.index_of(a);
        assert(0 <= i < l.len() && l[i] == b);
        assert(0 <= j < m.len() && m[j] == a);
        if i < l.len() - 1 && j < m.len() - 1 {
            assert(bytes::lex_lt(l[i], l[l.len() - 1]));
            assert(bytes::lex_lt(m[j], m[m.len() - 1]));
        }
        assert(a == b);
        let t = s.remove(a);
        assert(lists(l.drop_last(), t)) by { lists_drop_last(l, s) };
        assert(lists(m.drop_last(), t)) by { lists_drop_last(m, s) };
        lists_unique(l.drop_last(), m.drop_last(), t);
        assert(l =~= l.drop_last().push(a));
        assert(m =~= m.drop_last().push(a));
    }
}

proof fn lists_drop_last(l: Seq<Seq<u8>>, s: Set<Seq<u8>>)
    requires
        lists(l, s),
        l.len() > 0,
    ensures
        lists(l.drop_last(), s.remove(l.last())),
{
    broadcast use bytes::lex_lt_asym;

    let p = l.drop_last();
    let a = l.last();
    assert forall|k: Seq<u8>| #[trigger] p.contains(k) <==> s.remove(a).contains(k) by {
        if p.contains(k) {
            let i = p.index_of(k);
            assert(l[i] == k);
            assert(l.contains(k));
            assert(bytes::lex_lt(l[i], l[l.len() - 1]));
        }
        if s.remove(a).contains(k) {
            assert(l.contains(k));
            let i = l.index_of(k);
            assert(p[i] == k);
        }
    }
}

/// A list in rising order is the one that `rising` names.
pub proof fn rising_is(l: Seq<Seq<u8>>, s: Set<Seq<u8>>)
    requires
        lists(l, s),
    ensures
        rising(s) == l,
{
    lists_unique(l, rising(s), s);
}

spec fn put_in(l: Seq<Seq<u8>>, a: Seq<u8>) -> Seq<Seq<u8>>
    decreases l.len(),
{
    if l.len() == 0 || bytes::lex_lt(l.last(), a) {
        l.push(a)
    } else if l.last() == a {
        l
    } else {
        put_in(l.drop_last(), a).push(l.last())
    }
}

proof fn put_in_lists(l: Seq<Seq<u8>>, s: Set<Seq<u8>>, a: Seq<u8>)
    requires
        lists(l, s),
    ensures
        lists(put_in(l, a), s.insert(a)),
    decreases l.len(),
{
    broadcast use bytes::lex_lt_asym;

    let r = put_in(l, a);
    if l.len() == 0 || bytes::lex_lt(l.last(), a) {
        assert forall|i: int, j: int| 0 <= i < j < r.len() implies bytes::lex_lt(
            #[trigger] r[i],
            #[trigger] r[j],
        ) by {
            if j == l.len() && i < l.len() - 1 {
                bytes::lex_lt_trans(l[i], l.last(), a);
            }
        }
        assert forall|k: Seq<u8>| #[trigger] r.contains(k) <==> s.insert(a).contains(k) by {
            if r.contains(k) {
                let i = r.index_of(k);
                if i < l.len() {
                    assert(l[i] == k);
                    assert(l.contains(k));
                }
            }
            if s.contains(k) {
                assert(l.contains(k));
                let i = l.index_of(k);
                assert(r[i] == k);
            }
            assert(r[l.len() as int] == a);
        }
    } else if l.last() == a {
        assert(l.contains(l.last()));
        assert(s.insert(a) =~= s);
    } else {
        bytes::lex_total(l.last(), a);
        let p = l.drop_last();
        let z = l.last();
        lists_drop_last(l, s);
        put_in_lists(p, s.remove(z), a);
        let q = put_in(p, a);
        assert(r == q.push(z));
        assert forall|i: int| 0 <= i < q.len() implies bytes::lex_lt(#[trigger] q[i], z) by {
            assert(q.contains(q[i]));
            if q[i] != a {
                assert(s.remove(z).contains(q[i]));
                assert(l.contains(q[i]));
                let x = l.index_of(q[i]);
                assert(l[x] == q[i]);
                assert(x != l.len() - 1);
                assert(bytes::lex_lt(l[x], l[l.len() - 1]));
            }
        }
        assert forall|k: Seq<u8>| #[trigger] r.contains(k) <==> s.insert(a).contains(k) by {
            assert(l.contains(z)) by {
                assert(l[l.len() - 1] == z);
            }
            if r.contains(k) {
                let i = r.index_of(k);
                if i < q.len() {
                    assert(q[i] == k);
                    assert(q.contains(k));
                }
            }
            if s.insert(a).contains(k) {
                if k == z {
                    assert(r[q.len() as int] == k);
                } else {
                    assert(q.contains(k));
                    let i = q.index_of(k);
                    assert(r[i] == k);
                }
            }
        }
    }
}

/// A finite set has a list in rising order.
pub proof fn rising_lists(s: Set<Seq<u8>>)
    requires
        s.finite(),
    ensures
        lists(rising(s), s),
    decreases s.len(),
{
    if s.len() == 0 {
        assert(s =~= Set::empty());
        let l: Seq<Seq<u8>> = Seq::empty();
        assert(lists(l, s));
    } else {
        let a = s.choose();
        let t = s.remove(a);
        rising_lists(t);
        put_in_lists(rising(t), t, a);
        assert(t.insert(a) =~= s);
        assert(lists(put_in(rising(t), a), s));
    }
}

/// The keys of `map_of(s)` are those of `s`.
pub proof fn map_of_keys(s: Seq<(Seq<u8>, Seq<u8>)>)
    ensures
        forall|k: Seq<u8>| #[trigger] map_of(s).contains_key(k) <==> exists|i: int|
            0 <= i < s.len() && #[trigger] s[i].0 == k,
        map_of(s).dom().finite(),
    decreases s.len(),
{
    if s.len() > 0 {
        let p = s.drop_last();
        map_of_keys(p);
        assert forall|k: Seq<u8>| #[trigger] map_of(s).contains_key(k) implies exists|i: int|
            0 <= i < s.len() && #[trigger] s[i].0 == k by {
            if k == s.last().0 {
                assert(s[s.len() - 1].0 == k);
            } else {
                assert(map_of(p).contains_key(k));
                let i = choose|i: int| 0 <= i < p.len() && #[trigger] p[i].0 == k;
                assert(s[i].0 == k);
            }
        }
        assert forall|k: Seq<u8>|
            (exists|i: int| 0 <= i < s.len() && #[trigger] s[i].0 == k) implies #[trigger] map_of(
            s,
        ).contains_key(k) by {
            let i = choose|i: int| 0 <= i < s.len() && #[trigger] s[i].0 == k;
            if i < s.len() - 1 {
                assert(p[i].0 == k);
                assert(map_of(p).contains_key(k));
            }
        }
    }
}

/// Where the keys of `s` rise, each pair of `s` is a pair of `map_of(s)`, and no other is.
pub proof fn map_of_sorted(s: Seq<(Seq<u8>, Seq<u8>)>)
    requires
        sorted(s),
    ensures
        forall|k: Seq<u8>| #[trigger] map_of(s).contains_key(k) <==> exists|i: int|
            0 <= i < s.len() && #[trigger] s[i].0 == k,
        forall|i: int|
            0 <= i < s.len() ==> map_of(s).contains_key(#[trigger] s[i].0) && map_of(s)[s[i].0] == s[i].1,
        map_of(s).dom().finite(),
        map_of(s).dom().len() == s.len(),
    decreases s.len(),
{
    broadcast use bytes::lex_lt_asym;

    map_of_keys(s);
    if s.len() > 0 {
        let p = s.drop_last();
        assert forall|i: int, j: int| 0 <= i < j < p.len() implies bytes::lex_lt(
            #[trigger] p[i].0,
            #[trigger] p[j].0,
        ) by {
            assert(bytes::lex_lt(s[i].0, s[j].0));
        }
        map_of_sorted(p);
        assert(!map_of(p).contains_key(s.last().0)) by {
            if map_of(p).contains_key(s.last().0) {
                let i = choose|i: int| 0 <= i < p.len() && #[trigger] p[i].0 == s.last().0;
                assert(bytes::lex_lt(s[i].0, s[s.len() - 1].0));
            }
        }
        assert forall|i: int| 0 <= i < s.len() implies map_of(s).contains_key(#[trigger] s[i].0)
            && map_of(s)[s[i].0] == s[i].1 by {
            if i < s.len() - 1 {
                assert(p[i] == s[i]);
                assert(bytes::lex_lt(s[i].0, s[s.len() - 1].0));
            }
        }
    }
}

/// A map with the pairs of `s`, whose keys rise, is `map_of(s)`.
pub proof fn map_of_is(s: Seq<(Seq<u8>, Seq<u8>)>, m: Map<Seq<u8>, Seq<u8>>)
    requires
        sorted(s),
        forall|k: Seq<u8>| #[trigger] m.contains_key(k) ==> exists|i: int|
            0 <= i < s.len() && #[trigger] s[i].0 == k,
        forall|i: int|
            0 <= i < s.len() ==> m.contains_key(#[trigger] s[i].0) && m[s[i].0] == s[i].1,
    ensures
        map_of(s) == m,
{
    map_of_sorted(s);
    assert(map_of(s).dom() =~= m.dom()) by {
        assert forall|k: Seq<u8>| map_of(s).dom().contains(k) == m.dom().contains(k) by {
            assert(map_of(s).contains_key(k) == m.contains_key(k));
        }
    }
    assert forall|k: Seq<u8>| map_of(s).dom().contains(k) implies map_of(s)[k] == m[k] by {
        assert(map_of(s).contains_key(k));
        let i = choose|i: int| 0 <= i < s.len() && #[trigger] s[i].0 == k;
        assert(map_of(s)[s[i].0] == s[i].1);
    }
    assert(map_of(s) =~= m);
}

/// The pairs of a map with finitely many keys, in the order of their keys.
pub open spec fn pairs_of(m: Map<Seq<u8>, Seq<u8>>) -> Seq<(Seq<u8>, Seq<u8>)> {
    choose|p: Seq<(Seq<u8>, Seq<u8>)>| sorted(p) && map_of(p) == m
}

/// A list of pairs whose keys rise is the one that `pairs_of` names.
pub proof fn pairs_of_is(p: Seq<(Seq<u8>, Seq<u8>)>)
    requires
        sorted(p),
    ensures
        pairs_of(map_of(p)) == p,
{
    let m = map_of(p);
    let q = pairs_of(m);
    assert(sorted(q) && map_of(q) == m);
    map_of_sorted(p);
    map_of_sorted(q);
    let a = Seq::new(p.len(), |i: int| p[i].0);
    let b = Seq::new(q.len(), |i: int| q[i].0);
    keys_list(p);
    keys_list(q);
    lists_unique(a, b, m.dom());
    assert forall|i: int| 0 <= i < p.len() implies p[i] == q[i] by {
        assert(a[i] == b[i]);
        assert(m[p[i].0] == p[i].1);
        assert(m[q[i].0] == q[i].1);
    }
    assert(a.len() == b.len());
    assert(p =~= q);
}

proof fn keys_list(p: Seq<(Seq<u8>, Seq<u8>)>)
    requires
        sorted(p),
    ensures
        lists(Seq::new(p.len(), |i: int| p[i].0), map_of(p).dom()),
{
    map_of_sorted(p);
    let a = Seq::new(p.len(), |i: int| p[i].0);
    assert forall|k: Seq<u8>| #[trigger] a.contains(k) <==> map_of(p).dom().contains(k) by {
        if a.contains(k) {
            let i = a.index_of(k);
            assert(map_of(p).contains_key(p[i].0));
        }
        if map_of(p).dom().contains(k) {
            assert(map_of(p).contains_key(k));
            let i = choose|i: int| 0 <= i < p.len() && #[trigger] p[i].0 == k;
            assert(a[i] == k);
        }
    }
}

proof fn replace_pair(s: Seq<(Seq<u8>, Seq<u8>)>, p: int, v: Seq<u8>)
    requires
        sorted(s),
        0 <= p < s.len(),
    ensures
        sorted(s.update(p, (s[p].0, v))),
        map_of(s.update(p, (s[p].0, v))) == map_of(s).insert(s[p].0, v),
{
    broadcast use bytes::lex_lt_asym;

    let k = s[p].0;
    let t = s.update(p, (k, v));
    map_of_sorted(s);
    assert forall|i: int, j: int| 0 <= i < j < t.len() implies bytes::lex_lt(
        #[trigger] t[i].0,
        #[trigger] t[j].0,
    ) by {
        assert(bytes::lex_lt(s[i].0, s[j].0));
    }
    let m = map_of(s).insert(k, v);
    assert forall|x: Seq<u8>| #[trigger] m.contains_key(x) implies exists|i: int|
        0 <= i < t.len() && #[trigger] t[i].0 == x by {
        assert(map_of(s).contains_key(x));
        let i = choose|i: int| 0 <= i < s.len() && #[trigger] s[i].0 == x;
        assert(t[i].0 == x);
    }
    assert forall|i: int| 0 <= i < t.len() implies m.contains_key(#[trigger] t[i].0) && m[t[i].0]
        == t[i].1 by {
        assert(map_of(s).contains_key(s[i].0));
        if i < p {
            assert(bytes::lex_lt(s[i].0, s[p].0));
        } else if p < i {
            assert(bytes::lex_lt(s[p].0, s[i].0));
        }
    }
    map_of_is(t, m);
}

proof fn insert_pair(s: Seq<(Seq<u8>, Seq<u8>)>, p: int, k: Seq<u8>, v: Seq<u8>)
    requires
        sorted(s),
        0 <= p <= s.len(),
        forall|i: int| 0 <= i < p ==> bytes::lex_lt(#[trigger] s[i].0, k),
        forall|i: int| p <= i < s.len() ==> bytes::lex_lt(k, #[trigger] s[i].0),
    ensures
        sorted(s.insert(p, (k, v))),
        map_of(s.insert(p, (k, v))) == map_of(s).insert(k, v),
{
    broadcast use bytes::lex_lt_asym;

    let t = s.insert(p, (k, v));
    map_of_sorted(s);
    assert forall|i: int| 0 <= i < t.len() && i != p implies #[trigger] t[i] == s[if i < p {
        i
    } else {
        i - 1
    }] by {}
    assert(t[p] == (k, v));
    assert forall|i: int, j: int| 0 <= i < j < t.len() implies bytes::lex_lt(
        #[trigger] t[i].0,
        #[trigger] t[j].0,
    ) by {
        let a = if i < p { i } else { i - 1 };
        let b = if j < p { j } else { j - 1 };
        if i != p {
            assert(t[i] == s[a]);
        }
        if j != p {
            assert(t[j] == s[b]);
        }
    }
    let m = map_of(s).insert(k, v);
    assert forall|x: Seq<u8>| #[trigger] m.contains_key(x) implies exists|i: int|
        0 <= i < t.len() && #[trigger] t[i].0 == x by {
        if x == k {
            assert(t[p].0 == x);
        } else {
            assert(map_of(s).contains_key(x));
            let i = choose|i: int| 0 <= i < s.len() && #[trigger] s[i].0 == x;
            let a = if i < p { i } else { i + 1 };
            assert(t[a].0 == x);
        }
    }
    assert forall|i: int| 0 <= i < t.len() implies m.contains_key(#[trigger] t[i].0) && m[t[i].0]
        == t[i].1 by {
        if i != p {
            let a = if i < p { i } else { i - 1 };
            assert(t[i] == s[a]);
            assert(map_of(s).contains_key(s[a].0));
            assert(bytes::lex_lt(s[a].0, k) || bytes::lex_lt(k, s[a].0));
        }
    }
    map_of_is(t, m);
}

proof fn remove_pair(s: Seq<(Seq<u8>, Seq<u8>)>, p: int)
    requires
        sorted(s),
        0 <= p < s.len(),
    ensures
        sorted(s.remove(p)),
        map_of(s.remove(p)) == map_of(s).remove(s[p].0),
{
    broadcast use bytes::lex_lt_asym;

    let k = s[p].0;
    let t = s.remove(p);
    map_of_sorted(s);
    assert forall|i: int| 0 <= i < t.len() implies #[trigger] t[i] == s[if i < p {
        i
    } else {
        i + 1
    }] by {}
    assert forall|i: int, j: int| 0 <= i < j < t.len() implies bytes::lex_lt(
        #[trigger] t[i].0,
        #[trigger] t[j].0,
    ) by {
        let a = if i < p { i } else { i + 1 };
        let b = if j < p { j } else { j + 1 };
        assert(t[i] == s[a] && t[j] == s[b]);
    }
    let m = map_of(s).remove(k);
    assert forall|x: Seq<u8>| #[trigger] m.contains_key(x) implies exists|i: int|
        0 <= i < t.len() && #[trigger] t[i].0 == x by {
        assert(map_of(s).contains_key(x));
        let i = choose|i: int| 0 <= i < s.len() && #[trigger] s[i].0 == x;
        let a = if i < p { i } else { i - 1 };
        assert(t[a].0 == x);
    }
    assert forall|i: int| 0 <= i < t.len() implies m.contains_key(#[trigger] t[i].0) && m[t[i].0]
        == t[i].1 by {
        let a = if i < p { i } else { i + 1 };
        assert(t[i] == s[a]);
        assert(map_of(s).contains_key(s[a].0));
        if a < p {
            assert(bytes::lex_lt(s[a].0, s[p].0));
        } else {
            assert(bytes::lex_lt(s[p].0, s[a].0));
        }
    }
    map_of_is(t, m);
}

/// An ordered map from byte strings to byte strings.
pub struct BytesMap {
    entries: Vec<(Vec<u8>, Vec<u8>)>,
}

impl BytesMap {
    /// The pairs of the map in the order of their keys.
    pub closed spec fn pairs(&self) -> Seq<(Seq<u8>, Seq<u8>)> {
        Seq::new(self.entries@.len(), |i: int| (self.entries@[i].0@, self.entries@[i].1@))
    }

    #[verifier::type_invariant]
    spec fn keys_rise(&self) -> bool {
        sorted(self.pairs())
    }
}

impl View for BytesMap {
    type V = Map<Seq<u8>, Seq<u8>>;

    open spec fn view(&self) -> Map<Seq<u8>, Seq<u8>> {
        map_of(self.pairs())
    }
}

impl BytesMap {
    /// An empty map.
    pub fn new() -> (r: Self)
        ensures
            r@ == Map::<Seq<u8>, Seq<u8>>::empty(),
            r.pairs().len() == 0,
    {
        BytesMap { entries: Vec::new() }
    }

    /// How many keys the map has; its pairs stand in the order of their keys.
    pub fn len(&self) -> (r: usize)
        ensures
            r == self@.dom().len(),
            self@.dom().finite(),
            r == self.pairs().len(),
            sorted(self.pairs()),
    {
        proof {
            use_type_invariant(self);
            map_of_sorted(self.pairs());
        }
        self.entries.len()
    }

    /// Whether the map has no key.
    pub fn is_empty(&self) -> (r: bool)
        ensures
            r == (self@ == Map::<Seq<u8>, Seq<u8>>::empty()),
    {
        proof {
            use_type_invariant(self);
            map_of_sorted(self.pairs());
            if self.entries@.len() > 0 {
                assert(self@.contains_key(self.pairs()[0].0));
            }
        }
        self.entries.len() == 0
    }

    /// The key that is `i`-th in order.
    pub fn key_at(&self, i: usize) -> (r: &Vec<u8>)
        requires
            i < self.pairs().len(),
        ensures
            r@ == self.pairs()[i as int].0,
    {
        &self.entries[i].0
    }

    /// The value of the key that is `i`-th in order.
    pub fn value_at(&self, i: usize) -> (r: &Vec<u8>)
        requires
            i < self.pairs().len(),
        ensures
            r@ == self.pairs()[i as int].1,
    {
        &self.entries[i].1
    }

    /// The first place whose key is not smaller than `key`.
    pub fn lower_bound(&self, key: &[u8]) -> (r: usize)
        ensures
            r <= self.pairs().len(),
            forall|i: int| 0 <= i < r ==> bytes::lex_lt(#[trigger] self.pairs()[i].0, key@),
            forall|i: int|
                r <= i < self.pairs().len() ==> !bytes::lex_lt(#[trigger] self.pairs()[i].0, key@),
    {
        broadcast use bytes::lex_lt_asym;
        broadcast use bytes::lex_lt_trans;

        proof {
            use_type_invariant(self);
        }
        let mut lo: usize = 0;
        let mut hi: usize = self.entries.len();
        while lo < hi
            invariant
                sorted(self.pairs()),
                lo <= hi <= self.pairs().len(),
                self.pairs().len() == self.entries@.len(),
                forall|i: int| 0 <= i < lo ==> bytes::lex_lt(#[trigger] self.pairs()[i].0, key@),
                forall|i: int|
                    hi <= i < self.pairs().len() ==> !bytes::lex_lt(
                        #[trigger] self.pairs()[i].0,
                        key@,
                    ),
            decreases hi - lo,
        {
            let mid: usize = lo + (hi - lo) / 2;
            let ghost m = mid as int;
            assert(self.pairs()[m].0 == self.entries@[m].0@);
            if bytes::less(&self.entries[mid].0, key) {
                assert forall|i: int| 0 <= i < mid + 1 implies bytes::lex_lt(
                    #[trigger] self.pairs()[i].0,
                    key@,
                ) by {
                    if lo <= i < mid {
                        bytes::lex_lt_trans(self.pairs()[i].0, self.pairs()[m].0, key@);
                    }
                }
                lo = mid + 1;
            } else {
                assert forall|i: int| mid <= i < self.pairs().len() implies !bytes::lex_lt(
                    #[trigger] self.pairs()[i].0,
                    key@,
                ) by {
                    if mid < i && bytes::lex_lt(self.pairs()[i].0, key@) {
                        bytes::lex_lt_trans(self.pairs()[m].0, self.pairs()[i].0, key@);
                    }
                }
                hi = mid;
            }
        }
        lo
    }

    /// The place of a key, where the map has it.
    fn find(&self, key: &[u8]) -> (r: (bool, usize))
        ensures
            r.1 <= self.pairs().len(),
            r.0 == self@.contains_key(key@),
            r.0 ==> r.1 < self.pairs().len() && self.pairs()[r.1 as int].0 == key@
                && self.pairs()[r.1 as int].1 == self@[key@],
            forall|i: int| 0 <= i < r.1 ==> bytes::lex_lt(#[trigger] self.pairs()[i].0, key@),
            !r.0 ==> forall|i: int|
                r.1 <= i < self.pairs().len() ==> bytes::lex_lt(key@, #[trigger] self.pairs()[i].0),
    {
        broadcast use bytes::lex_lt_asym;
        broadcast use bytes::lex_lt_trans;

        proof {
            use_type_invariant(self);
            map_of_sorted(self.pairs());
        }
        let p: usize = self.lower_bound(key);
        if p < self.entries.len() && bytes::same(&self.entries[p].0, key) {
            assert(self.pairs()[p as int].0 == key@);
            return (true, p);
        }
        assert forall|i: int| p <= i < self.pairs().len() implies bytes::lex_lt(
            key@,
            #[trigger] self.pairs()[i].0,
        ) by {
            assert(self.pairs()[p as int].0 == self.entries@[p as int].0@);
            bytes::lex_total(self.pairs()[p as int].0, key@);
            if p < i {
                assert(bytes::lex_lt(self.pairs()[p as int].0, self.pairs()[i].0));
            }
        }
        assert(!self@.contains_key(key@)) by {
            if self@.contains_key(key@) {
                let i = choose|i: int|
                    0 <= i < self.pairs().len() && #[trigger] self.pairs()[i].0 == key@;
                assert(i < p || p <= i);
            }
        }
        (false, p)
    }

    /// The value of a key.
    pub fn get(&self, key: &[u8]) -> (r: Option<&Vec<u8>>)
        ensures
            match r {
                Some(v) => self@.contains_key(key@) && v@ == self@[key@],
                None => !self@.contains_key(key@),
            },
    {
        let (found, p) = self.find(key);
        if found {
            Some(&self.entries[p].1)
        } else {
            None
        }
    }

    /// Whether the map has a key.
    pub fn contains_key(&self, key: &[u8]) -> (r: bool)
        ensures
            r == self@.contains_key(key@),
    {
        self.find(key).0
    }

    /// Gives a key a value.
    pub fn insert(&mut self, key: Vec<u8>, value: Vec<u8>)
        ensures
            final(self)@ == old(self)@.insert(key@, value@),
    {
        broadcast use bytes::lex_lt_asym;
        broadcast use bytes::lex_lt_trans;

        proof {
            use_type_invariant(&*self);
            map_of_sorted(self.pairs());
        }
        let ghost before = self.pairs();
        let ghost k = key@;
        let ghost v = value@;
        let (found, p) = self.find(&key);
        let mut entries: Vec<(Vec<u8>, Vec<u8>)> = Vec::new();
        std::mem::swap(&mut entries, &mut self.entries);
        if found {
            entries.set(p, (key, value));
            proof {
                replace_pair(before, p as int, v);
                assert(BytesMap { entries }.pairs() =~= before.update(p as int, (k, v)));
            }
        } else {
            entries.insert(p, (key, value));
            proof {
                insert_pair(before, p as int, k, v);
                assert(BytesMap { entries }.pairs() =~= before.insert(p as int, (k, v)));
            }
        }
        self.entries = entries;
    }

    /// Takes a key out.
    pub fn remove(&mut self, key: &[u8])
        ensures
            final(self)@ == old(self)@.remove(key@),
    {
        broadcast use bytes::lex_lt_asym;
        broadcast use bytes::lex_lt_trans;

        proof {
            use_type_invariant(&*self);
            map_of_sorted(self.pairs());
        }
        let ghost before = self.pairs();
        let ghost k = key@;
        let (found, p) = self.find(key);
        if found {
            let mut entries: Vec<(Vec<u8>, Vec<u8>)> = Vec::new();
            std::mem::swap(&mut entries, &mut self.entries);
            entries.remove(p);
            proof {
                remove_pair(before, p as int);
                assert(BytesMap { entries }.pairs() =~= before.remove(p as int));
            }
            self.entries = entries;
        } else {
            assert(map_of(before).remove(k) =~= map_of(before));
        }
    }

    /// Takes every key out.
    pub fn clear(&mut self)
        ensures
            final(self)@ == Map::<Seq<u8>, Seq<u8>>::empty(),
    {
        self.entries = Vec::new();
    }

    /// Moves the pairs of another map into this one; they take the place of those with the
    /// same key.
    pub fn absorb(&mut self, other: &mut BytesMap)
        ensures
            final(self)@ == old(self)@.union_prefer_right(old(other)@),
            final(other)@ == Map::<Seq<u8>, Seq<u8>>::empty(),
    {
        let src = other.take();
        let ghost m = self@;
        let n: usize = src.len();
        let ghost p = src.pairs();
        let mut i: usize = 0;
        assert(p.take(0) =~= Seq::empty());
        assert(m.union_prefer_right(map_of(p.take(0))) =~= m);
        while i < n
            invariant
                i <= n,
                n == p.len(),
                p == src.pairs(),
                self@ == m.union_prefer_right(map_of(p.take(i as int))),
            decreases n - i,
        {
            self.insert(bytes::copy_of(src.key_at(i)), bytes::copy_of(src.value_at(i)));
            proof {
                let done = p.take(i as int);
                assert(p.take(i + 1).drop_last() =~= done);
                assert(m.union_prefer_right(map_of(done)).insert(p[i as int].0, p[i as int].1)
                    =~= m.union_prefer_right(map_of(done).insert(p[i as int].0, p[i as int].1)));
            }
            i = i + 1;
        }
        assert(p.take(n as int) =~= p);
    }

    /// The pairs whose keys lie from `start` on and before `end`, in the order of their
    /// keys; an empty `end` sets no bound.
    pub fn range(&self, start: &[u8], end: &[u8]) -> (r: Vec<(Vec<u8>, Vec<u8>)>)
        requires
            end@.len() == 0 || bytes::lex_le(start@, end@),
        ensures
            sorted(pair_views(r@)),
            map_of(pair_views(r@)) == range_of(self@, start@, end@),
    {
        proof {
            use_type_invariant(self);
            map_of_sorted(self.pairs());
        }
        let lo: usize = self.lower_bound(start);
        let hi: usize = if end.len() == 0 {
            self.entries.len()
        } else {
            self.lower_bound(end)
        };
        let ghost p = self.pairs();
        assert(lo <= hi) by {
            if hi < lo {
                assert(bytes::lex_lt(p[hi as int].0, start@));
                if end@ != start@ {
                    bytes::lex_lt_trans(p[hi as int].0, start@, end@);
                }
            }
        }
        let mut r: Vec<(Vec<u8>, Vec<u8>)> = Vec::new();
        let mut i: usize = lo;
        while i < hi
            invariant
                lo <= i <= hi <= p.len(),
                p == self.pairs(),
                pair_views(r@) == p.subrange(lo as int, i as int),
            decreases hi - i,
        {
            let ghost before = r@;
            r.push((bytes::copy_of(self.key_at(i)), bytes::copy_of(self.value_at(i))));
            assert(pair_views(r@) =~= pair_views(before).push(p[i as int]));
            assert(p.subrange(lo as int, i + 1) =~= p.subrange(lo as int, i as int).push(p[i as int]));
            i = i + 1;
        }
        proof {
            let s = p.subrange(lo as int, hi as int);
            let m = range_of(self@, start@, end@);
            assert forall|a: int, b: int| 0 <= a < b < s.len() implies bytes::lex_lt(
                #[trigger] s[a].0,
                #[trigger] s[b].0,
            ) by {
                assert(bytes::lex_lt(p[a + lo].0, p[b + lo].0));
            }
            assert forall|k: Seq<u8>| #[trigger] m.contains_key(k) implies exists|i: int|
                0 <= i < s.len() && #[trigger] s[i].0 == k by {
                assert(self@.contains_key(k));
                let j = choose|j: int| 0 <= j < p.len() && #[trigger] p[j].0 == k;
                assert(lo <= j < hi);
                assert(s[j - lo].0 == k);
            }
            assert forall|i: int| 0 <= i < s.len() implies m.contains_key(#[trigger] s[i].0)
                && m[s[i].0] == s[i].1 by {
                assert(s[i] == p[i + lo]);
                assert(self@.contains_key(p[i + lo].0));
            }
            map_of_is(s, m);
        }
        r
    }

    /// Takes the contents out and leaves the map empty.
    pub fn take(&mut self) -> (r: Self)
        ensures
            r@ == old(self)@,
            final(self)@ == Map::<Seq<u8>, Seq<u8>>::empty(),
    {
        let mut r = BytesMap::new();
        std::mem::swap(&mut r, self);
        r
    }
}

impl Clone for BytesMap {
    fn clone(&self) -> (r: Self)
        ensures
            r@ == self@,
            r.pairs() == self.pairs(),
    {
        proof {
            use_type_invariant(self);
        }
        let mut entries: Vec<(Vec<u8>, Vec<u8>)> = Vec::new();
        let n: usize = self.entries.len();
        let mut i: usize = 0;
        while i < n
            invariant
                n == self.entries@.len(),
                entries@.len() == i,
                i <= n,
                forall|j: int|
                    0 <= j < i ==> entries@[j].0@ == self.entries@[j].0@ && entries@[j].1@
                        == self.entries@[j].1@,
            decreases n - i,
        {
            let e = &self.entries[i];
            entries.push((bytes::copy_of(&e.0), bytes::copy_of(&e.1)));
            i = i + 1;
        }
        assert(BytesMap { entries }.pairs() =~= self.pairs());
        BytesMap { entries }
    }
}

impl Default for BytesMap {
    fn default() -> (r: Self)
        ensures
            r@ == Map::<Seq<u8>, Seq<u8>>::empty(),
    {
        BytesMap::new()
    }
}

/// An ordered set of byte strings.
pub struct BytesSet {
    members: BytesMap,
}

impl BytesSet {
    /// The members in rising order.
    pub closed spec fn list(&self) -> Seq<Seq<u8>> {
        Seq::new(self.members.pairs().len(), |i: int| self.members.pairs()[i].0)
    }
}

impl View for BytesSet {
    type V = Set<Seq<u8>>;

    closed spec fn view(&self) -> Set<Seq<u8>> {
        self.members@.dom()
    }
}

/// A set has finitely many members.
pub proof fn members_are_finite(s: BytesSet)
    ensures
        s@.finite(),
{
    map_of_keys(s.members.pairs());
}

impl BytesSet {
    /// An empty set.
    pub fn new() -> (r: Self)
        ensures
            r@ == Set::<Seq<u8>>::empty(),
    {
        BytesSet { members: BytesMap::new() }
    }

    /// How many members the set has; its list is in rising order.
    pub fn len(&self) -> (r: usize)
        ensures
            r == self@.len(),
            self@.finite(),
            r == self.list().len(),
            lists(self.list(), self@),
    {
        let r: usize = self.members.len();
        proof {
            let p = self.members.pairs();
            map_of_sorted(p);
            assert forall|k: Seq<u8>| #[trigger] self.list().contains(k) <==> self@.contains(k) by {
                if self.list().contains(k) {
                    let i = self.list().index_of(k);
                    assert(p[i].0 == k);
                    assert(self.members@.contains_key(k));
                }
                if self@.contains(k) {
                    assert(self.members@.contains_key(k));
                    let i = choose|i: int| 0 <= i < p.len() && #[trigger] p[i].0 == k;
                    assert(self.list()[i] == k);
                }
            }
        }
        r
    }

    /// The `i`-th member in rising order.
    pub fn at(&self, i: usize) -> (r: &Vec<u8>)
        requires
            i < self.list().len(),
        ensures
            r@ == self.list()[i as int],
    {
        self.members.key_at(i)
    }

    /// Whether the set has a member.
    pub fn contains(&self, key: &[u8]) -> (r: bool)
        ensures
            r == self@.contains(key@),
    {
        self.members.contains_key(key)
    }

    /// Puts a member in.
    pub fn insert(&mut self, key: Vec<u8>)
        ensures
            final(self)@ == old(self)@.insert(key@),
    {
        let ghost m = self.members@;
        let ghost k = key@;
        self.members.insert(key, Vec::new());
        assert(self.members@.dom() =~= m.dom().insert(k));
    }

    /// Takes a member out.
    pub fn remove(&mut self, key: &[u8])
        ensures
            final(self)@ == old(self)@.remove(key@),
    {
        let ghost m = self.members@;
        self.members.remove(key);
        assert(self.members@.dom() =~= m.dom().remove(key@));
    }

    /// Takes every member out.
    pub fn clear(&mut self)
        ensures
            final(self)@ == Set::<Seq<u8>>::empty(),
    {
        self.members.clear();
    }

    /// Takes the members out and leaves the set empty.
    pub fn take(&mut self) -> (r: Self)
        ensures
            r@ == old(self)@,
            final(self)@ == Set::<Seq<u8>>::empty(),
    {
        let members = self.members.take();
        BytesSet { members }
    }
}

impl Clone for BytesSet {
    fn clone(&self) -> (r: Self)
        ensures
            r@ == self@,
    {
        BytesSet { members: self.members.clone() }
    }
}

impl Default for BytesSet {
    fn default() -> (r: Self)
        ensures
            r@ == Set::<Seq<u8>>::empty(),
    {
        BytesSet::new()
    }
}

} // verus!
