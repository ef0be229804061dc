//! A map from monitor device names to their per-screen settings, kept in
//! ascending name order (the order of `String`'s `Ord`, i.e. code point by
//! code point), so that it iterates like an ordered map.

use vstd::prelude::*;
use crate::text::chars_of;

verus! {

/// Lexicographic order on character sequences, comparing code points.
pub open spec fn str_lt(a: Seq<char>, b: Seq<char>) -> bool
    decreases a.len(),
{
    if a.len() == 0 {
        b.len() > 0
    } else if b.len() == 0 {
        false
    } else if a[0] != b[0] {
        (a[0] as u32) < (b[0] as u32)
    } else {
        str_lt(a.drop_first(), b.drop_first())
    }
}

/// Keys strictly ascending: the entries form a map and iterate in order.
pub open spec fn keys_sorted<V>(m: Seq<(Seq<char>, V)>) -> bool {
    forall|i: int, j: int| 0 <= i < j < m.len() ==> str_lt(#[trigger] m[i].0, #[trigger] m[j].0)
}

/// The value stored under `k`, if any.
pub open spec fn map_get<V>(m: Seq<(Seq<char>, V)>, k: Seq<char>) -> Option<V>
    decreases m.len(),
{
    if m.len() == 0 {
        None
    } else if m[0].0 == k {
        Some(m[0].1)
    } else {
        map_get(m.drop_first(), k)
    }
}

/// Number of leading entries whose key is below `k`.
pub open spec fn lower_bound<V>(m: Seq<(Seq<char>, V)>, k: Seq<char>) -> int
    decreases m.len(),
{
    if m.len() > 0 && str_lt(m[0].0, k) {
        1 + lower_bound(m.drop_first(), k)
    } else {
        0
    }
}

/// `m` with `k` bound to `v`: replaced in place when present, otherwise
/// inserted at its ordered position.
pub open spec fn map_set<V>(m: Seq<(Seq<char>, V)>, k: Seq<char>, v: V) -> Seq<(Seq<char>, V)> {
    let i = lower_bound(m, k);
    if i < m.len() && m[i].0 == k {
        m.update(i, (k, v))
    } else {
        m.insert(i, (k, v))
    }
}

pub proof fn lemma_str_lt_irreflexive(a: Seq<char>)
    ensures
        !str_lt(a, a),
    decreases a.len(),
{
    if a.len() > 0 {
        lemma_str_lt_irreflexive(a.drop_first());
    }
}

pub proof fn lemma_str_lt_asym(a: Seq<char>, b: Seq<char>)
    ensures
        !(str_lt(a, b) && str_lt(b, a)),
    decreases a.len(),
{
    if a.len() > 0 && b.len() > 0 && a[0] == b[0] {
        lemma_str_lt_asym(a.drop_first(), b.drop_first());
    }
}

pub proof fn lemma_str_lt_total(a: Seq<char>, b: Seq<char>)
    ensures
        a != b ==> str_lt(a, b) || str_lt(b, a),
    decreases a.len(),
{
    if a.len() > 0 && b.len() > 0 && a[0] == b[0] {
        lemma_str_lt_total(a.drop_first(), b.drop_first());
        if a.drop_first() == b.drop_first() {
            assert(a =~= seq![a[0]] + a.drop_first());
            assert(b =~= seq![b[0]] + b.drop_first());
        }
    } else if a.len() == 0 && b.len() == 0 {
        assert(a =~= b);
    } else if a.len() > 0 && b.len() > 0 {
        vstd::utf8::char_u32_cast(a[0], a[0] as u32);
        vstd::utf8::char_u32_cast(b[0], b[0] as u32);
    }
}

pub proof fn lemma_str_lt_trans(a: Seq<char>, b: Seq<char>, c: Seq<char>)
    requires
        str_lt(a, b),
        str_lt(b, c),
    ensures
        str_lt(a, c),
    decreases a.len(),
{
    if a.len() > 0 && b.len() > 0 && c.len() > 0 && a[0] == b[0] && b[0] == c[0] {
        lemma_str_lt_trans(a.drop_first(), b.drop_first(), c.drop_first());
    }
}

proof fn lemma_lower_bound<V>(m: Seq<(Seq<char>, V)>, k: Seq<char>)
    ensures
        0 <= lower_bound(m, k) <= m.len(),
        forall|j: int| 0 <= j < lower_bound(m, k) ==> str_lt(#[trigger] m[j].0, k),
        lower_bound(m, k) < m.len() ==> !str_lt(m[lower_bound(m, k)].0, k),
    decreases m.len(),
{
    if m.len() > 0 && str_lt(m[0].0, k) {
        lemma_lower_bound(m.drop_first(), k);
        assert forall|j: int| 0 <= j < lower_bound(m, k) implies str_lt(#[trigger] m[j].0, k) by {
            if j > 0 {
                assert(m[j] == m.drop_first()[j - 1]);
            }
        }
    }
}

/// Characterises `lower_bound` by the position it returns.
proof fn lemma_lower_bound_at<V>(m: Seq<(Seq<char>, V)>, k: Seq<char>, i: int)
    requires
        0 <= i <= m.len(),
        forall|j: int| 0 <= j < i ==> str_lt(#[trigger] m[j].0, k),
        i < m.len() ==> !str_lt(m[i].0, k),
    ensures
        lower_bound(m, k) == i,
    decreases m.len(),
{
    if i > 0 {
        assert(str_lt(m[0].0, k));
        assert forall|j: int| 0 <= j < i - 1 implies str_lt(#[trigger] m.drop_first()[j].0, k) by {
            assert(m.drop_first()[j] == m[j + 1]);
        }
        lemma_lower_bound_at(m.drop_first(), k, i - 1);
    }
}

/// In a sorted map the key `k` can only sit at `lower_bound(m, k)`.
pub proof fn lemma_map_get_sorted<V>(m: Seq<(Seq<char>, V)>, k: Seq<char>)
    requires
        keys_sorted(m),
    ensures
        map_get(m, k) == (if lower_bound(m, k) < m.len() && m[lower_bound(m, k)].0 == k {
            Some(m[lower_bound(m, k)].1)
        } else {
            None::<V>
        }),
    decreases m.len(),
{
    if m.len() > 0 {
        assert(keys_sorted(m.drop_first())) by {
            assert forall|i: int, j: int| 0 <= i < j < m.drop_first().len() implies str_lt(
                #[trigger] m.drop_first()[i].0,
                #[trigger] m.drop_first()[j].0,
            ) by {
                assert(m.drop_first()[i] == m[i + 1]);
                assert(m.drop_first()[j] == m[j + 1]);
            }
        }
        lemma_map_get_sorted(m.drop_first(), k);
        if m[0].0 == k {
            lemma_str_lt_irreflexive(k);
        } else if str_lt(m[0].0, k) {
            let lb = lower_bound(m.drop_first(), k);
            lemma_lower_bound(m.drop_first(), k);
            assert(lower_bound(m, k) == 1 + lb);
            if lb < m.drop_first().len() {
                assert(m[1 + lb] == m.drop_first()[lb]);
            }
        } else {
            // k is below every key, so it is absent
            lemma_str_lt_total(m[0].0, k);
            assert forall|j: int| 0 <= j < m.drop_first().len() implies #[trigger] m.drop_first()[j].0 != k by {
                assert(m.drop_first()[j] == m[j + 1]);
                assert(str_lt(m[0].0, m[j + 1].0));
                lemma_str_lt_asym(k, m[0].0);
                if m[j + 1].0 == k {
                    lemma_str_lt_asym(m[0].0, k);
                }
            }
            lemma_map_get_absent(m.drop_first(), k);
        }
    }
}

pub proof fn lemma_map_get_absent<V>(m: Seq<(Seq<char>, V)>, k: Seq<char>)
    requires
        forall|j: int| 0 <= j < m.len() ==> #[trigger] m[j].0 != k,
    ensures
        map_get(m, k) == None::<V>,
    decreases m.len(),
{
    if m.len() > 0 {
        assert forall|j: int| 0 <= j < m.drop_first().len() implies #[trigger] m.drop_first()[j].0 != k by {
            assert(m.drop_first()[j] == m[j + 1]);
        }
        lemma_map_get_absent(m.drop_first(), k);
    }
}

pub proof fn lemma_map_set_sorted<V>(m: Seq<(Seq<char>, V)>, k: Seq<char>, v: V)
    requires
        keys_sorted(m),
    ensures
        keys_sorted(map_set(m, k, v)),
{
    lemma_lower_bound(m, k);
    let i = lower_bound(m, k);
    let r = map_set(m, k, v);
    if i < m.len() && m[i].0 == k {
        assert forall|a: int, b: int| 0 <= a < b < r.len() implies str_lt(
            #[trigger] r[a].0,
            #[trigger] r[b].0,
        ) by {
            assert(r[a].0 == m[a].0);
            assert(r[b].0 == m[b].0);
        }
    } else {
        assert forall|a: int, b: int| 0 <= a < b < r.len() implies str_lt(
            #[trigger] r[a].0,
            #[trigger] r[b].0,
        ) by {
            if b < i {
                assert(r[a] == m[a] && r[b] == m[b]);
            } else if b == i {
                assert(r[a] == m[a]);
            } else if a == i {
                assert(r[b] == m[b - 1]);
                // m[i] >= k and m[i] != k, so k < m[i] <= m[b - 1]
                lemma_str_lt_total(m[i].0, k);
                if b - 1 > i {
                    lemma_str_lt_trans(k, m[i].0, m[b - 1].0);
                }
            } else if a < i {
                assert(r[a] == m[a] && r[b] == m[b - 1]);
                lemma_str_lt_total(m[i].0, k);
                lemma_str_lt_trans(m[a].0, k, m[i].0);
                if b - 1 > i {
                    lemma_str_lt_trans(m[a].0, m[i].0, m[b - 1].0);
                }
            } else {
                assert(r[a] == m[a - 1] && r[b] == m[b - 1]);
            }
        }
    }
}

/// Adding a key above every present key appends it.
pub proof fn lemma_map_set_append<V>(m: Seq<(Seq<char>, V)>, k: Seq<char>, v: V)
    requires
        forall|j: int| 0 <= j < m.len() ==> str_lt(#[trigger] m[j].0, k),
    ensures
        map_set(m, k, v) == m.push((k, v)),
        map_get(m, k) == None::<V>,
{
    lemma_lower_bound_at(m, k, m.len() as int);
    assert(m.insert(m.len() as int, (k, v)) =~= m.push((k, v)));
    assert forall|j: int| 0 <= j < m.len() implies #[trigger] m[j].0 != k by {
        if m[j].0 == k {
            lemma_str_lt_irreflexive(k);
        }
    }
    lemma_map_get_absent(m, k);
}

/// Rebinding the last key, when every other key is below it, replaces the
/// last entry; looking it up finds the last entry.
pub proof fn lemma_map_set_last<V>(m: Seq<(Seq<char>, V)>, k: Seq<char>, w: V, v: V)
    requires
        forall|j: int| 0 <= j < m.len() ==> str_lt(#[trigger] m[j].0, k),
    ensures
        map_get(m.push((k, w)), k) == Some(w),
        map_set(m.push((k, w)), k, v) == m.push((k, v)),
{
    let m2 = m.push((k, w));
    assert forall|j: int| 0 <= j < m.len() implies str_lt(#[trigger] m2[j].0, k) by {
        assert(m2[j] == m[j]);
    }
    lemma_str_lt_irreflexive(k);
    lemma_lower_bound_at(m2, k, m.len() as int);
    assert(m2.update(m.len() as int, (k, v)) =~= m.push((k, v)));
    lemma_map_get_push(m, k, w);
}

proof fn lemma_map_get_push<V>(m: Seq<(Seq<char>, V)>, k: Seq<char>, w: V)
    requires
        forall|j: int| 0 <= j < m.len() ==> #[trigger] m[j].0 != k,
    ensures
        map_get(m.push((k, w)), k) == Some(w),
    decreases m.len(),
{
    if m.len() > 0 {
        assert(m.push((k, w)).drop_first() =~= m.drop_first().push((k, w)));
        assert forall|j: int| 0 <= j < m.drop_first().len() implies #[trigger] m.drop_first()[j].0 != k by {
            assert(m.drop_first()[j] == m[j + 1]);
        }
        lemma_map_get_push(m.drop_first(), k, w);
    }
}

/// In a sorted map, looking up a present key finds its entry.
proof fn lemma_map_get_at<V>(m: Seq<(Seq<char>, V)>, j: int)
    requires
        keys_sorted(m),
        0 <= j < m.len(),
    ensures
        map_get(m, m[j].0) == Some(m[j].1),
    decreases m.len(),
{
    if j > 0 {
        lemma_str_lt_irreflexive(m[j].0);
        assert(str_lt(m[0].0, m[j].0));
        let t = m.drop_first();
        assert(keys_sorted(t)) by {
            assert forall|a: int, b: int| 0 <= a < b < t.len() implies str_lt(
                #[trigger] t[a].0,
                #[trigger] t[b].0,
            ) by {
                assert(t[a] == m[a + 1] && t[b] == m[b + 1]);
            }
        }
        assert(t[j - 1] == m[j]);
        lemma_map_get_at(t, j - 1);
    }
}

/// Reading a key after binding it gives the bound value; every other key
/// reads as before.
pub proof fn lemma_map_get_set<V>(m: Seq<(Seq<char>, V)>, k: Seq<char>, v: V, q: Seq<char>)
    requires
        keys_sorted(m),
    ensures
        map_get(map_set(m, k, v), q) == (if q == k { Some(v) } else { map_get(m, q) }),
{
    lemma_lower_bound(m, k);
    lemma_map_set_sorted(m, k, v);
    let i = lower_bound(m, k);
    let r = map_set(m, k, v);
    let replaced = i < m.len() && m[i].0 == k;
    // position in r of entry j of m, when that entry is kept
    assert forall|j: int| 0 <= j < m.len() && m[j].0 != k implies (if replaced || j < i {
        r[j] == m[j]
    } else {
        r[j + 1] == m[j]
    }) by {}
    if q == k {
        assert(r[i] == (k, v));
        lemma_map_get_at(r, i);
    } else if exists|j: int| 0 <= j < m.len() && m[j].0 == q {
        let j = choose|j: int| 0 <= j < m.len() && m[j].0 == q;
        lemma_map_get_at(m, j);
        if replaced || j < i {
            lemma_map_get_at(r, j);
        } else {
            lemma_map_get_at(r, j + 1);
        }
    } else {
        lemma_map_get_absent(m, q);
        assert forall|a: int| 0 <= a < r.len() implies #[trigger] r[a].0 != q by {
            if replaced {
                if a != i {
                    assert(r[a] == m[a]);
                }
            } else if a < i {
                assert(r[a] == m[a]);
            } else if a > i {
                assert(r[a] == m[a - 1]);
            }
        }
        lemma_map_get_absent(r, q);
    }
}

/// Exec comparison of two strings in the order of `str_lt`.
pub fn chars_lt(a: &Vec<char>, b: &Vec<char>) -> (r: bool)
    ensures
        r == str_lt(a@, b@),
{
    let mut i: usize = 0;
    assert(a@.skip(0) =~= a@);
    assert(b@.skip(0) =~= b@);
    while i < a.len() && i < b.len() && a[i] == b[i]
        invariant
            i <= a.len(),
            i <= b.len(),
            str_lt(a@, b@) == str_lt(a@.skip(i as int), b@.skip(i as int)),
        decreases a.len() - i,
    {
        assert(a@.skip(i as int).drop_first() =~= a@.skip(i + 1));
        assert(b@.skip(i as int).drop_first() =~= b@.skip(i + 1));
        i = i + 1;
    }
    if i == a.len() {
        i < b.len()
    } else if i == b.len() {
        false
    } else {
        (a[i] as u32) < (b[i] as u32)
    }
}

/// Exec equality of two character vectors.
pub fn chars_eq(a: &Vec<char>, b: &Vec<char>) -> (r: bool)
    ensures
        r == (a@ == b@),
{
    if a.len() != b.len() {
        return false;
    }
    let mut i: usize = 0;
    while i < a.len()
        invariant
            i <= a.len() == b.len(),
            forall|j: int| 0 <= j < i ==> a@[j] == b@[j],
        decreases a.len() - i,
    {
        if a[i] != b[i] {
            return false;
        }
        i = i + 1;
    }
    assert(a@ =~= b@);
    true
}

} // verus!

verus! {

use crate::settings::ScreenSettings;

/// Per-monitor settings keyed by device name, ascending by name.
///
/// The entries sit in a vector kept sorted, not in a
/// `std::collections::BTreeMap`: vstd's specification of `BTreeMap` holds
/// only under `obeys_cmp` of the key type, which vstd establishes for the
/// primitive types and tuples of them but not for `String`, so with device
/// names as keys none of its lookups or insertions would have a usable
/// contract, nor would its iteration order, which the INI writer relies on.
#[derive(Debug, PartialEq, Eq)]
pub struct ScreenMap {
    entries: Vec<(String, ScreenSettings)>,
}

impl View for ScreenMap {
    type V = Seq<(Seq<char>, ScreenSettings)>;

    closed spec fn view(&self) -> Seq<(Seq<char>, ScreenSettings)> {
        self.entries@.map_values(|e: (String, ScreenSettings)| (e.0@, e.1))
    }
}

impl Clone for ScreenMap {
    fn clone(&self) -> (r: ScreenMap)
        ensures
            r@ == self@,
    {
        proof {
            use_type_invariant(self);
        }
        let mut entries: Vec<(String, ScreenSettings)> = Vec::new();
        let n = self.entries.len();
        let mut i: usize = 0;
        while i < n
            invariant
                i <= n == self.entries@.len(),
                entries@.len() == i,
                forall|j: int| 0 <= j < i ==> (#[trigger] entries@[j]).0@ == self.entries@[j].0@
                    && entries@[j].1 == self.entries@[j].1,
            decreases n - i,
        {
            entries.push((self.entries[i].0.clone(), self.entries[i].1));
            i = i + 1;
        }
        assert(entries@.map_values(|e: (String, ScreenSettings)| (e.0@, e.1)) =~= self@);
        let r = ScreenMap { entries };
        r
    }
}

impl ScreenMap {
    #[verifier::type_invariant]
    spec fn ordered(self) -> bool {
        keys_sorted(self@)
    }

    pub fn new() -> (m: ScreenMap)
        ensures
            m@ == Seq::<(Seq<char>, ScreenSettings)>::empty(),
    {
        let m = ScreenMap { entries: Vec::new() };
        assert(m@ =~= Seq::<(Seq<char>, ScreenSettings)>::empty());
        m
    }

    /// Number of entries; the entries are in strictly ascending name order.
    pub fn len(&self) -> (n: usize)
        ensures
            n == self@.len(),
            keys_sorted(self@),
    {
        proof {
            use_type_invariant(self);
        }
        self.entries.len()
    }

    pub fn name_at(&self, i: usize) -> (r: &String)
        requires
            i < self@.len(),
        ensures
            r@ == self@[i as int].0,
    {
        &self.entries[i].0
    }

    pub fn value_at(&self, i: usize) -> (r: ScreenSettings)
        requires
            i < self@.len(),
        ensures
            r == self@[i as int].1,
    {
        self.entries[i].1
    }

    /// The settings stored for `name`, if any.
    pub fn get(&self, name: &str) -> (r: Option<ScreenSettings>)
        ensures
            r == map_get(self@, name@),
    {
        let key = chars_of(name);
        let n = self.entries.len();
        let mut i: usize = 0;
        assert(self@.skip(0) =~= self@);
        while i < n
            invariant
                i <= n == self@.len(),
                key@ == name@,
                map_get(self@, name@) == map_get(self@.skip(i as int), name@),
            decreases n - i,
        {
            let here = chars_of(self.entries[i].0.as_str());
            assert(self@.skip(i as int)[0] == self@[i as int]);
            if chars_eq(&here, &key) {
                return Some(self.entries[i].1);
            }
            assert(self@.skip(i as int).drop_first() =~= self@.skip(i + 1));
            i = i + 1;
        }
        None
    }

    /// Binds `name` to `v`, keeping the names in order.
    pub fn insert(&mut self, name: String, v: ScreenSettings)
        ensures
            final(self)@ == map_set(old(self)@, name@, v),
    {
        proof {
            use_type_invariant(&*self);
            lemma_lower_bound(self@, name@);
            lemma_map_set_sorted(self@, name@, v);
        }
        let key = chars_of(name.as_str());
        let n = self.entries.len();
        let mut i: usize = 0;
        while i < n
            invariant
                i <= n == self@.len(),
                key@ == name@,
                forall|j: int| 0 <= j < i ==> str_lt(#[trigger] self@[j].0, name@),
            ensures
                i <= n,
                forall|j: int| 0 <= j < i ==> str_lt(#[trigger] self@[j].0, name@),
                i < n ==> !str_lt(self@[i as int].0, name@),
            decreases n - i,
        {
            let here = chars_of(self.entries[i].0.as_str());
            assert(self@[i as int].0 == here@);
            if !chars_lt(&here, &key) {
                break;
            }
            i = i + 1;
        }
        proof {
            lemma_lower_bound_at(self@, name@, i as int);
        }
        let mut entries = Vec::new();
        std::mem::swap(&mut entries, &mut self.entries);
        let ghost old_view = entries@.map_values(|e: (String, ScreenSettings)| (e.0@, e.1));
        if i < n {
            let here = chars_of(entries[i].0.as_str());
            if chars_eq(&here, &key) {
                entries.set(i, (name, v));
                assert(entries@.map_values(|e: (String, ScreenSettings)| (e.0@, e.1)) =~= old_view.update(i as int, (key@, v)));
                self.entries = entries;
                return;
            }
        }
        entries.insert(i, (name, v));
        assert(entries@.map_values(|e: (String, ScreenSettings)| (e.0@, e.1)) =~= old_view.insert(i as int, (key@, v)));
        self.entries = entries;
    }
}

} // verus!
