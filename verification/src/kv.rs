//! An ordered key-value table over byte-string keys.
//!
//! Entries are held sorted by strict byte-lexicographic key order, so the
//! table serves point lookups and ordered seeks ("first entry at or after a
//! bound"), the two operations the store's prefix scans are built from.

use vstd::prelude::*;

verus! {

/// Strict byte-lexicographic order: the shorter of two sequences with equal
/// prefixes comes first.
pub open spec fn lex_lt(a: Seq<u8>, b: Seq<u8>) -> bool
    decreases a.len(),
{
    if b.len() == 0 {
        false
    } else if a.len() == 0 {
        true
    } else if a[0] < b[0] {
        true
    } else if a[0] > b[0] {
        false
    } else {
        lex_lt(a.drop_first(), b.drop_first())
    }
}

/// No sequence is below itself.
pub proof fn lemma_lex_lt_irrefl(a: Seq<u8>)
    ensures
        !lex_lt(a, a),
    decreases a.len(),
{
    if a.len() > 0 {
        lemma_lex_lt_irrefl(a.drop_first());
    }
}

/// Two sequences are equal, or one is strictly below the other.
pub proof fn lemma_lex_connex(a: Seq<u8>, b: Seq<u8>)
    ensures
        lex_lt(a, b) || lex_lt(b, a) || a == b,
    decreases a.len(),
{
    if a.len() == 0 && b.len() == 0 {
        assert(a =~= b);
    } else if a.len() > 0 && b.len() > 0 && a[0] == b[0] {
        lemma_lex_connex(a.drop_first(), b.drop_first());
        if !lex_lt(a, b) && !lex_lt(b, a) {
            assert(a.drop_first() == b.drop_first());
            assert(a.len() == b.len());
            assert forall|i: int| 0 <= i < a.len() implies a[i] == b[i] by {
                if i > 0 {
                    assert(a[i] == a.drop_first()[i - 1] && b[i] == b.drop_first()[i - 1]);
                }
            }
            assert(a =~= b);
        }
    }
}

/// At most one of `a < b` and `b < a` holds.
pub proof fn lemma_lex_asym(a: Seq<u8>, b: Seq<u8>)
    ensures
        !(lex_lt(a, b) && lex_lt(b, a)),
    decreases a.len(),
{
    if a.len() > 0 && b.len() > 0 && a[0] == b[0] {
        lemma_lex_asym(a.drop_first(), b.drop_first());
    }
}

/// The order is transitive.
pub proof fn lemma_lex_trans(a: Seq<u8>, b: Seq<u8>, c: Seq<u8>)
    requires
        lex_lt(a, b),
        lex_lt(b, c),
    ensures
        lex_lt(a, c),
    decreases a.len(),
{
    if a.len() > 0 && b.len() > 0 && c.len() > 0 && a[0] == b[0] && b[0] == c[0] {
        lemma_lex_trans(a.drop_first(), b.drop_first(), c.drop_first());
    }
}

/// A common prefix decides the order: at the first position where the
/// sequences differ, the smaller byte (or the exhausted sequence) is below.
pub proof fn lemma_lex_from_prefix(a: Seq<u8>, b: Seq<u8>, i: int)
    requires
        0 <= i <= a.len(),
        i <= b.len(),
        forall|j: int| 0 <= j < i ==> a[j] == b[j],
    ensures
        i < a.len() && i < b.len() && a[i] < b[i] ==> lex_lt(a, b),
        i == a.len() && i < b.len() ==> lex_lt(a, b),
    decreases i,
{
    if i == 0 {
    } else {
        assert(a[0] == b[0]);
        lemma_lex_from_prefix(a.drop_first(), b.drop_first(), i - 1);
        assert(i < a.len() && i < b.len() ==> a.drop_first()[i - 1] == a[i] && b.drop_first()[i - 1]
            == b[i]);
    }
}

/// A shared leading sequence does not affect the order of what follows it.
pub proof fn lemma_lex_concat(p: Seq<u8>, x: Seq<u8>, y: Seq<u8>)
    ensures
        lex_lt(p + x, p + y) <==> lex_lt(x, y),
    decreases p.len(),
{
    if p.len() == 0 {
        assert(p + x =~= x);
        assert(p + y =~= y);
    } else {
        assert((p + x).len() > 0 && (p + y).len() > 0);
        assert((p + x)[0] == p[0] && (p + y)[0] == p[0]);
        assert((p + x).drop_first() =~= p.drop_first() + x);
        assert((p + y).drop_first() =~= p.drop_first() + y);
        lemma_lex_concat(p.drop_first(), x, y);
    }
}

/// A sequence lying between two extensions of one prefix carries that
/// prefix itself.
pub proof fn lemma_lex_between_shares_prefix(p: Seq<u8>, x: Seq<u8>, y: Seq<u8>, k: Seq<u8>)
    requires
        !lex_lt(k, p + x),
        !lex_lt(p + y, k),
        x.len() > 0,
    ensures
        k.len() >= p.len(),
        k.subrange(0, p.len() as int) == p,
    decreases p.len(),
{
    if p.len() == 0 {
        assert(k.subrange(0, 0) =~= p);
    } else {
        assert((p + x).len() > 0);
        assert((p + x)[0] == p[0] && (p + y)[0] == p[0]);
        if k.len() == 0 {
            assert(lex_lt(k, p + x));
        }
        assert(k.len() > 0);
        if k[0] < p[0] {
            assert(lex_lt(k, p + x));
        }
        if k[0] > p[0] {
            assert(lex_lt(p + y, k));
        }
        assert(k[0] == p[0]);
        assert((p + x).drop_first() =~= p.drop_first() + x);
        assert((p + y).drop_first() =~= p.drop_first() + y);
        lemma_lex_between_shares_prefix(p.drop_first(), x, y, k.drop_first());
        assert(k.subrange(0, p.len() as int) =~= p) by {
            assert(forall|i: int|
                1 <= i < p.len() ==> k[i] == k.drop_first()[i - 1] && p[i] == p.drop_first()[i - 1]);
            assert(forall|i: int|
                0 <= i < p.len() - 1 ==> k.drop_first()[i] == k.drop_first().subrange(
                    0,
                    p.len() - 1,
                )[i]);
        }
    }
}

/// A copy of a byte vector, equal to the original.
pub fn clone_bytes(v: &Vec<u8>) -> (r: Vec<u8>)
    ensures
        r@ == v@,
{
    let mut r: Vec<u8> = Vec::new();
    let mut i: usize = 0;
    while i < v.len()
        invariant
            i <= v@.len(),
            r@ == v@.subrange(0, i as int),
        decreases v@.len() - i,
    {
        r.push(v[i]);
        i += 1;
        assert(r@ =~= v@.subrange(0, i as int));
    }
    assert(r@ =~= v@);
    r
}

/// How two byte strings compare in the order.
#[derive(Clone, Copy, PartialEq, Eq, Structural, Debug)]
pub enum KeyOrder {
    Below,
    Equal,
    Above,
}

/// Compares two byte strings in byte-lexicographic order.
pub fn bytes_compare(a: &Vec<u8>, b: &Vec<u8>) -> (r: KeyOrder)
    ensures
        r is Below <==> lex_lt(a@, b@),
        r is Equal <==> a@ == b@,
        r is Above <==> lex_lt(b@, a@),
{
    let mut i: usize = 0;
    loop
        invariant
            i <= a@.len(),
            i <= b@.len(),
            forall|j: int| 0 <= j < i ==> a@[j] == b@[j],
        decreases a@.len() - i,
    {
        if i < a.len() && i < b.len() {
            if a[i] < b[i] {
                proof {
                    lemma_lex_from_prefix(a@, b@, i as int);
                    lemma_lex_asym(a@, b@);
                    lemma_lex_lt_irrefl(a@);
                }
                return KeyOrder::Below;
            }
            if a[i] > b[i] {
                proof {
                    lemma_lex_from_prefix(b@, a@, i as int);
                    lemma_lex_asym(a@, b@);
                    lemma_lex_lt_irrefl(a@);
                }
                return KeyOrder::Above;
            }
            i += 1;
        } else if i < b.len() {
            proof {
                lemma_lex_from_prefix(a@, b@, i as int);
                lemma_lex_asym(a@, b@);
                lemma_lex_lt_irrefl(a@);
            }
            return KeyOrder::Below;
        } else if i < a.len() {
            proof {
                lemma_lex_from_prefix(b@, a@, i as int);
                lemma_lex_asym(a@, b@);
                lemma_lex_lt_irrefl(a@);
            }
            return KeyOrder::Above;
        } else {
            proof {
                assert(a@ =~= b@);
                lemma_lex_lt_irrefl(a@);
            }
            return KeyOrder::Equal;
        }
    }
}

/// The finite map held by a list of entries, later entries winning.
pub open spec fn assoc_map(s: Seq<(Vec<u8>, Vec<u8>)>) -> Map<Seq<u8>, Seq<u8>>
    decreases s.len(),
{
    if s.len() == 0 {
        Map::empty()
    } else {
        assoc_map(s.drop_last()).insert(s.last().0@, s.last().1@)
    }
}

/// Entries sorted in strictly increasing key order.
pub open spec fn entries_sorted(s: Seq<(Vec<u8>, Vec<u8>)>) -> bool {
    forall|i: int, j: int| 0 <= i < j < s.len() ==> lex_lt(#[trigger] s[i].0@, #[trigger] s[j].0@)
}

/// In a sorted list the map and the list say the same thing: a key is bound
/// exactly when some entry holds it, to that entry's value.
pub proof fn lemma_assoc_map_entries(s: Seq<(Vec<u8>, Vec<u8>)>)
    requires
        entries_sorted(s),
    ensures
        forall|k: Seq<u8>|
            assoc_map(s).contains_key(k) <==> exists|i: int|
                0 <= i < s.len() && (#[trigger] s[i].0@) == k,
        forall|i: int|
            0 <= i < s.len() ==> assoc_map(s).contains_key(#[trigger] s[i].0@) && assoc_map(s)[s[i].0@]
                == s[i].1@,
    decreases s.len(),
{
    if s.len() > 0 {
        assert(entries_sorted(s.drop_last()));
        lemma_assoc_map_entries(s.drop_last());
        assert forall|i: int| 0 <= i < s.len() implies assoc_map(s).contains_key(
            #[trigger] s[i].0@,
        ) && assoc_map(s)[s[i].0@] == s[i].1@ by {
            if i < s.len() - 1 {
                assert(s.drop_last()[i] == s[i]);
                assert(lex_lt(s[i].0@, s.last().0@));
                lemma_lex_lt_irrefl(s[i].0@);
                assert(s[i].0@ != s.last().0@);
            }
        }
        assert forall|k: Seq<u8>| assoc_map(s).contains_key(k) implies exists|i: int|
            0 <= i < s.len() && (#[trigger] s[i].0@) == k by {
            if k == s.last().0@ {
                assert(s[s.len() - 1].0@ == k);
            } else {
                assert(assoc_map(s.drop_last()).contains_key(k));
                let i = choose|i: int| 0 <= i < s.drop_last().len() && (#[trigger] s.drop_last()[i].0@)
                    == k;
                assert(s.drop_last().len() == s.len() - 1);
                assert(s.drop_last()[i] == s[i]);
                assert(s[i].0@ == k);
            }
        }
        assert forall|k: Seq<u8>|
            (exists|i: int| 0 <= i < s.len() && (#[trigger] s[i].0@) == k) implies assoc_map(
            s,
        ).contains_key(k) by {
            let i = choose|i: int| 0 <= i < s.len() && (#[trigger] s[i].0@) == k;
            if i < s.len() - 1 {
                assert(s.drop_last()[i] == s[i]);
            }
        }
    }
}

/// An ordered table of byte-string entries, the storage engine under the
/// store: point get, insert-or-replace, delete, and ordered seek.
pub struct KvStore {
    entries: Vec<(Vec<u8>, Vec<u8>)>,
}

impl KvStore {
    /// The entries in key order.
    pub closed spec fn entries_seq(&self) -> Seq<(Vec<u8>, Vec<u8>)> {
        self.entries@
    }

    /// The map this table holds.
    pub closed spec fn view(&self) -> Map<Seq<u8>, Seq<u8>> {
        assoc_map(self.entries@)
    }

    /// The entries are strictly sorted.
    pub closed spec fn wf(&self) -> bool {
        entries_sorted(self.entries@)
    }

    /// An empty table.
    pub fn new() -> (r: KvStore)
        ensures
            r.wf(),
            r@ == Map::<Seq<u8>, Seq<u8>>::empty(),
    {
        KvStore { entries: Vec::new() }
    }

    /// The index of the first entry whose key is at or above `key`.
    fn seek_index(&self, key: &Vec<u8>) -> (r: usize)
        requires
            self.wf(),
        ensures
            r <= self.entries_seq().len(),
            forall|j: int| 0 <= j < r ==> lex_lt(#[trigger] self.entries_seq()[j].0@, key@),
            forall|j: int|
                r <= j < self.entries_seq().len() ==> !lex_lt(
                    #[trigger] self.entries_seq()[j].0@,
                    key@,
                ),
    {
        let mut i: usize = 0;
        loop
            invariant
                i <= self.entries@.len(),
                forall|j: int| 0 <= j < i ==> lex_lt(#[trigger] self.entries@[j].0@, key@),
                entries_sorted(self.entries@),
            decreases self.entries@.len() - i,
        {
            if i == self.entries.len() {
                return i;
            }
            let entry_key = &self.entries[i].0;
            match bytes_compare(entry_key, key) {
                KeyOrder::Below => {
                    i += 1;
                },
                KeyOrder::Equal | KeyOrder::Above => {
                    proof {
                        assert forall|j: int|
                            i <= j < self.entries@.len() implies !lex_lt(
                            #[trigger] self.entries@[j].0@,
                            key@,
                        ) by {
                            if j > i {
                                assert(lex_lt(self.entries@[i as int].0@, self.entries@[j].0@));
                                if lex_lt(self.entries@[j].0@, key@) {
                                    lemma_lex_trans(
                                        self.entries@[i as int].0@,
                                        self.entries@[j].0@,
                                        key@,
                                    );
                                    lemma_lex_asym(self.entries@[i as int].0@, key@);
                                }
                            } else {
                                lemma_lex_asym(self.entries@[i as int].0@, key@);
                                lemma_lex_lt_irrefl(key@);
                            }
                        }
                    }
                    return i;
                },
            }
        }
    }

    /// The value bound to `key`, when there is one.
    pub fn get(&self, key: &Vec<u8>) -> (r: Option<Vec<u8>>)
        requires
            self.wf(),
        ensures
            match r {
                Some(v) => self@.contains_key(key@) && self@[key@] == v@,
                None => !self@.contains_key(key@),
            },
    {
        proof {
            lemma_assoc_map_entries(self.entries@);
        }
        let i = self.seek_index(key);
        if i < self.entries.len() {
            match bytes_compare(&self.entries[i].0, key) {
                KeyOrder::Equal => {
                    proof {
                        lemma_assoc_map_entries(self.entries@);
                    }
                    return Some(clone_bytes(&self.entries[i].1));
                },
                _ => {},
            }
        }
        proof {
            if self@.contains_key(key@) {
                let j = choose|j: int|
                    0 <= j < self.entries@.len() && (#[trigger] self.entries@[j].0@) == key@;
                lemma_lex_lt_irrefl(key@);
                if i < self.entries@.len() {
                    lemma_lex_connex(self.entries@[i as int].0@, key@);
                    if j > i {
                        assert(lex_lt(self.entries@[i as int].0@, self.entries@[j].0@));
                    }
                }
            }
        }
        None
    }

    /// Binds `key` to `value`, replacing any earlier binding.
    pub fn set(&mut self, key: Vec<u8>, value: Vec<u8>)
        requires
            old(self).wf(),
        ensures
            final(self).wf(),
            final(self)@ == old(self)@.insert(key@, value@),
    {
        proof {
            lemma_assoc_map_entries(self.entries@);
        }
        let ghost old_entries = self.entries@;
        let i = self.seek_index(&key);
        let replace = if i < self.entries.len() {
            match bytes_compare(&self.entries[i].0, &key) {
                KeyOrder::Equal => true,
                _ => false,
            }
        } else {
            false
        };
        if replace {
            self.entries[i] = (key, value);
            proof {
                let s = self.entries@;
                assert forall|p: int, q: int| 0 <= p < q < s.len() implies lex_lt(
                    #[trigger] s[p].0@,
                    #[trigger] s[q].0@,
                ) by {
                    assert(old_entries[p].0@ == s[p].0@ || p == i);
                    assert(old_entries[q].0@ == s[q].0@ || q == i);
                }
                lemma_assoc_map_entries(s);
                assert forall|k: Seq<u8>|
                    #![all_triggers]
                    true implies (final(self)@.contains_key(k) <==> old(self)@.insert(
                    s[i as int].0@,
                    s[i as int].1@,
                ).contains_key(k)) && (final(self)@.contains_key(k) ==> final(self)@[k] == old(
                    self,
                )@.insert(s[i as int].0@, s[i as int].1@)[k]) by {
                    if final(self)@.contains_key(k) {
                        let j = choose|j: int| 0 <= j < s.len() && (#[trigger] s[j].0@) == k;
                        if j != i {
                            assert(old_entries[j] == s[j]);
                        }
                    }
                    if old(self)@.insert(s[i as int].0@, s[i as int].1@).contains_key(k) {
                        if k != s[i as int].0@ {
                            let j = choose|j: int|
                                0 <= j < old_entries.len() && (#[trigger] old_entries[j].0@) == k;
                            assert(j != i);
                            assert(s[j] == old_entries[j]);
                        }
                    }
                }
                assert(final(self)@ =~= old(self)@.insert(s[i as int].0@, s[i as int].1@));
            }
        } else {
            proof {
                if i < self.entries@.len() {
                    lemma_lex_connex(self.entries@[i as int].0@, key@);
                }
            }
            self.entries.insert(i, (key, value));
            proof {
                let s = self.entries@;
                assert forall|p: int, q: int| 0 <= p < q < s.len() implies lex_lt(
                    #[trigger] s[p].0@,
                    #[trigger] s[q].0@,
                ) by {
                    if q < i {
                        assert(s[p] == old_entries[p] && s[q] == old_entries[q]);
                    } else if p < i && q == i {
                        assert(s[p] == old_entries[p]);
                    } else if p < i && q > i {
                        assert(s[p] == old_entries[p] && s[q] == old_entries[q - 1]);
                    } else if p == i {
                        assert(s[q] == old_entries[q - 1]);
                        assert(!lex_lt(old_entries[q - 1].0@, s[i as int].0@));
                        lemma_lex_connex(s[i as int].0@, old_entries[q - 1].0@);
                    } else {
                        assert(s[p] == old_entries[p - 1] && s[q] == old_entries[q - 1]);
                    }
                }
                lemma_assoc_map_entries(s);
                lemma_lex_lt_irrefl(s[i as int].0@);
                assert forall|k: Seq<u8>|
                    #![all_triggers]
                    true implies (final(self)@.contains_key(k) <==> old(self)@.insert(
                    s[i as int].0@,
                    s[i as int].1@,
                ).contains_key(k)) && (final(self)@.contains_key(k) ==> final(self)@[k] == old(
                    self,
                )@.insert(s[i as int].0@, s[i as int].1@)[k]) by {
                    if final(self)@.contains_key(k) {
                        let j = choose|j: int| 0 <= j < s.len() && (#[trigger] s[j].0@) == k;
                        if j < i {
                            assert(old_entries[j] == s[j]);
                        } else if j > i {
                            assert(old_entries[j - 1] == s[j]);
                        }
                    }
                    if old(self)@.insert(s[i as int].0@, s[i as int].1@).contains_key(k) {
                        if k == s[i as int].0@ {
                        } else {
                            let j = choose|j: int|
                                0 <= j < old_entries.len() && (#[trigger] old_entries[j].0@) == k;
                            if j < i {
                                assert(s[j] == old_entries[j]);
                            } else {
                                assert(s[j + 1] == old_entries[j]);
                            }
                        }
                    }
                }
                assert(final(self)@ =~= old(self)@.insert(s[i as int].0@, s[i as int].1@));
            }
        }
    }

    /// Removes any binding of `key`.
    pub fn delete(&mut self, key: &Vec<u8>)
        requires
            old(self).wf(),
        ensures
            final(self).wf(),
            final(self)@ == old(self)@.remove(key@),
    {
        proof {
            lemma_assoc_map_entries(self.entries@);
        }
        let ghost old_entries = self.entries@;
        let i = self.seek_index(key);
        let found = if i < self.entries.len() {
            match bytes_compare(&self.entries[i].0, key) {
                KeyOrder::Equal => true,
                _ => false,
            }
        } else {
            false
        };
        if found {
            self.entries.remove(i);
            proof {
                let s = self.entries@;
                assert forall|p: int, q: int| 0 <= p < q < s.len() implies lex_lt(
                    #[trigger] s[p].0@,
                    #[trigger] s[q].0@,
                ) by {
                    assert(s[p] == old_entries[p] || s[p] == old_entries[p + 1]);
                    assert(s[q] == old_entries[q + 1] || s[q] == old_entries[q]);
                    if s[p] == old_entries[p] && s[q] == old_entries[q + 1] {
                        assert(lex_lt(old_entries[p].0@, old_entries[q + 1].0@));
                    }
                }
                lemma_assoc_map_entries(s);
                assert forall|k: Seq<u8>|
                    #![all_triggers]
                    true implies (final(self)@.contains_key(k) <==> old(self)@.remove(
                    key@,
                ).contains_key(k)) && (final(self)@.contains_key(k) ==> final(self)@[k] == old(
                    self,
                )@.remove(key@)[k]) by {
                    if final(self)@.contains_key(k) {
                        let j = choose|j: int| 0 <= j < s.len() && (#[trigger] s[j].0@) == k;
                        if j < i {
                            assert(old_entries[j] == s[j]);
                            lemma_lex_lt_irrefl(k);
                        } else {
                            assert(old_entries[j + 1] == s[j]);
                            lemma_lex_lt_irrefl(k);
                        }
                    }
                    if old(self)@.remove(key@).contains_key(k) {
                        let j = choose|j: int|
                            0 <= j < old_entries.len() && (#[trigger] old_entries[j].0@) == k;
                        if j < i {
                            assert(s[j] == old_entries[j]);
                        } else {
                            assert(j != i);
                            assert(s[j - 1] == old_entries[j]);
                        }
                    }
                }
                assert(final(self)@ =~= old(self)@.remove(key@));
            }
        } else {
            proof {
                if old(self)@.contains_key(key@) {
                    let j = choose|j: int|
                        0 <= j < old_entries.len() && (#[trigger] old_entries[j].0@) == key@;
                    lemma_lex_lt_irrefl(key@);
                    if i < old_entries.len() {
                        lemma_lex_connex(old_entries[i as int].0@, key@);
                        if j > i {
                            assert(lex_lt(old_entries[i as int].0@, old_entries[j].0@));
                        }
                    }
                }
                assert(final(self)@ =~= old(self)@.remove(key@));
            }
        }
    }

    /// The first entry whose key is at or above `bound`, in key order.
    pub fn first_at_or_after(&self, bound: &Vec<u8>) -> (r: Option<(Vec<u8>, Vec<u8>)>)
        requires
            self.wf(),
        ensures
            match r {
                Some(kv) => {
                    &&& self@.contains_key(kv.0@)
                    &&& self@[kv.0@] == kv.1@
                    &&& !lex_lt(kv.0@, bound@)
                    &&& forall|k2: Seq<u8>|
                        self@.contains_key(k2) && !lex_lt(k2, bound@) ==> !lex_lt(k2, kv.0@)
                },
                None => forall|k2: Seq<u8>| self@.contains_key(k2) ==> lex_lt(k2, bound@),
            },
    {
        proof {
            lemma_assoc_map_entries(self.entries@);
        }
        let i = self.seek_index(bound);
        if i < self.entries.len() {
            proof {
                assert forall|k2: Seq<u8>|
                    self@.contains_key(k2) && !lex_lt(k2, bound@) implies !lex_lt(
                    k2,
                    self.entries@[i as int].0@,
                ) by {
                    let j = choose|j: int|
                        0 <= j < self.entries@.len() && (#[trigger] self.entries@[j].0@) == k2;
                    if j < i {
                        assert(lex_lt(self.entries@[j].0@, bound@));
                    } else if j == i {
                        lemma_lex_lt_irrefl(k2);
                    } else {
                        assert(lex_lt(self.entries@[i as int].0@, self.entries@[j].0@));
                        lemma_lex_asym(self.entries@[i as int].0@, self.entries@[j].0@);
                    }
                }
            }
            Some((clone_bytes(&self.entries[i].0), clone_bytes(&self.entries[i].1)))
        } else {
            proof {
                assert forall|k2: Seq<u8>| self@.contains_key(k2) implies lex_lt(k2, bound@) by {
                    let j = choose|j: int|
                        0 <= j < self.entries@.len() && (#[trigger] self.entries@[j].0@) == k2;
                }
            }
            None
        }
    }
}

} // verus!
