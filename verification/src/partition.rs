use vstd::prelude::*;
use vstd::slice::slice_to_vec;
use core::cmp::Ordering;
use core::marker::PhantomData;

use crate::Comparator;
use crate::Options;
use crate::flip_ordering;
use crate::table::ScTableFile;
use crate::table::tablefmt::{TABLE_CATALOG_ITEM_SIZE, TABLE_MIN_SIZE};

verus! {

/// A raw byte key, ordered by the deployment's comparator.
///
/// Owned keys carry an independent buffer. Borrowed keys stand for
/// caller-supplied bytes; the constructor snapshots them so nothing unchecked
/// is stored, and the variant is still tracked because the mutable-table
/// write path admits owned keys only. The ownership variant never affects
/// ordering.
pub enum UserKey<Comp: Comparator> {
    Owned(Vec<u8>, PhantomData<Comp>),
    Borrow(Vec<u8>, PhantomData<Comp>),
}

impl<Comp: Comparator> UserKey<Comp> {
    /// The key bytes.
    pub open spec fn bytes(&self) -> Seq<u8> {
        match self {
            UserKey::Owned(data, _) => data@,
            UserKey::Borrow(data, _) => data@,
        }
    }

    /// Whether this key owns its buffer.
    pub open spec fn is_owned_spec(&self) -> bool {
        self is Owned
    }

    /// An owned key taking over the given buffer.
    pub fn new_owned(vec: Vec<u8>) -> (r: Self)
        ensures
            r.is_owned_spec(),
            r.bytes() == vec@,
    {
        UserKey::Owned(vec, PhantomData)
    }

    /// A borrowed view of caller bytes, snapshotted at the boundary.
    pub fn new_borrow(slice: &[u8]) -> (r: Self)
        ensures
            !r.is_owned_spec(),
            r.bytes() == slice@,
    {
        UserKey::Borrow(slice_to_vec(slice), PhantomData)
    }

    /// The raw bytes of the key.
    pub fn key(&self) -> (r: &[u8])
        ensures
            r@ == self.bytes(),
    {
        match self {
            UserKey::Owned(data, _) => data.as_slice(),
            UserKey::Borrow(data, _) => data.as_slice(),
        }
    }

    /// Whether this key owns its buffer.
    pub fn is_owned(&self) -> (r: bool)
        ensures
            r == self.is_owned_spec(),
    {
        if let UserKey::Owned(_, _) = self {
            true
        } else {
            false
        }
    }

    /// Three-way comparison through the comparator; the ownership variant
    /// plays no part.
    pub fn cmp(&self, other: &Self) -> (r: Ordering)
        ensures
            r == Comp::cmp_spec(self.bytes(), other.bytes()),
    {
        Comp::compare(self.key(), other.key())
    }
}

impl<Comp: Comparator> Clone for UserKey<Comp> {
    /// Clones the bytes; the ownership variant is preserved.
    fn clone(&self) -> (res: Self)
        ensures
            res.bytes() == self.bytes(),
            res.is_owned_spec() == self.is_owned_spec(),
    {
        match self {
            UserKey::Owned(data, _) => UserKey::Owned(slice_to_vec(data.as_slice()), PhantomData),
            UserKey::Borrow(data, _) => UserKey::Borrow(slice_to_vec(data.as_slice()), PhantomData),
        }
    }
}

/// The write-path key: an engine-assigned sequence number paired with the
/// user key.
///
/// Ordered by sequence number first, the user key (through the comparator)
/// as the tie-break — exactly what `ik_cmp_spec` states. Grouping by write
/// order first is this engine's stated contract; a user-key-first order
/// would instead keep all versions of one key adjacent.
pub struct InternalKey<Comp: Comparator> {
    pub seq: u64,
    pub user_key: UserKey<Comp>,
}

/// Sequence number first, then the comparator over the user keys.
pub open spec fn ik_cmp_spec<Comp: Comparator>(
    a: InternalKey<Comp>,
    b: InternalKey<Comp>,
) -> Ordering {
    if a.seq < b.seq {
        Ordering::Less
    } else if a.seq > b.seq {
        Ordering::Greater
    } else {
        Comp::cmp_spec(a.user_key.bytes(), b.user_key.bytes())
    }
}

impl<Comp: Comparator> InternalKey<Comp> {
    /// Pair a sequence number with a user key.
    pub fn new(seq: u64, user_key: UserKey<Comp>) -> (r: Self)
        ensures
            r.seq == seq,
            r.user_key == user_key,
    {
        Self { seq, user_key }
    }

    /// Three-way comparison: sequence number, then user key.
    pub fn cmp(&self, other: &Self) -> (r: Ordering)
        ensures
            r == ik_cmp_spec(*self, *other),
    {
        if self.seq < other.seq {
            Ordering::Less
        } else if self.seq > other.seq {
            Ordering::Greater
        } else {
            self.user_key.cmp(&other.user_key)
        }
    }
}

/// Swapping the operands of the internal-key order mirrors the result.
pub proof fn lemma_ik_flip<Comp: Comparator>(a: InternalKey<Comp>, b: InternalKey<Comp>)
    ensures
        ik_cmp_spec(a, b) == flip_ordering(ik_cmp_spec(b, a)),
{
    if a.seq == b.seq {
        Comp::flip(a.user_key.bytes(), b.user_key.bytes());
    }
}

/// The internal-key order is transitive.
pub proof fn lemma_ik_transitive<Comp: Comparator>(
    a: InternalKey<Comp>,
    b: InternalKey<Comp>,
    c: InternalKey<Comp>,
)
    requires
        ik_cmp_spec(a, b) == Ordering::Less,
        ik_cmp_spec(b, c) == Ordering::Less,
    ensures
        ik_cmp_spec(a, c) == Ordering::Less,
{
    if a.seq == b.seq && b.seq == c.seq {
        Comp::transitive(a.user_key.bytes(), b.user_key.bytes(), c.user_key.bytes());
    }
}

/// Internal keys of one `Equal` class compare alike against any third key.
pub proof fn lemma_ik_equal_congruent<Comp: Comparator>(
    a: InternalKey<Comp>,
    b: InternalKey<Comp>,
    c: InternalKey<Comp>,
)
    requires
        ik_cmp_spec(a, b) == Ordering::Equal,
    ensures
        ik_cmp_spec(a, c) == ik_cmp_spec(b, c),
{
    Comp::equal_congruent(a.user_key.bytes(), b.user_key.bytes(), c.user_key.bytes());
}

/// Entries in strictly ascending internal-key order.
pub open spec fn mt_sorted<Comp: Comparator>(s: Seq<(InternalKey<Comp>, Vec<u8>)>) -> bool {
    forall|i: int, j: int|
        0 <= i < j < s.len() ==> #[trigger] ik_cmp_spec(s[i].0, s[j].0) == Ordering::Less
}

/// The value bytes stored under the first entry comparing `Equal` to `k`.
pub open spec fn mt_get<Comp: Comparator>(
    s: Seq<(InternalKey<Comp>, Vec<u8>)>,
    k: InternalKey<Comp>,
) -> Option<Seq<u8>>
    decreases s.len(),
{
    if s.len() == 0 {
        None
    } else if ik_cmp_spec(s[0].0, k) == Ordering::Equal {
        Some(s[0].1@)
    } else {
        mt_get(s.drop_first(), k)
    }
}

/// Insertion into the ordered entry sequence: an entry comparing `Equal`
/// has its value overwritten (its stored key stays); otherwise the new pair
/// takes its place in the order.
pub open spec fn mt_insert<Comp: Comparator>(
    s: Seq<(InternalKey<Comp>, Vec<u8>)>,
    k: InternalKey<Comp>,
    v: Vec<u8>,
) -> Seq<(InternalKey<Comp>, Vec<u8>)>
    decreases s.len(),
{
    if s.len() == 0 {
        seq![(k, v)]
    } else if ik_cmp_spec(s[0].0, k) == Ordering::Equal {
        seq![(s[0].0, v)] + s.drop_first()
    } else if ik_cmp_spec(s[0].0, k) == Ordering::Greater {
        seq![(k, v)] + s
    } else {
        seq![s[0]] + mt_insert(s.drop_first(), k, v)
    }
}

/// Accumulated key-plus-value byte size of the entries.
pub open spec fn mt_data_size<Comp: Comparator>(s: Seq<(InternalKey<Comp>, Vec<u8>)>) -> int
    decreases s.len(),
{
    if s.len() == 0 {
        0
    } else {
        s[0].0.user_key.bytes().len() + s[0].1@.len() + mt_data_size(s.drop_first())
    }
}

/// No entry compares `Equal` to `k`, so the lookup misses.
proof fn lemma_mt_get_none<Comp: Comparator>(
    s: Seq<(InternalKey<Comp>, Vec<u8>)>,
    k: InternalKey<Comp>,
)
    requires
        forall|t: int| 0 <= t < s.len() ==> #[trigger] ik_cmp_spec(s[t].0, k) != Ordering::Equal,
    ensures
        mt_get(s, k) is None,
    decreases s.len(),
{
    if s.len() > 0 {
        assert(ik_cmp_spec(s[0].0, k) != Ordering::Equal);
        assert forall|t: int| 0 <= t < s.drop_first().len() implies #[trigger] ik_cmp_spec(
            s.drop_first()[t].0,
            k,
        ) != Ordering::Equal by {
            assert(s.drop_first()[t] == s[t + 1]);
            assert(ik_cmp_spec(s[t + 1].0, k) != Ordering::Equal);
        }
        lemma_mt_get_none(s.drop_first(), k);
    }
}

/// The accumulated size is never negative.
proof fn lemma_mt_data_size_nonneg<Comp: Comparator>(s: Seq<(InternalKey<Comp>, Vec<u8>)>)
    ensures
        mt_data_size(s) >= 0,
    decreases s.len(),
{
    if s.len() > 0 {
        lemma_mt_data_size_nonneg(s.drop_first());
    }
}

/// A hit's value bytes count into the accumulated size.
proof fn lemma_mt_get_size_bound<Comp: Comparator>(
    s: Seq<(InternalKey<Comp>, Vec<u8>)>,
    k: InternalKey<Comp>,
)
    ensures
        mt_get(s, k) matches Some(v0) ==> mt_data_size(s) >= v0.len(),
    decreases s.len(),
{
    if s.len() > 0 {
        lemma_mt_data_size_nonneg(s.drop_first());
        if ik_cmp_spec(s[0].0, k) == Ordering::Equal {
        } else {
            lemma_mt_get_size_bound(s.drop_first(), k);
        }
    }
}

/// How one insertion moves the entry count and the accumulated size: a miss
/// adds the new entry's key and value bytes; a hit swaps the value bytes.
proof fn lemma_mt_insert_effect<Comp: Comparator>(
    s: Seq<(InternalKey<Comp>, Vec<u8>)>,
    k: InternalKey<Comp>,
    v: Vec<u8>,
)
    requires
        mt_sorted(s),
    ensures
        mt_get(s, k) is None ==> mt_data_size(mt_insert(s, k, v)) == mt_data_size(s)
            + k.user_key.bytes().len() + v@.len() && mt_insert(s, k, v).len() == s.len() + 1,
        mt_get(s, k) matches Some(v0) ==> mt_data_size(mt_insert(s, k, v)) == mt_data_size(s)
            - v0.len() + v@.len() && mt_insert(s, k, v).len() == s.len(),
    decreases s.len(),
{
    if s.len() == 0 {
        let r = mt_insert(s, k, v);
        assert(r == seq![(k, v)]);
        assert(r[0] == (k, v));
        assert(r.drop_first() =~= Seq::<(InternalKey<Comp>, Vec<u8>)>::empty());
        assert(mt_data_size(r.drop_first()) == 0);
        assert(mt_data_size(r) == k.user_key.bytes().len() + v@.len());
    } else if ik_cmp_spec(s[0].0, k) == Ordering::Equal {
        let r = seq![(s[0].0, v)] + s.drop_first();
        assert(mt_insert(s, k, v) == r);
        assert(r[0] == (s[0].0, v));
        assert(r.drop_first() =~= s.drop_first());
        assert(mt_data_size(r) == s[0].0.user_key.bytes().len() + v@.len() + mt_data_size(
            s.drop_first(),
        ));
        assert(mt_get(s, k) == Some(s[0].1@));
    } else if ik_cmp_spec(s[0].0, k) == Ordering::Greater {
        let r = seq![(k, v)] + s;
        assert(mt_insert(s, k, v) == r);
        assert(r[0] == (k, v));
        assert(r.drop_first() =~= s);
        // sortedness puts every later entry above s[0], hence above k: a miss.
        lemma_ik_flip(s[0].0, k);
        assert forall|t: int| 0 <= t < s.len() implies #[trigger] ik_cmp_spec(s[t].0, k)
            != Ordering::Equal by {
            if t > 0 {
                assert(ik_cmp_spec(s[0].0, s[t].0) == Ordering::Less);
                lemma_ik_transitive(k, s[0].0, s[t].0);
                lemma_ik_flip(s[t].0, k);
            }
        }
        lemma_mt_get_none(s, k);
    } else {
        assert forall|i: int, j: int| 0 <= i < j < s.drop_first().len() implies #[trigger]
            ik_cmp_spec(s.drop_first()[i].0, s.drop_first()[j].0) == Ordering::Less by {
            assert(s.drop_first()[i] == s[i + 1]);
            assert(s.drop_first()[j] == s[j + 1]);
            assert(ik_cmp_spec(s[i + 1].0, s[j + 1].0) == Ordering::Less);
        }
        lemma_mt_insert_effect(s.drop_first(), k, v);
        let r = seq![s[0]] + mt_insert(s.drop_first(), k, v);
        assert(mt_insert(s, k, v) == r);
        assert(r[0] == s[0]);
        assert(r.drop_first() =~= mt_insert(s.drop_first(), k, v));
        assert(mt_get(s, k) == mt_get(s.drop_first(), k));
    }
}

/// The in-memory table: an ordered mapping from internal key to value bytes,
/// held as a vector in strictly ascending key order.
pub struct MemTable<Comp: Comparator> {
    entries: Vec<(InternalKey<Comp>, Vec<u8>)>,
}

impl<Comp: Comparator> MemTable<Comp> {
    /// The entry sequence, in storage order.
    pub closed spec fn entries_spec(&self) -> Seq<(InternalKey<Comp>, Vec<u8>)> {
        self.entries@
    }

    /// Strictly sorted by the internal-key order.
    pub open spec fn wf(&self) -> bool {
        mt_sorted(self.entries_spec())
    }

    /// An empty table.
    pub fn new() -> (r: Self)
        ensures
            r.wf(),
            r.entries_spec() =~= Seq::<(InternalKey<Comp>, Vec<u8>)>::empty(),
    {
        MemTable { entries: Vec::new() }
    }

    /// How many entries are held.
    pub fn len(&self) -> (r: usize)
        ensures
            r == self.entries_spec().len(),
    {
        self.entries.len()
    }

    /// Move the whole table out, leaving this one empty: the freeze step.
    pub fn take(&mut self) -> (r: MemTable<Comp>)
        ensures
            r.entries_spec() == old(self).entries_spec(),
            final(self).entries_spec() =~= Seq::<(InternalKey<Comp>, Vec<u8>)>::empty(),
    {
        let rest = self.entries.split_off(0);
        proof {
            assert(rest@ =~= old(self).entries@);
        }
        MemTable { entries: rest }
    }

    /// Look the key up by comparator equality.
    #[verifier::loop_isolation(false)]
    pub fn get(&self, key: &InternalKey<Comp>) -> (r: Option<&Vec<u8>>)
        requires
            self.wf(),
        ensures
            r matches Some(v) ==> mt_get(self.entries_spec(), *key) == Some(v@),
            r is None ==> mt_get(self.entries_spec(), *key) is None,
    {
        let ghost s = self.entries@;
        let n = self.entries.len();
        let mut i: usize = 0;
        proof {
            assert(s.skip(0) =~= s);
        }
        while i < n
            invariant
                i <= n,
                mt_get(s, *key) == mt_get(s.skip(i as int), *key),
            decreases n - i,
        {
            let pair = &self.entries[i];
            let ord = pair.0.cmp(key);
            proof {
                assert(s.skip(i as int)[0] == s[i as int]);
            }
            if let Ordering::Equal = ord {
                return Some(&pair.1);
            }
            proof {
                assert(s.skip(i as int).drop_first() =~= s.skip(i as int + 1));
            }
            i = i + 1;
        }
        proof {
            assert(s.skip(n as int) =~= Seq::<(InternalKey<Comp>, Vec<u8>)>::empty());
        }
        None
    }

    /// Insert the pair, overwriting the value of an entry with an `Equal`
    /// key; returns the overwritten value, if any.
    #[verifier::loop_isolation(false)]
    pub fn insert(&mut self, key: InternalKey<Comp>, value: Vec<u8>) -> (prev: Option<Vec<u8>>)
        requires
            old(self).wf(),
        ensures
            final(self).wf(),
            final(self).entries_spec() == mt_insert(old(self).entries_spec(), key, value),
            prev matches Some(v0) ==> mt_get(old(self).entries_spec(), key) == Some(v0@),
            prev is None ==> mt_get(old(self).entries_spec(), key) is None,
    {
        let ghost s = self.entries@;
        let n = self.entries.len();
        let mut i: usize = 0;
        proof {
            assert(s.skip(0) =~= s);
            assert(s.take(0) =~= Seq::<(InternalKey<Comp>, Vec<u8>)>::empty());
            assert(mt_insert(s, key, value) =~= s.take(0) + mt_insert(s.skip(0), key, value));
        }
        while i < n
            invariant
                i <= n,
                self.entries@ == s,
                forall|t: int| 0 <= t < i ==> #[trigger] ik_cmp_spec(s[t].0, key) == Ordering::Less,
                mt_insert(s, key, value) == s.take(i as int) + mt_insert(
                    s.skip(i as int),
                    key,
                    value,
                ),
                mt_get(s, key) == mt_get(s.skip(i as int), key),
            decreases n - i,
        {
            let ord = { self.entries[i].0.cmp(&key) };
            proof {
                assert(s.skip(i as int)[0] == s[i as int]);
            }
            match ord {
                Ordering::Less => {
                    proof {
                        assert(s.skip(i as int).drop_first() =~= s.skip(i as int + 1));
                        assert(s.take(i as int + 1) =~= s.take(i as int) + seq![s[i as int]]);
                        assert(mt_insert(s.skip(i as int), key, value) == seq![s[i as int]]
                            + mt_insert(s.skip(i as int + 1), key, value));
                        assert(s.take(i as int) + (seq![s[i as int]] + mt_insert(
                            s.skip(i as int + 1),
                            key,
                            value,
                        )) =~= s.take(i as int + 1) + mt_insert(s.skip(i as int + 1), key, value));
                    }
                    i = i + 1;
                }
                Ordering::Equal => {
                    let entry = self.entries.remove(i);
                    let old_key = entry.0;
                    let old_val = entry.1;
                    self.entries.insert(i, (old_key, value));
                    proof {
                        assert(s.skip(i as int).drop_first() =~= s.skip(i as int + 1));
                        assert(mt_insert(s.skip(i as int), key, value) == seq![(s[i as int].0,
                        value)] + s.skip(i as int + 1));
                        assert(self.entries@ =~= s.take(i as int) + (seq![(s[i as int].0, value)]
                            + s.skip(i as int + 1)));
                        assert(self.entries@ == mt_insert(s, key, value));
                        // order is untouched: the key sequence is unchanged
                        assert forall|t: int| 0 <= t < self.entries@.len() implies self.entries@[t].0
                            == s[t].0 by {}
                        assert forall|a: int, b: int| 0 <= a < b < self.entries@.len() implies
                            #[trigger] ik_cmp_spec(self.entries@[a].0, self.entries@[b].0)
                            == Ordering::Less by {
                            assert(self.entries@[a].0 == s[a].0);
                            assert(self.entries@[b].0 == s[b].0);
                            assert(ik_cmp_spec(s[a].0, s[b].0) == Ordering::Less);
                        }
                        assert(mt_get(s, key) == Some(s[i as int].1@));
                        assert(old_val == s[i as int].1);
                    }
                    return Some(old_val);
                }
                Ordering::Greater => {
                    self.entries.insert(i, (key, value));
                    proof {
                        assert(mt_insert(s.skip(i as int), key, value) == seq![(key, value)]
                            + s.skip(i as int));
                        assert(self.entries@ =~= s.take(i as int) + (seq![(key, value)] + s.skip(
                            i as int,
                        )));
                        assert(self.entries@ == mt_insert(s, key, value));
                        lemma_ik_flip(s[i as int].0, key);
                        assert(ik_cmp_spec(key, s[i as int].0) == Ordering::Less);
                        assert forall|t: int| i <= t < s.len() implies ik_cmp_spec(
                            key,
                            #[trigger] s[t].0,
                        ) == Ordering::Less by {
                            if t > i {
                                assert(ik_cmp_spec(s[i as int].0, s[t].0) == Ordering::Less);
                                lemma_ik_transitive(key, s[i as int].0, s[t].0);
                            }
                        }
                        assert forall|a: int, b: int| 0 <= a < b < self.entries@.len() implies
                            #[trigger] ik_cmp_spec(self.entries@[a].0, self.entries@[b].0)
                            == Ordering::Less by {
                            let t = self.entries@;
                            if b < i {
                                assert(t[a] == s[a] && t[b] == s[b]);
                            } else if a < i && b == i {
                                assert(t[a] == s[a] && t[b] == (key, value));
                            } else if a < i && b > i {
                                assert(t[a] == s[a] && t[b] == s[b - 1]);
                                assert(ik_cmp_spec(s[a].0, s[b - 1].0) == Ordering::Less);
                            } else if a == i {
                                assert(t[a] == (key, value) && t[b] == s[b - 1]);
                                assert(ik_cmp_spec(key, s[b - 1].0) == Ordering::Less);
                            } else {
                                assert(t[a] == s[a - 1] && t[b] == s[b - 1]);
                                assert(ik_cmp_spec(s[a - 1].0, s[b - 1].0) == Ordering::Less);
                            }
                        }
                        assert forall|t: int| 0 <= t < s.len() implies #[trigger] ik_cmp_spec(
                            s[t].0,
                            key,
                        ) != Ordering::Equal by {
                            if t >= i {
                                lemma_ik_flip(s[t].0, key);
                            }
                        }
                        lemma_mt_get_none(s, key);
                    }
                    return None;
                }
            }
        }
        self.entries.push((key, value));
        proof {
            assert(s.skip(n as int) =~= Seq::<(InternalKey<Comp>, Vec<u8>)>::empty());
            assert(mt_insert(s.skip(n as int), key, value) == seq![(key, value)]);
            assert(s.take(n as int) =~= s);
            assert(self.entries@ =~= s.take(n as int) + mt_insert(s.skip(n as int), key, value));
            assert(self.entries@ == mt_insert(s, key, value));
            assert forall|a: int, b: int| 0 <= a < b < self.entries@.len() implies #[trigger]
                ik_cmp_spec(self.entries@[a].0, self.entries@[b].0) == Ordering::Less by {
                let t = self.entries@;
                if b < n {
                    assert(t[a] == s[a] && t[b] == s[b]);
                } else {
                    assert(t[a] == s[a] && t[b] == (key, value));
                    assert(ik_cmp_spec(s[a].0, key) == Ordering::Less);
                }
            }
            assert forall|t: int| 0 <= t < s.len() implies #[trigger] ik_cmp_spec(s[t].0, key)
                != Ordering::Equal by {}
            lemma_mt_get_none(s, key);
        }
        None
    }
}

#[verifier::external_type_specification]
#[verifier::external_body]
pub struct ExSemaphore(std_semaphore::Semaphore);

/// Relies on std_semaphore::Semaphore::new: a counting semaphore with the
/// given initial count. Its meaning lies in cross-thread signalling, so no
/// sequential fact is stated of it.
#[verifier::external_body]
fn sem_new(count: isize) -> (r: std_semaphore::Semaphore) {
    std_semaphore::Semaphore::new(count)
}

/// Relies on std_semaphore::Semaphore::access: blocks until one unit is
/// available, takes it, and releases it when the guard drops at the end of
/// this body. The write path crosses this gate before freezing; nothing in
/// this crate holds the unit elsewhere, so here the call returns at once —
/// the stall itself is rendered by `put`'s no-pending-freeze precondition
/// and the embedding layer's wait on `has_frozen`. Nothing sequential can
/// be stated of the call.
#[verifier::external_body]
fn sem_access(sem: &std_semaphore::Semaphore) {
    let _guard = sem.access();
}

/// One on-disk level: table handles ordered most-recently-flushed first,
/// resolved through the cache manager when a read descends into them.
pub type Level = Vec<ScTableFile>;

/// The state of one range partition: the active mutable table, at most one
/// frozen table awaiting flush, the on-disk levels, and the partition's key
/// range.
///
/// In the concurrent engine this state sits behind a reader/writer lock and
/// the write stall is signalled through the semaphore; the embedding layer
/// provides that exclusion, so writes here take the state exclusively.
pub struct PartitionImpl<Comp: Comparator> {
    mem_table: MemTable<Comp>,
    mem_table_data_size: usize,
    imm_table: Option<MemTable<Comp>>,
    levels: Vec<Level>,
    lower_bound: Option<UserKey<Comp>>,
    upper_bound: Option<UserKey<Comp>>,
    sem: std_semaphore::Semaphore,
    options: Options,
}

/// Range-containment order of two partitions: strictly below when one range
/// ends before the other begins, strictly above in the mirror case, and
/// incomparable otherwise. Overlapping ranges are an invariant violation
/// and have no defined order.
pub open spec fn partition_cmp_spec<Comp: Comparator>(
    self_lower: Seq<u8>,
    self_upper: Seq<u8>,
    other_lower: Seq<u8>,
    other_upper: Seq<u8>,
) -> Option<Ordering> {
    if Comp::cmp_spec(self_upper, other_lower) == Ordering::Less {
        Some(Ordering::Less)
    } else if Comp::cmp_spec(self_lower, other_upper) == Ordering::Greater {
        Some(Ordering::Greater)
    } else {
        None
    }
}

impl<Comp: Comparator> PartitionImpl<Comp> {
    /// The active mutable table's entries.
    pub closed spec fn mem_view(&self) -> Seq<(InternalKey<Comp>, Vec<u8>)> {
        self.mem_table.entries_spec()
    }

    /// The frozen table's entries, while one awaits flush.
    pub closed spec fn imm_view(&self) -> Option<Seq<(InternalKey<Comp>, Vec<u8>)>> {
        match self.imm_table {
            Some(t) => Some(t.entries_spec()),
            None => None,
        }
    }

    /// The lower bound of the key range, once set.
    pub closed spec fn lower_bound_view(&self) -> Option<Seq<u8>> {
        match self.lower_bound {
            Some(k) => Some(k.bytes()),
            None => None,
        }
    }

    /// The upper bound of the key range, once set.
    pub closed spec fn upper_bound_view(&self) -> Option<Seq<u8>> {
        match self.upper_bound {
            Some(k) => Some(k.bytes()),
            None => None,
        }
    }

    /// The on-disk levels, level 0 first.
    pub closed spec fn levels_view(&self) -> Seq<Vec<ScTableFile>> {
        self.levels@
    }

    /// The accumulated entry byte size of the active table.
    pub closed spec fn data_size_spec(&self) -> int {
        self.mem_table_data_size as int
    }

    /// The configured freeze threshold.
    pub closed spec fn table_size_spec(&self) -> int {
        self.options.table_size as int
    }

    /// The footprint estimate of the active table: accumulated entry bytes,
    /// per-entry catalog overhead, and the fixed minimum table overhead, so
    /// that the estimate predicts the eventual flushed table size.
    pub open spec fn memtable_size_spec(&self) -> int {
        self.data_size_spec() + self.mem_view().len() * TABLE_CATALOG_ITEM_SIZE + TABLE_MIN_SIZE
    }

    /// Both bounds set together, or neither.
    pub open spec fn bounds_paired(&self) -> bool {
        self.lower_bound_view() is Some <==> self.upper_bound_view() is Some
    }

    /// The partition invariant: both tables sorted, the size estimate exact
    /// and within machine range.
    pub open spec fn wf(&self) -> bool {
        &&& mt_sorted(self.mem_view())
        &&& self.data_size_spec() == mt_data_size(self.mem_view())
        &&& (self.imm_view() matches Some(s) ==> mt_sorted(s))
        &&& self.memtable_size_spec() <= usize::MAX
    }

    /// Would this write push the footprint estimate past the threshold?
    pub open spec fn put_would_freeze(&self, key: InternalKey<Comp>, value: Vec<u8>) -> bool {
        self.memtable_size_spec() + key.user_key.bytes().len() + value@.len()
            + TABLE_CATALOG_ITEM_SIZE > self.table_size_spec()
    }

    /// An empty partition: no entries, no frozen table, no bounds.
    pub fn new(options: Options) -> (r: Self)
        ensures
            r.wf(),
            r.mem_view() =~= Seq::<(InternalKey<Comp>, Vec<u8>)>::empty(),
            r.imm_view() is None,
            r.lower_bound_view() is None,
            r.upper_bound_view() is None,
            r.bounds_paired(),
            r.levels_view() =~= Seq::<Vec<ScTableFile>>::empty(),
            r.table_size_spec() == options.table_size,
            r.data_size_spec() == 0,
    {
        PartitionImpl {
            mem_table: MemTable::new(),
            mem_table_data_size: 0,
            imm_table: None,
            levels: Vec::new(),
            lower_bound: None,
            upper_bound: None,
            sem: sem_new(1),
            options,
        }
    }

    /// The active table's footprint estimate.
    pub fn memtable_size(&self) -> (r: usize)
        requires
            self.wf(),
        ensures
            r == self.memtable_size_spec(),
    {
        self.mem_table_data_size + self.mem_table.len() * TABLE_CATALOG_ITEM_SIZE + TABLE_MIN_SIZE
    }

    /// Write one entry.
    ///
    /// The key must own its buffer: the table outlives the caller's frame.
    /// If the write would push the footprint estimate past the threshold,
    /// the active table is frozen first (after the stall gate); a freeze
    /// while another frozen table is still pending is a caller error and is
    /// excluded, so a pending frozen table is never overwritten. The first
    /// write of an empty partition sets both bounds to its key; later
    /// writes are assumed in range and leave the bounds alone.
    pub fn put(&mut self, key: InternalKey<Comp>, value: Vec<u8>)
        requires
            old(self).wf(),
            key.user_key.is_owned_spec(),
            old(self).memtable_size_spec() + key.user_key.bytes().len() + value@.len()
                + TABLE_CATALOG_ITEM_SIZE <= usize::MAX,
            old(self).put_would_freeze(key, value) ==> old(self).imm_view() is None,
        ensures
            final(self).wf(),
            final(self).table_size_spec() == old(self).table_size_spec(),
            final(self).levels_view() == old(self).levels_view(),
            old(self).put_would_freeze(key, value) ==> final(self).imm_view() == Some(
                old(self).mem_view(),
            ) && final(self).mem_view() == mt_insert(
                Seq::<(InternalKey<Comp>, Vec<u8>)>::empty(),
                key,
                value,
            ),
            !old(self).put_would_freeze(key, value) ==> final(self).imm_view() == old(self).imm_view() && final(self).mem_view() == mt_insert(old(self).mem_view(), key, value),
            old(self).imm_view() is Some ==> final(self).imm_view() == old(self).imm_view(),
            old(self).lower_bound_view() is None && old(self).upper_bound_view() is None ==> final(self).lower_bound_view() == Some(key.user_key.bytes()) && final(self).upper_bound_view()
                == Some(key.user_key.bytes()),
            !(old(self).lower_bound_view() is None && old(self).upper_bound_view() is None)
                ==> final(self).lower_bound_view() == old(self).lower_bound_view() && final(self).upper_bound_view() == old(self).upper_bound_view(),
            old(self).bounds_paired() ==> final(self).bounds_paired(),
    {
        let key_len = key.user_key.key().len();
        let value_len = value.len();
        let kv_size = key_len + value_len + TABLE_CATALOG_ITEM_SIZE;
        if self.memtable_size() + kv_size > self.options.table_size {
            // the stall gate: returns once no flush is pending
            sem_access(&self.sem);
            let frozen = self.mem_table.take();
            self.imm_table = Some(frozen);
            self.mem_table_data_size = 0;
            proof {
                assert(mt_data_size(self.mem_table.entries_spec()) == 0);
            }
        }

        if self.lower_bound.is_none() && self.upper_bound.is_none() {
            self.lower_bound = Some(key.user_key.clone());
            self.upper_bound = Some(key.user_key.clone());
        }

        let ghost s_before = self.mem_table.entries_spec();
        proof {
            lemma_mt_insert_effect(s_before, key, value);
            lemma_mt_get_size_bound(s_before, key);
            lemma_mt_data_size_nonneg(s_before);
        }
        let prev = self.mem_table.insert(key, value);
        match prev {
            None => {
                self.mem_table_data_size = self.mem_table_data_size + key_len + value_len;
            },
            Some(v0) => {
                let v0_len = v0.len();
                self.mem_table_data_size = self.mem_table_data_size - v0_len + value_len;
            },
        }
    }

    /// What a read of `key` finds in memory: the active table first, then
    /// the frozen table if one is pending.
    pub open spec fn probe_spec(&self, key: InternalKey<Comp>) -> Option<Seq<u8>> {
        match mt_get(self.mem_view(), key) {
            Some(v) => Some(v),
            None => match self.imm_view() {
                Some(s) => mt_get(s, key),
                None => None,
            },
        }
    }

    /// Read one entry: the active table first, then the frozen table.
    ///
    /// A miss in both falls through to the on-disk levels; that descent runs
    /// through the cache manager and the I/O layer, so it belongs to the
    /// embedding layer, which resolves each handle of `levels` in order.
    pub fn get(&self, key: InternalKey<Comp>) -> (r: Option<Vec<u8>>)
        requires
            self.wf(),
        ensures
            self.probe_spec(key) matches Some(v0) ==> (r matches Some(v) && v@ == v0),
            self.probe_spec(key) is None ==> r is None,
    {
        if let Some(v) = self.mem_table.get(&key) {
            return Some(slice_to_vec(v.as_slice()));
        }
        if let Some(imm) = &self.imm_table {
            if let Some(v) = imm.get(&key) {
                return Some(slice_to_vec(v.as_slice()));
            }
        }
        None
    }

    /// The on-disk levels, level 0 (youngest) first; within a level the
    /// most recently flushed table comes first. A read that misses both
    /// in-memory tables descends through these handles.
    pub fn levels(&self) -> (r: &Vec<Level>)
        ensures
            r@ == self.levels_view(),
    {
        &self.levels
    }

    /// Both ends of the key range: set together, or absent together.
    pub fn bounds(&self) -> (r: (Option<&UserKey<Comp>>, Option<&UserKey<Comp>>))
        ensures
            r.0 is Some <==> self.lower_bound_view() is Some,
            r.1 is Some <==> self.upper_bound_view() is Some,
            r.0 matches Some(k) ==> self.lower_bound_view() == Some(k.bytes()),
            r.1 matches Some(k) ==> self.upper_bound_view() == Some(k.bytes()),
    {
        let lower = match &self.lower_bound {
            Some(k) => Some(k),
            None => None,
        };
        let upper = match &self.upper_bound {
            Some(k) => Some(k),
            None => None,
        };
        (lower, upper)
    }

    /// Replace the lower bound; the key must own its buffer.
    pub fn set_lower_bound(&mut self, lower_bound: UserKey<Comp>)
        requires
            old(self).wf(),
            lower_bound.is_owned_spec(),
        ensures
            final(self).wf(),
            final(self).lower_bound_view() == Some(lower_bound.bytes()),
            final(self).upper_bound_view() == old(self).upper_bound_view(),
            final(self).mem_view() == old(self).mem_view(),
            final(self).imm_view() == old(self).imm_view(),
            final(self).levels_view() == old(self).levels_view(),
            final(self).table_size_spec() == old(self).table_size_spec(),
            final(self).data_size_spec() == old(self).data_size_spec(),
    {
        self.lower_bound = Some(lower_bound);
    }

    /// Replace the upper bound; the key must own its buffer.
    pub fn set_upper_bound(&mut self, upper_bound: UserKey<Comp>)
        requires
            old(self).wf(),
            upper_bound.is_owned_spec(),
        ensures
            final(self).wf(),
            final(self).upper_bound_view() == Some(upper_bound.bytes()),
            final(self).lower_bound_view() == old(self).lower_bound_view(),
            final(self).mem_view() == old(self).mem_view(),
            final(self).imm_view() == old(self).imm_view(),
            final(self).levels_view() == old(self).levels_view(),
            final(self).table_size_spec() == old(self).table_size_spec(),
            final(self).data_size_spec() == old(self).data_size_spec(),
    {
        self.upper_bound = Some(upper_bound);
    }

    /// The debug-build bound check: both bounds present, or both absent.
    pub fn debug_bounds_sanity_check(&self) -> (r: bool)
        ensures
            r == self.bounds_paired(),
    {
        self.lower_bound.is_some() == self.upper_bound.is_some()
    }

    /// Whether a frozen table awaits its flush.
    pub fn has_frozen(&self) -> (r: bool)
        ensures
            r == (self.imm_view() is Some),
    {
        self.imm_table.is_some()
    }

    /// Clear the pending frozen table and hand it out: the acknowledgement
    /// that the external flush of that table has completed.
    pub fn take_frozen(&mut self) -> (r: Option<MemTable<Comp>>)
        requires
            old(self).wf(),
        ensures
            final(self).wf(),
            final(self).imm_view() is None,
            r is Some <==> old(self).imm_view() is Some,
            r matches Some(t) ==> old(self).imm_view() == Some(t.entries_spec()) && t.wf(),
            final(self).mem_view() == old(self).mem_view(),
            final(self).lower_bound_view() == old(self).lower_bound_view(),
            final(self).upper_bound_view() == old(self).upper_bound_view(),
            final(self).levels_view() == old(self).levels_view(),
            final(self).table_size_spec() == old(self).table_size_spec(),
            final(self).data_size_spec() == old(self).data_size_spec(),
    {
        let r = self.imm_table.take();
        r
    }

    /// Range-containment comparison; both partitions must have their bounds
    /// set, as any partition that has seen a write does.
    pub fn partial_cmp(&self, other: &Self) -> (r: Option<Ordering>)
        requires
            self.lower_bound_view() is Some,
            self.upper_bound_view() is Some,
            other.lower_bound_view() is Some,
            other.upper_bound_view() is Some,
        ensures
            r == partition_cmp_spec::<Comp>(
                self.lower_bound_view().unwrap(),
                self.upper_bound_view().unwrap(),
                other.lower_bound_view().unwrap(),
                other.upper_bound_view().unwrap(),
            ),
    {
        let ord_upper = match (&self.upper_bound, &other.lower_bound) {
            (Some(su), Some(ol)) => su.cmp(ol),
            _ => vstd::pervasive::unreached(),
        };
        if let Ordering::Less = ord_upper {
            return Some(Ordering::Less);
        }
        let ord_lower = match (&self.lower_bound, &other.upper_bound) {
            (Some(sl), Some(ou)) => sl.cmp(ou),
            _ => vstd::pervasive::unreached(),
        };
        if let Ordering::Greater = ord_lower {
            return Some(Ordering::Greater);
        }
        None
    }

    /// Total comparison of two partitions known to be disjoint: the
    /// range-containment order must be defined for them.
    pub fn cmp(&self, other: &Self) -> (r: Ordering)
        requires
            self.lower_bound_view() is Some,
            self.upper_bound_view() is Some,
            other.lower_bound_view() is Some,
            other.upper_bound_view() is Some,
            partition_cmp_spec::<Comp>(
                self.lower_bound_view().unwrap(),
                self.upper_bound_view().unwrap(),
                other.lower_bound_view().unwrap(),
                other.upper_bound_view().unwrap(),
            ) is Some,
        ensures
            Some(r) == partition_cmp_spec::<Comp>(
                self.lower_bound_view().unwrap(),
                self.upper_bound_view().unwrap(),
                other.lower_bound_view().unwrap(),
                other.upper_bound_view().unwrap(),
            ),
    {
        match self.partial_cmp(other) {
            Some(o) => o,
            None => vstd::pervasive::unreached(),
        }
    }

    /// Two distinct partitions never compare equal; range equality between
    /// them is an invariant violation that `debug_never_eq_sanity_check`
    /// flags in debug builds.
    pub fn eq(&self, _other: &Self) -> (r: bool)
        ensures
            !r,
    {
        false
    }

    /// The debug-build companion of partition equality: distinct partitions
    /// with bounds set must not share a lower or an upper bound. Returns
    /// false exactly when they do. (Reflexive self-comparison is excluded by
    /// an identity check in the embedding layer.)
    pub fn debug_never_eq_sanity_check(&self, other: &Self) -> (r: bool)
        ensures
            r == !(self.lower_bound_view() is Some && self.upper_bound_view() is Some
                && other.lower_bound_view() is Some && other.upper_bound_view() is Some && (
            Comp::cmp_spec(self.lower_bound_view().unwrap(), other.lower_bound_view().unwrap())
                == Ordering::Equal || Comp::cmp_spec(
                self.upper_bound_view().unwrap(),
                other.upper_bound_view().unwrap(),
            ) == Ordering::Equal)),
    {
        match (&self.lower_bound, &self.upper_bound, &other.lower_bound, &other.upper_bound) {
            (Some(sl), Some(su), Some(ol), Some(ou)) => {
                let lower_eq = matches!(sl.cmp(ol), Ordering::Equal);
                let upper_eq = matches!(su.cmp(ou), Ordering::Equal);
                !(lower_eq || upper_eq)
            },
            _ => true,
        }
    }
}

} // verus!
