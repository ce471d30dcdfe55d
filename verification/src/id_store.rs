//! The store of known endpoints ("frens") and the requests it answers.

use vstd::prelude::*;

use crate::caps::CapModel;
use crate::capset;
use crate::capset::Caps;
use crate::text;
use crate::text::{compare_keys, Order};
use crate::token::{RcanInfo, RcanModel};

verus! {

/// How the service regards an endpoint.
#[derive(Clone, Copy, Debug, PartialEq, Eq, Structural)]
pub enum Status {
    Seen,
    Known,
    Apparent,
    Fren,
    Enemy,
    DestroyOnSight,
}

/// A known endpoint: its key, how it is regarded, when it was first recorded
/// (unix time in nanoseconds) and the rcan it presented, if any.
#[derive(Debug, Clone)]
pub struct Fren {
    pub id: [u8; 32],
    pub status: Status,
    pub created: i64,
    pub rcan: Option<RcanInfo>,
}

/// The value of a [`Fren`].
pub struct FrenModel {
    pub id: Seq<u8>,
    pub status: Status,
    pub created: i64,
    pub rcan: Option<RcanModel>,
}

pub open spec fn rcan_model(r: Option<RcanInfo>) -> Option<RcanModel> {
    match r {
        Some(x) => Some(x@),
        None => None,
    }
}

impl View for Fren {
    type V = FrenModel;

    open spec fn view(&self) -> FrenModel {
        FrenModel { id: self.id@, status: self.status, created: self.created, rcan: rcan_model(self.rcan) }
    }
}

/// The endpoint's rcan grants everything `wanted` asks for.
pub open spec fn fren_permits(f: FrenModel, wanted: Seq<CapModel>) -> bool {
    match f.rcan {
        Some(r) => capset::set_permits(r.caps, wanted),
        None => false,
    }
}

/// An endpoint permits a wanted set exactly when it holds an rcan and each
/// wanted capability is permitted by some capability of that rcan.
pub proof fn lemma_fren_permits_exactly(f: FrenModel, wanted: Seq<CapModel>)
    ensures
        fren_permits(f, wanted) == (f.rcan is Some && forall|c: CapModel| #[trigger] wanted.contains(c)
            ==> exists|i: int| 0 <= i < f.rcan->0.caps.len() && crate::caps::cap_permits(
            #[trigger] f.rcan->0.caps[i],
            c,
        )),
{
    if f.rcan is Some {
        let caps = f.rcan->0.caps;
        if fren_permits(f, wanted) {
            assert forall|c: CapModel| #[trigger] wanted.contains(c) implies exists|i: int|
                0 <= i < caps.len() && crate::caps::cap_permits(#[trigger] caps[i], c) by {
                let j = choose|j: int| 0 <= j < wanted.len() && wanted[j] == c;
                assert(capset::some_permits(caps, wanted[j]));
            }
        } else {
            let j = choose|j: int| 0 <= j < wanted.len() && !capset::some_permits(caps, #[trigger] wanted[j]);
            assert(wanted.contains(wanted[j]));
        }
    }
}

/// Wanting less never loses permission, and wanting more never gains it: an
/// endpoint that permits `wanted` permits every set made of capabilities of
/// `wanted`.
pub proof fn lemma_fren_permits_subset(f: FrenModel, wanted: Seq<CapModel>, fewer: Seq<CapModel>)
    requires
        fren_permits(f, wanted),
        forall|k: int| 0 <= k < fewer.len() ==> wanted.contains(#[trigger] fewer[k]),
    ensures
        fren_permits(f, fewer),
{
    let r = f.rcan->0;
    assert forall|k: int| 0 <= k < fewer.len() implies capset::some_permits(r.caps, #[trigger] fewer[k]) by {
        assert(wanted.contains(fewer[k]));
        let j = choose|j: int| 0 <= j < wanted.len() && wanted[j] == fewer[k];
        assert(capset::some_permits(r.caps, wanted[j]));
    }
}

impl Fren {
    /// A newly seen endpoint, recorded at `created`, with no rcan.
    pub fn new(id: [u8; 32], created: i64) -> (r: Fren)
        ensures
            r@ == (FrenModel { id: id@, status: Status::Seen, created, rcan: None }),
    {
        Fren { id, status: Status::Seen, created, rcan: None }
    }

    /// Whether the endpoint's rcan grants everything `wanted` asks for.
    pub fn permits(&self, wanted: &Caps) -> (r: bool)
        ensures
            r == fren_permits(self@, wanted@),
    {
        match &self.rcan {
            Some(rcan) => rcan.caps.permits(wanted),
            None => false,
        }
    }

    /// Whether the endpoint may sign: its rcan grants [`Caps::sign`].
    pub fn can_sign(&self) -> (r: bool)
        ensures
            r == fren_permits(self@, seq![CapModel::Issue]),
    {
        let base_cap = Caps::sign();
        self.permits(&base_cap)
    }

    /// Whether the endpoint may read information: its rcan grants [`Caps::info`].
    pub fn can_info(&self) -> (r: bool)
        ensures
            r == fren_permits(self@, seq![CapModel::Info]),
    {
        let base_cap = Caps::info();
        self.permits(&base_cap)
    }

    /// A copy with the same value.
    pub fn duplicate(&self) -> (r: Fren)
        ensures
            r@ == self@,
    {
        let rcan = match &self.rcan {
            Some(x) => Some(x.duplicate()),
            None => None,
        };
        Fren { id: self.id, status: self.status, created: self.created, rcan }
    }
}

/// The values of a sequence of entries.
pub open spec fn entry_models(v: Seq<([u8; 32], Fren)>) -> Seq<(Seq<u8>, FrenModel)> {
    v.map_values(|e: ([u8; 32], Fren)| (e.0@, e.1@))
}

pub open spec fn fren_models(v: Seq<Fren>) -> Seq<FrenModel> {
    v.map_values(|f: Fren| f@)
}

pub open spec fn option_model(o: Option<Fren>) -> Option<FrenModel> {
    match o {
        Some(f) => Some(f@),
        None => None,
    }
}

/// Keys strictly increasing, so no key occurs twice.
pub open spec fn keys_sorted(s: Seq<(Seq<u8>, FrenModel)>) -> bool {
    forall|i: int, j: int| 0 <= i < j < s.len() ==> text::bytes_lt(#[trigger] s[i].0, #[trigger] s[j].0)
}

/// Some entry of `s` has key `k`.
pub open spec fn has_key(s: Seq<(Seq<u8>, FrenModel)>, k: Seq<u8>) -> bool {
    exists|i: int| 0 <= i < s.len() && (#[trigger] s[i]).0 == k
}

/// The value stored under `k` in the entries `s`.
pub open spec fn lookup(s: Seq<(Seq<u8>, FrenModel)>, k: Seq<u8>) -> Option<FrenModel> {
    if has_key(s, k) {
        Some(s[choose|i: int| 0 <= i < s.len() && (#[trigger] s[i]).0 == k].1)
    } else {
        None
    }
}

/// The entries as a map from key to endpoint.
pub open spec fn store_map(s: Seq<(Seq<u8>, FrenModel)>) -> Map<Seq<u8>, FrenModel> {
    Map::new(|k: Seq<u8>| has_key(s, k), |k: Seq<u8>| lookup(s, k)->0)
}

/// What a `Check` answers: the endpoint is known and holds an rcan valid at `now`.
pub open spec fn check_spec(m: Map<Seq<u8>, FrenModel>, k: Seq<u8>, now: u64) -> bool {
    m.contains_key(k) && match m[k].rcan {
        Some(r) => r.expires.valid_at(now),
        None => false,
    }
}

/// In sorted entries, the entry at `i` is what its key looks up.
pub proof fn lemma_lookup_index(s: Seq<(Seq<u8>, FrenModel)>, i: int)
    requires
        keys_sorted(s),
        0 <= i < s.len(),
    ensures
        has_key(s, s[i].0),
        lookup(s, s[i].0) == Some(s[i].1),
        store_map(s).contains_key(s[i].0),
        store_map(s)[s[i].0] == s[i].1,
{
    assert(s[i].0 == s[i].0);
    let j = choose|j: int| 0 <= j < s.len() && (#[trigger] s[j]).0 == s[i].0;
    if j < i {
        assert(text::bytes_lt(s[j].0, s[i].0));
        text::lemma_bytes_lt_irreflexive(s[i].0);
    } else if j > i {
        assert(text::bytes_lt(s[i].0, s[j].0));
        text::lemma_bytes_lt_irreflexive(s[i].0);
    }
}

/// In sorted entries, looking up a key that no entry has finds nothing.
pub proof fn lemma_lookup_absent(s: Seq<(Seq<u8>, FrenModel)>, k: Seq<u8>)
    requires
        forall|i: int| 0 <= i < s.len() ==> (#[trigger] s[i]).0 != k,
    ensures
        !has_key(s, k),
        lookup(s, k) is None,
        !store_map(s).contains_key(k),
{
}

/// The store of known endpoints, kept in increasing key order (as a `BTreeMap`
/// keeps them).
///
/// The entries are a `Vec` of key and endpoint pairs, kept in increasing key
/// order with no key twice as the type invariant, rather than a `BTreeMap`:
/// vstd's contracts for `BTreeMap` hold only for key types whose `Ord` it
/// knows to obey the laws of an order (integers and tuples of them), and the
/// keys here are `[u8; 32]` arrays, whose `Ord` it does not cover.
#[derive(Debug)]
pub struct FrenStore {
    entries: Vec<([u8; 32], Fren)>,
}

impl View for FrenStore {
    type V = Seq<(Seq<u8>, FrenModel)>;

    closed spec fn view(&self) -> Seq<(Seq<u8>, FrenModel)> {
        entry_models(self.entries@)
    }
}

/// Where `key` is in the sorted entries `v`: `Ok(i)` when `v[i]` has it,
/// `Err(i)` when it belongs just before `v[i]`.
fn find_key(v: &Vec<([u8; 32], Fren)>, key: &[u8; 32]) -> (r: Result<usize, usize>)
    requires
        keys_sorted(entry_models(v@)),
    ensures
        r matches Ok(i) ==> i < v@.len() && entry_models(v@)[i as int].0 == key@,
        r matches Err(i) ==> i <= v@.len()
            && (forall|j: int| 0 <= j < i ==> text::bytes_lt(#[trigger] entry_models(v@)[j].0, key@))
            && (forall|j: int| i <= j < v@.len() ==> text::bytes_lt(key@, #[trigger] entry_models(v@)[j].0)),
{
    let n = v.len();
    let mut i: usize = 0;
    while i < n
        invariant
            n == v@.len(),
            i <= n,
            keys_sorted(entry_models(v@)),
            forall|j: int| 0 <= j < i ==> text::bytes_lt(#[trigger] entry_models(v@)[j].0, key@),
        decreases n - i,
    {
        assert(entry_models(v@)[i as int].0 == v@[i as int].0@);
        match compare_keys(&v[i].0, key) {
            Order::Less => {
                i = i + 1;
            },
            Order::Equal => {
                return Ok(i);
            },
            Order::Greater => {
                assert forall|j: int| i <= j < v@.len() implies text::bytes_lt(key@, #[trigger] entry_models(v@)[j].0) by {
                    if j > i {
                        text::lemma_bytes_lt_transitive(key@, entry_models(v@)[i as int].0, entry_models(v@)[j].0);
                    }
                }
                return Err(i);
            },
        }
    }
    Err(i)
}

/// After `find_key` answered `Err`, no entry has the key.
proof fn lemma_not_found(s: Seq<(Seq<u8>, FrenModel)>, k: Seq<u8>, i: int)
    requires
        0 <= i <= s.len(),
        forall|j: int| 0 <= j < i ==> text::bytes_lt(#[trigger] s[j].0, k),
        forall|j: int| i <= j < s.len() ==> text::bytes_lt(k, #[trigger] s[j].0),
    ensures
        forall|j: int| 0 <= j < s.len() ==> (#[trigger] s[j]).0 != k,
{
    assert forall|j: int| 0 <= j < s.len() implies (#[trigger] s[j]).0 != k by {
        text::lemma_bytes_lt_irreflexive(k);
        if j < i {
            assert(text::bytes_lt(s[j].0, k));
        } else {
            assert(text::bytes_lt(k, s[j].0));
        }
    }
}

impl FrenStore {
    #[verifier::type_invariant]
    closed spec fn sorted(self) -> bool {
        keys_sorted(self@)
    }

    /// An empty store.
    pub fn new() -> (r: FrenStore)
        ensures
            r@ == Seq::<(Seq<u8>, FrenModel)>::empty(),
            store_map(r@) == Map::<Seq<u8>, FrenModel>::empty(),
    {
        let r = FrenStore { entries: Vec::new() };
        assert(r@ =~= Seq::<(Seq<u8>, FrenModel)>::empty());
        assert(store_map(r@) =~= Map::<Seq<u8>, FrenModel>::empty());
        r
    }

    /// The endpoint stored under `key`, if any.
    pub fn get(&self, key: &[u8; 32]) -> (r: Option<Fren>)
        ensures
            option_model(r) == store_map(self@).get(key@),
    {
        proof {
            use_type_invariant(self);
        }
        match find_key(&self.entries, key) {
            Ok(i) => {
                proof {
                    lemma_lookup_index(self@, i as int);
                }
                Some(self.entries[i].1.duplicate())
            },
            Err(i) => {
                proof {
                    lemma_not_found(self@, key@, i as int);
                    lemma_lookup_absent(self@, key@);
                }
                None
            },
        }
    }

    /// Whether the endpoint under `key` is known and holds an rcan valid at
    /// unix time `now_secs`.
    pub fn check(&self, key: &[u8; 32], now_secs: u64) -> (r: bool)
        ensures
            r == check_spec(store_map(self@), key@, now_secs),
    {
        proof {
            use_type_invariant(self);
        }
        match find_key(&self.entries, key) {
            Ok(i) => {
                proof {
                    lemma_lookup_index(self@, i as int);
                }
                match &self.entries[i].1.rcan {
                    Some(rcan) => rcan.expires.is_valid_at(now_secs),
                    None => false,
                }
            },
            Err(i) => {
                proof {
                    lemma_not_found(self@, key@, i as int);
                    lemma_lookup_absent(self@, key@);
                }
                false
            },
        }
    }

    /// Stores `value` under `key`, replacing what was there.
    pub fn set(&mut self, key: [u8; 32], value: Fren)
        ensures
            store_map(final(self)@) == store_map(old(self)@).insert(key@, value@),
    {
        proof {
            use_type_invariant(&*self);
        }
        let ghost old_s = self@;
        let ghost kv = key@;
        let ghost vv = value@;
        let mut entries = Vec::new();
        std::mem::swap(&mut entries, &mut self.entries);
        assert(entry_models(entries@) == old_s);
        match find_key(&entries, &key) {
            Ok(i) => {
                entries.set(i, (key, value));
                let ghost new_s = entry_models(entries@);
                assert(new_s =~= old_s.update(i as int, (kv, vv)));
                assert(keys_sorted(new_s)) by {
                    assert forall|a: int, b: int| 0 <= a < b < new_s.len() implies text::bytes_lt(#[trigger] new_s[a].0, #[trigger] new_s[b].0) by {
                        assert(old_s[a].0 == new_s[a].0 && old_s[b].0 == new_s[b].0);
                    }
                }
                proof {
                    lemma_lookup_index(new_s, i as int);
                    assert forall|k: Seq<u8>| #[trigger] has_key(new_s, k) == (k == kv || has_key(old_s, k)) by {
                        if has_key(old_s, k) {
                            let j = choose|j: int| 0 <= j < old_s.len() && (#[trigger] old_s[j]).0 == k;
                            assert(new_s[j].0 == k);
                        }
                        if has_key(new_s, k) {
                            let j = choose|j: int| 0 <= j < new_s.len() && (#[trigger] new_s[j]).0 == k;
                            assert(old_s[j].0 == k);
                        }
                    }
                    assert forall|k: Seq<u8>| k != kv && #[trigger] has_key(old_s, k) implies lookup(new_s, k) == lookup(old_s, k) by {
                        let j = choose|j: int| 0 <= j < old_s.len() && (#[trigger] old_s[j]).0 == k;
                        lemma_lookup_index(old_s, j);
                        assert(j != i);
                        assert(new_s[j] == old_s[j]);
                        lemma_lookup_index(new_s, j);
                    }
                    assert(store_map(new_s) =~= store_map(old_s).insert(kv, vv));
                }
            },
            Err(i) => {
                entries.insert(i, (key, value));
                let ghost new_s = entry_models(entries@);
                assert(new_s =~= old_s.insert(i as int, (kv, vv)));
                assert(keys_sorted(new_s)) by {
                    assert forall|a: int, b: int| 0 <= a < b < new_s.len() implies text::bytes_lt(#[trigger] new_s[a].0, #[trigger] new_s[b].0) by {
                        if b < i {
                        } else if a < i && b == i {
                        } else if a < i && b > i {
                            assert(new_s[b] == old_s[b - 1]);
                        } else if a == i {
                            assert(new_s[b] == old_s[b - 1]);
                        } else {
                            assert(new_s[a] == old_s[a - 1]);
                            assert(new_s[b] == old_s[b - 1]);
                        }
                    }
                }
                proof {
                    lemma_lookup_index(new_s, i as int);
                    assert forall|k: Seq<u8>| #[trigger] has_key(new_s, k) == (k == kv || has_key(old_s, k)) by {
                        if has_key(old_s, k) {
                            let j = choose|j: int| 0 <= j < old_s.len() && (#[trigger] old_s[j]).0 == k;
                            if j < i {
                                assert(new_s[j].0 == k);
                            } else {
                                assert(new_s[j + 1].0 == k);
                            }
                        }
                        if has_key(new_s, k) {
                            let j = choose|j: int| 0 <= j < new_s.len() && (#[trigger] new_s[j]).0 == k;
                            if j < i {
                                assert(old_s[j].0 == k);
                            } else if j > i {
                                assert(old_s[j - 1].0 == k);
                            }
                        }
                    }
                    assert forall|k: Seq<u8>| k != kv && #[trigger] has_key(old_s, k) implies lookup(new_s, k) == lookup(old_s, k) by {
                        let j = choose|j: int| 0 <= j < old_s.len() && (#[trigger] old_s[j]).0 == k;
                        lemma_lookup_index(old_s, j);
                        if j < i {
                            assert(new_s[j] == old_s[j]);
                            lemma_lookup_index(new_s, j);
                        } else {
                            assert(new_s[j + 1] == old_s[j]);
                            lemma_lookup_index(new_s, j + 1);
                        }
                    }
                    assert(store_map(new_s) =~= store_map(old_s).insert(kv, vv));
                }
            },
        }
        self.entries = entries;
    }

    /// Forgets the endpoint under `key`, if any.
    pub fn remove(&mut self, key: &[u8; 32])
        ensures
            store_map(final(self)@) == store_map(old(self)@).remove(key@),
    {
        proof {
            use_type_invariant(&*self);
        }
        let ghost old_s = self@;
        let ghost kv = key@;
        let mut entries = Vec::new();
        std::mem::swap(&mut entries, &mut self.entries);
        assert(entry_models(entries@) == old_s);
        match find_key(&entries, key) {
            Ok(i) => {
                entries.remove(i);
                let ghost new_s = entry_models(entries@);
                assert(new_s =~= old_s.remove(i as int));
                assert(keys_sorted(new_s)) by {
                    assert forall|a: int, b: int| 0 <= a < b < new_s.len() implies text::bytes_lt(#[trigger] new_s[a].0, #[trigger] new_s[b].0) by {
                        if b < i {
                        } else if a < i {
                            assert(new_s[b] == old_s[b + 1]);
                        } else {
                            assert(new_s[a] == old_s[a + 1]);
                            assert(new_s[b] == old_s[b + 1]);
                        }
                    }
                }
                proof {
                    assert forall|k: Seq<u8>| #[trigger] has_key(new_s, k) == (k != kv && has_key(old_s, k)) by {
                        if has_key(old_s, k) && k != kv {
                            let j = choose|j: int| 0 <= j < old_s.len() && (#[trigger] old_s[j]).0 == k;
                            assert(j != i);
                            if j < i {
                                assert(new_s[j].0 == k);
                            } else {
                                assert(new_s[j - 1].0 == k);
                            }
                        }
                        if has_key(new_s, k) {
                            let j = choose|j: int| 0 <= j < new_s.len() && (#[trigger] new_s[j]).0 == k;
                            if j < i {
                                assert(old_s[j].0 == k);
                                assert(text::bytes_lt(old_s[j].0, old_s[i as int].0));
                            } else {
                                assert(old_s[j + 1].0 == k);
                                assert(text::bytes_lt(old_s[i as int].0, old_s[j + 1].0));
                            }
                            text::lemma_bytes_lt_irreflexive(k);
                        }
                    }
                    assert forall|k: Seq<u8>| k != kv && #[trigger] has_key(old_s, k) implies lookup(new_s, k) == lookup(old_s, k) by {
                        let j = choose|j: int| 0 <= j < old_s.len() && (#[trigger] old_s[j]).0 == k;
                        lemma_lookup_index(old_s, j);
                        assert(j != i);
                        if j < i {
                            assert(new_s[j] == old_s[j]);
                            lemma_lookup_index(new_s, j);
                        } else {
                            assert(new_s[j - 1] == old_s[j]);
                            lemma_lookup_index(new_s, j - 1);
                        }
                    }
                    assert(store_map(new_s) =~= store_map(old_s).remove(kv));
                }
            },
            Err(i) => {
                proof {
                    lemma_not_found(old_s, kv, i as int);
                    lemma_lookup_absent(old_s, kv);
                    assert(store_map(old_s) =~= store_map(old_s).remove(kv));
                }
            },
        }
        self.entries = entries;
    }

    /// Every stored endpoint, in increasing key order.
    pub fn list(&self) -> (r: Vec<Fren>)
        ensures
            fren_models(r@) == self@.map_values(|e: (Seq<u8>, FrenModel)| e.1),
            keys_sorted(self@),
            forall|i: int| 0 <= i < self@.len() ==> #[trigger] store_map(self@).contains_key(self@[i].0)
                && store_map(self@)[self@[i].0] == self@[i].1,
            forall|k: Seq<u8>| #[trigger] store_map(self@).contains_key(k) ==> exists|i: int|
                0 <= i < self@.len() && (#[trigger] self@[i]).0 == k,
    {
        proof {
            use_type_invariant(self);
        }
        let mut res: Vec<Fren> = Vec::new();
        let n = self.entries.len();
        let mut k: usize = 0;
        while k < n
            invariant
                n == self@.len(),
                k <= n,
                fren_models(res@) =~= self@.take(k as int).map_values(|e: (Seq<u8>, FrenModel)| e.1),
            decreases n - k,
        {
            let (_, item) = &self.entries[k];
            res.push(item.duplicate());
            assert(self@.take(k + 1).map_values(|e: (Seq<u8>, FrenModel)| e.1) =~= self@.take(k as int).map_values(
                |e: (Seq<u8>, FrenModel)| e.1,
            ).push(self@[k as int].1));
            k = k + 1;
        }
        assert(self@.take(n as int) =~= self@);
        assert forall|i: int| 0 <= i < self@.len() implies #[trigger] store_map(self@).contains_key(self@[i].0)
            && store_map(self@)[self@[i].0] == self@[i].1 by {
            lemma_lookup_index(self@, i);
        }
        res
    }
}

/// A request to the store.
#[derive(Debug)]
pub enum StoreRequest {
    /// The endpoint under a key.
    Get([u8; 32]),
    /// Forget the endpoint under a key.
    Remove([u8; 32]),
    /// Store an endpoint under a key.
    Put([u8; 32], Fren),
    /// Whether the endpoint under a key holds an rcan that is still valid.
    Check([u8; 32]),
    /// Every endpoint.
    List,
}

/// The store's answer to a [`StoreRequest`].
#[derive(Debug)]
pub enum StoreReply {
    Found(Option<Fren>),
    Done,
    Valid(bool),
    Listed(Vec<Fren>),
}

impl FrenStore {
    /// Answers one request at unix time `now_secs` (seconds).
    pub fn handle(&mut self, req: StoreRequest, now_secs: u64) -> (r: StoreReply)
        ensures
            match req {
                StoreRequest::Get(k) => {
                    &&& store_map(final(self)@) == store_map(old(self)@)
                    &&& r matches StoreReply::Found(o) && option_model(o) == store_map(old(self)@).get(k@)
                },
                StoreRequest::Remove(k) => store_map(final(self)@) == store_map(old(self)@).remove(k@)
                    && r is Done,
                StoreRequest::Put(k, v) => store_map(final(self)@) == store_map(old(self)@).insert(k@, v@)
                    && r is Done,
                StoreRequest::Check(k) => store_map(final(self)@) == store_map(old(self)@)
                    && r == StoreReply::Valid(check_spec(store_map(old(self)@), k@, now_secs)),
                StoreRequest::List => {
                    &&& final(self)@ == old(self)@
                    &&& r matches StoreReply::Listed(v) && fren_models(v@) == old(self)@.map_values(
                        |e: (Seq<u8>, FrenModel)| e.1,
                    )
                    &&& keys_sorted(old(self)@)
                    &&& forall|i: int| 0 <= i < old(self)@.len() ==> #[trigger] store_map(
                        old(self)@,
                    ).contains_key(old(self)@[i].0) && store_map(old(self)@)[old(self)@[i].0]
                        == old(self)@[i].1
                    &&& forall|k: Seq<u8>| #[trigger] store_map(old(self)@).contains_key(k) ==> exists|i: int|
                        0 <= i < old(self)@.len() && (#[trigger] old(self)@[i]).0 == k
                },
            },
    {
        match req {
            StoreRequest::Get(key) => {
                let value = self.get(&key);
                StoreReply::Found(value)
            },
            StoreRequest::Put(key, value) => {
                self.set(key, value);
                StoreReply::Done
            },
            StoreRequest::Remove(key) => {
                self.remove(&key);
                StoreReply::Done
            },
            StoreRequest::Check(key) => {
                let is_good = self.check(&key, now_secs);
                StoreReply::Valid(is_good)
            },
            StoreRequest::List => {
                let res = self.list();
                StoreReply::Listed(res)
            },
        }
    }
}

/// What recording a newly authenticated endpoint stores: nothing when the
/// endpoint is already known, otherwise a newly seen endpoint holding `rcan`.
pub open spec fn new_fren_spec(existing: Option<FrenModel>, key: Seq<u8>, rcan: RcanModel, created: i64) -> Option<
    FrenModel,
> {
    match existing {
        Some(_) => None,
        None => Some(FrenModel { id: key, status: Status::Seen, created, rcan: Some(rcan) }),
    }
}

/// The endpoint to store for `key` after it presented `rcan`, given what the
/// store already holds for it (`None` when it is already known and nothing is
/// to be stored).
pub fn plan_new_fren(existing: &Option<Fren>, key: [u8; 32], rcan: RcanInfo, created: i64) -> (r: Option<Fren>)
    ensures
        option_model(r) == new_fren_spec(option_model(*existing), key@, rcan@, created),
{
    match existing {
        Some(_) => None,
        None => {
            let mut value = Fren::new(key, created);
            value.rcan = Some(rcan);
            Some(value)
        },
    }
}

/// The store after recording a newly authenticated endpoint.
pub open spec fn after_new_fren(m: Map<Seq<u8>, FrenModel>, key: Seq<u8>, rcan: RcanModel, created: i64) -> Map<
    Seq<u8>,
    FrenModel,
> {
    match new_fren_spec(m.get(key), key, rcan, created) {
        Some(f) => m.insert(key, f),
        None => m,
    }
}

/// Reading a key after storing under it gives back what was stored, and other
/// keys are untouched.
pub proof fn lemma_get_after_set(m: Map<Seq<u8>, FrenModel>, k: Seq<u8>, v: FrenModel, other: Seq<u8>)
    ensures
        m.insert(k, v).get(k) == Some(v),
        other != k ==> m.insert(k, v).get(other) == m.get(other),
{
}

/// Reading a key after forgetting it finds nothing, and other keys are untouched.
pub proof fn lemma_get_after_remove(m: Map<Seq<u8>, FrenModel>, k: Seq<u8>, other: Seq<u8>)
    ensures
        m.remove(k).get(k) is None,
        other != k ==> m.remove(k).get(other) == m.get(other),
{
}

/// A check right after storing an endpoint answers whether that endpoint's
/// rcan is valid now; a check of a forgotten endpoint fails.
pub proof fn lemma_check_after_write(m: Map<Seq<u8>, FrenModel>, k: Seq<u8>, v: FrenModel, now: u64)
    ensures
        check_spec(m.insert(k, v), k, now) == match v.rcan {
            Some(r) => r.expires.valid_at(now),
            None => false,
        },
        !check_spec(m.remove(k), k, now),
{
}

/// A check succeeds only for a known endpoint, so the endpoint can be read
/// right after a successful check.
pub proof fn lemma_check_implies_known(m: Map<Seq<u8>, FrenModel>, k: Seq<u8>, now: u64)
    requires
        check_spec(m, k, now),
    ensures
        m.get(k) is Some,
{
}

/// Recording a newly authenticated endpoint never replaces a known one, always
/// leaves the endpoint known, and doing it twice is doing it once.
pub proof fn lemma_new_fren_keeps_known(
    m: Map<Seq<u8>, FrenModel>,
    key: Seq<u8>,
    rcan: RcanModel,
    created: i64,
    rcan2: RcanModel,
    created2: i64,
)
    ensures
        m.contains_key(key) ==> after_new_fren(m, key, rcan, created) == m,
        after_new_fren(m, key, rcan, created).contains_key(key),
        !m.contains_key(key) ==> after_new_fren(m, key, rcan, created)[key].rcan == Some(rcan),
        after_new_fren(after_new_fren(m, key, rcan, created), key, rcan2, created2) == after_new_fren(
            m,
            key,
            rcan,
            created,
        ),
{
}

} // verus!
