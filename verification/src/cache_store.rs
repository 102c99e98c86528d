//! The key/value store: a mapping from key to value with optional absolute
//! expiry, checked lazily on read. An entry whose expiry instant is at or
//! before the current time is logically absent, though it may still be
//! physically stored.

use vstd::prelude::*;

verus! {

/// A stored value and its optional absolute expiry instant, in milliseconds
/// of the store's clock.
struct CacheValue {
    value: String,
    expires_at: Option<u128>,
}

/// The model of one store entry.
pub struct EntrySnap {
    pub value: Seq<char>,
    pub expires_at: Option<u128>,
}

impl View for CacheValue {
    type V = EntrySnap;

    closed spec fn view(&self) -> EntrySnap {
        EntrySnap { value: self.value@, expires_at: self.expires_at }
    }
}

/// Whether the entry is still live at instant `now`: entries with no expiry
/// are always live; others die the moment their expiry instant is reached.
pub open spec fn live_at(e: EntrySnap, now: u64) -> bool {
    match e.expires_at {
        None => true,
        Some(t) => (now as u128) < t,
    }
}

/// What a read of key `k` at instant `now` returns on the store model `m`:
/// the value if the key is present and live, absent otherwise.
pub open spec fn read_model(m: Map<Seq<char>, EntrySnap>, k: Seq<char>, now: u64) -> Option<
    Seq<char>,
> {
    if m.contains_key(k) && live_at(m[k], now) {
        Some(m[k].value)
    } else {
        None
    }
}

/// The entry a write at instant `now` creates: with a ttl the expiry is
/// `now + ttl`, without one the entry never expires.
pub open spec fn snap_at(value: Seq<char>, ttl: Option<u64>, now: u64) -> EntrySnap {
    EntrySnap {
        value,
        expires_at: match ttl {
            None => None,
            Some(d) => Some((now + d) as u128),
        },
    }
}

/// An in-memory key/value store with optional per-key expiry. Its model is a
/// map from key text to [`EntrySnap`].
pub struct CacheStore {
    data: Vec<(String, CacheValue)>,
}

/// The map holding, for each key of `s`, the entry last pushed for it.
spec fn store_map(s: Seq<(String, CacheValue)>) -> Map<Seq<char>, EntrySnap>
    decreases s.len(),
{
    if s.len() == 0 {
        Map::empty()
    } else {
        store_map(s.drop_last()).insert(s.last().0@, s.last().1@)
    }
}

/// Keys are pairwise distinct.
spec fn uniq_keys(s: Seq<(String, CacheValue)>) -> bool {
    forall|i: int, j: int| 0 <= i < j < s.len() ==> s[i].0@ != s[j].0@
}

impl View for CacheStore {
    type V = Map<Seq<char>, EntrySnap>;

    closed spec fn view(&self) -> Map<Seq<char>, EntrySnap> {
        store_map(self.data@)
    }
}

proof fn lemma_store_map_keys(s: Seq<(String, CacheValue)>, k: Seq<char>)
    ensures
        store_map(s).contains_key(k) <==> exists|i: int| 0 <= i < s.len() && s[i].0@ == k,
    decreases s.len(),
{
    if s.len() > 0 {
        lemma_store_map_keys(s.drop_last(), k);
        if s.last().0@ != k {
            if exists|i: int| 0 <= i < s.len() && s[i].0@ == k {
                let i = choose|i: int| 0 <= i < s.len() && s[i].0@ == k;
                assert(s.drop_last()[i] == s[i]);
            }
        }
    }
}

proof fn lemma_store_map_at(s: Seq<(String, CacheValue)>, i: int)
    requires
        uniq_keys(s),
        0 <= i < s.len(),
    ensures
        store_map(s).contains_key(s[i].0@),
        store_map(s)[s[i].0@] == s[i].1@,
    decreases s.len(),
{
    if i < s.len() - 1 {
        assert(s.drop_last()[i] == s[i]);
        lemma_store_map_at(s.drop_last(), i);
    }
}

proof fn lemma_store_map_update(s: Seq<(String, CacheValue)>, i: int, p: (String, CacheValue))
    requires
        uniq_keys(s),
        0 <= i < s.len(),
        p.0@ == s[i].0@,
    ensures
        store_map(s.update(i, p)) =~= store_map(s).insert(p.0@, p.1@),
    decreases s.len(),
{
    let t = s.update(i, p);
    if i == s.len() - 1 {
        assert(t.drop_last() =~= s.drop_last());
        assert(t.last() == p);
    } else {
        assert(t.drop_last() =~= s.drop_last().update(i, p));
        assert(t.last() == s.last());
        assert(s.drop_last()[i] == s[i]);
        lemma_store_map_update(s.drop_last(), i, p);
        // the two inserted keys differ, so the inserts commute
        assert(s.last().0@ != p.0@);
    }
}

proof fn lemma_store_map_push(s: Seq<(String, CacheValue)>, p: (String, CacheValue))
    ensures
        store_map(s.push(p)) =~= store_map(s).insert(p.0@, p.1@),
{
    assert(s.push(p).drop_last() =~= s);
    assert(s.push(p).last() == p);
}

impl CacheStore {
    /// Keys in the backing vector are pairwise distinct.
    pub closed spec fn wf(&self) -> bool {
        uniq_keys(self.data@)
    }

    /// An empty store.
    pub fn new() -> (r: CacheStore)
        ensures
            r.wf(),
            r@ == Map::<Seq<char>, EntrySnap>::empty(),
    {
        CacheStore { data: Vec::new() }
    }

    /// The index holding `key`, if any.
    fn find_index(&self, key: &str) -> (r: Option<usize>)
        ensures
            match r {
                Some(i) => i < self.data@.len() && self.data@[i as int].0@ == key@,
                None => forall|j: int| 0 <= j < self.data@.len() ==> self.data@[j].0@ != key@,
            },
    {
        let mut i: usize = 0;
        while i < self.data.len()
            invariant
                i <= self.data@.len(),
                forall|j: int| 0 <= j < i as int ==> self.data@[j].0@ != key@,
            decreases self.data@.len() - i,
        {
            if crate::text::str_eq(self.data[i].0.as_str(), key) {
                return Some(i);
            }
            i = i + 1;
        }
        None
    }

    /// Inserts or overwrites the entry for `key`, with expiry `now + ttl`
    /// when a ttl is given. Always succeeds.
    pub fn set_at(&mut self, key: String, value: String, ttl: Option<u64>, now: u64)
        requires
            old(self).wf(),
        ensures
            final(self).wf(),
            final(self)@ == old(self)@.insert(key@, snap_at(value@, ttl, now)),
    {
        let expires_at: Option<u128> = match ttl {
            None => None,
            Some(d) => Some(now as u128 + d as u128),
        };
        let found = self.find_index(key.as_str());
        let cv = CacheValue { value, expires_at };
        proof {
            assert(cv@ == snap_at(cv.value@, ttl, now));
        }
        match found {
            Some(i) => {
                let ghost s0 = self.data@;
                let ghost p0 = (key@, cv@);
                self.data[i] = (key, cv);
                proof {
                    lemma_store_map_update(s0, i as int, self.data@[i as int]);
                    assert(uniq_keys(self.data@));
                }
            },
            None => {
                let ghost s0 = self.data@;
                self.data.push((key, cv));
                proof {
                    lemma_store_map_push(s0, self.data@.last());
                    assert(uniq_keys(self.data@));
                }
            },
        }
    }

    /// Inserts or overwrites the entry for `key`; a present ttl sets the
    /// expiry that far past the current instant, an absent one makes the
    /// entry permanent.
    pub fn set(&mut self, key: String, value: String, ttl: Option<u64>)
        requires
            old(self).wf(),
        ensures
            final(self).wf(),
            ttl is None ==> final(self)@ == old(self)@.insert(
                key@,
                (EntrySnap { value: value@, expires_at: None }),
            ),
            ttl matches Some(d) ==> exists|now: u64|
                final(self)@ == old(self)@.insert(key@, snap_at(value@, Some(d), now)),
    {
        let now = now_millis();
        self.set_at(key, value, ttl, now);
    }

    /// The value under `key` at instant `now`: present and live gives the
    /// value, anything else gives absent. Pure read; expired entries stay
    /// stored.
    pub fn get_at(&self, key: &str, now: u64) -> (r: Option<String>)
        requires
            self.wf(),
        ensures
            match r {
                Some(v) => read_model(self@, key@, now) == Some(v@),
                None => read_model(self@, key@, now) is None,
            },
    {
        let found = self.find_index(key);
        match found {
            Some(i) => {
                proof {
                    lemma_store_map_at(self.data@, i as int);
                }
                let live = match &self.data[i].1.expires_at {
                    None => true,
                    Some(t) => (now as u128) < *t,
                };
                if live {
                    Some(self.data[i].1.value.clone())
                } else {
                    None
                }
            },
            None => {
                proof {
                    lemma_store_map_keys(self.data@, key@);
                }
                None
            },
        }
    }

    /// The current value under `key`, judged against the clock at the moment
    /// of the call.
    pub fn get(&self, key: &str) -> (r: Option<String>)
        requires
            self.wf(),
        ensures
            exists|now: u64|
                match r {
                    Some(v) => read_model(self@, key@, now) == Some(v@),
                    None => read_model(self@, key@, now) is None,
                },
    {
        let now = now_millis();
        self.get_at(key, now)
    }
}

/// Relies on `std::time::SystemTime::now`: the clock reading at the moment
/// of the call, converted to whole milliseconds since the Unix epoch (or 0,
/// should the clock stand before the epoch). Nothing is promised of the
/// result: each call reads the clock anew.
#[verifier::external_body]
fn now_millis() -> u64 {
    match std::time::SystemTime::now().duration_since(std::time::UNIX_EPOCH) {
        Ok(d) => d.as_millis() as u64,
        Err(_) => 0,
    }
}

/// Law: a value written with no ttl reads back as written, at every later
/// instant, whatever the store held before.
pub proof fn lemma_set_then_get(
    m: Map<Seq<char>, EntrySnap>,
    k: Seq<char>,
    v: Seq<char>,
    now: u64,
)
    ensures
        read_model(m.insert(k, (EntrySnap { value: v, expires_at: None })), k, now) == Some(v),
{
}

/// Law: a key the store never held reads as absent, at every instant.
pub proof fn lemma_never_set_absent(m: Map<Seq<char>, EntrySnap>, k: Seq<char>, now: u64)
    requires
        !m.contains_key(k),
    ensures
        read_model(m, k, now) is None,
{
}

/// Law: once the expiry instant of a write with a ttl has been reached, the
/// key reads as absent, even though the entry is still stored.
pub proof fn lemma_expired_reads_absent(
    m: Map<Seq<char>, EntrySnap>,
    k: Seq<char>,
    v: Seq<char>,
    d: u64,
    now0: u64,
    now1: u64,
)
    requires
        now0 as u128 + d as u128 <= now1 as u128,
    ensures
        read_model(m.insert(k, snap_at(v, Some(d), now0)), k, now1) is None,
        m.insert(k, snap_at(v, Some(d), now0)).contains_key(k),
{
}

} // verus!
