//! Keyed blob store: fixed-capacity put/get/delete of opaque payloads by
//! short keys.
use vstd::prelude::*;
use crate::wire::{bytes_eq, copy_range};

verus! {

/// Concurrent live blobs.
pub const MAX_BLOBS: usize = 4;

/// Max key bytes (no terminator required).
pub const MAX_KEY_LEN: usize = 16;

/// Max payload bytes per blob.
pub const MAX_PAYLOAD: usize = 64;

/// Why [`Table::put`] failed.
#[derive(Clone, Copy, Debug, PartialEq, Eq, Structural)]
pub enum PutError {
    /// Empty key or longer than [`MAX_KEY_LEN`].
    BadKey,
    /// Payload longer than [`MAX_PAYLOAD`].
    TooLarge,
    /// Table full and the key was not present yet.
    Full,
}

/// Why [`Table::get`] / [`Table::delete`] failed.
#[derive(Clone, Copy, Debug, PartialEq, Eq, Structural)]
pub enum GetError {
    /// No blob for this key.
    Missing,
    /// Empty or too long key.
    BadKey,
    /// Caller buffer shorter than the stored payload.
    BufferTooSmall,
}

/// One stored blob: its key and its payload.
pub type Blob = Option<(Seq<u8>, Seq<u8>)>;

/// A key the table accepts: non-empty and at most [`MAX_KEY_LEN`] bytes.
pub open spec fn valid_key(key: Seq<u8>) -> bool {
    0 < key.len() <= MAX_KEY_LEN
}

/// Whether blob `b` is stored under `key`.
pub open spec fn holds_key(b: Blob, key: Seq<u8>) -> bool {
    b is Some && (b->0).0 == key
}

/// First entry at or after `from` stored under `key` (`s.len()` if none).
pub open spec fn key_from(s: Seq<Blob>, key: Seq<u8>, from: int) -> int
    decreases s.len() - from,
{
    if from < 0 || from >= s.len() {
        s.len() as int
    } else if holds_key(s[from], key) {
        from
    } else {
        key_from(s, key, from + 1)
    }
}

/// First empty entry at or after `from` (`s.len()` if none).
pub open spec fn empty_from(s: Seq<Blob>, from: int) -> int
    decreases s.len() - from,
{
    if from < 0 || from >= s.len() {
        s.len() as int
    } else if s[from] is None {
        from
    } else {
        empty_from(s, from + 1)
    }
}

/// The entry a put of `key` writes: the one already holding it, else the
/// first empty one.
pub open spec fn put_slot(s: Seq<Blob>, key: Seq<u8>) -> int {
    if key_from(s, key, 0) < s.len() { key_from(s, key, 0) } else { empty_from(s, 0) }
}

/// The payload stored under `key`, if any.
pub open spec fn lookup(s: Seq<Blob>, key: Seq<u8>) -> Option<Seq<u8>> {
    let k = key_from(s, key, 0);
    if 0 <= k < s.len() { Some((s[k]->0).1) } else { None }
}

/// No two entries hold the same key.
pub open spec fn keys_unique(s: Seq<Blob>) -> bool {
    forall|i: int, j: int|
        0 <= i < s.len() && 0 <= j < s.len() && i != j && #[trigger] s[i] is Some && #[trigger] s[j] is Some
            ==> (s[i]->0).0 != (s[j]->0).0
}

proof fn lemma_key_from(s: Seq<Blob>, key: Seq<u8>, from: int)
    requires
        0 <= from <= s.len(),
    ensures
        from <= key_from(s, key, from) <= s.len(),
        key_from(s, key, from) < s.len() ==> holds_key(s[key_from(s, key, from)], key),
        forall|j: int| from <= j < key_from(s, key, from) ==> !holds_key(#[trigger] s[j], key),
    decreases s.len() - from,
{
    if from < s.len() && !holds_key(s[from], key) {
        lemma_key_from(s, key, from + 1);
    }
}

proof fn lemma_key_from_at(s: Seq<Blob>, key: Seq<u8>, from: int, k: int)
    requires
        0 <= from <= k < s.len(),
        holds_key(s[k], key),
        forall|j: int| from <= j < k ==> !holds_key(#[trigger] s[j], key),
    ensures
        key_from(s, key, from) == k,
    decreases k - from,
{
    if from < k {
        lemma_key_from_at(s, key, from + 1, k);
    }
}

proof fn lemma_empty_from(s: Seq<Blob>, from: int)
    requires
        0 <= from <= s.len(),
    ensures
        from <= empty_from(s, from) <= s.len(),
        empty_from(s, from) < s.len() ==> s[empty_from(s, from)] is None,
    decreases s.len() - from,
{
    if from < s.len() && s[from] is Some {
        lemma_empty_from(s, from + 1);
    }
}

proof fn lemma_unique_after_put(s: Seq<Blob>, k: int, key: Seq<u8>, payload: Seq<u8>)
    requires
        keys_unique(s),
        0 <= k < s.len(),
        forall|q: int| 0 <= q < s.len() && q != k ==> !holds_key(#[trigger] s[q], key),
    ensures
        keys_unique(s.update(k, Some((key, payload)))),
{
    let t = s.update(k, Some((key, payload)));
    assert forall|i: int, j: int|
        0 <= i < t.len() && 0 <= j < t.len() && i != j && #[trigger] t[i] is Some && #[trigger] t[j] is Some
            implies (t[i]->0).0 != (t[j]->0).0 by {
        if i == k {
            assert(!holds_key(s[j], key));
        } else if j == k {
            assert(!holds_key(s[i], key));
        } else {
            assert(t[i] == s[i] && t[j] == s[j]);
        }
    }
}

struct Slot {
    live: bool,
    key: Vec<u8>,
    payload: Vec<u8>,
}

fn empty_slot() -> (s: Slot)
    ensures
        !s.live,
{
    Slot { live: false, key: Vec::new(), payload: Vec::new() }
}

/// Pure keyed blob table.
pub struct Table {
    slots: Vec<Slot>,
}

impl Table {
    /// The stored blobs, one per entry.
    pub closed spec fn blobs(&self) -> Seq<Blob> {
        Seq::new(self.slots@.len(), |i: int| {
            let s = self.slots@[i];
            if s.live { Some((s.key@, s.payload@)) } else { None }
        })
    }

    pub closed spec fn wf(&self) -> bool {
        &&& self.slots@.len() == MAX_BLOBS
        &&& keys_unique(self.blobs())
    }

    /// No blob stored.
    pub fn new() -> (t: Table)
        ensures
            t.wf(),
            t.blobs() == Seq::new(MAX_BLOBS as nat, |i: int| None::<(Seq<u8>, Seq<u8>)>),
    {
        let mut slots: Vec<Slot> = Vec::new();
        let mut i: usize = 0;
        while i < MAX_BLOBS
            invariant
                i <= MAX_BLOBS,
                slots@.len() == i,
                forall|j: int| 0 <= j < i ==> !(#[trigger] slots@[j]).live,
            decreases MAX_BLOBS - i,
        {
            slots.push(empty_slot());
            i = i + 1;
        }
        let t = Table { slots };
        assert(t.blobs() =~= Seq::new(MAX_BLOBS as nat, |i: int| None::<(Seq<u8>, Seq<u8>)>));
        t
    }

    fn find(&self, key: &[u8]) -> (r: Option<usize>)
        requires
            self.wf(),
        ensures
            ({
                let k = key_from(self.blobs(), key@, 0);
                if k < MAX_BLOBS { r == Some(k as usize) } else { r is None }
            }),
    {
        let ghost s = self.blobs();
        proof {
            lemma_key_from(s, key@, 0);
        }
        let mut i: usize = 0;
        while i < self.slots.len()
            invariant
                self.wf(),
                s == self.blobs(),
                i <= MAX_BLOBS,
                key_from(s, key@, 0) == key_from(s, key@, i as int),
            decreases MAX_BLOBS - i,
        {
            if self.slots[i].live && bytes_eq(self.slots[i].key.as_slice(), key) {
                return Some(i);
            }
            i = i + 1;
        }
        None
    }

    /// Insert or replace `key` -> `payload`.
    pub fn put(&mut self, key: &[u8], payload: &[u8]) -> (r: Result<(), PutError>)
        requires
            old(self).wf(),
        ensures
            final(self).wf(),
            ({
                let s = old(self).blobs();
                let k = put_slot(s, key@);
                if !valid_key(key@) {
                    r == Err::<(), PutError>(PutError::BadKey) && final(self).blobs() == s
                } else if payload@.len() > MAX_PAYLOAD {
                    r == Err::<(), PutError>(PutError::TooLarge) && final(self).blobs() == s
                } else if k < MAX_BLOBS {
                    r is Ok && final(self).blobs() == s.update(k, Some((key@, payload@)))
                } else {
                    r == Err::<(), PutError>(PutError::Full) && final(self).blobs() == s
                }
            }),
    {
        let ghost s = self.blobs();
        proof {
            lemma_key_from(s, key@, 0);
            lemma_empty_from(s, 0);
        }
        if key.len() == 0 || key.len() > MAX_KEY_LEN {
            return Err(PutError::BadKey);
        }
        if payload.len() > MAX_PAYLOAD {
            return Err(PutError::TooLarge);
        }
        let slot = Slot { live: true, key: copy_range(key, 0, key.len()), payload: copy_range(payload, 0, payload.len()) };
        assert(slot.key@ =~= key@);
        assert(slot.payload@ =~= payload@);
        if let Some(i) = self.find(key) {
            proof {
                assert forall|q: int| 0 <= q < s.len() && q != i implies !holds_key(#[trigger] s[q], key@) by {
                    if holds_key(s[q], key@) {
                        assert(s[q] is Some && s[i as int] is Some);
                    }
                }
                lemma_unique_after_put(s, i as int, key@, payload@);
            }
            self.slots.set(i, slot);
            assert(self.blobs() =~= s.update(i as int, Some((key@, payload@))));
            return Ok(());
        }
        let mut j: usize = 0;
        while j < self.slots.len()
            invariant
                self.wf(),
                s == self.blobs(),
                s == old(self).blobs(),
                s.len() == MAX_BLOBS,
                valid_key(key@),
                payload@.len() <= MAX_PAYLOAD,
                j <= MAX_BLOBS,
                slot.live,
                slot.key@ == key@,
                slot.payload@ == payload@,
                key_from(s, key@, 0) >= MAX_BLOBS,
                forall|q: int| 0 <= q < MAX_BLOBS ==> !holds_key(#[trigger] s[q], key@),
                empty_from(s, 0) == empty_from(s, j as int),
            decreases MAX_BLOBS - j,
        {
            if !self.slots[j].live {
                proof {
                    assert(s[j as int] is None);
                    assert(empty_from(s, j as int) == j);
                    lemma_unique_after_put(s, j as int, key@, payload@);
                }
                self.slots.set(j, slot);
                assert(self.blobs() =~= s.update(j as int, Some((key@, payload@))));
                return Ok(());
            }
            j = j + 1;
        }
        Err(PutError::Full)
    }

    /// Copy the payload for `key` into the front of `out`; returns its length.
    pub fn get(&self, key: &[u8], out: &mut [u8]) -> (r: Result<usize, GetError>)
        requires
            self.wf(),
        ensures
            ({
                let found = lookup(self.blobs(), key@);
                if !valid_key(key@) {
                    r == Err::<usize, GetError>(GetError::BadKey) && final(out)@ == old(out)@
                } else if found is None {
                    r == Err::<usize, GetError>(GetError::Missing) && final(out)@ == old(out)@
                } else if old(out)@.len() < found->0.len() {
                    r == Err::<usize, GetError>(GetError::BufferTooSmall) && final(out)@ == old(out)@
                } else {
                    &&& r == Ok::<usize, GetError>(found->0.len() as usize)
                    &&& final(out)@ == found->0 + old(out)@.subrange(found->0.len() as int, old(out)@.len() as int)
                }
            }),
    {
        let ghost s = self.blobs();
        proof {
            lemma_key_from(s, key@, 0);
        }
        if key.len() == 0 || key.len() > MAX_KEY_LEN {
            return Err(GetError::BadKey);
        }
        let i = match self.find(key) {
            Some(i) => i,
            None => return Err(GetError::Missing),
        };
        let p = &self.slots[i].payload;
        let n = p.len();
        if out.len() < n {
            return Err(GetError::BufferTooSmall);
        }
        let ghost o = out@;
        let mut j: usize = 0;
        while j < n
            invariant
                n == p@.len(),
                n <= out@.len(),
                out@.len() == o.len(),
                j <= n,
                forall|q: int| 0 <= q < j ==> out@[q] == p@[q],
                forall|q: int| n <= q < o.len() ==> out@[q] == o[q],
            decreases n - j,
        {
            out[j] = p[j];
            j = j + 1;
        }
        assert(out@ =~= p@ + o.subrange(n as int, o.len() as int));
        Ok(n)
    }

    /// Remove a blob.
    pub fn delete(&mut self, key: &[u8]) -> (r: Result<(), GetError>)
        requires
            old(self).wf(),
        ensures
            final(self).wf(),
            ({
                let s = old(self).blobs();
                let k = key_from(s, key@, 0);
                if !valid_key(key@) {
                    r == Err::<(), GetError>(GetError::BadKey) && final(self).blobs() == s
                } else if k >= MAX_BLOBS {
                    r == Err::<(), GetError>(GetError::Missing) && final(self).blobs() == s
                } else {
                    r is Ok && final(self).blobs() == s.update(k, None)
                }
            }),
    {
        let ghost s = self.blobs();
        proof {
            lemma_key_from(s, key@, 0);
        }
        if key.len() == 0 || key.len() > MAX_KEY_LEN {
            return Err(GetError::BadKey);
        }
        match self.find(key) {
            Some(i) => {
                self.slots.set(i, empty_slot());
                assert(self.blobs() =~= s.update(i as int, None));
                Ok(())
            },
            None => Err(GetError::Missing),
        }
    }

    /// True if `key` is present.
    pub fn contains(&self, key: &[u8]) -> (r: bool)
        requires
            self.wf(),
        ensures
            r == (lookup(self.blobs(), key@) is Some),
    {
        proof {
            lemma_key_from(self.blobs(), key@, 0);
        }
        self.find(key).is_some()
    }
}

/// What a put stores, a get of the same key gives back.
pub proof fn lemma_put_then_get(s: Seq<Blob>, key: Seq<u8>, payload: Seq<u8>)
    requires
        keys_unique(s),
        put_slot(s, key) < s.len(),
    ensures
        lookup(s.update(put_slot(s, key), Some((key, payload))), key) == Some(payload),
{
    lemma_key_from(s, key, 0);
    lemma_empty_from(s, 0);
    let k = put_slot(s, key);
    let t = s.update(k, Some((key, payload)));
    assert forall|j: int| 0 <= j < k implies !holds_key(#[trigger] t[j], key) by {
        assert(t[j] == s[j]);
    }
    lemma_key_from_at(t, key, 0, k);
}

/// After a delete, the key is missing.
pub proof fn lemma_delete_then_missing(s: Seq<Blob>, key: Seq<u8>)
    requires
        keys_unique(s),
        key_from(s, key, 0) < s.len(),
    ensures
        lookup(s.update(key_from(s, key, 0), None), key) is None,
{
    lemma_key_from(s, key, 0);
    let k = key_from(s, key, 0);
    let t = s.update(k, None);
    lemma_key_from(t, key, 0);
    let m = key_from(t, key, 0);
    if m < t.len() {
        assert(holds_key(t[m], key));
        assert(m != k);
        assert(s[m] is Some && s[k] is Some);
        assert(false);
    }
}

impl Default for Table {
    fn default() -> (r: Self)
        ensures
            r.wf(),
            r.blobs() == Seq::new(MAX_BLOBS as nat, |i: int| None::<(Seq<u8>, Seq<u8>)>),
    {
        Self::new()
    }
}


} // verus!
