//! Name → capability registry: short fixed names bound to capability ids.
//! Resolving does not check that the id still names a live endpoint; that is
//! the endpoint table's job.
use vstd::prelude::*;
use crate::cap::CapId;

verus! {

/// Concurrent bindings.
pub const MAX_NAMES: usize = 8;

/// Max bytes in a name.
pub const MAX_NAME_LEN: usize = 16;

/// Why `bind` failed.
#[derive(Clone, Copy, Debug, PartialEq, Eq, Structural)]
pub enum BindError {
    /// Empty name or longer than `MAX_NAME_LEN`.
    BadName,
    /// Table full and the name was not already bound.
    Full,
}

/// Why `resolve` / `unbind` failed.
#[derive(Clone, Copy, Debug, PartialEq, Eq, Structural)]
pub enum ResolveError {
    /// No binding for this name.
    Missing,
    /// Empty or too long.
    BadName,
}

/// A name is acceptable when it has 1..=16 bytes.
pub open spec fn valid_name(name: Seq<u8>) -> bool {
    0 < name.len() <= MAX_NAME_LEN
}

/// The slot holds a binding of `name`.
pub open spec fn bound_to(slot: Option<(Seq<u8>, CapId)>, name: Seq<u8>) -> bool {
    match slot {
        Some((n, _)) => n == name,
        None => false,
    }
}

/// First slot at or after `from` bound to `name`, or `slots.len()`.
pub open spec fn find_from(slots: Seq<Option<(Seq<u8>, CapId)>>, name: Seq<u8>, from: int) -> int
    decreases slots.len() - from,
{
    if from < 0 || from >= slots.len() {
        slots.len() as int
    } else if bound_to(slots[from], name) {
        from
    } else {
        find_from(slots, name, from + 1)
    }
}

/// First free slot at or after `from`, or `slots.len()`.
pub open spec fn free_from(slots: Seq<Option<(Seq<u8>, CapId)>>, from: int) -> int
    decreases slots.len() - from,
{
    if from < 0 || from >= slots.len() {
        slots.len() as int
    } else if slots[from] is None {
        from
    } else {
        free_from(slots, from + 1)
    }
}

proof fn lemma_find_from(slots: Seq<Option<(Seq<u8>, CapId)>>, name: Seq<u8>, from: int)
    requires
        0 <= from <= slots.len(),
    ensures
        from <= find_from(slots, name, from) <= slots.len(),
        find_from(slots, name, from) < slots.len() ==> bound_to(slots[find_from(slots, name, from)], name),
        forall|j: int| from <= j < find_from(slots, name, from) ==> !(bound_to(slots[j], name)),
    decreases slots.len() - from,
{
    if from < slots.len() && !(bound_to(slots[from], name)) {
        lemma_find_from(slots, name, from + 1);
    }
}

proof fn lemma_free_from(slots: Seq<Option<(Seq<u8>, CapId)>>, from: int)
    requires
        0 <= from <= slots.len(),
    ensures
        from <= free_from(slots, from) <= slots.len(),
        free_from(slots, from) < slots.len() ==> slots[free_from(slots, from)] is None,
        forall|j: int| from <= j < free_from(slots, from) ==> slots[j] is Some,
    decreases slots.len() - from,
{
    if from < slots.len() && slots[from] is Some {
        lemma_free_from(slots, from + 1);
    }
}

/// What resolving `name` against `slots` answers.
pub open spec fn spec_resolve(slots: Seq<Option<(Seq<u8>, CapId)>>, name: Seq<u8>) -> Result<CapId, ResolveError> {
    if !valid_name(name) {
        Err(ResolveError::BadName)
    } else if find_from(slots, name, 0) < slots.len() {
        Ok((slots[find_from(slots, name, 0)]->0).1)
    } else {
        Err(ResolveError::Missing)
    }
}

/// Pure name registry.
#[derive(Clone, Debug)]
pub struct Table {
    live: Vec<bool>,
    names: Vec<Vec<u8>>,
    caps: Vec<CapId>,
}

impl Table {
    /// Each slot's binding, if live.
    pub closed spec fn view(&self) -> Seq<Option<(Seq<u8>, CapId)>> {
        Seq::new(MAX_NAMES as nat, |i: int| if self.live@[i] { Some((self.names@[i]@, self.caps@[i])) } else { None })
    }

    pub closed spec fn wf(&self) -> bool {
        &&& self.live@.len() == MAX_NAMES
        &&& self.names@.len() == MAX_NAMES
        &&& self.caps@.len() == MAX_NAMES
    }

    /// Empty registry.
    pub fn new() -> (t: Table)
        ensures
            t.wf(),
            t@ == Seq::new(MAX_NAMES as nat, |i: int| None::<(Seq<u8>, CapId)>),
    {
        let mut live: Vec<bool> = Vec::new();
        let mut names: Vec<Vec<u8>> = Vec::new();
        let mut caps: Vec<CapId> = Vec::new();
        let mut i: usize = 0;
        while i < MAX_NAMES
            invariant
                i <= MAX_NAMES,
                live@.len() == i,
                names@.len() == i,
                caps@.len() == i,
                forall|j: int| 0 <= j < i ==> !live@[j],
            decreases MAX_NAMES - i,
        {
            live.push(false);
            names.push(Vec::new());
            caps.push(CapId::from_raw(0));
            i = i + 1;
        }
        let t = Table { live, names, caps };
        assert(t@ =~= Seq::new(MAX_NAMES as nat, |i: int| None::<(Seq<u8>, CapId)>));
        t
    }

    fn find(&self, name: &[u8]) -> (r: Option<usize>)
        requires
            self.wf(),
        ensures
            0 <= find_from(self@, name@, 0) <= MAX_NAMES,
            ({
                let f = find_from(self@, name@, 0);
                if f < MAX_NAMES { r == Some(f as usize) } else { r is None }
            }),
    {
        proof {
            lemma_find_from(self@, name@, 0);
        }
        let mut i: usize = 0;
        while i < MAX_NAMES
            invariant
                self.wf(),
                i <= MAX_NAMES,
                find_from(self@, name@, 0) == find_from(self@, name@, i as int),
            decreases MAX_NAMES - i,
        {
            if self.live[i] && crate::wire::bytes_eq(self.names[i].as_slice(), name) {
                return Some(i);
            }
            i = i + 1;
        }
        None
    }

    /// Bind `name` to `cap`: replaces the binding of an already-bound name,
    /// else takes the first free slot, else refuses as full.
    pub fn bind(&mut self, name: &[u8], cap: CapId) -> (r: Result<(), BindError>)
        requires
            old(self).wf(),
        ensures
            final(self).wf(),
            ({
                let s = old(self)@;
                let f = find_from(s, name@, 0);
                let free = free_from(s, 0);
                if !valid_name(name@) {
                    r == Err::<(), BindError>(BindError::BadName) && final(self)@ == s
                } else if f < s.len() {
                    r == Ok::<(), BindError>(()) && final(self)@ == s.update(f, Some((name@, cap)))
                } else if free < s.len() {
                    r == Ok::<(), BindError>(()) && final(self)@ == s.update(free, Some((name@, cap)))
                } else {
                    r == Err::<(), BindError>(BindError::Full) && final(self)@ == s
                }
            }),
    {
        let ghost s = self@;
        proof {
            lemma_find_from(s, name@, 0);
            lemma_free_from(s, 0);
        }
        if name.len() == 0 || name.len() > MAX_NAME_LEN {
            return Err(BindError::BadName);
        }
        let found = self.find(name);
        assert(s.len() == MAX_NAMES);
        if let Some(i) = found {
            let copy = crate::wire::copy_range(name, 0, name.len());
            assert(copy@ =~= name@);
            assert(bound_to(s[i as int], name@));
            self.caps.set(i, cap);
            self.names.set(i, copy);
            assert(self@ =~= s.update(i as int, Some((name@, cap))));
            return Ok(());
        }
        let mut i: usize = 0;
        while i < MAX_NAMES
            invariant
                self.wf(),
                self@ == s,
                i <= MAX_NAMES,
                s == old(self)@,
                s.len() == MAX_NAMES,
                valid_name(name@),
                find_from(s, name@, 0) >= s.len(),
                free_from(s, 0) == free_from(s, i as int),
            decreases MAX_NAMES - i,
        {
            if !self.live[i] {
                assert(s[i as int] is None);
                assert(free_from(s, i as int) == i);
                let copy = crate::wire::copy_range(name, 0, name.len());
                assert(copy@ =~= name@);
                self.live.set(i, true);
                self.names.set(i, copy);
                self.caps.set(i, cap);
                assert(self@ =~= s.update(i as int, Some((name@, cap))));
                return Ok(());
            }
            i = i + 1;
        }
        Err(BindError::Full)
    }

    /// Look up `name`.
    pub fn resolve(&self, name: &[u8]) -> (r: Result<CapId, ResolveError>)
        requires
            self.wf(),
        ensures
            r == spec_resolve(self@, name@),
    {
        if name.len() == 0 || name.len() > MAX_NAME_LEN {
            return Err(ResolveError::BadName);
        }
        proof {
            lemma_find_from(self@, name@, 0);
        }
        match self.find(name) {
            Some(i) => {
                assert(self.live@[i as int]);
                Ok(self.caps[i])
            },
            None => Err(ResolveError::Missing),
        }
    }

    /// Remove the binding of `name`.
    pub fn unbind(&mut self, name: &[u8]) -> (r: Result<(), ResolveError>)
        requires
            old(self).wf(),
        ensures
            final(self).wf(),
            ({
                let s = old(self)@;
                let f = find_from(s, name@, 0);
                if !valid_name(name@) {
                    r == Err::<(), ResolveError>(ResolveError::BadName) && final(self)@ == s
                } else if f < s.len() {
                    r == Ok::<(), ResolveError>(()) && final(self)@ == s.update(f, None)
                } else {
                    r == Err::<(), ResolveError>(ResolveError::Missing) && final(self)@ == s
                }
            }),
    {
        let ghost s = self@;
        if name.len() == 0 || name.len() > MAX_NAME_LEN {
            return Err(ResolveError::BadName);
        }
        match self.find(name) {
            Some(i) => {
                self.live.set(i, false);
                self.names.set(i, Vec::new());
                self.caps.set(i, CapId::from_raw(0));
                assert(self@ =~= s.update(i as int, None));
                Ok(())
            },
            None => Err(ResolveError::Missing),
        }
    }
}

/// What was bound is what resolves: after a successful `bind(name, cap)`,
/// `resolve(name)` answers `cap`.
pub proof fn lemma_bind_then_resolve(s: Seq<Option<(Seq<u8>, CapId)>>, name: Seq<u8>, cap: CapId)
    requires
        valid_name(name),
        find_from(s, name, 0) < s.len() || free_from(s, 0) < s.len(),
    ensures
        ({
            let f = find_from(s, name, 0);
            let t = if f < s.len() { s.update(f, Some((name, cap))) } else { s.update(free_from(s, 0), Some((name, cap))) };
            spec_resolve(t, name) == Ok::<CapId, ResolveError>(cap)
        }),
{
    lemma_find_from(s, name, 0);
    lemma_free_from(s, 0);
    let f = find_from(s, name, 0);
    let k = if f < s.len() { f } else { free_from(s, 0) };
    let t = s.update(k, Some((name, cap)));
    lemma_find_from(t, name, 0);
    let g = find_from(t, name, 0);
    if g < k {
        assert(t[g] == s[g]);
    }
    assert(!(g > k)) by {
        if g > k {
            assert(bound_to(t[k], name));
        }
    }
}

/// After `unbind(name)` the name no longer resolves, provided names are
/// bound at most once (which `bind` keeps true, since it replaces rather
/// than duplicates).
pub proof fn lemma_unbind_then_missing(s: Seq<Option<(Seq<u8>, CapId)>>, name: Seq<u8>)
    requires
        valid_name(name),
        find_from(s, name, 0) < s.len(),
        forall|i: int, j: int| 0 <= i < j < s.len() && (bound_to(s[i], name)) ==> !(bound_to(s[j], name)),
    ensures
        spec_resolve(s.update(find_from(s, name, 0), None), name) == Err::<CapId, ResolveError>(ResolveError::Missing),
{
    lemma_find_from(s, name, 0);
    let f = find_from(s, name, 0);
    let t = s.update(f, None);
    lemma_find_from(t, name, 0);
    let g = find_from(t, name, 0);
    if g < t.len() {
        assert(g != f);
        if g < f {
            assert(t[g] == s[g]);
        } else {
            assert(t[g] == s[g]);
        }
    }
}

impl Default for Table {
    fn default() -> (r: Self)
        ensures
            r.wf(),
            r@ == Seq::new(MAX_NAMES as nat, |i: int| None::<(Seq<u8>, CapId)>),
    {
        Self::new()
    }
}


} // verus!
