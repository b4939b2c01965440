//! The vocabulary a composition may name: declared positions, each holding
//! the capability minted for it or a hole.
//!
//! Declaring and providing are two calls so that an index means the same
//! thing whether or not the capability behind it was minted: a failed mint
//! leaves a hole rather than shifting every later position down by one.
use vstd::prelude::*;
use crate::cap::CapId;
use crate::paging::Perms;
use vstd::string::StringSliceAdditionalSpecFns;

verus! {

/// Positions a composition's vocabulary may hold.
pub const MAX_HELD: usize = 8;

/// Two names are the same name when their bytes are.
pub open spec fn same_name(a: &str, b: &str) -> bool {
    a.spec_bytes() == b.spec_bytes()
}

/// Why a position could not be declared.
#[derive(Clone, Copy, Debug, PartialEq, Eq)]
pub enum DeclareError {
    /// The vocabulary already holds `MAX_HELD` positions.
    Full { max: usize },
    /// A position with this name was already declared, at `index`.
    Duplicate { name: &'static str, index: u8 },
}

/// Why a capability could not be provided.
#[derive(Clone, Copy, Debug, PartialEq, Eq)]
pub enum ProvideError {
    /// No position with that index has been declared.
    OutOfRange { index: u8, declared: usize },
    /// That position already holds a capability.
    AlreadyProvided { index: u8, name: &'static str },
}

/// One page of device memory the board declares, by physical address and the
/// rights it may be mapped with.
#[derive(Clone, Copy, Debug, PartialEq, Eq, Structural)]
pub struct Window {
    pub pa: u64,
    pub perms: Perms,
}

/// Index of the first name in `names` equal to `name`, or `names.len()`.
pub open spec fn first_named(names: Seq<&'static str>, name: &str, from: int) -> int
    decreases names.len() - from,
{
    if from >= names.len() || from < 0 {
        names.len() as int
    } else if same_name(names[from], name) {
        from
    } else {
        first_named(names, name, from + 1)
    }
}

proof fn lemma_first_named_bounds(names: Seq<&'static str>, name: &str, from: int)
    requires
        0 <= from <= names.len(),
    ensures
        from <= first_named(names, name, from) <= names.len(),
        first_named(names, name, from) < names.len() ==> same_name(
            names[first_named(names, name, from)],
            name,
        ),
        forall|j: int| from <= j < first_named(names, name, from) ==> !same_name(names[j], name),
    decreases names.len() - from,
{
    if from < names.len() && !same_name(names[from], name) {
        lemma_first_named_bounds(names, name, from + 1);
    }
}

/// The declared vocabulary, and whatever has been minted into it.
#[derive(Clone, Debug)]
pub struct HeldSet {
    caps: Vec<Option<CapId>>,
    names: Vec<&'static str>,
}

impl HeldSet {
    /// One capability (or hole) per declared position.
    pub closed spec fn caps(&self) -> Seq<Option<CapId>> {
        self.caps@
    }

    /// The name of each declared position.
    pub closed spec fn names(&self) -> Seq<&'static str> {
        self.names@
    }

    pub closed spec fn wf(&self) -> bool {
        &&& self.caps@.len() == self.names@.len()
        &&& self.names@.len() <= MAX_HELD
    }

    /// An empty vocabulary.
    pub fn new() -> (s: HeldSet)
        ensures
            s.wf(),
            s.caps() == Seq::<Option<CapId>>::empty(),
            s.names() == Seq::<&'static str>::empty(),
    {
        HeldSet { caps: Vec::new(), names: Vec::new() }
    }

    /// Reserve the next position under `name`, minting nothing. A duplicate
    /// name is refused first (naming the position that holds it), then a full
    /// vocabulary.
    pub fn declare(&mut self, name: &'static str) -> (r: Result<u8, DeclareError>)
        requires
            old(self).wf(),
        ensures
            final(self).wf(),
            ({
                let names = old(self).names();
                let first = first_named(names, name, 0);
                if first < names.len() {
                    r == Err::<u8, DeclareError>(DeclareError::Duplicate { name, index: first as u8 })
                        && *final(self) == *old(self)
                } else if names.len() == MAX_HELD {
                    r == Err::<u8, DeclareError>(DeclareError::Full { max: MAX_HELD })
                        && *final(self) == *old(self)
                } else {
                    &&& r == Ok::<u8, DeclareError>(names.len() as u8)
                    &&& final(self).names() == names.push(name)
                    &&& final(self).caps() == old(self).caps().push(None)
                }
            }),
    {
        if let Some(index) = self.index_of(name) {
            return Err(DeclareError::Duplicate { name, index });
        }
        if self.names.len() == MAX_HELD {
            return Err(DeclareError::Full { max: MAX_HELD });
        }
        let index = self.names.len() as u8;
        self.names.push(name);
        self.caps.push(None);
        Ok(index)
    }

    /// Fill a declared, still-empty position with its capability.
    pub fn provide(&mut self, index: u8, cap: CapId) -> (r: Result<(), ProvideError>)
        requires
            old(self).wf(),
        ensures
            final(self).wf(),
            final(self).names() == old(self).names(),
            ({
                let i = index as int;
                let n = old(self).names().len();
                if i >= n {
                    r == Err::<(), ProvideError>(
                        ProvideError::OutOfRange { index, declared: n as usize },
                    ) && final(self).caps() == old(self).caps()
                } else if old(self).caps()[i] is Some {
                    r == Err::<(), ProvideError>(
                        ProvideError::AlreadyProvided { index, name: old(self).names()[i] },
                    ) && final(self).caps() == old(self).caps()
                } else {
                    r == Ok::<(), ProvideError>(()) && final(self).caps() == old(self).caps().update(
                        i,
                        Some(cap),
                    )
                }
            }),
    {
        let i = index as usize;
        if i >= self.names.len() {
            return Err(ProvideError::OutOfRange { index, declared: self.names.len() });
        }
        if self.caps[i].is_some() {
            return Err(ProvideError::AlreadyProvided { index, name: self.names[i] });
        }
        self.caps.set(i, Some(cap));
        Ok(())
    }

    /// One entry per declared position, `None` where nothing was minted.
    pub fn as_slice(&self) -> (r: &[Option<CapId>])
        ensures
            r@ == self.caps(),
    {
        self.caps.as_slice()
    }

    /// How many positions have been declared.
    pub fn len(&self) -> (r: usize)
        ensures
            r == self.names().len(),
    {
        self.names.len()
    }

    pub fn is_empty(&self) -> (r: bool)
        ensures
            r == (self.names().len() == 0),
    {
        self.names.len() == 0
    }

    /// The name of a declared position.
    pub fn name_of(&self, index: u8) -> (r: Option<&'static str>)
        requires
            self.wf(),
        ensures
            r == (if (index as int) < self.names().len() {
                Some(self.names()[index as int])
            } else {
                None
            }),
    {
        let i = index as usize;
        if i < self.names.len() {
            Some(self.names[i])
        } else {
            None
        }
    }

    /// The first position a name was declared at, if any.
    pub fn index_of(&self, name: &str) -> (r: Option<u8>)
        requires
            self.wf(),
        ensures
            ({
                let first = first_named(self.names(), name, 0);
                if first < self.names().len() {
                    r == Some(first as u8)
                } else {
                    r is None
                }
            }),
    {
        proof {
            lemma_first_named_bounds(self.names@, name, 0);
        }
        let mut i: usize = 0;
        while i < self.names.len()
            invariant
                self.wf(),
                i <= self.names@.len(),
                first_named(self.names@, name, 0) == first_named(self.names@, name, i as int),
            decreases self.names@.len() - i,
        {
            if crate::wire::bytes_eq(self.names[i].as_bytes(), name.as_bytes()) {
                return Some(i as u8);
            }
            i = i + 1;
        }
        None
    }

    /// Whether a declared position was ever provided.
    pub fn is_provided(&self, index: u8) -> (r: bool)
        requires
            self.wf(),
        ensures
            r == ((index as int) < self.caps().len() && self.caps()[index as int] is Some),
    {
        self.cap_of(index).is_some()
    }

    /// The capability at a declared position, if one was provided. An
    /// undeclared index and a declared-but-empty one both answer `None`.
    pub fn cap_of(&self, index: u8) -> (r: Option<CapId>)
        requires
            self.wf(),
        ensures
            r == (if (index as int) < self.caps().len() {
                self.caps()[index as int]
            } else {
                None
            }),
    {
        let i = index as usize;
        if i < self.caps.len() {
            self.caps[i]
        } else {
            None
        }
    }
}

/// A vacancy never moves a later position: providing one position leaves
/// every other position, and every name, where it was.
pub proof fn lemma_provide_keeps_positions(caps: Seq<Option<CapId>>, i: int, cap: CapId, j: int)
    requires
        0 <= i < caps.len(),
        0 <= j < caps.len(),
        i != j,
    ensures
        caps.update(i, Some(cap))[j] == caps[j],
        caps.update(i, Some(cap)).len() == caps.len(),
{
}

impl Default for HeldSet {
    fn default() -> (r: Self)
        ensures
            r.wf(),
            r.caps() == Seq::<Option<CapId>>::empty(),
            r.names() == Seq::<&'static str>::empty(),
    {
        Self::new()
    }
}


} // verus!
