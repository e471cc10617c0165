//! Dynamic variables: host variables whose reads and writes are
//! intercepted by extension-supplied handlers instead of static storage.
//!
//! A [`DynVarTable`] is the process-wide table of bindings from a
//! variable name to its handler. The host's read and write hooks point
//! at two fixed trampolines in the host glue; each trampoline consults
//! the table by name and dispatches to the handler through
//! [`DynVarTable::read_dispatch`] or [`DynVarTable::write_dispatch`].
//! The handlers are user code and run under the same supervising
//! wrapper as a call. At process exit the glue takes every tracked name
//! with [`DynVarTable::take_all`] and unregisters from the host those
//! whose hooks still point at the trampolines.

use vstd::prelude::*;

use crate::convert::bytes_eq;
use crate::convert::contains_nul;
use crate::convert::has_nul;
use crate::variables::VariableError;

verus! {

/// The implementation of a dynamic variable, written by users of this
/// crate and not verified.
pub trait DynamicVariable {
    /// Returns the value for the shell variable; nothing leaves the
    /// variable empty.
    fn get(&mut self) -> Option<Vec<u8>>;

    /// Called when a string is assigned to the shell variable.
    fn set(&mut self, value: &Vec<u8>);
}

/// The index of the first binding with the given name, if any.
pub open spec fn name_index(names: Seq<Seq<u8>>, name: Seq<u8>) -> Option<int>
    decreases names.len(),
{
    if names.len() == 0 {
        Option::None
    } else if names[0] == name {
        Option::Some(0)
    } else {
        match name_index(names.skip(1), name) {
            Option::Some(i) => Option::Some(i + 1),
            Option::None => Option::None,
        }
    }
}

/// A binding found by `name_index` really is the first with that name.
proof fn lemma_name_index(names: Seq<Seq<u8>>, name: Seq<u8>)
    ensures
        match name_index(names, name) {
            Option::Some(i) => 0 <= i < names.len() && names[i] == name && forall|j: int|
                0 <= j < i ==> names[j] != name,
            Option::None => forall|i: int| 0 <= i < names.len() ==> names[i] != name,
        },
    decreases names.len(),
{
    if names.len() > 0 && names[0] != name {
        lemma_name_index(names.skip(1), name);
        assert(forall|j: int| 1 <= j < names.len() ==> names.skip(1)[j - 1] == #[trigger] names[j]);
    }
}

/// A first match at `i` resolves the index.
proof fn lemma_name_index_at(names: Seq<Seq<u8>>, name: Seq<u8>, i: int)
    requires
        0 <= i < names.len(),
        names[i] == name,
        forall|j: int| 0 <= j < i ==> names[j] != name,
    ensures
        name_index(names, name) == Option::Some(i),
    decreases i,
{
    if i > 0 {
        assert(forall|j: int| 0 <= j < names.skip(1).len() ==> names.skip(1)[j] == #[trigger] names[j
            + 1]);
        lemma_name_index_at(names.skip(1), name, i - 1);
    }
}

/// With no match anywhere the index is empty.
proof fn lemma_name_index_none(names: Seq<Seq<u8>>, name: Seq<u8>)
    requires
        forall|j: int| 0 <= j < names.len() ==> names[j] != name,
    ensures
        name_index(names, name) is None,
    decreases names.len(),
{
    if names.len() > 0 {
        assert(forall|j: int| 0 <= j < names.skip(1).len() ==> names.skip(1)[j] == #[trigger] names[j
            + 1]);
        lemma_name_index_none(names.skip(1), name);
    }
}

/// What the read trampoline should do after a dispatch.
#[derive(Debug)]
pub enum DynRead {
    /// Replace the variable's backing storage with a fresh copy of
    /// these bytes, freeing the prior storage first.
    NewValue(Vec<u8>),
    /// No binding exists under this name; leave the storage untouched
    /// and report through the host's internal-error facility.
    Missing,
}

/// What the write trampoline should do after a dispatch.
#[derive(Debug, PartialEq, Eq, Structural)]
pub enum DynWrite {
    /// The handler consumed the assignment.
    Dispatched,
    /// No binding exists under this name; report through the host's
    /// internal-error facility.
    Missing,
}

/// The process-wide table of dynamic-variable bindings: each tracked
/// name with its handler.
pub struct DynVarTable<D> {
    entries: Vec<(Vec<u8>, D)>,
}

impl<D: DynamicVariable> DynVarTable<D> {
    /// The tracked names, oldest binding first.
    pub closed spec fn names(&self) -> Seq<Seq<u8>> {
        Seq::new(self.entries@.len(), |i: int| self.entries@[i].0@)
    }

    /// An empty table.
    pub fn new() -> (r: DynVarTable<D>)
        ensures
            r.names() == Seq::<Seq<u8>>::empty(),
    {
        let r = DynVarTable { entries: Vec::new() };
        proof {
            assert(r.names() =~= Seq::<Seq<u8>>::empty());
        }
        r
    }

    /// The position of the first binding with this name.
    fn position_of(&self, name: &Vec<u8>) -> (r: Option<usize>)
        ensures
            match r {
                Some(i) => name_index(self.names(), name@) == Option::Some(i as int),
                None => name_index(self.names(), name@) is None,
            },
    {
        let n = self.entries.len();
        let mut i: usize = 0;
        while i < n
            invariant
                i <= n,
                n == self.entries@.len(),
                n == self.names().len(),
                forall|j: int| 0 <= j < i ==> self.names()[j] != name@,
            decreases n - i,
        {
            if bytes_eq(&self.entries[i].0, name) {
                proof {
                    assert(self.names()[i as int] == name@);
                    lemma_name_index_at(self.names(), name@, i as int);
                }
                return Some(i);
            }
            proof {
                assert(self.names()[i as int] == self.entries@[i as int].0@);
            }
            i += 1;
        }
        proof {
            lemma_name_index_none(self.names(), name@);
        }
        None
    }

    /// True if a binding is tracked under this name.
    pub fn is_bound(&self, name: &Vec<u8>) -> (r: bool)
        ensures
            r == (name_index(self.names(), name@) is Some),
    {
        self.position_of(name).is_some()
    }

    /// Registers a handler under a name: an existing binding of that
    /// name is replaced in place, a new name is tracked at the end. The
    /// name must not embed a terminator byte. The host glue then
    /// rebinds the host variable's hooks to the two trampolines.
    pub fn bind(&mut self, name: &Vec<u8>, handler: D) -> (r: Result<(), VariableError>)
        ensures
            has_nul(name@) ==> r == Err::<(), VariableError>(VariableError::InvalidName) && final(self).names() == old(self).names(),
            !has_nul(name@) ==> r == Ok::<(), VariableError>(()) && final(self).names() == (
            match name_index(old(self).names(), name@) {
                Option::Some(_) => old(self).names(),
                Option::None => old(self).names().push(name@),
            }),
    {
        if contains_nul(name) {
            return Err(VariableError::InvalidName);
        }
        match self.position_of(name) {
            Some(i) => {
                proof {
                    lemma_name_index(self.names(), name@);
                }
                self.entries.set(i, (name.clone(), handler));
                proof {
                    assert(final(self).names() =~= old(self).names());
                }
            },
            None => {
                self.entries.push((name.clone(), handler));
                proof {
                    assert(final(self).names() =~= old(self).names().push(name@));
                }
            },
        }
        Ok(())
    }

    /// Dispatches a read of the named variable to its handler: the
    /// handler's bytes become the variable's new storage, an empty
    /// value standing in when the handler returns nothing. A name with
    /// no binding is reported missing and nothing is touched.
    pub fn read_dispatch(&mut self, name: &Vec<u8>) -> (r: DynRead)
        ensures
            final(self).names() == old(self).names(),
            (r is Missing) == (name_index(old(self).names(), name@) is None),
    {
        let i = match self.position_of(name) {
            Some(i) => i,
            None => {
                return DynRead::Missing;
            },
        };
        proof {
            lemma_name_index(self.names(), name@);
        }
        let ghost names0 = self.names();
        let mut entry = self.entries.remove(i);
        let produced = entry.1.get();
        self.entries.insert(i, entry);
        proof {
            assert(final(self).names() =~= names0);
        }
        match produced {
            Some(bytes) => DynRead::NewValue(bytes),
            None => DynRead::NewValue(Vec::new()),
        }
    }

    /// Dispatches an assignment to the named variable to its handler. A
    /// name with no binding is reported missing and nothing is touched.
    pub fn write_dispatch(&mut self, name: &Vec<u8>, value: &Vec<u8>) -> (r: DynWrite)
        ensures
            final(self).names() == old(self).names(),
            (r is Missing) == (name_index(old(self).names(), name@) is None),
    {
        let i = match self.position_of(name) {
            Some(i) => i,
            None => {
                return DynWrite::Missing;
            },
        };
        proof {
            lemma_name_index(self.names(), name@);
        }
        let ghost names0 = self.names();
        let mut entry = self.entries.remove(i);
        entry.1.set(value);
        self.entries.insert(i, entry);
        proof {
            assert(final(self).names() =~= names0);
        }
        DynWrite::Dispatched
    }

    /// Empties the table for the unload-time cleanup, handing back
    /// every tracked name in order; the host glue unregisters from the
    /// host each one whose hooks still point at the trampolines.
    pub fn take_all(&mut self) -> (r: Vec<Vec<u8>>)
        ensures
            r.deep_view() == old(self).names(),
            final(self).names() == Seq::<Seq<u8>>::empty(),
    {
        let ghost names0 = self.names();
        let mut taken: Vec<(Vec<u8>, D)> = Vec::new();
        core::mem::swap(&mut taken, &mut self.entries);
        let mut names: Vec<Vec<u8>> = Vec::new();
        let n = taken.len();
        let mut i: usize = 0;
        while i < n
            invariant
                i <= n,
                n == taken@.len(),
                names0 == Seq::new(taken@.len(), |k: int| taken@[k].0@),
                names@.len() == i,
                forall|k: int| 0 <= k < i ==> (#[trigger] names@[k])@ == names0[k],
            decreases n - i,
        {
            let w = taken[i].0.clone();
            proof {
                assert(w@ == taken@[i as int].0@);
            }
            names.push(w);
            i += 1;
        }
        proof {
            assert forall|k: int| 0 <= k < names@.len() implies names.deep_view()[k] == names0[k] by {
                assert(names.deep_view()[k] == names@[k].deep_view());
                assert(names@[k].deep_view() =~= names@[k]@);
            }
            assert(names.deep_view() =~= names0);
            assert(final(self).names() =~= Seq::<Seq<u8>>::empty());
        }
        names
    }
}

/// Registers a dynamic variable: a handler bound under a name in the
/// process-wide table.
pub fn bind<D: DynamicVariable>(table: &mut DynVarTable<D>, name: &Vec<u8>, handler: D) -> (r:
    Result<(), VariableError>)
    ensures
        has_nul(name@) ==> r == Err::<(), VariableError>(VariableError::InvalidName) && final(table).names() == old(table).names(),
        !has_nul(name@) ==> r == Ok::<(), VariableError>(()) && final(table).names() == (
        match name_index(old(table).names(), name@) {
            Option::Some(_) => old(table).names(),
            Option::None => old(table).names().push(name@),
        }),
{
    table.bind(name, handler)
}

} // verus!
