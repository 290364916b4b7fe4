//! The process registry: the single source of truth for which child
//! processes are currently running.
//!
//! The registry maps the operating-system process id to the owned process
//! handle, and hands callers the string identifier that names the entry.
//! It is generic in the handle type: the shell that owns the OS processes
//! instantiates it with its child-process handle and guards the whole
//! registry with one lock, so every insert, lookup and removal is serialized.

use vstd::prelude::*;
use vstd::hash_map::HashMapWithView;
use crate::decimal::{dec_str, parse_u32_spec, parse_u32, u32_to_string};
use crate::decimal::{lemma_identifier_injective, lemma_identifier_round_trip};
use crate::paths::str_eq;

verus! {

/// The identifier under which a process with OS id `pid` is registered:
/// the decimal rendering of the id.
pub open spec fn identifier_of(pid: u32) -> Seq<char> {
    dec_str(pid as nat)
}

/// The pid an identifier names, if the identifier is one the registry
/// issues: a canonical decimal rendering of a `u32`.
pub open spec fn named_pid(id: Seq<char>) -> Option<u32> {
    match parse_u32_spec(id) {
        Some(pid) => if identifier_of(pid) == id {
            Some(pid)
        } else {
            None
        },
        None => None,
    }
}

/// A mapping from process id to the owned handle of the running child.
#[verifier::reject_recursive_types(V)]
pub struct ProcessRegistry<V> {
    processes: HashMapWithView<u32, V>,
}

impl<V> View for ProcessRegistry<V> {
    type V = Map<u32, V>;

    closed spec fn view(&self) -> Map<u32, V> {
        self.processes@
    }
}

impl<V> ProcessRegistry<V> {
    /// Creates the empty registry the application starts with.
    pub fn new() -> (r: Self)
        ensures
            r@ == Map::<u32, V>::empty(),
    {
        ProcessRegistry { processes: HashMapWithView::new() }
    }

    /// The number of currently registered processes.
    pub fn len(&self) -> (n: usize)
        ensures
            n == self@.len(),
    {
        self.processes.len()
    }

    /// Whether a process with OS id `pid` is registered.
    pub fn contains_pid(&self, pid: u32) -> (b: bool)
        ensures
            b == self@.contains_key(pid),
    {
        self.processes.contains_key(&pid)
    }

    /// Whether `id` names a registered process.
    pub fn contains_id(&self, id: &str) -> (b: bool)
        ensures
            b == match named_pid(id@) {
                Some(pid) => self@.contains_key(pid),
                None => false,
            },
    {
        match parse_u32(id) {
            Some(pid) => {
                let canonical = u32_to_string(pid);
                str_eq(canonical.as_str(), id) && self.contains_pid(pid)
            },
            None => false,
        }
    }

    /// Stores ownership of `handle` under the identifier derived from `pid`
    /// and returns that identifier. A pid that is already registered is an
    /// internal invariant violation — identifiers are unique among running
    /// processes — and hands the handle back untouched.
    pub fn register(&mut self, pid: u32, handle: V) -> (r: Result<String, V>)
        ensures
            match r {
                Ok(id) => {
                    &&& !old(self)@.contains_key(pid)
                    &&& id@ == identifier_of(pid)
                    &&& final(self)@ == old(self)@.insert(pid, handle)
                },
                Err(h) => {
                    &&& old(self)@.contains_key(pid)
                    &&& h == handle
                    &&& final(self)@ == old(self)@
                },
            },
    {
        if self.processes.contains_key(&pid) {
            Err(handle)
        } else {
            self.processes.insert(pid, handle);
            Ok(u32_to_string(pid))
        }
    }

    /// Removes the process with OS id `pid`, returning ownership of its
    /// handle; absence leaves the registry unchanged.
    pub fn take_pid(&mut self, pid: u32) -> (r: Option<V>)
        ensures
            match r {
                Some(v) => {
                    &&& old(self)@.contains_key(pid)
                    &&& v == old(self)@[pid]
                    &&& final(self)@ == old(self)@.remove(pid)
                },
                None => {
                    &&& !old(self)@.contains_key(pid)
                    &&& final(self)@ == old(self)@
                },
            },
    {
        self.processes.remove(&pid)
    }

    /// Removes the entry `id` names and returns ownership of its handle, so
    /// that the caller can ask the OS to kill the process. An identifier
    /// that names nothing — text the registry never issued, or a process no
    /// longer present — leaves the registry unchanged and returns nothing:
    /// terminating an absent process is a no-op.
    pub fn terminate(&mut self, id: &str) -> (r: Option<V>)
        ensures
            match named_pid(id@) {
                Some(pid) => match r {
                    Some(v) => {
                        &&& old(self)@.contains_key(pid)
                        &&& v == old(self)@[pid]
                        &&& final(self)@ == old(self)@.remove(pid)
                    },
                    None => {
                        &&& !old(self)@.contains_key(pid)
                        &&& final(self)@ == old(self)@
                    },
                },
                None => r is None && final(self)@ == old(self)@,
            },
    {
        match parse_u32(id) {
            Some(pid) => {
                let canonical = u32_to_string(pid);
                if str_eq(canonical.as_str(), id) {
                    self.take_pid(pid)
                } else {
                    None
                }
            },
            None => None,
        }
    }
}

/// A successful spawn is registered under an identifier that names exactly
/// its own pid: the identifier parses back to the pid it was derived from,
/// the entry is present the instant `register` returns, and removing that
/// identifier takes out this entry and no other.
pub proof fn lemma_registered_identifier_terminable<V>(m: Map<u32, V>, pid: u32, v: V)
    ensures
        named_pid(identifier_of(pid)) == Some(pid),
        m.insert(pid, v).contains_key(pid),
        m.insert(pid, v)[pid] == v,
        !m.insert(pid, v).remove(pid).contains_key(pid),
        forall|q: u32|
            q != pid ==> m.insert(pid, v).remove(pid).contains_key(q) == m.contains_key(q),
        forall|q: u32|
            q != pid && m.contains_key(q) ==> m.insert(pid, v).remove(pid)[q] == m[q],
{
    lemma_identifier_round_trip(pid);
}

/// A batch of spawns with distinct pids returns one identifier per spawn,
/// all pairwise distinct, and each identifier names exactly its own pid —
/// so each spawned instance is independently terminable.
pub proof fn lemma_batch_identifiers_unique(pids: Seq<u32>)
    requires
        forall|i: int, j: int| 0 <= i < j < pids.len() ==> pids[i] != pids[j],
    ensures
        pids.map_values(|p: u32| identifier_of(p)).len() == pids.len(),
        forall|i: int, j: int|
            0 <= i < j < pids.len() ==> #[trigger] identifier_of(pids[i])
                != #[trigger] identifier_of(pids[j]),
        forall|i: int|
            0 <= i < pids.len() ==> named_pid(#[trigger] identifier_of(pids[i])) == Some(pids[i]),
{
    assert forall|i: int, j: int|
        0 <= i < j < pids.len() implies #[trigger] identifier_of(pids[i])
        != #[trigger] identifier_of(pids[j]) by {
        lemma_identifier_injective(pids[i], pids[j]);
    }
    assert forall|i: int| 0 <= i < pids.len() implies named_pid(
        #[trigger] identifier_of(pids[i]),
    ) == Some(pids[i]) by {
        lemma_identifier_round_trip(pids[i]);
    }
}

} // verus!
