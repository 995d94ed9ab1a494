//! Local port → owning process name, as last read from the OS owner tables.
//! The tables are read (and this cache rebuilt) by the application every
//! few seconds; lookups go through `program_for`.

use vstd::prelude::*;

use crate::vecmap::{KeyEq, VecMap};

verus! {

/// A local endpoint: TCP or UDP, IPv4 or IPv6, and the port.
#[derive(Clone, Copy, PartialEq, Eq, Hash, Debug)]
pub struct PortKey {
    pub is_tcp: bool,
    pub is_v4: bool,
    pub port: u16,
}

impl View for PortKey {
    type V = (bool, bool, u16);

    open spec fn view(&self) -> (bool, bool, u16) {
        (self.is_tcp, self.is_v4, self.port)
    }
}

impl KeyEq for PortKey {
    fn key_eq(&self, other: &Self) -> (r: bool) {
        self.is_tcp == other.is_tcp && self.is_v4 == other.is_v4 && self.port == other.port
    }
}

/// Owner tables: endpoint → process id, and process id → process name.
pub struct PortCache {
    ports: VecMap<PortKey, u32>,
    names: VecMap<u32, String>,
}

impl PortCache {
    #[verifier::type_invariant]
    spec fn wf(&self) -> bool {
        self.ports.wf() && self.names.wf()
    }

    /// The process id owning an endpoint, if known.
    pub closed spec fn owner(&self, k: (bool, bool, u16)) -> Option<u32> {
        self.ports.get(k)
    }

    /// The name of a process id, if known.
    pub closed spec fn name_of(&self, pid: u32) -> Option<String> {
        self.names.get(pid)
    }

    pub fn new() -> (r: Self)
        ensures
            forall|k: (bool, bool, u16)| #[trigger] r.owner(k) is None,
            forall|pid: u32| #[trigger] r.name_of(pid) is None,
    {
        PortCache { ports: VecMap::new(), names: VecMap::new() }
    }

    /// Records that `pid` owns the endpoint; a later record for the same endpoint wins.
    pub fn set_owner(&mut self, key: PortKey, pid: u32)
        ensures
            final(self).owner(key@) == Some(pid),
            forall|k: (bool, bool, u16)| k != key@ ==> #[trigger] final(self).owner(k) == old(self).owner(k),
            forall|p: u32| #[trigger] final(self).name_of(p) == old(self).name_of(p),
    {
        proof {
            use_type_invariant(&*self);
        }
        let mut ports: VecMap<PortKey, u32> = VecMap::new();
        std::mem::swap(&mut ports, &mut self.ports);
        match ports.find(&key) {
            Some(i) => ports.set_value(i, pid),
            None => ports.push_new(key, pid),
        }
        self.ports = ports;
    }

    /// Records the name of a process id; a later record for the same id wins.
    pub fn set_name(&mut self, pid: u32, name: String)
        ensures
            final(self).name_of(pid) == Some(name),
            forall|p: u32| p != pid ==> #[trigger] final(self).name_of(p) == old(self).name_of(p),
            forall|k: (bool, bool, u16)| #[trigger] final(self).owner(k) == old(self).owner(k),
    {
        proof {
            use_type_invariant(&*self);
        }
        let mut names: VecMap<u32, String> = VecMap::new();
        std::mem::swap(&mut names, &mut self.names);
        match names.find(&pid) {
            Some(i) => names.set_value(i, name),
            None => names.push_new(pid, name),
        }
        self.names = names;
    }

    /// The process ids that own some endpoint (each once per endpoint it owns).
    pub fn owners(&self) -> (r: Vec<u32>)
        ensures
            forall|pid: u32|
                r@.contains(pid) <==> exists|k: (bool, bool, u16)| #[trigger] self.owner(k) == Some(pid),
    {
        proof {
            use_type_invariant(self);
        }
        let mut out: Vec<u32> = Vec::new();
        let mut i: usize = 0;
        while i < self.ports.entries.len()
            invariant
                self.ports.wf(),
                i <= self.ports.entries@.len(),
                out@.len() == i,
                forall|j: int| 0 <= j < i ==> #[trigger] out@[j] == self.ports.entries@[j].1,
            decreases self.ports.entries@.len() - i,
        {
            out.push(self.ports.entries[i].1);
            i = i + 1;
        }
        proof {
            assert forall|pid: u32|
                out@.contains(pid) implies exists|k: (bool, bool, u16)| #[trigger] self.owner(k) == Some(pid) by {
                let j = choose|j: int| 0 <= j < out@.len() && out@[j] == pid;
                self.ports.lemma_get_at(j);
                assert(self.owner(self.ports.entries@[j].0@) == Some(pid));
            }
            assert forall|pid: u32|
                (exists|k: (bool, bool, u16)| #[trigger] self.owner(k) == Some(pid)) implies out@.contains(pid) by {
                let k = choose|k: (bool, bool, u16)| #[trigger] self.owner(k) == Some(pid);
                let j = self.ports.index_of(k);
                assert(out@[j] == pid);
            }
        }
        out
    }
}

/// The process name owning a local endpoint, if known.
pub open spec fn spec_program_for(cache: PortCache, is_tcp: bool, is_v4: bool, port: u16) -> Option<Seq<char>> {
    match cache.owner((is_tcp, is_v4, port)) {
        Some(pid) => match cache.name_of(pid) {
            Some(n) => Some(n@),
            None => None,
        },
        None => None,
    }
}

/// A port whose owner is recorded, with that owner's name recorded, is
/// attributed to that name.
pub proof fn lemma_recorded_owner_is_found(cache: PortCache, key: PortKey, pid: u32, name: String)
    requires
        cache.owner(key@) == Some(pid),
        cache.name_of(pid) == Some(name),
    ensures
        spec_program_for(cache, key.is_tcp, key.is_v4, key.port) == Some(name@),
{
}

/// The process name owning the given local port, if known.
pub fn program_for(cache: &PortCache, is_tcp: bool, is_v4: bool, local_port: u16) -> (r: Option<String>)
    ensures
        r is Some <==> spec_program_for(*cache, is_tcp, is_v4, local_port) is Some,
        r matches Some(s) ==> spec_program_for(*cache, is_tcp, is_v4, local_port) == Some(s@),
{
    proof {
        use_type_invariant(cache);
    }
    let key = PortKey { is_tcp, is_v4, port: local_port };
    match cache.ports.find(&key) {
        Some(i) => {
            let pid = cache.ports.entries[i].1;
            match cache.names.find(&pid) {
                Some(j) => {
                    proof {
                        cache.names.lemma_get_at(j as int);
                    }
                    Some(cache.names.entries[j].1.clone())
                },
                None => None,
            }
        },
        None => None,
    }
}

/// The bytes of a 16-bit value swapped.
pub open spec fn swap16(x: u16) -> u16 {
    (((x & 0xff) << 8) | (x >> 8)) as u16
}

/// `u16::from_be`: the value of big-endian bytes on this machine. The
/// documentation says it is a no-op on big-endian targets and swaps the
/// bytes on little-endian ones; which of the two applies is not stated here.
#[verifier::external_body]
fn from_be16(x: u16) -> (r: u16)
    ensures
        r == x || r == swap16(x),
{
    u16::from_be(x)
}

/// Reads the DWORD-stored port of an owner-table row (network byte order in its low half).
pub fn be_port(raw: u32) -> (r: u16)
    ensures
        r == (raw as u16) || r == swap16(raw as u16),
{
    from_be16(raw as u16)
}

} // verus!
