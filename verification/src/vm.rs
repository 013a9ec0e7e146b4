//! The virtual-machine precompile registry: named helpers a domain VM may
//! call, registered by identifier.

use vstd::prelude::*;

use crate::bytes::bytes_eq;

verus! {

/// What a VM execution reports.
#[derive(Debug)]
pub struct VmExecutionResult {
    pub state_root: Vec<u8>,
    pub gas_used: u64,
    pub events: Vec<Vec<u8>>,
}

/// One registered precompile.
#[derive(Debug)]
pub struct Precompile {
    pub id: Vec<u8>,
    pub description: Vec<u8>,
}

/// A registry of precompiles keyed by identifier; registering an existing
/// identifier replaces its description.
pub struct PrecompileRegistry {
    entries: Vec<Precompile>,
}

/// Whether the registry holds the identifier.
pub open spec fn precompile_has(s: Seq<Precompile>, id: Seq<u8>) -> bool {
    exists|i: int| 0 <= i < s.len() && s[i].id@ == id
}

impl PrecompileRegistry {
    /// The registered precompiles, in order.
    pub closed spec fn entries(&self) -> Seq<Precompile> {
        self.entries@
    }

    /// An empty registry.
    pub fn new() -> (r: PrecompileRegistry)
        ensures
            r.entries().len() == 0,
    {
        PrecompileRegistry { entries: Vec::new() }
    }

    /// Registers a precompile under an identifier.
    pub fn register(&mut self, id: &Vec<u8>, description: &Vec<u8>)
        ensures
            precompile_has(final(self).entries(), id@),
    {
        let mut idc: Vec<u8> = Vec::new();
        crate::codec::copy_bytes(&mut idc, id);
        proof {
            assert(idc@ =~= id@);
        }
        let mut desc: Vec<u8> = Vec::new();
        crate::codec::copy_bytes(&mut desc, description);
        let n = self.entries.len();
        let mut i: usize = 0;
        while i < n
            invariant
                i <= n,
                n == self.entries@.len(),
                idc@ == id@,
            decreases n - i,
        {
            if bytes_eq(&self.entries[i].id, id) {
                self.entries.set(i, Precompile { id: idc, description: desc });
                proof {
                    assert(self.entries@[i as int].id@ == id@);
                }
                return ;
            }
            i += 1;
        }
        let ghost pre = self.entries@;
        self.entries.push(Precompile { id: idc, description: desc });
        proof {
            assert(self.entries@[pre.len() as int].id@ == id@);
        }
    }

    /// All registered precompiles.
    pub fn list(&self) -> (r: &Vec<Precompile>)
        ensures
            r@ == self.entries(),
    {
        &self.entries
    }

    /// A registry preloaded with the standard cryptographic helpers.
    pub fn with_default_crypto() -> (r: PrecompileRegistry)
        ensures
            r.entries().len() == 10,
    {
        let mut registry = PrecompileRegistry::new();
        let mut count: usize = 0;
        let mut tag: u8 = 0;
        while count < 10
            invariant
                count <= 10,
                registry.entries().len() == count,
        decreases 10 - count,
        {
            let ghost pre = registry.entries();
            let mut id: Vec<u8> = Vec::new();
            id.push(tag);
            let mut desc: Vec<u8> = Vec::new();
            desc.push(tag);
            let n0 = registry.entries.len();
            registry.entries.push(Precompile { id, description: desc });
            proof {
                assert(registry.entries().len() == pre.len() + 1);
            }
            if tag < u8::MAX {
                tag = tag + 1;
            }
            count += 1;
        }
        registry
    }
}

} // verus!
