//! Device RAM held in host memory, for running a load without hardware.
use crate::image::modulus;
use crate::loader::{cell, cell_offset, loaded, stored, DeviceRam, RamOp};
use std::collections::HashMap;
use vstd::prelude::*;

verus! {

broadcast use vstd::std_specs::hash::group_hash_axioms;

/// Storing one more byte is storing the rest, then that byte at the next address.
pub proof fn lemma_store_push(m: Map<u32, u8>, base: u32, d: Seq<u8>, x: u8)
    requires
        d.len() + 1 <= modulus(),
    ensures
        stored(m, base, d.push(x)) == stored(m, base, d).insert(
            ((base + d.len()) % modulus()) as u32,
            x,
        ),
{
    let n = d.len() as int;
    let last = ((base + n) % modulus()) as u32;
    assert forall|k: u32| (cell_offset(base, k) == n) <==> (k == last) by {
        assert((cell_offset(base, k) == n) <==> (k == last)) by (nonlinear_arith)
            requires
                cell_offset(base, k) == (k as int - base as int) % modulus(),
                last as int == (base + n) % modulus(),
                0 <= n < modulus(),
                0 <= k < modulus(),
                0 <= base < modulus(),
                modulus() == 0x1_0000_0000,
        ;
    }
    assert(stored(m, base, d.push(x)) =~= stored(m, base, d).insert(last, x));
}

/// The address `offset` bytes past `base`, wrapping at 2^32.
fn wrapped_address(base: u32, offset: usize) -> (r: u32)
    requires
        offset < modulus(),
    ensures
        r as int == (base + offset) % modulus(),
{
    ((base as u64 + offset as u64) % 0x1_0000_0000u64) as u32
}

/// RAM held in host memory: every write stores its bytes, and every read returns the
/// bytes last stored, zero where nothing was.
pub struct MemoryRam {
    cells: HashMap<u32, u8>,
    ops: Ghost<Seq<RamOp>>,
}

impl MemoryRam {
    /// RAM where nothing is stored yet.
    pub fn new() -> (r: Self)
        ensures
            r.echoes(),
            r.memory() == Map::<u32, u8>::empty(),
            r.history() == Seq::<RamOp>::empty(),
    {
        MemoryRam { cells: HashMap::new(), ops: Ghost(Seq::empty()) }
    }

    /// The byte at `address`.
    pub fn peek(&self, address: u32) -> (r: u8)
        ensures
            r == cell(self.memory(), address),
    {
        match self.cells.get(&address) {
            Some(v) => *v,
            None => 0,
        }
    }
}

impl DeviceRam for MemoryRam {
    open spec fn echoes(&self) -> bool {
        true
    }

    closed spec fn memory(&self) -> Map<u32, u8> {
        self.cells@
    }

    closed spec fn history(&self) -> Seq<RamOp> {
        self.ops@
    }

    fn write_ram(&mut self, address: u32, data: &[u8]) -> (r: Result<(), rusb::Error>) {
        let ghost m0 = self.cells@;
        proof {
            assert(stored(m0, address, data@.subrange(0, 0)) =~= m0);
        }
        let mut i: usize = 0;
        while i < data.len()
            invariant
                data@.len() <= 0xFFFF,
                i <= data@.len(),
                self.cells@ == stored(m0, address, data@.subrange(0, i as int)),
                self.ops@ == old(self).ops@,
            decreases data@.len() - i,
        {
            let key = wrapped_address(address, i);
            proof {
                lemma_store_push(m0, address, data@.subrange(0, i as int), data@[i as int]);
                assert(data@.subrange(0, i as int).push(data@[i as int]) =~= data@.subrange(
                    0,
                    i + 1,
                ));
            }
            self.cells.insert(key, data[i]);
            i = i + 1;
        }
        proof {
            assert(data@.subrange(0, data@.len() as int) =~= data@);
        }
        self.ops = Ghost(self.ops@.push((true, address, data@.len(), data@, true)));
        Ok(())
    }

    fn read_ram(&mut self, address: u32, len: usize) -> (r: Result<Vec<u8>, rusb::Error>) {
        let mut out: Vec<u8> = Vec::new();
        let mut i: usize = 0;
        while i < len
            invariant
                len <= 0xFFFF,
                i <= len,
                out@ == loaded(self.cells@, address, i as nat),
                self.ops@ == old(self).ops@,
                self.cells@ == old(self).cells@,
            decreases len - i,
        {
            let key = wrapped_address(address, i);
            let b = match self.cells.get(&key) {
                Some(v) => *v,
                None => 0,
            };
            out.push(b);
            i = i + 1;
            proof {
                assert(out@ =~= loaded(self.cells@, address, i as nat));
            }
        }
        self.ops = Ghost(self.ops@.push((false, address, len as nat, out@, true)));
        Ok(out)
    }
}

} // verus!
