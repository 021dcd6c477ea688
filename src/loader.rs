//! Loading a RAM boot image into the device: every block is written, read back and
//! compared, the checksum is checked, and a last empty write starts execution.
use crate::image::{
    checksum_spec, copy_range, image_spec, image_valid, modulus, parse_image, sections_view,
    BootImage, ImageError, Section, CHUNK_SIZE,
};
use vstd::prelude::*;

verus! {

/// Makes rusb's error type usable here: transport failures carry it.
#[verifier::external_type_specification]
#[verifier::external_body]
pub struct ExUsbError(rusb::Error);

/// How far `k` lies past `base`, counting up from `base` and wrapping at 2^32.
pub open spec fn cell_offset(base: u32, k: u32) -> int {
    (k as int - base as int) % modulus()
}

/// `m` after `d` is stored from `base` on, addresses wrapping at 2^32.
pub open spec fn stored(m: Map<u32, u8>, base: u32, d: Seq<u8>) -> Map<u32, u8> {
    Map::new(
        |k: u32| m.contains_key(k) || cell_offset(base, k) < d.len(),
        |k: u32|
            if cell_offset(base, k) < d.len() {
                d[cell_offset(base, k)]
            } else {
                m[k]
            },
    )
}

/// The byte at `k`: zero where nothing was stored.
pub open spec fn cell(m: Map<u32, u8>, k: u32) -> u8 {
    if m.contains_key(k) {
        m[k]
    } else {
        0
    }
}

/// The `len` bytes of `m` from `base` on, addresses wrapping at 2^32.
pub open spec fn loaded(m: Map<u32, u8>, base: u32, len: nat) -> Seq<u8> {
    Seq::new(len, |i: int| cell(m, ((base + i) % modulus()) as u32))
}

/// Reading back what was just stored gives it back, as long as it does not wrap onto
/// itself.
pub proof fn lemma_load_after_store(m: Map<u32, u8>, base: u32, d: Seq<u8>)
    requires
        d.len() <= modulus(),
    ensures
        loaded(stored(m, base, d), base, d.len()) == d,
{
    let s = stored(m, base, d);
    assert forall|i: int| 0 <= i < d.len() implies #[trigger] loaded(s, base, d.len())[i] == d[i] by {
        let k = ((base + i) % modulus()) as u32;
        assert(cell_offset(base, k) == i) by {
            assert((((base + i) % modulus()) - base) % modulus() == i) by (nonlinear_arith)
                requires
                    0 <= i < modulus(),
                    0 <= base < modulus(),
                    modulus() == 0x1_0000_0000,
            ;
        }
    }
    assert(loaded(s, base, d.len()) =~= d);
}

/// One control transfer on device RAM: whether it wrote, its address, its length, the
/// bytes it carried (written, or read back), and whether it succeeded.
pub type RamOp = (bool, u32, nat, Seq<u8>, bool);

/// `op` is the write of block `b`.
pub open spec fn write_of(op: RamOp, b: (u32, Seq<u8>)) -> bool {
    op.0 && op.1 == b.0 && op.2 == b.1.len() && op.3 == b.1
}

/// `op` is the read-back of block `b`: same address, same length.
pub open spec fn read_of(op: RamOp, b: (u32, Seq<u8>)) -> bool {
    !op.0 && op.1 == b.0 && op.2 == b.1.len()
}

/// The transfers `t` are, in order, a write and then a read-back of each block of `bs`,
/// possibly cut short.
pub open spec fn follows(bs: Seq<(u32, Seq<u8>)>, t: Seq<RamOp>) -> bool {
    &&& t.len() <= 2 * bs.len()
    &&& forall|k: int| 0 <= k < bs.len() ==> #[trigger] pair_follows(bs, t, k)
}

/// The transfers of `t` for block `k` of `bs`, where `t` reaches them, are its write
/// and then its read-back.
pub open spec fn pair_follows(bs: Seq<(u32, Seq<u8>)>, t: Seq<RamOp>, k: int) -> bool {
    &&& 2 * k < t.len() ==> write_of(t[2 * k], bs[k])
    &&& 2 * k + 1 < t.len() ==> read_of(t[2 * k + 1], bs[k])
}

/// The transfers of `t` for block `k` of `bs`, among the first `n`, succeeded, and its
/// read-back returned its bytes.
pub open spec fn pair_good(bs: Seq<(u32, Seq<u8>)>, t: Seq<RamOp>, n: int, k: int) -> bool {
    &&& 2 * k < n ==> t[2 * k].4
    &&& 2 * k + 1 < n ==> t[2 * k + 1].4 && t[2 * k + 1].3 == bs[k].1
}

/// The first `n` transfers of `t` succeeded, and every read-back among them returned its
/// block's bytes.
pub open spec fn good_upto(bs: Seq<(u32, Seq<u8>)>, t: Seq<RamOp>, n: int) -> bool {
    forall|k: int| 0 <= k < bs.len() ==> #[trigger] pair_good(bs, t, n, k)
}

/// `after` is `before` with more transfers appended.
pub open spec fn extends(before: Seq<RamOp>, after: Seq<RamOp>) -> bool {
    before.len() <= after.len() && after.subrange(0, before.len() as int) == before
}

/// The transfers made since `before`.
pub open spec fn new_ops(before: Seq<RamOp>, after: Seq<RamOp>) -> Seq<RamOp> {
    after.subrange(before.len() as int, after.len() as int)
}

/// Storing `x` and then `y` right after it is storing `x + y`.
pub proof fn lemma_store_concat(m: Map<u32, u8>, a: u32, x: Seq<u8>, y: Seq<u8>)
    requires
        x.len() + y.len() <= modulus(),
    ensures
        stored(stored(m, a, x), ((a + x.len()) % modulus()) as u32, y) == stored(m, a, x + y),
{
    let a2 = ((a + x.len()) % modulus()) as u32;
    let lhs = stored(stored(m, a, x), a2, y);
    let rhs = stored(m, a, x + y);
    assert forall|k: u32| #![trigger cell_offset(a, k)] cell_offset(a2, k) == if cell_offset(a, k) >= x.len() {
        cell_offset(a, k) - x.len()
    } else {
        cell_offset(a, k) - x.len() + modulus()
    } by {
        let n = x.len() as int;
        assert(cell_offset(a2, k) == (if cell_offset(a, k) >= n {
            cell_offset(a, k) - n
        } else {
            cell_offset(a, k) - n + modulus()
        })) by (nonlinear_arith)
            requires
                cell_offset(a2, k) == (k as int - a2 as int) % modulus(),
                cell_offset(a, k) == (k as int - a as int) % modulus(),
                a2 as int == (a + n) % modulus(),
                0 <= n <= modulus(),
                0 <= k < modulus(),
                0 <= a < modulus(),
                modulus() == 0x1_0000_0000,
        ;
    }
    assert forall|k: u32| #[trigger] lhs.contains_key(k) == rhs.contains_key(k) by {
        assert(cell_offset(a, k) == cell_offset(a, k));
    }
    assert forall|k: u32| #[trigger] lhs.contains_key(k) implies lhs[k] == rhs[k] by {
        assert(cell_offset(a, k) == cell_offset(a, k));
    }
    assert(lhs =~= rhs);
}

/// The device's RAM, as the loader reaches it through control transfers.
///
/// Every device keeps a `history` of the transfers made on it: each write and each
/// read appends one entry saying what it carried and whether it succeeded.
///
/// A device may also declare that it behaves as plain memory (`echoes`): every write
/// then succeeds and stores its bytes, and every read succeeds and returns the bytes
/// last stored (`memory`). A device that does not declare it promises nothing more.
pub trait DeviceRam {
    /// Whether the device behaves as plain memory.
    open spec fn echoes(&self) -> bool {
        false
    }

    /// The stored bytes of a device that behaves as plain memory.
    open spec fn memory(&self) -> Map<u32, u8> {
        Map::empty()
    }

    /// The transfers made so far, oldest first.
    open spec fn history(&self) -> Seq<RamOp> {
        Seq::empty()
    }

    /// Writes `data` into device RAM at `address`.
    fn write_ram(&mut self, address: u32, data: &[u8]) -> (r: Result<(), rusb::Error>)
        requires
            data@.len() <= 0xFFFF,
        ensures
            final(self).history() == old(self).history().push(
                (true, address, data@.len(), data@, r is Ok),
            ),
            old(self).echoes() ==> r is Ok && final(self).echoes() && final(self).memory()
                == stored(old(self).memory(), address, data@),
    ;

    /// Reads `len` bytes of device RAM at `address`.
    fn read_ram(&mut self, address: u32, len: usize) -> (r: Result<Vec<u8>, rusb::Error>)
        requires
            len <= 0xFFFF,
        ensures
            final(self).history() == old(self).history().push(
                (
                    false,
                    address,
                    len as nat,
                    if r is Ok {
                        r->Ok_0@
                    } else {
                        Seq::empty()
                    },
                    r is Ok,
                ),
            ),
            old(self).echoes() ==> r is Ok && r->Ok_0@ == loaded(
                old(self).memory(),
                address,
                len as nat,
            ) && final(self).echoes() && final(self).memory() == old(self).memory(),
    ;
}

/// Why a load failed. Every failure ends the load at once.
#[derive(Debug, Clone, Copy, PartialEq, Eq)]
pub enum LoadError {
    /// The image bytes are not a RAM boot image.
    Image(ImageError),
    /// A control transfer failed.
    Transport(rusb::Error),
    /// Chunk `chunk` of section `section` read back other than it was written.
    DataMismatch { section: usize, chunk: usize },
    /// The checksum stored in the image is not the one computed from its data.
    ChecksumMismatch { stored: u32, computed: u32 },
}

/// How many blocks of at most `CHUNK_SIZE` bytes a section of `len` bytes takes.
pub open spec fn chunk_count(len: int) -> int {
    (len + 4095) / 4096
}

/// Whether the bytes read back are exactly the bytes written.
pub fn check_readback(written: &[u8], readback: &[u8]) -> (r: bool)
    ensures
        r == (readback@ == written@),
{
    if written.len() != readback.len() {
        return false;
    }
    let mut i: usize = 0;
    while i < written.len()
        invariant
            written@.len() == readback@.len(),
            i <= written@.len(),
            forall|j: int| 0 <= j < i ==> written@[j] == readback@[j],
        decreases written@.len() - i,
    {
        if written[i] != readback[i] {
            return false;
        }
        i = i + 1;
    }
    proof {
        assert(readback@ =~= written@);
    }
    true
}

/// The address of the block that starts `offset` bytes into a section at `base`.
pub fn block_address(base: u32, offset: usize) -> (r: u32)
    ensures
        r as int == (base as int + offset as int) % modulus(),
{
    ((base as u64 + offset as u64 % 0x1_0000_0000u64) % 0x1_0000_0000u64) as u32
}

/// Block `k` of a section at `base` holding `d`: its device address, wrapping at
/// 2^32, and its bytes.
pub open spec fn block_spec(base: u32, d: Seq<u8>, k: int) -> (u32, Seq<u8>) {
    let end = if d.len() < 4096 * (k + 1) {
        d.len() as int
    } else {
        4096 * (k + 1)
    };
    (((base + 4096 * k) % modulus()) as u32, d.subrange(4096 * k, end))
}

/// The blocks that a section at `base` holding `d` is written in, in order.
pub open spec fn plan_spec(base: u32, d: Seq<u8>) -> Seq<(u32, Seq<u8>)> {
    Seq::new(chunk_count(d.len() as int) as nat, |k: int| block_spec(base, d, k))
}

/// A section is written in `chunk_count` blocks: all of `CHUNK_SIZE` bytes but the
/// last, which holds the rest (between one byte and a full block); block `k` goes to
/// the section's address plus `k` blocks.
pub proof fn lemma_block_plan(base: u32, d: Seq<u8>)
    ensures
        plan_spec(base, d).len() == chunk_count(d.len() as int),
        d.len() == 0 ==> plan_spec(base, d).len() == 0,
        forall|k: int|
            0 <= k < plan_spec(base, d).len() - 1 ==> (#[trigger] plan_spec(base, d)[k]).1.len()
                == 4096,
        d.len() > 0 ==> plan_spec(base, d).last().1.len() == d.len() - 4096 * (chunk_count(
            d.len() as int,
        ) - 1),
        d.len() > 0 ==> 1 <= plan_spec(base, d).last().1.len() <= 4096,
        forall|k: int|
            0 <= k < plan_spec(base, d).len() ==> (#[trigger] plan_spec(base, d)[k]).0 == ((base
                + 4096 * k) % modulus()) as u32,
{
    let n = chunk_count(d.len() as int);
    let len = d.len() as int;
    assert(n >= 0);
    assert forall|k: int| 0 <= k < n - 1 implies (#[trigger] plan_spec(base, d)[k]).1.len()
        == 4096 by {
        assert(4096 * (k + 1) <= len) by (nonlinear_arith)
            requires
                0 <= k < n - 1,
                n == (len + 4095) / 4096,
                len >= 0,
        ;
    }
    if len > 0 {
        assert(4096 * (n - 1) < len <= 4096 * n) by (nonlinear_arith)
            requires
                n == (len + 4095) / 4096,
                len > 0,
        ;
    }
}

/// The blocks that `section` is written in, in order.
pub fn block_plan(section: &Section) -> (r: Vec<Section>)
    ensures
        sections_view(r@) == plan_spec(section.address, section.data@),
{
    let data = section.data.as_slice();
    let len: usize = data.len();
    let ghost plan = plan_spec(section.address, section.data@);
    let mut blocks: Vec<Section> = Vec::new();
    let mut offset: usize = 0;
    let mut k: usize = 0;
    while offset < len
        invariant
            len == data@.len(),
            data@ == section.data@,
            plan == plan_spec(section.address, section.data@),
            offset < len ==> offset == 4096 * k,
            k <= chunk_count(len as int),
            offset < len ==> k < chunk_count(len as int),
            offset >= len ==> k == chunk_count(len as int),
            blocks@.len() == k,
            forall|j: int| 0 <= j < k ==> #[trigger] blocks@[j]@ == plan[j],
        decreases len + 4096 - offset,
    {
        let end: usize = if len - offset > CHUNK_SIZE {
            offset + CHUNK_SIZE
        } else {
            len
        };
        let block = Section {
            address: block_address(section.address, offset),
            data: copy_range(data, offset, end),
        };
        assert(block@ == plan[k as int]);
        blocks.push(block);
        k = k + 1;
        if end == len {
            assert(k == chunk_count(len as int));
            offset = len;
        } else {
            offset = end;
        }
    }
    proof {
        assert(sections_view(blocks@) =~= plan);
    }
    blocks
}

/// How a section's transfers `t` over blocks `bs` decide its result: success when every
/// block was written and read back intact; a failed transfer ends it with `Transport`;
/// a read-back that differs ends it with `DataMismatch` naming that block. Every
/// transfer before the last one succeeded and read back intact.
pub open spec fn section_outcome(
    bs: Seq<(u32, Seq<u8>)>,
    t: Seq<RamOp>,
    r: Result<usize, LoadError>,
) -> bool {
    &&& t.len() > 0 ==> good_upto(bs, t, t.len() - 1)
    &&& r is Ok ==> t.len() == 2 * bs.len() && good_upto(bs, t, t.len() as int)
    &&& r is Err && r->Err_0 is Transport ==> t.len() > 0 && !t.last().4
    &&& r is Err && r->Err_0 is DataMismatch ==> t.len() == 2 * r->Err_0->chunk + 2 && t.last().4
        && t.last().3 != bs[r->Err_0->chunk as int].1
}

/// Writes one section block by block, as `block_plan` cuts it; after each block reads
/// the same length back at the same address and compares. Returns the number of
/// blocks written.
pub fn write_section<P: DeviceRam>(dev: &mut P, index: usize, section: &Section) -> (r: Result<
    usize,
    LoadError,
>)
    ensures
        r is Ok ==> r->Ok_0 == chunk_count(section.data@.len() as int),
        r is Err ==> (r->Err_0 is Transport || r->Err_0 == LoadError::DataMismatch {
            section: index,
            chunk: r->Err_0->chunk,
        }),
        r is Err && r->Err_0 is DataMismatch ==> r->Err_0->chunk < chunk_count(
            section.data@.len() as int,
        ),
        old(dev).echoes() ==> r is Ok && final(dev).echoes(),
        old(dev).echoes() && section.data@.len() <= modulus() ==> final(dev).memory() == stored(
            old(dev).memory(),
            section.address,
            section.data@,
        ),
        extends(old(dev).history(), final(dev).history()),
        follows(
            plan_spec(section.address, section.data@),
            new_ops(old(dev).history(), final(dev).history()),
        ),
        section_outcome(
            plan_spec(section.address, section.data@),
            new_ops(old(dev).history(), final(dev).history()),
            r,
        ),
{
    let ghost e0 = dev.echoes();
    let ghost h0 = dev.history();
    let ghost bs = plan_spec(section.address, section.data@);
    let blocks = block_plan(section);
    proof {
        let plan = plan_spec(section.address, section.data@);
        lemma_block_plan(section.address, section.data@);
        assert forall|j: int| 0 <= j < blocks@.len() implies (#[trigger] blocks@[j]).data@.len()
            <= 4096 by {
            assert(sections_view(blocks@)[j] == blocks@[j]@);
            if j < plan.len() - 1 {
                assert(plan[j].1.len() == 4096);
            } else {
                assert(plan[j] == plan.last());
            }
        }
    }
    let ghost m0 = dev.memory();
    let ghost d = section.data@;
    let ghost mut done: int = 0;
    proof {
        assert(h0.subrange(0, h0.len() as int) =~= h0);
        assert(new_ops(h0, h0).len() == 0);
        assert(stored(m0, section.address, d.subrange(0, 0)) =~= m0);
    }
    let mut k: usize = 0;
    while k < blocks.len()
        invariant
            blocks@.len() == chunk_count(section.data@.len() as int),
            forall|j: int|
                0 <= j < blocks@.len() ==> (#[trigger] blocks@[j]).data@.len() <= 4096,
            sections_view(blocks@) == plan_spec(section.address, section.data@),
            k <= blocks@.len(),
            e0 == old(dev).echoes(),
            e0 ==> dev.echoes(),
            h0 == old(dev).history(),
            bs == plan_spec(section.address, section.data@),
            extends(h0, dev.history()),
            new_ops(h0, dev.history()).len() == 2 * k,
            follows(bs, new_ops(h0, dev.history())),
            good_upto(bs, new_ops(h0, dev.history()), 2 * k),
            m0 == old(dev).memory(),
            d == section.data@,
            0 <= done <= d.len(),
            k < blocks@.len() ==> done == 4096 * k,
            k == blocks@.len() ==> done == d.len(),
            e0 && d.len() <= modulus() ==> dev.memory() == stored(
                m0,
                section.address,
                d.subrange(0, done),
            ),
        decreases blocks@.len() - k,
    {
        let block = &blocks[k];
        let ghost before = dev.memory();
        let ghost t0 = new_ops(h0, dev.history());
        proof {
            let lk = bs[k as int].1.len() as int;
            if k + 1 < blocks@.len() {
                assert(bs[k as int].1.len() == 4096);
            } else {
                assert(bs[k as int] == bs.last());
            }
            assert(k + 1 < blocks@.len() ==> done + lk == 4096 * (k + 1));
            assert(k + 1 == blocks@.len() ==> done + lk == d.len());
            assert(bs[k as int].1 =~= d.subrange(done, done + lk));
            assert(bs[k as int].0 == ((section.address + done) % modulus()) as u32);
            if e0 && d.len() <= modulus() {
                lemma_store_concat(m0, section.address, d.subrange(0, done), d.subrange(done, done + lk));
                assert(d.subrange(0, done) + d.subrange(done, done + lk) =~= d.subrange(0, done + lk));
            }
        }
        let ghost hb = dev.history();
        proof {
            assert(block@ == bs[k as int]);
        }
        let wr = dev.write_ram(block.address, block.data.as_slice());
        let ghost t1 = new_ops(h0, dev.history());
        proof {
            assert(t1 =~= t0.push(dev.history().last()));
            assert(dev.history().subrange(0, h0.len() as int) =~= hb.subrange(0, h0.len() as int));
            assert forall|j: int| 0 <= j < bs.len() implies #[trigger] pair_follows(bs, t1, j) by {
                assert(pair_follows(bs, t0, j));
            }
            assert forall|j: int| 0 <= j < bs.len() implies #[trigger] pair_good(bs, t1, 2 * k, j) by {
                assert(pair_good(bs, t0, 2 * k, j));
            }
        }
        match wr {
            Ok(()) => {},
            Err(e) => {
                return Err(LoadError::Transport(e));
            },
        }
        let ghost hw = dev.history();
        let rd = dev.read_ram(block.address, block.data.len());
        let ghost t2 = new_ops(h0, dev.history());
        proof {
            assert(t2 =~= t1.push(dev.history().last()));
            assert(dev.history().subrange(0, h0.len() as int) =~= hw.subrange(0, h0.len() as int));
            assert forall|j: int| 0 <= j < bs.len() implies #[trigger] pair_follows(bs, t2, j) by {
                assert(pair_follows(bs, t1, j));
            }
            assert forall|j: int| 0 <= j < bs.len() implies #[trigger] pair_good(bs, t2, 2 * k + 1, j) by {
                assert(pair_good(bs, t1, 2 * k, j));
            }
            assert(t2.last() == t2[2 * k + 1]);
        }
        let readback = match rd {
            Ok(v) => v,
            Err(e) => {
                return Err(LoadError::Transport(e));
            },
        };
        proof {
            if e0 {
                lemma_load_after_store(before, block.address, block.data@);
            }
        }
        let same = check_readback(block.data.as_slice(), readback.as_slice());
        proof {
            assert(t2[2 * k + 1].3 == readback@);
            assert(bs[k as int].1 == block.data@);
        }
        if !same {
            return Err(LoadError::DataMismatch { section: index, chunk: k });
        }
        proof {
            assert(t2[2 * k + 1].4);
            assert(t2[2 * k + 1].3 == bs[k as int].1);
            assert forall|j: int| 0 <= j < bs.len() implies #[trigger] pair_good(bs, t2, 2 * k + 2, j) by {
                assert(pair_good(bs, t2, 2 * k + 1, j));
            }
            assert(good_upto(bs, t2, 2 * k + 2));
            assert(t2 == new_ops(h0, dev.history()));
        }
        proof {
            done = done + bs[k as int].1.len();
        }
        k = k + 1;
    }
    proof {
        assert(bs.len() == blocks@.len());
        if blocks@.len() == 0 {
            assert(d.len() == 0);
        }
        assert(d.subrange(0, d.len() as int) =~= d);
        let t = new_ops(h0, dev.history());
        assert forall|j: int| 0 <= j < bs.len() implies #[trigger] pair_good(bs, t, t.len() - 1, j) by {
            assert(pair_good(bs, t, t.len() as int, j));
        }
    }
    Ok(k)
}

/// `m` after every section of `secs` is stored, in order.
pub open spec fn stored_all(m: Map<u32, u8>, secs: Seq<(u32, Seq<u8>)>) -> Map<u32, u8>
    decreases secs.len(),
{
    if secs.len() == 0 {
        m
    } else {
        stored(stored_all(m, secs.drop_last()), secs.last().0, secs.last().1)
    }
}

/// No section is longer than the address space, so none wraps onto itself.
pub open spec fn sections_fit(secs: Seq<(u32, Seq<u8>)>) -> bool {
    forall|i: int| 0 <= i < secs.len() ==> (#[trigger] secs[i]).1.len() <= modulus()
}

/// The blocks of all sections, in load order.
pub open spec fn load_blocks(secs: Seq<(u32, Seq<u8>)>) -> Seq<(u32, Seq<u8>)>
    decreases secs.len(),
{
    if secs.len() == 0 {
        Seq::empty()
    } else {
        load_blocks(secs.drop_last()) + plan_spec(secs.last().0, secs.last().1)
    }
}

/// The transfers `t` of a load of blocks `bs` with jump address `jump`: a write and a
/// read-back of each block in order, then the empty write at the jump address, possibly
/// cut short.
pub open spec fn load_follows(bs: Seq<(u32, Seq<u8>)>, jump: u32, t: Seq<RamOp>) -> bool {
    if t.len() > 2 * bs.len() {
        &&& t.len() == 2 * bs.len() + 1
        &&& follows(bs, t.drop_last())
        &&& write_of(t.last(), (jump, Seq::empty()))
    } else {
        follows(bs, t)
    }
}

/// How a load's transfers `t` over `secs` decide its result: success only after every
/// block was written and read back intact and the jump write succeeded; a failed
/// transfer ends it with `Transport`; a differing read-back ends it with `DataMismatch`
/// naming that block; a checksum mismatch comes after all blocks and before the jump.
/// Every transfer before the last one succeeded and read back intact.
pub open spec fn load_outcome(secs: Seq<(u32, Seq<u8>)>, t: Seq<RamOp>, r: Result<(), LoadError>) -> bool {
    let bs = load_blocks(secs);
    &&& t.len() > 0 ==> good_upto(bs, t, t.len() - 1)
    &&& r is Ok ==> t.len() == 2 * bs.len() + 1 && good_upto(bs, t, 2 * bs.len() as int) && t.last().4
    &&& r is Err && r->Err_0 is Transport ==> t.len() > 0 && !t.last().4
    &&& r is Err && r->Err_0 is ChecksumMismatch ==> t.len() == 2 * bs.len() && good_upto(
        bs,
        t,
        t.len() as int,
    )
    &&& r is Err && r->Err_0 is DataMismatch ==> {
        let at = load_blocks(secs.take(r->Err_0->section as int)).len() + r->Err_0->chunk;
        &&& t.len() == 2 * at + 2
        &&& t.last().4
        &&& t.last().3 != bs[at].1
    }
}

/// The blocks of the first `i` sections come first among the blocks of all.
pub proof fn lemma_load_blocks_prefix(secs: Seq<(u32, Seq<u8>)>, i: int)
    requires
        0 <= i <= secs.len(),
    ensures
        load_blocks(secs.take(i)).len() <= load_blocks(secs).len(),
        load_blocks(secs).subrange(0, load_blocks(secs.take(i)).len() as int) == load_blocks(
            secs.take(i),
        ),
    decreases secs.len(),
{
    if i == secs.len() {
        assert(secs.take(i) =~= secs);
        assert(load_blocks(secs).subrange(0, load_blocks(secs).len() as int) =~= load_blocks(secs));
    } else {
        lemma_load_blocks_prefix(secs.drop_last(), i);
        assert(secs.drop_last().take(i) =~= secs.take(i));
        let a = load_blocks(secs.drop_last());
        let p = plan_spec(secs.last().0, secs.last().1);
        assert((a + p).subrange(0, load_blocks(secs.take(i)).len() as int) =~= a.subrange(
            0,
            load_blocks(secs.take(i)).len() as int,
        ));
    }
}

/// One more section adds its blocks at the end.
pub proof fn lemma_load_blocks_step(secs: Seq<(u32, Seq<u8>)>, i: int)
    requires
        0 <= i < secs.len(),
    ensures
        load_blocks(secs.take(i + 1)) == load_blocks(secs.take(i)) + plan_spec(secs[i].0, secs[i].1),
{
    assert(secs.take(i + 1).drop_last() =~= secs.take(i));
    assert(secs.take(i + 1).last() == secs[i]);
}

/// What holds of the transfers of a prefix of the blocks holds of the whole.
pub proof fn lemma_prefix_blocks(small: Seq<(u32, Seq<u8>)>, big: Seq<(u32, Seq<u8>)>, t: Seq<RamOp>, n: int)
    requires
        small.len() <= big.len(),
        big.subrange(0, small.len() as int) == small,
        n <= 2 * small.len(),
    ensures
        follows(small, t) ==> follows(big, t),
        good_upto(small, t, n) ==> good_upto(big, t, n),
{
    assert forall|k: int| 0 <= k < small.len() implies big[k] == small[k] by {
        assert(big.subrange(0, small.len() as int)[k] == big[k]);
    }
    if follows(small, t) {
        assert forall|k: int| 0 <= k < big.len() implies #[trigger] pair_follows(big, t, k) by {
            if k < small.len() {
                assert(pair_follows(small, t, k));
            }
        }
    }
    if good_upto(small, t, n) {
        assert forall|k: int| 0 <= k < big.len() implies #[trigger] pair_good(big, t, n, k) by {
            if k < small.len() {
                assert(pair_good(small, t, n, k));
            }
        }
    }
}

/// The transfers of two runs of blocks, one after the other.
pub proof fn lemma_concat_blocks(
    a: Seq<(u32, Seq<u8>)>,
    ta: Seq<RamOp>,
    p: Seq<(u32, Seq<u8>)>,
    s: Seq<RamOp>,
    m: int,
)
    requires
        ta.len() == 2 * a.len(),
        follows(a, ta),
        good_upto(a, ta, ta.len() as int),
        0 <= m <= s.len(),
    ensures
        follows(p, s) ==> follows(a + p, ta + s),
        good_upto(p, s, m) ==> good_upto(a + p, ta + s, ta.len() + m),
{
    let t = ta + s;
    if follows(p, s) {
        assert forall|k: int| 0 <= k < (a + p).len() implies #[trigger] pair_follows(a + p, t, k) by {
            if k < a.len() {
                assert(pair_follows(a, ta, k));
                assert(t[2 * k] == ta[2 * k]);
                assert(t[2 * k + 1] == ta[2 * k + 1]);
            } else {
                let j = k - a.len();
                assert(pair_follows(p, s, j));
                assert((a + p)[k] == p[j]);
                assert(2 * k - ta.len() == 2 * j);
            }
        }
    }
    if good_upto(p, s, m) {
        assert forall|k: int| 0 <= k < (a + p).len() implies #[trigger] pair_good(
            a + p,
            t,
            ta.len() + m,
            k,
        ) by {
            if k < a.len() {
                assert(pair_good(a, ta, ta.len() as int, k));
                assert(t[2 * k] == ta[2 * k]);
                assert(t[2 * k + 1] == ta[2 * k + 1]);
            } else {
                let j = k - a.len();
                assert(pair_good(p, s, m, j));
                assert((a + p)[k] == p[j]);
            }
        }
    }
}

/// The error for an image that did not parse.
pub open spec fn image_error(s: Seq<u8>) -> ImageError {
    image_spec(s)->Err_0
}

/// Loads a RAM boot image into the device: parses it, writes every section block by
/// block with readback verification, compares the stored checksum with the computed
/// one, then sends an empty write to the jump address to start the code.
pub fn fx3_load_ram<P: DeviceRam>(dev: &mut P, ram: &[u8]) -> (r: Result<(), LoadError>)
    ensures
        r is Ok ==> image_valid(ram@),
        image_spec(ram@) is Err ==> r == Err::<(), LoadError>(LoadError::Image(image_error(ram@))),
        image_spec(ram@) is Ok && !image_valid(ram@) ==> r is Err,
        r is Err && r->Err_0 is Image ==> image_spec(ram@) is Err,
        r is Err && r->Err_0 is DataMismatch ==> (image_spec(ram@) is Ok && r->Err_0->section
            < image_spec(ram@)->Ok_0.0.len() && r->Err_0->chunk < chunk_count(
            image_spec(ram@)->Ok_0.0[r->Err_0->section as int].1.len() as int,
        )),
        r is Err && r->Err_0 is ChecksumMismatch ==> (image_spec(ram@) is Ok && r->Err_0->stored
            == image_spec(ram@)->Ok_0.2 && r->Err_0->computed == checksum_spec(
            image_spec(ram@)->Ok_0.0,
        ) && !image_valid(ram@)),
        old(dev).echoes() && image_valid(ram@) ==> r is Ok,
        old(dev).echoes() && image_spec(ram@) is Ok && !image_valid(ram@) ==> r == Err::<
            (),
            LoadError,
        >(
            LoadError::ChecksumMismatch {
                stored: image_spec(ram@)->Ok_0.2,
                computed: checksum_spec(image_spec(ram@)->Ok_0.0),
            },
        ),
        old(dev).echoes() && r is Ok && sections_fit(image_spec(ram@)->Ok_0.0)
            ==> final(dev).memory() == stored_all(old(dev).memory(), image_spec(ram@)->Ok_0.0),
        extends(old(dev).history(), final(dev).history()),
        image_spec(ram@) is Err ==> final(dev).history() == old(dev).history(),
        image_spec(ram@) is Ok ==> load_follows(
            load_blocks(image_spec(ram@)->Ok_0.0),
            image_spec(ram@)->Ok_0.1,
            new_ops(old(dev).history(), final(dev).history()),
        ),
        image_spec(ram@) is Ok ==> load_outcome(
            image_spec(ram@)->Ok_0.0,
            new_ops(old(dev).history(), final(dev).history()),
            r,
        ),
{
    let ghost e0 = dev.echoes();
    let ghost h0 = dev.history();
    proof {
        assert(h0.subrange(0, h0.len() as int) =~= h0);
    }
    let image: BootImage = match parse_image(ram) {
        Ok(img) => img,
        Err(e) => {
            return Err(LoadError::Image(e));
        },
    };
    let ghost secs = image.sections_spec();
    let ghost all = load_blocks(secs);
    let ghost m0 = dev.memory();
    let ghost fit = sections_fit(secs);
    proof {
        assert(secs.take(0) =~= Seq::<(u32, Seq<u8>)>::empty());
        assert(new_ops(h0, h0) =~= Seq::<RamOp>::empty());
    }
    let mut i: usize = 0;
    while i < image.sections.len()
        invariant
            image_spec(ram@) == Ok::<_, ImageError>(
                (image.sections_spec(), image.jump_address, image.stored_checksum),
            ),
            secs == image.sections_spec(),
            all == load_blocks(secs),
            i <= image.sections@.len(),
            e0 == old(dev).echoes(),
            e0 ==> dev.echoes(),
            h0 == old(dev).history(),
            extends(h0, dev.history()),
            new_ops(h0, dev.history()).len() == 2 * load_blocks(secs.take(i as int)).len(),
            follows(load_blocks(secs.take(i as int)), new_ops(h0, dev.history())),
            good_upto(
                load_blocks(secs.take(i as int)),
                new_ops(h0, dev.history()),
                new_ops(h0, dev.history()).len() as int,
            ),
            m0 == old(dev).memory(),
            fit == sections_fit(secs),
            e0 && fit ==> dev.memory() == stored_all(m0, secs.take(i as int)),
        decreases image.sections@.len() - i,
    {
        let ghost ti = new_ops(h0, dev.history());
        let ghost hi = dev.history();
        let ghost lbi = load_blocks(secs.take(i as int));
        let ghost sec = secs[i as int];
        let res = write_section(dev, i, &image.sections[i]);
        let ghost seg = new_ops(hi, dev.history());
        let ghost t = new_ops(h0, dev.history());
        proof {
            assert(sec == image.sections@[i as int]@);
            let p = plan_spec(sec.0, sec.1);
            lemma_load_blocks_step(secs, i as int);
            assert(secs.take(i + 1).drop_last() =~= secs.take(i as int));
            assert(secs.take(i + 1).last() == sec);
            if fit {
                assert(sec.1.len() <= modulus());
            }
            lemma_load_blocks_prefix(secs, i + 1);
            lemma_load_blocks_prefix(secs, i as int);
            assert(secs.take(secs.len() as int) =~= secs);
            assert(t =~= ti + seg);
            assert(dev.history().subrange(0, h0.len() as int) =~= hi.subrange(0, h0.len() as int));
            let lb1 = load_blocks(secs.take(i + 1));
            assert(lb1 == lbi + p);
            let m = if res is Ok {
                seg.len() as int
            } else {
                seg.len() - 1
            };
            if res is Err {
                assert(seg.len() > 0);
            }
            lemma_concat_blocks(lbi, ti, p, seg, m);
            assert(follows(lb1, t));
            assert(good_upto(lb1, t, ti.len() + m));
            lemma_prefix_blocks(lb1, all, t, ti.len() + m);
            if res is Err && res->Err_0 is DataMismatch {
                let c = res->Err_0->chunk as int;
                assert(lb1[lbi.len() + c] == p[c]);
                assert(all.subrange(0, lb1.len() as int)[lbi.len() + c] == all[lbi.len() + c]);
                assert(t.last() == seg.last());
            }
            if res is Err && res->Err_0 is Transport {
                assert(t.last() == seg.last());
            }
        }
        match res {
            Ok(_) => {},
            Err(e) => {
                return Err(e);
            },
        }
        i = i + 1;
    }
    proof {
        assert(secs.take(secs.len() as int) =~= secs);
        let t = new_ops(h0, dev.history());
        assert(load_blocks(secs.take(i as int)) == all);
        assert forall|k: int| 0 <= k < all.len() implies #[trigger] pair_good(
            all,
            t,
            t.len() - 1,
            k,
        ) by {
            assert(pair_good(all, t, t.len() as int, k));
        }
    }
    let computed = image.computed_checksum();
    if computed != image.stored_checksum {
        return Err(LoadError::ChecksumMismatch { stored: image.stored_checksum, computed });
    }
    let ghost tb = new_ops(h0, dev.history());
    let ghost hb = dev.history();
    let ghost hb_mem = dev.memory();
    let empty: [u8; 0] = [];
    let jr = dev.write_ram(image.jump_address, &empty);
    proof {
        let t = new_ops(h0, dev.history());
        assert(empty@ =~= Seq::<u8>::empty());
        assert(stored(hb_mem, image.jump_address, Seq::<u8>::empty()) =~= hb_mem);
        assert(t =~= tb.push(dev.history().last()));
        assert(t.drop_last() =~= tb);
        assert(dev.history().subrange(0, h0.len() as int) =~= hb.subrange(0, h0.len() as int));
        assert forall|k: int| 0 <= k < all.len() implies #[trigger] pair_good(
            all,
            t,
            2 * all.len() as int,
            k,
        ) by {
            assert(pair_good(all, tb, tb.len() as int, k));
        }
    }
    match jr {
        Ok(()) => Ok(()),
        Err(e) => Err(LoadError::Transport(e)),
    }
}

} // verus!
