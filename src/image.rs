//! The RAM boot image: a 4-byte header, a run of address/data records closed by a
//! record of length zero that names the jump address, and a trailing checksum.
use vstd::arithmetic::div_mod::lemma_add_mod_noop_right;
use vstd::prelude::*;

verus! {

/// First byte of the image magic, `'C'`.
pub const MAGIC_0: u8 = 0x43;

/// Second byte of the image magic, `'Y'`.
pub const MAGIC_1: u8 = 0x59;

/// Image-type byte of an image that boots from RAM.
pub const RAM_BOOT_TYPE: u8 = 0xB0;

/// Largest block written (and read back) in one control transfer.
pub const CHUNK_SIZE: usize = 4096;

/// The checksum and every address wrap at this modulus.
pub open spec fn modulus() -> int {
    0x1_0000_0000
}

/// The little-endian 32-bit word that starts at byte `i` of `s`.
pub open spec fn le_u32(s: Seq<u8>, i: int) -> int {
    s[i] as int + s[i + 1] as int * 0x100 + s[i + 2] as int * 0x1_0000 + s[i + 3] as int
        * 0x100_0000
}

/// Sum, without wrapping, of the first `n` little-endian words of `d`.
pub open spec fn word_sum(d: Seq<u8>, n: int) -> int
    decreases n,
{
    if n <= 0 {
        0
    } else {
        word_sum(d, n - 1) + le_u32(d, 4 * (n - 1))
    }
}

/// Sum, without wrapping, of every data word of every section, in image order.
pub open spec fn sections_sum(secs: Seq<(u32, Seq<u8>)>) -> int
    decreases secs.len(),
{
    if secs.len() == 0 {
        0
    } else {
        sections_sum(secs.drop_last()) + word_sum(secs.last().1, (secs.last().1.len() / 4) as int)
    }
}

/// The image checksum: the wrapping 32-bit sum of all data words.
pub open spec fn checksum_spec(secs: Seq<(u32, Seq<u8>)>) -> u32 {
    (sections_sum(secs) % modulus()) as u32
}

/// The records from byte `pos` on: the sections, the jump address and the offset just
/// past the closing record; `None` where the bytes end inside a record.
pub open spec fn records_from(s: Seq<u8>, pos: int) -> Option<(Seq<(u32, Seq<u8>)>, u32, int)>
    decreases s.len() - pos,
{
    if pos < 0 || pos + 8 > s.len() {
        None
    } else {
        let words = le_u32(s, pos);
        let addr = le_u32(s, pos + 4) as u32;
        if words == 0 {
            Some((Seq::empty(), addr, pos + 8))
        } else if pos + 8 + 4 * words > s.len() {
            None
        } else {
            let end = pos + 8 + 4 * words;
            match records_from(s, end) {
                Some((rest, jump, fin)) => Some(
                    (seq![(addr, s.subrange(pos + 8, end))] + rest, jump, fin),
                ),
                None => None,
            }
        }
    }
}

/// Why an image was not accepted.
#[derive(Debug, Clone, Copy, PartialEq, Eq, Structural)]
pub enum ImageError {
    /// The first two bytes are not the magic `'C' 'Y'`.
    BadMagic,
    /// The fourth byte is not the RAM boot type.
    UnsupportedType,
    /// The bytes end inside the header, a record or the checksum.
    Truncated,
}

/// A parsed image, as sections, jump address and stored checksum.
pub open spec fn image_spec(s: Seq<u8>) -> Result<(Seq<(u32, Seq<u8>)>, u32, u32), ImageError> {
    if s.len() < 4 {
        Err(ImageError::Truncated)
    } else if s[0] != MAGIC_0 || s[1] != MAGIC_1 {
        Err(ImageError::BadMagic)
    } else if s[3] != RAM_BOOT_TYPE {
        Err(ImageError::UnsupportedType)
    } else {
        match records_from(s, 4) {
            None => Err(ImageError::Truncated),
            Some((secs, jump, fin)) => if fin + 4 > s.len() {
                Err(ImageError::Truncated)
            } else {
                Ok((secs, jump, le_u32(s, fin) as u32))
            },
        }
    }
}

/// An image is valid when it parses and its stored checksum is the one computed.
pub open spec fn image_valid(s: Seq<u8>) -> bool {
    match image_spec(s) {
        Ok((secs, _, stored)) => stored == checksum_spec(secs),
        Err(_) => false,
    }
}

/// One contiguous write into device RAM.
pub struct Section {
    pub address: u32,
    pub data: Vec<u8>,
}

impl View for Section {
    type V = (u32, Seq<u8>);

    open spec fn view(&self) -> (u32, Seq<u8>) {
        (self.address, self.data@)
    }
}

/// The view of a list of sections.
pub open spec fn sections_view(v: Seq<Section>) -> Seq<(u32, Seq<u8>)> {
    v.map_values(|s: Section| s@)
}

/// A parsed RAM boot image.
pub struct BootImage {
    pub sections: Vec<Section>,
    pub jump_address: u32,
    pub stored_checksum: u32,
}

impl BootImage {
    pub open spec fn sections_spec(&self) -> Seq<(u32, Seq<u8>)> {
        sections_view(self.sections@)
    }

    /// The wrapping 32-bit sum of every data word of every section, in image order.
    pub fn computed_checksum(&self) -> (r: u32)
        ensures
            r == checksum_spec(self.sections_spec()),
    {
        checksum_of(&self.sections)
    }

    /// Whether the stored checksum equals the computed one.
    pub fn checksum_matches(&self) -> (r: bool)
        ensures
            r == (self.stored_checksum == checksum_spec(self.sections_spec())),
    {
        self.computed_checksum() == self.stored_checksum
    }
}

/// `r` with the sections `p` put before its own.
pub open spec fn extend(
    p: Seq<(u32, Seq<u8>)>,
    r: Option<(Seq<(u32, Seq<u8>)>, u32, int)>,
) -> Option<(Seq<(u32, Seq<u8>)>, u32, int)> {
    match r {
        Some((rest, jump, fin)) => Some((p + rest, jump, fin)),
        None => None,
    }
}

/// The parse result of `r`, over views.
pub open spec fn parsed_view(r: Result<BootImage, ImageError>) -> Result<
    (Seq<(u32, Seq<u8>)>, u32, u32),
    ImageError,
> {
    match r {
        Ok(img) => Ok((img.sections_spec(), img.jump_address, img.stored_checksum)),
        Err(e) => Err(e),
    }
}

/// Parses a RAM boot image: checks the header, collects the sections up to the
/// closing record and reads the stored checksum. The checksum is not compared here.
pub fn parse_image(bytes: &[u8]) -> (r: Result<BootImage, ImageError>)
    ensures
        parsed_view(r) == image_spec(bytes@),
{
    let n: usize = bytes.len();
    if n < 4 {
        return Err(ImageError::Truncated);
    }
    if bytes[0] != MAGIC_0 || bytes[1] != MAGIC_1 {
        return Err(ImageError::BadMagic);
    }
    if bytes[3] != RAM_BOOT_TYPE {
        return Err(ImageError::UnsupportedType);
    }
    let mut sections: Vec<Section> = Vec::new();
    let mut pos: usize = 4;
    proof {
        let r = records_from(bytes@, 4);
        if let Some((rest, j, f)) = r {
            assert(sections_view(sections@) + rest =~= rest);
        }
    }
    loop
        invariant
            n == bytes@.len(),
            4 <= pos <= n,
            image_spec(bytes@) == (match records_from(bytes@, 4) {
                None => Err(ImageError::Truncated),
                Some((secs, jump, fin)) => if fin + 4 > bytes@.len() {
                    Err(ImageError::Truncated)
                } else {
                    Ok((secs, jump, le_u32(bytes@, fin) as u32))
                },
            }),
            records_from(bytes@, 4) == extend(
                sections_view(sections@),
                records_from(bytes@, pos as int),
            ),
        decreases n - pos,
    {
        if n - pos < 8 {
            return Err(ImageError::Truncated);
        }
        let words = read_le_u32(bytes, pos);
        let addr = read_le_u32(bytes, pos + 4);
        if words == 0 {
            let fin: usize = pos + 8;
            if n - fin < 4 {
                return Err(ImageError::Truncated);
            }
            let stored = read_le_u32(bytes, fin);
            proof {
                assert(sections_view(sections@) + Seq::<(u32, Seq<u8>)>::empty() =~= sections_view(
                    sections@,
                ));
            }
            return Ok(BootImage { sections, jump_address: addr, stored_checksum: stored });
        }
        let avail: usize = n - pos - 8;
        if (words as u64) * 4 > avail as u64 {
            return Err(ImageError::Truncated);
        }
        let size: usize = words as usize * 4;
        let start: usize = pos + 8;
        let data = copy_range(bytes, start, start + size);
        let ghost prev = sections_view(sections@);
        let ghost x = (addr, bytes@.subrange(start as int, start + size));
        sections.push(Section { address: addr, data });
        pos = start + size;
        proof {
            assert(sections_view(sections@) =~= prev.push(x));
            if let Some((rest, j, f)) = records_from(bytes@, pos as int) {
                assert(prev + (seq![x] + rest) =~= prev.push(x) + rest);
            }
        }
    }
}

/// A copy of `bytes[start..end]`.
pub fn copy_range(bytes: &[u8], start: usize, end: usize) -> (r: Vec<u8>)
    requires
        start <= end <= bytes@.len(),
    ensures
        r@ == bytes@.subrange(start as int, end as int),
{
    let mut v: Vec<u8> = Vec::new();
    let mut i: usize = start;
    while i < end
        invariant
            start <= i <= end,
            end <= bytes@.len(),
            v@ == bytes@.subrange(start as int, i as int),
        decreases end - i,
    {
        v.push(bytes[i]);
        i = i + 1;
        proof {
            assert(v@ =~= bytes@.subrange(start as int, i as int));
        }
    }
    v
}

/// The weight of byte `j` (0 to 3) of a little-endian word.
pub open spec fn byte_weight(j: int) -> int {
    if j == 0 {
        1
    } else if j == 1 {
        0x100
    } else if j == 2 {
        0x1_0000
    } else {
        0x100_0000
    }
}

/// Changing byte `k` of `d` moves the sum of its first `n` words by the change of that
/// byte times its weight, where `k` lies in those words.
pub proof fn lemma_word_sum_update(d: Seq<u8>, n: int, k: int, b: u8)
    requires
        0 <= n,
        4 * n <= d.len(),
        0 <= k < d.len(),
    ensures
        word_sum(d.update(k, b), n) == word_sum(d, n) + if k < 4 * n {
            (b - d[k]) * byte_weight(k % 4)
        } else {
            0
        },
    decreases n,
{
    if n > 0 {
        lemma_word_sum_update(d, n - 1, k, b);
        let e = d.update(k, b);
        let base = 4 * (n - 1);
        if base <= k < base + 4 {
            assert(k % 4 == k - base);
        }
        assert(le_u32(e, base) == le_u32(d, base) + if base <= k < base + 4 {
            (b - d[k]) * byte_weight(k % 4)
        } else {
            0
        });
    }
}

/// Replacing the data of section `i` moves the total by the change of that section's sum.
pub proof fn lemma_sections_sum_update(secs: Seq<(u32, Seq<u8>)>, i: int, nd: Seq<u8>)
    requires
        0 <= i < secs.len(),
    ensures
        sections_sum(secs.update(i, (secs[i].0, nd))) == sections_sum(secs) - word_sum(
            secs[i].1,
            (secs[i].1.len() / 4) as int,
        ) + word_sum(nd, (nd.len() / 4) as int),
    decreases secs.len(),
{
    let s2 = secs.update(i, (secs[i].0, nd));
    if i == secs.len() - 1 {
        assert(s2.drop_last() =~= secs.drop_last());
    } else {
        lemma_sections_sum_update(secs.drop_last(), i, nd);
        assert(s2.drop_last() =~= secs.drop_last().update(i, (secs[i].0, nd)));
    }
}

/// Corrupting any one data byte of a well-formed image changes its checksum: the sum
/// moves by the byte's change times its weight in the word, which is never a multiple
/// of 2^32.
pub proof fn lemma_corrupt_byte_changes_checksum(
    secs: Seq<(u32, Seq<u8>)>,
    i: int,
    k: int,
    b: u8,
)
    requires
        0 <= i < secs.len(),
        secs[i].1.len() % 4 == 0,
        0 <= k < secs[i].1.len(),
        b != secs[i].1[k],
    ensures
        checksum_spec(secs.update(i, (secs[i].0, secs[i].1.update(k, b)))) != checksum_spec(secs),
{
    let d = secs[i].1;
    let n = (d.len() / 4) as int;
    let nd = d.update(k, b);
    lemma_word_sum_update(d, n, k, b);
    lemma_sections_sum_update(secs, i, nd);
    let delta = (b - d[k]) * byte_weight(k % 4);
    let total = sections_sum(secs);
    assert(sections_sum(secs.update(i, (secs[i].0, nd))) == total + delta);
    assert(delta != 0 && -modulus() < delta < modulus()) by (nonlinear_arith)
        requires
            delta == (b - d[k]) * byte_weight(k % 4),
            b != d[k],
            1 <= byte_weight(k % 4) <= 0x100_0000,
    ;
    assert((total + delta) % modulus() != total % modulus()) by (nonlinear_arith)
        requires
            delta != 0,
            -modulus() < delta < modulus(),
            modulus() == 0x1_0000_0000,
    ;
}

/// Reads the little-endian 32-bit word at byte `i`.
pub fn read_le_u32(bytes: &[u8], i: usize) -> (r: u32)
    requires
        i + 4 <= bytes@.len(),
    ensures
        r as int == le_u32(bytes@, i as int),
{
    bytes[i] as u32 + bytes[i + 1] as u32 * 0x100 + bytes[i + 2] as u32 * 0x1_0000 + bytes[i + 3]
        as u32 * 0x100_0000
}

/// Adds `w` to `acc` modulo 2^32.
fn add_wrapping(acc: u32, w: u32) -> (r: u32)
    ensures
        r as int == (acc as int + w as int) % modulus(),
{
    ((acc as u64 + w as u64) % 0x1_0000_0000u64) as u32
}

/// The wrapping sum of the little-endian words of `data`, added to `start`.
pub fn word_checksum(start: u32, data: &[u8]) -> (r: u32)
    ensures
        r as int == (start as int + word_sum(data@, (data@.len() / 4) as int)) % modulus(),
{
    let len: usize = data.len();
    let n: usize = len / 4;
    let mut acc: u32 = start;
    let mut i: usize = 0;
    proof {
        vstd::arithmetic::div_mod::lemma_small_mod(start as nat, modulus() as nat);
        let len = data@.len() as int;
        assert(4 * (len / 4) <= len) by (nonlinear_arith);
    }
    while i < n
        invariant
            len == data@.len(),
            n == data@.len() / 4,
            4 * n <= data@.len(),
            i <= n,
            acc as int == (start as int + word_sum(data@, i as int)) % modulus(),
        decreases n - i,
    {
        assert(4 * i + 4 <= data@.len());
        let w = read_le_u32(data, 4 * i);
        proof {
            lemma_add_mod_noop_right(w as int, start as int + word_sum(data@, i as int), modulus());
            assert(word_sum(data@, i + 1) == word_sum(data@, i as int) + le_u32(data@, 4 * i));
        }
        acc = add_wrapping(acc, w);
        i = i + 1;
    }
    acc
}

/// The wrapping 32-bit sum of every data word of every section, in order.
pub fn checksum_of(sections: &Vec<Section>) -> (r: u32)
    ensures
        r == checksum_spec(sections_view(sections@)),
{
    let mut acc: u32 = 0;
    let mut k: usize = 0;
    proof {
        assert(sections_view(sections@).subrange(0, 0) =~= Seq::empty());
    }
    while k < sections.len()
        invariant
            k <= sections@.len(),
            acc as int == sections_sum(sections_view(sections@).subrange(0, k as int)) % modulus(),
        decreases sections@.len() - k,
    {
        let ghost prev = sections_view(sections@).subrange(0, k as int);
        let ghost next = sections_view(sections@).subrange(0, k + 1);
        let d = &sections[k].data;
        proof {
            assert(next.drop_last() =~= prev);
            assert(next.last() == sections[k as int]@);
            lemma_add_mod_noop_right(
                word_sum(d@, (d@.len() / 4) as int),
                sections_sum(prev),
                modulus(),
            );
            assert(sections_sum(next) == sections_sum(prev) + word_sum(d@, (d@.len() / 4) as int));
        }
        acc = word_checksum(acc, d.as_slice());
        k = k + 1;
    }
    proof {
        assert(sections_view(sections@).subrange(0, sections@.len() as int) =~= sections_view(
            sections@,
        ));
    }
    acc
}

} // verus!
