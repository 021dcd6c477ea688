use rx888_stream::image::{parse_image, BootImage, ImageError, Section};
use rx888_stream::loader::{
    block_plan, check_readback, fx3_load_ram, write_section, DeviceRam, LoadError,
};
use rx888_stream::memory::MemoryRam;
use std::collections::HashMap;

/// A device RAM held in memory, with a log of every transfer.
struct FakeRam {
    mem: HashMap<u32, u8>,
    writes: Vec<(u32, Vec<u8>)>,
    reads: Vec<(u32, usize)>,
    corrupt_read: Option<usize>,
    fail_write: Option<usize>,
}

impl FakeRam {
    fn new() -> FakeRam {
        FakeRam {
            mem: HashMap::new(),
            writes: Vec::new(),
            reads: Vec::new(),
            corrupt_read: None,
            fail_write: None,
        }
    }
}

impl DeviceRam for FakeRam {
    fn write_ram(&mut self, address: u32, data: &[u8]) -> Result<(), rusb::Error> {
        if self.fail_write == Some(self.writes.len()) {
            return Err(rusb::Error::Io);
        }
        self.writes.push((address, data.to_vec()));
        for (i, b) in data.iter().enumerate() {
            self.mem.insert(address.wrapping_add(i as u32), *b);
        }
        Ok(())
    }

    fn read_ram(&mut self, address: u32, len: usize) -> Result<Vec<u8>, rusb::Error> {
        let n = self.reads.len();
        self.reads.push((address, len));
        let mut out: Vec<u8> = (0..len)
            .map(|i| *self.mem.get(&address.wrapping_add(i as u32)).unwrap_or(&0))
            .collect();
        if self.corrupt_read == Some(n) && !out.is_empty() {
            out[0] ^= 0x01;
        }
        Ok(out)
    }
}

fn le(x: u32) -> Vec<u8> {
    x.to_le_bytes().to_vec()
}

fn image(records: &[(u32, Vec<u8>)], jump: u32, checksum: u32) -> Vec<u8> {
    let mut v = vec![b'C', b'Y', 0, 0xB0];
    for (addr, data) in records {
        v.extend(le((data.len() / 4) as u32));
        v.extend(le(*addr));
        v.extend(data);
    }
    v.extend(le(0));
    v.extend(le(jump));
    v.extend(le(checksum));
    v
}

fn word_sum(data: &[u8]) -> u32 {
    data.chunks(4)
        .map(|c| u32::from_le_bytes([c[0], c[1], c[2], c[3]]))
        .fold(0u32, |a, w| a.wrapping_add(w))
}

#[test]
fn minimal_image_loads() {
    let img = image(&[(0, vec![0x01, 0x02, 0x03, 0x04])], 0x1000, 0x04030201);
    let mut dev = FakeRam::new();
    assert_eq!(fx3_load_ram(&mut dev, &img), Ok(()));
    assert_eq!(
        dev.writes,
        vec![(0, vec![0x01, 0x02, 0x03, 0x04]), (0x1000, vec![])]
    );
    assert_eq!(dev.reads, vec![(0, 4)]);
}

#[test]
fn minimal_image_with_zero_checksum_fails() {
    let img = image(&[(0, vec![0x01, 0x02, 0x03, 0x04])], 0x1000, 0);
    let mut dev = FakeRam::new();
    assert_eq!(
        fx3_load_ram(&mut dev, &img),
        Err(LoadError::ChecksumMismatch { stored: 0, computed: 0x04030201 })
    );
    // no jump was sent
    assert_eq!(dev.writes.len(), 1);
}

#[test]
fn checksum_wraps_at_32_bits() {
    let data = vec![0xFF, 0xFF, 0xFF, 0xFF, 0x02, 0x00, 0x00, 0x00];
    let img = image(&[(0x40, data.clone())], 0x40, 1);
    let parsed: BootImage = parse_image(&img).unwrap();
    assert_eq!(parsed.computed_checksum(), 1);
    assert!(parsed.checksum_matches());
    let mut dev = FakeRam::new();
    assert_eq!(fx3_load_ram(&mut dev, &img), Ok(()));
}

#[test]
fn checksum_sums_all_sections_in_order() {
    let a: Vec<u8> = (0..64u32).map(|i| (i * 37 % 251) as u8).collect();
    let b: Vec<u8> = (0..4096u32).map(|i| (i * 13 % 256) as u8).collect();
    let sum = word_sum(&a).wrapping_add(word_sum(&b));
    let img = image(&[(0x100, a), (0x4000_0000, b)], 0x100, sum);
    let parsed = parse_image(&img).unwrap();
    assert_eq!(parsed.sections.len(), 2);
    assert_eq!(parsed.sections[1].address, 0x4000_0000);
    assert_eq!(parsed.jump_address, 0x100);
    assert_eq!(parsed.computed_checksum(), sum);
    let mut dev = FakeRam::new();
    assert_eq!(fx3_load_ram(&mut dev, &img), Ok(()));
    assert_eq!(dev.reads.len(), 2);
}

#[test]
fn corrupted_data_byte_fails_checksum() {
    let data = vec![1, 2, 3, 4, 5, 6, 7, 8];
    let sum = word_sum(&data);
    let mut img = image(&[(0, data)], 0, sum);
    // first data byte sits after the header and the record's two words
    img[4 + 8 + 5] ^= 0x10;
    let mut dev = FakeRam::new();
    match fx3_load_ram(&mut dev, &img) {
        Err(LoadError::ChecksumMismatch { stored, computed }) => {
            assert_eq!(stored, sum);
            assert_ne!(computed, sum);
        }
        other => panic!("unexpected result {:?}", other),
    }
}

#[test]
fn readback_mismatch_stops_the_load() {
    let data: Vec<u8> = (0..3 * 4096u32).map(|i| (i % 256) as u8).collect();
    let sum = word_sum(&data);
    let img = image(&[(0x2000, data), (0x9000, vec![9, 9, 9, 9])], 0x2000, sum.wrapping_add(0x09090909));
    let mut dev = FakeRam::new();
    dev.corrupt_read = Some(1);
    assert_eq!(
        fx3_load_ram(&mut dev, &img),
        Err(LoadError::DataMismatch { section: 0, chunk: 1 })
    );
    // the third block and the second section were never written
    assert_eq!(dev.writes.len(), 2);
    assert_eq!(dev.reads.len(), 2);
    assert_eq!(dev.writes[1].0, 0x3000);
}

#[test]
fn echoing_device_loads_every_block() {
    let data: Vec<u8> = (0..3 * 4096u32 + 8).map(|i| (i % 253) as u8).collect();
    let sum = word_sum(&data);
    let img = image(&[(0x0010_0000, data)], 0x0010_0000, sum);
    let mut dev = FakeRam::new();
    assert_eq!(fx3_load_ram(&mut dev, &img), Ok(()));
    let addrs: Vec<u32> = dev.writes.iter().map(|w| w.0).collect();
    assert_eq!(addrs, vec![0x0010_0000, 0x0010_1000, 0x0010_2000, 0x0010_3000, 0x0010_0000]);
    let lens: Vec<usize> = dev.reads.iter().map(|r| r.1).collect();
    assert_eq!(lens, vec![4096, 4096, 4096, 8]);
}

#[test]
fn transport_error_ends_the_load() {
    let img = image(&[(0, vec![1, 0, 0, 0])], 0, 1);
    let mut dev = FakeRam::new();
    dev.fail_write = Some(0);
    assert_eq!(fx3_load_ram(&mut dev, &img), Err(LoadError::Transport(rusb::Error::Io)));
    let mut dev = FakeRam::new();
    dev.fail_write = Some(1);
    assert_eq!(fx3_load_ram(&mut dev, &img), Err(LoadError::Transport(rusb::Error::Io)));
}

#[test]
fn section_of_one_block_takes_one_cycle() {
    let sec = Section { address: 0x100, data: vec![7u8; 4096] };
    let mut dev = FakeRam::new();
    assert_eq!(write_section(&mut dev, 0, &sec), Ok(1));
    assert_eq!(dev.writes.len(), 1);
    assert_eq!(dev.reads, vec![(0x100, 4096)]);
}

#[test]
fn section_one_byte_over_takes_two_cycles() {
    let sec = Section { address: 0x100, data: vec![7u8; 4097] };
    let mut dev = FakeRam::new();
    assert_eq!(write_section(&mut dev, 0, &sec), Ok(2));
    assert_eq!(dev.writes.len(), 2);
    assert_eq!(dev.writes[1], (0x1100, vec![7u8]));
    assert_eq!(dev.reads, vec![(0x100, 4096), (0x1100, 1)]);
}

#[test]
fn block_addresses_wrap() {
    let sec = Section { address: 0xFFFF_F000, data: vec![1u8; 4100] };
    let mut dev = FakeRam::new();
    assert_eq!(write_section(&mut dev, 3, &sec), Ok(2));
    assert_eq!(dev.writes[1].0, 0);
}

#[test]
fn readback_compare() {
    assert!(check_readback(&[1, 2, 3], &[1, 2, 3]));
    assert!(!check_readback(&[1, 2, 3], &[1, 2, 4]));
    assert!(!check_readback(&[1, 2, 3], &[1, 2]));
    assert!(check_readback(&[], &[]));
}

#[test]
fn bad_magic_is_refused() {
    let mut img = image(&[], 0, 0);
    img[1] = b'Z';
    let mut dev = FakeRam::new();
    assert_eq!(fx3_load_ram(&mut dev, &img), Err(LoadError::Image(ImageError::BadMagic)));
    assert!(dev.writes.is_empty());
}

#[test]
fn wrong_image_type_is_refused() {
    let mut img = image(&[], 0, 0);
    img[3] = 0xB1;
    assert!(matches!(parse_image(&img), Err(ImageError::UnsupportedType)));
}

#[test]
fn truncated_images_are_refused() {
    assert!(matches!(parse_image(&[b'C', b'Y', 0]), Err(ImageError::Truncated)));
    let img = image(&[(0, vec![1, 2, 3, 4])], 0, 0x04030201);
    for cut in [4, 10, 14, 19, img.len() - 1] {
        assert!(matches!(parse_image(&img[..cut]), Err(ImageError::Truncated)), "cut {}", cut);
    }
    let mut dev = FakeRam::new();
    assert_eq!(
        fx3_load_ram(&mut dev, &img[..img.len() - 2]),
        Err(LoadError::Image(ImageError::Truncated))
    );
}

#[test]
fn empty_image_jumps_at_once() {
    let img = image(&[], 0x4000_0000, 0);
    let mut dev = FakeRam::new();
    assert_eq!(fx3_load_ram(&mut dev, &img), Ok(()));
    assert_eq!(dev.writes, vec![(0x4000_0000, vec![])]);
}

#[test]
fn full_block_section_is_one_block() {
    let sec = Section { address: 0x100, data: vec![3u8; 4096] };
    let blocks = block_plan(&sec);
    assert_eq!(blocks.len(), 1);
    assert_eq!(blocks[0].address, 0x100);
    assert_eq!(blocks[0].data.len(), 4096);
}

#[test]
fn one_byte_over_makes_a_second_block_of_one() {
    let mut data = vec![3u8; 4096];
    data.push(9);
    let sec = Section { address: 0x100, data };
    let blocks = block_plan(&sec);
    assert_eq!(blocks.len(), 2);
    assert_eq!(blocks[1].address, 0x1100);
    assert_eq!(blocks[1].data, vec![9u8]);
    assert_eq!(block_plan(&Section { address: 0, data: vec![] }).len(), 0);
}

#[test]
fn memory_ram_holds_the_loaded_image() {
    let img = image(&[(0x10, vec![0x01, 0x02, 0x03, 0x04])], 0x1000, 0x04030201);
    let mut ram = MemoryRam::new();
    assert_eq!(fx3_load_ram(&mut ram, &img), Ok(()));
    assert_eq!(
        [ram.peek(0x10), ram.peek(0x11), ram.peek(0x12), ram.peek(0x13)],
        [1, 2, 3, 4]
    );
    assert_eq!(ram.peek(0x14), 0);
}

#[test]
fn memory_ram_reads_back_writes_across_the_wrap() {
    let mut ram = MemoryRam::new();
    assert_eq!(ram.write_ram(0xFFFF_FFFE, &[7, 8, 9]), Ok(()));
    assert_eq!(ram.read_ram(0xFFFF_FFFE, 4), Ok(vec![7, 8, 9, 0]));
    assert_eq!(ram.peek(0xFFFF_FFFF), 8);
    assert_eq!(ram.peek(0), 9);
    let img = image(&[(0x10, vec![0x01, 0x02, 0x03, 0x04])], 0x1000, 0);
    assert!(matches!(
        fx3_load_ram(&mut MemoryRam::new(), &img),
        Err(LoadError::ChecksumMismatch { .. })
    ));
}
