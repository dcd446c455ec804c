use mikan_os::bytes::{copy_bytes, read_u16, read_u32, read_u64, write_u16, write_u32};
use mikan_os::collections::{FnvBuilder, FnvHasher, HashMap, FNV_OFFSET, FNV_PRIME};
use mikan_os::error::Code;
use mikan_os::logger::{parse_format, render, LogLevel, Logger, Piece};
use mikan_os::memory_manager::{BitmapMemoryManager, FrameId, MemoryDescriptor, CONVENTIONAL};
use mikan_os::queue::ArrayQueue;

fn format(fmt: &[u8], args: &[u64], strs: &[&[u8]]) -> Vec<u8> {
    let pieces = parse_format(fmt).unwrap();
    let strs: Vec<Vec<u8>> = strs.iter().map(|s| s.to_vec()).collect();
    render(&pieces, &args.to_vec(), &strs)
}

#[test]
fn format_signed_decimal() {
    assert_eq!(format(b"%d", &[(-42i64) as u64], &[b""]), b"-42".to_vec());
    assert_eq!(format(b"%05d", &[(-42i64) as u64], &[b""]), b"-0042".to_vec());
    assert_eq!(format(b"%5d", &[42], &[b""]), b"   42".to_vec());
    assert_eq!(format(b"%ld", &[7], &[b""]), b"7".to_vec());
}

#[test]
fn format_ten_sets_zero_padding_and_width_one() {
    let pieces = parse_format(b"%10d").unwrap();
    assert_eq!(pieces, vec![Piece::Conv { conv: b'd', padding: true, width: 1, index: 0 }]);
    assert_eq!(format(b"%10d", &[42], &[b""]), b"42".to_vec());
}

#[test]
fn format_hex_unsigned_char_pointer_string() {
    assert_eq!(format(b"%x", &[255], &[b""]), b"ff".to_vec());
    assert_eq!(format(b"%8x", &[255], &[b""]), b"      ff".to_vec());
    assert_eq!(format(b"%04x", &[0xab], &[b""]), b"00ab".to_vec());
    assert_eq!(format(b"%x", &[u64::MAX], &[b""]), b"ffffffffffffffff".to_vec());
    assert_eq!(format(b"%u", &[u64::MAX], &[b""]), b"18446744073709551615".to_vec());
    assert_eq!(format(b"%c", &[65], &[b""]), b"A".to_vec());
    assert_eq!(format(b"%c", &[0xe9], &[b""]), vec![0xc3, 0xa9]);
    assert_eq!(format(b"%p", &[0x1000], &[b""]), b"0x1000".to_vec());
    assert_eq!(format(b"[%s]", &[0], &[b"str"]), b"[str]".to_vec());
}

#[test]
fn format_arguments_in_order() {
    assert_eq!(
        format(b"a=%d b=%x c=%s", &[1, 16, 0], &[b"", b"", b"xy"]),
        b"a=1 b=10 c=xy".to_vec()
    );
}

#[test]
fn format_percent_and_plain_text() {
    assert_eq!(format(b"100%%", &[], &[]), b"100%".to_vec());
    assert_eq!(format(b"plain text", &[], &[]), b"plain text".to_vec());
    assert_eq!(format(b"ab%", &[], &[]), b"ab".to_vec());
}

#[test]
fn format_unknown_conversion_is_an_error() {
    assert_eq!(parse_format(b"x%q"), Err(2));
    assert_eq!(parse_format(b"%99999999999999999999999d"), Err(20));
}

#[test]
fn logger_levels() {
    let mut l = Logger::new();
    assert_eq!(l.get_log_level(), LogLevel::Warn);
    assert!(l.enabled(LogLevel::Error));
    assert!(!l.enabled(LogLevel::Info));
    l.set_log_level(LogLevel::Debug);
    assert!(l.enabled(LogLevel::Info));
    assert_eq!(LogLevel::Info.value(), 6);
}

#[test]
fn queue_is_first_in_first_out() {
    let mut q = ArrayQueue::new(vec![0u32; 2]);
    assert_eq!(q.capacity(), 2);
    assert_eq!(q.front(), None);
    assert_eq!(q.pop(), Err(Code::Empty));
    assert_eq!(q.push(1), Ok(()));
    assert_eq!(q.push(2), Ok(()));
    assert_eq!(q.push(3), Err(Code::Full));
    assert_eq!(q.front(), Some(&1));
    assert_eq!(q.pop(), Ok(()));
    assert_eq!(q.push(3), Ok(()));
    assert_eq!(q.len(), 2);
    assert_eq!(q.front(), Some(&2));
    assert_eq!(q.pop(), Ok(()));
    assert_eq!(q.front(), Some(&3));
    assert_eq!(q.pop(), Ok(()));
    assert_eq!(q.len(), 0);
}

#[test]
fn queue_without_room() {
    let mut q: ArrayQueue<u8> = ArrayQueue::new(Vec::new());
    assert_eq!(q.push(1), Err(Code::Full));
}

#[test]
fn frames_allocate_and_free() {
    let mut m = BitmapMemoryManager::new();
    let map = [MemoryDescriptor { ty: CONVENTIONAL, phys_start: 0, page_count: 256 }];
    m.init(&map, 0x10000, 0x4000);
    let a = m.allocate(4).unwrap();
    assert_eq!(a.id(), 1);
    let b = m.allocate(20).unwrap();
    assert_eq!(b.id(), 20);
    let s = m.stat();
    assert_eq!(s.allocated_frames, 28);
    assert_eq!(s.total_frames, 255);
    m.free(FrameId::new(1), 4);
    assert_eq!(m.allocate(4).unwrap().id(), 1);
    assert_eq!(m.allocate(300), Err(Code::NoEnoughMemory));
}

#[test]
fn hash_map_insert_get_remove() {
    let mut m: HashMap<u64, u32> = HashMap::new();
    assert_eq!(m.get(&1), None);
    assert_eq!(m.insert(1, 10), None);
    assert_eq!(m.insert(2, 20), None);
    assert_eq!(m.insert(1, 11), Some(10));
    assert_eq!(m.get(&1), Some(&11));
    assert_eq!(m.get(&2), Some(&20));
    assert_eq!(m.remove(&1), Some(11));
    assert_eq!(m.get(&1), None);
    assert_eq!(m.remove(&1), None);
    for k in 10..40u64 {
        m.insert(k, k as u32);
    }
    assert_eq!(m.get(&33), Some(&33));
    assert!(m.cap() >= 32);
}

#[test]
fn fnv_hash_of_a_key() {
    let mut h = FNV_OFFSET;
    for b in 7u64.to_le_bytes() {
        h = h.wrapping_mul(FNV_PRIME) ^ (b as u64);
    }
    assert_eq!(FnvBuilder.hash_one(7u64), h);
    let mut hasher = FnvBuilder.build_hasher();
    hasher.write(&7u64.to_le_bytes());
    assert_eq!(hasher.finish(), h);
    assert_eq!(FnvHasher::new().finish(), FNV_OFFSET);
}

#[test]
fn little_endian_bytes() {
    let mut v = vec![0u8; 8];
    write_u16(&mut v, 1, 0xbeef);
    assert_eq!(v[1], 0xef);
    assert_eq!(v[2], 0xbe);
    assert_eq!(read_u16(&v, 1), 0xbeef);
    write_u32(&mut v, 4, 0x1234_5678);
    assert_eq!(read_u32(&v, 4), 0x1234_5678);
    assert_eq!(read_u64(&v, 0), 0x1234_5678_00be_ef00);
    assert_eq!(copy_bytes(&v, 4, 2), vec![0x78, 0x56]);
}
