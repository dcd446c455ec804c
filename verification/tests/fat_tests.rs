use mikan_os::error::Code;
use mikan_os::fat::{
    allocate_cluster_chain, extend_cluster, is_end_of_cluster_chain, next_cluster, read_name, set_file_name,
    Attribute, DirectoryEntry, FatVolume, BPB, END_OF_CLUSTER_CHAIN,
};
use mikan_os::file::{terminal_key, FileDescriptor, FileFlags, TerminalKey, CREAT, RDWR};

const EOC32: u32 = 0x0fff_ffff;

fn put16(img: &mut [u8], off: usize, v: u16) {
    img[off..off + 2].copy_from_slice(&v.to_le_bytes());
}

fn put32(img: &mut [u8], off: usize, v: u32) {
    img[off..off + 4].copy_from_slice(&v.to_le_bytes());
}

fn entry(img: &mut [u8], off: usize, name: &[u8; 11], attr: u8, cluster: u32, size: u32) {
    img[off..off + 11].copy_from_slice(name);
    img[off + 11] = attr;
    put16(img, off + 20, (cluster >> 16) as u16);
    put16(img, off + 26, (cluster & 0xffff) as u16);
    put32(img, off + 28, size);
}

/// A volume of 512-byte sectors, one sector per cluster, one reserved
/// sector and one table sector (128 entries): the root directory in
/// cluster 2 holds HELLO.TXT (cluster 3, "hello") and the directory SUB
/// (cluster 4), which holds INNER.TXT (cluster 5, "abc").
fn image() -> Vec<u8> {
    let mut img = vec![0u8; 65536];
    put16(&mut img, 11, 512);
    img[13] = 1;
    put16(&mut img, 14, 1);
    img[16] = 1;
    put32(&mut img, 36, 1);
    put32(&mut img, 44, 2);
    put32(&mut img, 512, 0x0fff_fff8);
    for c in 1..6 {
        put32(&mut img, 512 + 4 * c, EOC32);
    }
    entry(&mut img, 1024, b"HELLO   TXT", 0x20, 3, 5);
    entry(&mut img, 1056, b"SUB        ", 0x10, 4, 0);
    img[1536..1541].copy_from_slice(b"hello");
    entry(&mut img, 2048, b"INNER   TXT", 0x20, 5, 3);
    img[2560..2563].copy_from_slice(b"abc");
    img
}

fn volume() -> FatVolume {
    FatVolume::new(image()).unwrap()
}

#[test]
fn volume_reads_its_parameters_and_table() {
    let vol = volume();
    assert_eq!(vol.bytes_per_cluster(), 512);
    assert_eq!(vol.fat().len(), 128);
    assert_eq!(vol.bpb().root_clus, 2);
    assert_eq!(vol.next_cluster(3), END_OF_CLUSTER_CHAIN);
    assert_eq!(vol.cluster_offset(3), 1536);
}

#[test]
fn volume_refuses_broken_images() {
    assert!(FatVolume::new(vec![0u8; 80]).is_none());
    let mut img = image();
    put16(&mut img, 11, 0);
    assert!(FatVolume::new(img).is_none());
    let mut short = image();
    short.truncate(40000);
    assert!(FatVolume::new(short).is_none());
}

#[test]
fn find_file_by_relative_and_absolute_paths() {
    let vol = volume();
    assert_eq!(vol.find_file(b"hello.txt", 0), (Some((2, 0)), false));
    assert_eq!(vol.find_file(b"HELLO.TXT", 2), (Some((2, 0)), false));
    assert_eq!(vol.find_file(b"/sub/inner.txt", 7), (Some((4, 0)), false));
    assert_eq!(vol.find_file(b"sub/inner.txt", 0), (Some((4, 0)), false));
    assert_eq!(vol.find_file(b"inner.txt", 4), (Some((4, 0)), false));
}

#[test]
fn find_file_reports_a_trailing_slash_and_misses() {
    let vol = volume();
    assert_eq!(vol.find_file(b"sub/", 0), (Some((2, 1)), true));
    assert_eq!(vol.find_file(b"hello.txt/", 0), (Some((2, 0)), true));
    assert_eq!(vol.find_file(b"nope", 0), (None, false));
    assert_eq!(vol.find_file(b"nope/x", 0), (None, true));
    assert_eq!(vol.find_file(b"longername.txt", 0), (None, false));
}

#[test]
fn load_file_gives_the_file_bytes() {
    let vol = volume();
    let e = vol.entry_at(2, 0);
    assert_eq!(vol.load_file(&e), b"hello".to_vec());
    let inner = vol.entry_at(4, 0);
    assert_eq!(vol.load_file(&inner), b"abc".to_vec());
}

#[test]
fn create_then_find() {
    let mut vol = volume();
    assert_eq!(vol.create_file(b"new.txt"), Ok((2, 2)));
    assert_eq!(vol.find_file(b"new.txt", 0), (Some((2, 2)), false));
    assert_eq!(&vol.entry_at(2, 2).name, b"NEW     TXT");
    assert_eq!(vol.create_file(b"sub/more.txt"), Ok((4, 1)));
    assert_eq!(vol.find_file(b"/sub/more.txt", 0), (Some((4, 1)), false));
}

#[test]
fn create_file_errors() {
    let mut vol = volume();
    assert_eq!(vol.create_file(b"sub/"), Err(Code::IsDirectory));
    assert_eq!(vol.create_file(b"none/x.txt"), Err(Code::NoSuchEntry));
}

#[test]
fn descriptor_reads_a_file() {
    let vol = volume();
    let mut fd = FileDescriptor::new_fat(&vol, 2, 0);
    assert_eq!(fd.rd_cluster, 3);
    assert_eq!(fd.size(&vol), 5);
    let mut buf = vec![0u8; 10];
    assert_eq!(fd.read(&vol, &mut buf), 5);
    assert_eq!(&buf[..5], b"hello");
    assert_eq!(fd.rd_off, 5);
    assert_eq!(fd.read(&vol, &mut buf), 0);
}

#[test]
fn descriptor_reads_in_pieces() {
    let vol = volume();
    let mut fd = FileDescriptor::new_fat(&vol, 2, 0);
    let mut buf = vec![0u8; 2];
    assert_eq!(fd.read(&vol, &mut buf), 2);
    assert_eq!(buf, b"he".to_vec());
    assert_eq!(fd.read(&vol, &mut buf), 2);
    assert_eq!(buf, b"ll".to_vec());
    assert_eq!(fd.rd_off, 4);
    assert_eq!(fd.rd_cluster_off, 4);
    assert_eq!(fd.read(&vol, &mut buf), 1);
    assert_eq!(buf[0], b'o');
}

#[test]
fn descriptor_load_from_an_offset() {
    let vol = volume();
    let fd = FileDescriptor::new_fat(&vol, 2, 0);
    let mut buf = vec![0u8; 8];
    assert_eq!(fd.load(&vol, &mut buf, 0), 5);
    assert_eq!(&buf[..5], b"hello");
    let mut small = vec![0u8; 3];
    assert_eq!(fd.load(&vol, &mut small, 2), 3);
}

#[test]
fn write_then_read_back() {
    let mut vol = volume();
    let mut fd = FileDescriptor::new_fat(&vol, 2, 0);
    assert_eq!(fd.write(&mut vol, b"HEY"), Ok(3));
    assert_eq!(fd.wr_off, 3);
    assert_eq!(fd.size(&vol), 3);
    let mut reader = FileDescriptor::new_fat(&vol, 2, 0);
    let mut buf = vec![0u8; 16];
    assert_eq!(reader.read(&vol, &mut buf), 3);
    assert_eq!(&buf[..3], b"HEY");
}

#[test]
fn write_to_a_new_file_allocates_the_free_cluster() {
    let mut vol = volume();
    assert_eq!(vol.create_file(b"n.txt"), Ok((2, 2)));
    let mut fd = FileDescriptor::new_fat(&vol, 2, 2);
    assert_eq!(fd.wr_cluster, 0);
    assert_eq!(fd.write(&mut vol, b"data"), Ok(4));
    // The first free cluster is 6: it becomes the file's first cluster.
    assert_eq!(fd.rd_cluster, 6);
    assert_eq!(vol.entry_at(2, 2).first_cluster(), 6);
    assert_eq!(vol.entry_at(2, 2).file_size, 4);
    assert_eq!(vol.fat()[6], EOC32);
    let mut reader = FileDescriptor::new_fat(&vol, 2, 2);
    let mut buf = vec![0u8; 8];
    assert_eq!(reader.read(&vol, &mut buf), 4);
    assert_eq!(&buf[..4], b"data");
}

#[test]
fn allocate_cluster_chain_returns_the_free_cluster() {
    let mut fat = vec![0x0fff_fff8, EOC32, EOC32, 0, 0, 0];
    assert_eq!(allocate_cluster_chain(&mut fat, 1), Ok(3));
    assert_eq!(fat[3], EOC32);
    let mut fat = vec![0x0fff_fff8, EOC32, EOC32, 0, 9, 0, 0];
    assert_eq!(allocate_cluster_chain(&mut fat, 3), Ok(3));
    assert_eq!(fat, vec![0x0fff_fff8, EOC32, EOC32, 5, 9, 6, EOC32]);
    let mut full = vec![0x0fff_fff8, EOC32, EOC32];
    assert_eq!(allocate_cluster_chain(&mut full, 1), Err(Code::NoEnoughMemory));
}

#[test]
fn extend_cluster_links_free_clusters() {
    let mut fat = vec![0x0fff_fff8, EOC32, EOC32, 0, 7, 0];
    assert_eq!(extend_cluster(&mut fat, 2, 2), 5);
    assert_eq!(fat, vec![0x0fff_fff8, EOC32, 3, 5, 7, EOC32]);
}

#[test]
fn next_cluster_in_a_table() {
    let fat = vec![0x0fff_fff8, EOC32, 3, 0x0fff_fff9, 0];
    assert_eq!(next_cluster(&fat, 2), 3);
    assert_eq!(next_cluster(&fat, 3), END_OF_CLUSTER_CHAIN);
    assert!(is_end_of_cluster_chain(0x0fff_fff8));
    assert!(is_end_of_cluster_chain(EOC32));
    assert!(!is_end_of_cluster_chain(0x0fff_fff7));
    // A cluster number above 24 bits is no end mark.
    assert!(!is_end_of_cluster_chain(0x00ff_fff8));
}

#[test]
fn short_names_round_trip() {
    let mut e = DirectoryEntry::from_bytes(&[0u8; 32]);
    set_file_name(&mut e, b"abc.d");
    assert_eq!(&e.name, b"ABC     D  ");
    assert!(e.name_is_equal(b"abc.d"));
    assert!(e.name_is_equal(b"ABC.D"));
    assert!(!e.name_is_equal(b"abcdefghi.d"));
    let (base, ext) = read_name(&e);
    assert_eq!(base, b"ABC".to_vec());
    assert_eq!(ext, b"D".to_vec());
    set_file_name(&mut e, b"noext");
    assert_eq!(&e.name, b"NOEXT      ");
}

#[test]
fn first_cluster_halves() {
    let mut e = DirectoryEntry::from_bytes(&[0u8; 32]);
    e.set_first_cluster(0x1_2345);
    assert_eq!(e.fst_clus_hl, 1);
    assert_eq!(e.fst_clus_lo, 0x2345);
    assert_eq!(e.first_cluster(), 0x1_2345);
    assert_eq!(Attribute::Directory.value(), 0x10);
}

#[test]
fn bpb_fields_from_bytes() {
    let img = image();
    let b = BPB::from_bytes(&img).unwrap();
    assert_eq!(b.byts_per_sec(), 512);
    assert_eq!(b.sec_per_clus(), 1);
    assert_eq!(b.fat_sz32(), 1);
    assert!(BPB::from_bytes(&img[..89]).is_none());
}

#[test]
fn terminal_keys() {
    assert_eq!(terminal_key(false, 0, 4, b'a'), TerminalKey::Ignore);
    assert_eq!(terminal_key(true, 0x01, 7, b'd'), TerminalKey::Control { echo: b'D', end: true });
    assert_eq!(terminal_key(true, 0x10, 6, b'c'), TerminalKey::Control { echo: b'C', end: false });
    assert_eq!(terminal_key(true, 0x02, 4, b'a'), TerminalKey::Char(b'a'));
}

#[test]
fn file_flags() {
    let f = FileFlags::new(RDWR).bitor(FileFlags::new(CREAT));
    assert_eq!(f.access_mode(), 2);
    assert!(f.creates());
    assert!(!FileFlags::new(RDWR).creates());
    assert_eq!(i32::from(FileFlags::from(0o102)), 0o102);
}
