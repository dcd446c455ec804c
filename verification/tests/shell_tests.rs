use mikan_os::command::{
    cat_output, find_command, ls_output, ls_root_output, parse_command, parse_u64, Command,
};
use mikan_os::elf::{
    check_app, elf_last_address, get_first_load_address, program_headers, segment_image, segment_pages,
    Elf64Ehdr, Elf64Phdr,
};
use mikan_os::error::Code;
use mikan_os::fat::FatVolume;
use mikan_os::terminal::make_arg_vector;

const EOC32: u32 = 0x0fff_ffff;

fn put16(img: &mut [u8], off: usize, v: u16) {
    img[off..off + 2].copy_from_slice(&v.to_le_bytes());
}

fn put32(img: &mut [u8], off: usize, v: u32) {
    img[off..off + 4].copy_from_slice(&v.to_le_bytes());
}

fn put64(img: &mut [u8], off: usize, v: u64) {
    img[off..off + 8].copy_from_slice(&v.to_le_bytes());
}

fn entry(img: &mut [u8], off: usize, name: &[u8; 11], attr: u8, cluster: u32, size: u32) {
    img[off..off + 11].copy_from_slice(name);
    img[off + 11] = attr;
    put16(img, off + 20, (cluster >> 16) as u16);
    put16(img, off + 26, (cluster & 0xffff) as u16);
    put32(img, off + 28, size);
}

/// 512-byte clusters; the root directory (cluster 2) holds HELLO.TXT,
/// the directory SUB, a long-name entry, an entry starting with 0x5e and
/// the file README; SUB (cluster 4) holds INNER.TXT.
fn image() -> Vec<u8> {
    let mut img = vec![0u8; 65536];
    put16(&mut img, 11, 512);
    img[13] = 1;
    put16(&mut img, 14, 1);
    img[16] = 1;
    put32(&mut img, 36, 1);
    put32(&mut img, 44, 2);
    put32(&mut img, 512, 0x0fff_fff8);
    for c in 1..7 {
        put32(&mut img, 512 + 4 * c, EOC32);
    }
    entry(&mut img, 1024, b"HELLO   TXT", 0x20, 3, 5);
    entry(&mut img, 1056, b"SUB        ", 0x10, 4, 0);
    entry(&mut img, 1088, b"ALONGNAME  ", 0x0f, 0, 0);
    entry(&mut img, 1120, b"^HIDDEN    ", 0x20, 0, 0);
    entry(&mut img, 1152, b"README     ", 0x20, 6, 2);
    img[1536..1541].copy_from_slice(b"hello");
    entry(&mut img, 2048, b"INNER   TXT", 0x20, 5, 3);
    img[2560..2563].copy_from_slice(b"abc");
    img[3072..3074].copy_from_slice(b"hi");
    img
}

fn volume() -> FatVolume {
    FatVolume::new(image()).unwrap()
}

fn words(ws: &[&str]) -> Vec<Vec<u8>> {
    ws.iter().map(|w| w.as_bytes().to_vec()).collect()
}

#[test]
fn commands_by_their_first_word() {
    assert!(matches!(parse_command(b""), Command::Nothing));
    assert!(matches!(parse_command(b"   "), Command::Nothing));
    match parse_command(b"echo  hello world") {
        Command::Echo(t) => assert_eq!(t, b"hello\n".to_vec()),
        _ => panic!("echo"),
    }
    match parse_command(b"echo") {
        Command::Echo(t) => assert_eq!(t, b"\n".to_vec()),
        _ => panic!("echo"),
    }
    assert!(matches!(parse_command(b"clear"), Command::Clear));
    assert!(matches!(parse_command(b"lspci"), Command::Lspci));
    assert!(matches!(parse_command(b"ls"), Command::Ls(None)));
    match parse_command(b"ls sub") {
        Command::Ls(Some(p)) => assert_eq!(p, b"sub".to_vec()),
        _ => panic!("ls"),
    }
    assert!(matches!(parse_command(b"cat"), Command::Cat(None)));
    match parse_command(b"cat hello.txt") {
        Command::Cat(Some(p)) => assert_eq!(p, b"hello.txt".to_vec()),
        _ => panic!("cat"),
    }
    assert!(matches!(parse_command(b"noterm"), Command::Nothing));
    match parse_command(b"noterm rpn") {
        Command::NoTerm(t) => assert_eq!(t, b"rpn".to_vec()),
        _ => panic!("noterm"),
    }
    assert!(matches!(parse_command(b"memstat"), Command::MemStat));
    match parse_command(b"rpn 1 2 +") {
        Command::Run(a) => assert_eq!(a, words(&["rpn", "1", "2", "+"])),
        _ => panic!("run"),
    }
}

#[test]
fn ulimit_forms() {
    assert!(matches!(parse_command(b"ulimit"), Command::ShowStackSize));
    assert!(matches!(parse_command(b"ulimit -s"), Command::ShowStackSize));
    assert!(matches!(parse_command(b"ulimit -s 16"), Command::SetStackSize(16384)));
    assert!(matches!(parse_command(b"ulimit -s +2"), Command::SetStackSize(2048)));
    assert!(matches!(parse_command(b"ulimit -s big"), Command::UlimitUsage));
    assert!(matches!(parse_command(b"ulimit -x 16"), Command::Nothing));
}

#[test]
fn numbers_parse_as_str_parse_does() {
    assert_eq!(parse_u64(b"0"), Some(0));
    assert_eq!(parse_u64(b"12345"), Some(12345));
    assert_eq!(parse_u64(b"+7"), Some(7));
    assert_eq!(parse_u64(b"18446744073709551615"), Some(u64::MAX));
    assert_eq!(parse_u64(b"18446744073709551616"), None);
    assert_eq!(parse_u64(b""), None);
    assert_eq!(parse_u64(b"+"), None);
    assert_eq!(parse_u64(b"-1"), None);
    assert_eq!(parse_u64(b"12a"), None);
    for s in ["0", "42", "+9", "x", "99999999999999999999"] {
        assert_eq!(parse_u64(s.as_bytes()), s.parse::<u64>().ok());
    }
}

#[test]
fn listing_skips_long_names_and_caret_entries() {
    let vol = volume();
    assert_eq!(vol.list_entries(2), Some(b"HELLO.TXT\nSUB\nREADME\n".to_vec()));
    assert_eq!(vol.list_entries(4), Some(b"INNER.TXT\n".to_vec()));
    assert_eq!(ls_root_output(&vol), Some(b"HELLO.TXT\nSUB\nREADME\n".to_vec()));
}

#[test]
fn listing_refuses_a_blank_name() {
    let mut img = image();
    entry(&mut img, 1184, b"           ", 0x20, 0, 0);
    let vol = FatVolume::new(img).unwrap();
    assert_eq!(vol.list_entries(2), None);
}

#[test]
fn ls_of_paths() {
    let vol = volume();
    assert_eq!(ls_output(&vol, b"sub"), Some(b"INNER.TXT\n".to_vec()));
    assert_eq!(ls_output(&vol, b"hello.txt"), Some(b"HELLO.TXT\n".to_vec()));
    assert_eq!(ls_output(&vol, b"hello.txt/"), Some(b"HELLO.TXT is not a directory\n".to_vec()));
    assert_eq!(ls_output(&vol, b"readme"), Some(b"README\n".to_vec()));
    assert_eq!(ls_output(&vol, b"nope"), Some(b"No such file or directory: nope\n".to_vec()));
}

#[test]
fn cat_of_paths() {
    let vol = volume();
    assert_eq!(cat_output(&vol, b"hello.txt"), (b"hello".to_vec(), true));
    assert_eq!(cat_output(&vol, b"/sub/inner.txt"), (b"abc".to_vec(), true));
    assert_eq!(cat_output(&vol, b"nope"), (b"no such file: nope\n".to_vec(), false));
    assert_eq!(cat_output(&vol, b"hello.txt/x"), (b"hello.txt/x is not a directory\n".to_vec(), false));
}

#[test]
fn commands_found_on_the_volume() {
    let vol = volume();
    assert_eq!(find_command(&vol, b"readme"), Ok((2, 4)));
    assert_eq!(find_command(&vol, b"sub/inner.txt"), Ok((4, 0)));
    assert_eq!(find_command(&vol, b"rpn"), Err(b"no such command: rpn\n".to_vec()));
    assert_eq!(find_command(&vol, b"readme/"), Err(b"readme/ is not a directory\n".to_vec()));
}

#[test]
fn argument_vector_layout() {
    let args = words(&["rpn", "12"]);
    let mut buf = vec![0xffu8; 512];
    assert_eq!(make_arg_vector(&args, &mut buf, 0x1000), Ok(2));
    assert_eq!(u64::from_le_bytes(buf[0..8].try_into().unwrap()), 0x1000 + 256);
    assert_eq!(u64::from_le_bytes(buf[8..16].try_into().unwrap()), 0x1000 + 260);
    assert_eq!(&buf[256..263], b"rpn\x0012\x00");
    assert_eq!(buf[263], 0xff);
}

#[test]
fn argument_vector_errors() {
    let many = words(&["a"; 32]);
    let mut buf = vec![0u8; 4096];
    assert_eq!(make_arg_vector(&many, &mut buf, 0), Err(Code::InvalidFormat));
    let mut small = vec![0u8; 100];
    assert_eq!(make_arg_vector(&words(&["a"]), &mut small, 0), Err(Code::BufferTooSmall));
    let mut tight = vec![0u8; 260];
    assert_eq!(make_arg_vector(&words(&["ab", "cd"]), &mut tight, 0), Err(Code::BufferTooSmall));
    assert_eq!(&tight[256..259], b"ab\x00");
}

/// An executable with two program headers: a loadable segment at
/// 0xffff800000000000 of 0x20 bytes in memory (4 in the file, from offset
/// 0xb0), and a note.
fn elf_file() -> Vec<u8> {
    let mut f = vec![0u8; 0xb4];
    f[0..4].copy_from_slice(b"\x7fELF");
    put16(&mut f, 16, 2);
    put64(&mut f, 24, 0xffff_8000_0000_0010);
    put64(&mut f, 32, 64);
    put16(&mut f, 56, 2);
    put32(&mut f, 64, 1);
    put64(&mut f, 64 + 8, 0xb0);
    put64(&mut f, 64 + 16, 0xffff_8000_0000_0000);
    put64(&mut f, 64 + 32, 4);
    put64(&mut f, 64 + 40, 0x20);
    put32(&mut f, 120, 4);
    f[0xb0..0xb4].copy_from_slice(b"code");
    f
}

#[test]
fn application_headers_check() {
    let f = elf_file();
    let (h, ps, last) = check_app(&f).unwrap();
    assert_eq!(h.entry, 0xffff_8000_0000_0010);
    assert_eq!(ps.len(), 2);
    assert_eq!(ps[0].kind, 1);
    assert_eq!(ps[1].kind, 4);
    assert_eq!(last, 0xffff_8000_0000_0020);
    assert_eq!(get_first_load_address(&ps), 0xffff_8000_0000_0000);
    assert_eq!(elf_last_address(&ps), 0xffff_8000_0000_0020);
    let eh = Elf64Ehdr::from_bytes(&f).unwrap();
    assert_eq!(program_headers(&f, &eh).unwrap().len(), 2);
}

#[test]
fn application_check_errors() {
    assert_eq!(check_app(b"\x7fEL").err(), Some(Code::InvalidFile));
    let mut bad = elf_file();
    bad[1] = b'X';
    assert_eq!(check_app(&bad).err(), Some(Code::InvalidFile));
    let mut short = elf_file();
    put16(&mut short, 56, 3);
    assert_eq!(check_app(&short).err(), Some(Code::InvalidFile));
    let mut dyn_kind = elf_file();
    put16(&mut dyn_kind, 16, 3);
    assert_eq!(check_app(&dyn_kind).err(), Some(Code::InvalidFormat));
    let mut low = elf_file();
    put64(&mut low, 64 + 16, 0x40_0000);
    assert_eq!(check_app(&low).err(), Some(Code::InvalidFormat));
}

#[test]
fn segment_pages_and_image() {
    let f = elf_file();
    let ps = check_app(&f).unwrap().1;
    assert_eq!(segment_pages(&ps[0]), 1);
    let mut p = ps[0];
    p.vaddr = 0xffff_8000_0000_0ff0;
    assert_eq!(segment_pages(&p), 2);
    let img = segment_image(&f, &ps[0]).unwrap();
    assert_eq!(img.len(), 0x20);
    assert_eq!(&img[0..4], b"code");
    assert!(img[4..].iter().all(|&b| b == 0));
    let mut far = ps[0];
    far.offset = 0xb2;
    assert_eq!(segment_image(&f, &far), None);
    assert_eq!(Elf64Phdr::from_bytes(&f[64..120]).unwrap().memsz, 0x20);
}

#[test]
fn last_address_with_no_loadable_segment() {
    let f = elf_file();
    let ps = check_app(&f).unwrap().1;
    let notes: Vec<Elf64Phdr> = ps.iter().filter(|p| p.kind != 1).cloned().collect();
    assert_eq!(elf_last_address(&notes), 0);
    assert_eq!(get_first_load_address(&notes), 0);
}

#[test]
fn unicode_font_missing_or_unreadable() {
    assert!(matches!(mikan_os::font::init(&volume()), Err(Code::NoSuchEntry)));
    let mut img = image();
    entry(&mut img, 1184, b"IPAG    TTF", 0x20, 6, 2);
    let vol = FatVolume::new(img).unwrap();
    assert!(matches!(mikan_os::font::init(&vol), Err(Code::FreeTypeError)));
}
