//! The terminal's commands: what a command line asks for, and the text that
//! `ls`, `cat` and the start of an application print.
use vstd::prelude::*;
use crate::fat::{read_name, trim_end, FatVolume, VolumeModel};
use crate::terminal::{split_words, words};
use crate::logger::{dec_digits, push_dec};
use crate::memory_manager::MemoryStat;

verus! {

/// What a command line asks the terminal to do.
pub enum Command {
    /// An empty line, or a command that does nothing with its arguments.
    Nothing,
    /// Print this text.
    Echo(Vec<u8>),
    /// Clear the window.
    Clear,
    /// List the PCI devices.
    Lspci,
    /// List a directory or name a file: the root directory when `None`.
    Ls(Option<Vec<u8>>),
    /// Print a file; `None` when no file was named.
    Cat(Option<Vec<u8>>),
    /// Run a command line in a terminal without a window.
    NoTerm(Vec<u8>),
    /// Set the stack size of applications, in bytes.
    SetStackSize(u64),
    /// `ulimit -s` with a size that is no number.
    UlimitUsage,
    /// Print the stack size of applications.
    ShowStackSize,
    /// Print how much memory is in use.
    MemStat,
    /// Run the file named by the first word, with all the words as its
    /// arguments.
    Run(Vec<Vec<u8>>),
}

/// `echo`
pub open spec fn word_echo() -> Seq<u8> { seq![0x65u8, 0x63, 0x68, 0x6f] }
/// `clear`
pub open spec fn word_clear() -> Seq<u8> { seq![0x63u8, 0x6c, 0x65, 0x61, 0x72] }
/// `lspci`
pub open spec fn word_lspci() -> Seq<u8> { seq![0x6cu8, 0x73, 0x70, 0x63, 0x69] }
/// `ls`
pub open spec fn word_ls() -> Seq<u8> { seq![0x6cu8, 0x73] }
/// `cat`
pub open spec fn word_cat() -> Seq<u8> { seq![0x63u8, 0x61, 0x74] }
/// `noterm`
pub open spec fn word_noterm() -> Seq<u8> { seq![0x6eu8, 0x6f, 0x74, 0x65, 0x72, 0x6d] }
/// `ulimit`
pub open spec fn word_ulimit() -> Seq<u8> { seq![0x75u8, 0x6c, 0x69, 0x6d, 0x69, 0x74] }
/// `memstat`
pub open spec fn word_memstat() -> Seq<u8> { seq![0x6du8, 0x65, 0x6d, 0x73, 0x74, 0x61, 0x74] }
/// `-s`
pub open spec fn word_dash_s() -> Seq<u8> { seq![0x2du8, 0x73] }

/// Whether every byte of `s` is a decimal digit.
pub open spec fn all_digits(s: Seq<u8>) -> bool {
    forall|i: int| 0 <= i < s.len() ==> 0x30 <= #[trigger] s[i] <= 0x39
}

/// The number that the decimal digits `s` write.
pub open spec fn digits_value(s: Seq<u8>) -> int
    decreases s.len(),
{
    if s.len() == 0 {
        0
    } else {
        10 * digits_value(s.drop_last()) + (s.last() - 0x30)
    }
}

/// The `u64` that `s` writes in decimal, after an optional `+`; `None`
/// when `s` holds no digit, another byte, or a number past `u64::MAX`.
pub open spec fn parse_u64_spec(s: Seq<u8>) -> Option<u64> {
    let d = if s.len() > 0 && s[0] == 0x2b { s.drop_first() } else { s };
    if d.len() > 0 && all_digits(d) && digits_value(d) <= u64::MAX {
        Some(digits_value(d) as u64)
    } else {
        None
    }
}

proof fn lemma_digits_value_nonneg(s: Seq<u8>)
    requires
        all_digits(s),
    ensures
        digits_value(s) >= 0,
    decreases s.len(),
{
    if s.len() > 0 {
        assert(all_digits(s.drop_last()));
        lemma_digits_value_nonneg(s.drop_last());
    }
}

/// Reads a decimal `u64`, as `str::parse::<u64>` does (see
/// `parse_u64_spec`).
pub fn parse_u64(s: &[u8]) -> (r: Option<u64>)
    ensures
        r == parse_u64_spec(s@),
{
    let start: usize = if s.len() > 0 && s[0] == 0x2b { 1 } else { 0 };
    let ghost d = if s@.len() > 0 && s@[0] == 0x2b { s@.drop_first() } else { s@ };
    if start == s.len() {
        return None;
    }
    let mut v: u64 = 0;
    let mut i: usize = start;
    while i < s.len()
        invariant
            start <= i <= s@.len(),
            d == s@.subrange(start as int, s@.len() as int),
            d == (if s@.len() > 0 && s@[0] == 0x2b { s@.drop_first() } else { s@ }),
            all_digits(s@.subrange(start as int, i as int)),
            v == digits_value(s@.subrange(start as int, i as int)),
        decreases s@.len() - i,
    {
        let c = s[i];
        assert(s@.subrange(start as int, i + 1).drop_last() =~= s@.subrange(start as int, i as int));
        if c < 0x30 || c > 0x39 {
            proof {
                assert(d[i - start] == c);
            }
            return None;
        }
        proof {
            lemma_digits_value_nonneg(s@.subrange(start as int, i as int));
            assert(all_digits(s@.subrange(start as int, i + 1)));
        }
        let digit: u64 = (c - 0x30) as u64;
        let next = match v.checked_mul(10) {
            Some(m) => m.checked_add(digit),
            None => None,
        };
        match next {
            Some(n) => {
                v = n;
            },
            None => {
                proof {
                    let t = s@.subrange(start as int, i + 1);
                    assert(digits_value(t) > u64::MAX);
                    if all_digits(d) {
                        lemma_digits_prefix_bound(d, i + 1 - start);
                        assert(d.subrange(0, i + 1 - start) =~= t);
                    }
                }
                return None;
            },
        }
        i = i + 1;
    }
    assert(d =~= s@.subrange(start as int, i as int));
    Some(v)
}

/// A number written by digits is at least the number its first digits
/// write.
proof fn lemma_digits_prefix_bound(d: Seq<u8>, k: int)
    requires
        0 <= k <= d.len(),
        all_digits(d),
    ensures
        digits_value(d.subrange(0, k)) <= digits_value(d),
    decreases d.len(),
{
    if k == d.len() {
        assert(d.subrange(0, k) =~= d);
    } else {
        assert(d.drop_last() =~= d.subrange(0, d.len() - 1));
        assert(d.subrange(0, k) =~= d.drop_last().subrange(0, k));
        assert(all_digits(d.drop_last()));
        lemma_digits_prefix_bound(d.drop_last(), k);
        lemma_digits_value_nonneg(d.drop_last());
    }
}

/// What a command line asks for, over plain values.
pub ghost enum CommandModel {
    Nothing,
    Echo(Seq<u8>),
    Clear,
    Lspci,
    Ls(Option<Seq<u8>>),
    Cat(Option<Seq<u8>>),
    NoTerm(Seq<u8>),
    SetStackSize(u64),
    UlimitUsage,
    ShowStackSize,
    MemStat,
    Run(Seq<Seq<u8>>),
}

/// What the command line whose words are `w` asks for: by its first word,
/// `echo` prints the second word and a newline; `ls` and `cat` take the
/// second word as a path; `noterm` runs the second word, if any; `ulimit`
/// with three words or more sets the stack size to the third word's number
/// of KiB when the second is `-s`, and with fewer shows it; any other word
/// names a file to run with all the words as arguments.
pub open spec fn command_spec(w: Seq<Seq<u8>>) -> CommandModel {
    if w.len() == 0 {
        CommandModel::Nothing
    } else if w[0] == word_echo() {
        CommandModel::Echo(if w.len() > 1 { w[1] } else { Seq::empty() }.push(0x0a))
    } else if w[0] == word_clear() {
        CommandModel::Clear
    } else if w[0] == word_lspci() {
        CommandModel::Lspci
    } else if w[0] == word_ls() {
        CommandModel::Ls(if w.len() > 1 { Some(w[1]) } else { None })
    } else if w[0] == word_cat() {
        CommandModel::Cat(if w.len() > 1 { Some(w[1]) } else { None })
    } else if w[0] == word_noterm() {
        if w.len() > 1 { CommandModel::NoTerm(w[1]) } else { CommandModel::Nothing }
    } else if w[0] == word_ulimit() {
        if w.len() >= 3 {
            if w[1] == word_dash_s() {
                match parse_u64_spec(w[2]) {
                    Some(n) => CommandModel::SetStackSize(n << 10u64),
                    None => CommandModel::UlimitUsage,
                }
            } else {
                CommandModel::Nothing
            }
        } else {
            CommandModel::ShowStackSize
        }
    } else if w[0] == word_memstat() {
        CommandModel::MemStat
    } else {
        CommandModel::Run(w)
    }
}

/// `c` over plain values.
pub open spec fn command_view(c: Command) -> CommandModel {
    match c {
        Command::Nothing => CommandModel::Nothing,
        Command::Echo(t) => CommandModel::Echo(t@),
        Command::Clear => CommandModel::Clear,
        Command::Lspci => CommandModel::Lspci,
        Command::Ls(p) => CommandModel::Ls(match p { Some(p) => Some(p@), None => None }),
        Command::Cat(p) => CommandModel::Cat(match p { Some(p) => Some(p@), None => None }),
        Command::NoTerm(t) => CommandModel::NoTerm(t@),
        Command::SetStackSize(n) => CommandModel::SetStackSize(n),
        Command::UlimitUsage => CommandModel::UlimitUsage,
        Command::ShowStackSize => CommandModel::ShowStackSize,
        Command::MemStat => CommandModel::MemStat,
        Command::Run(a) => CommandModel::Run(Seq::new(a@.len(), |i: int| a@[i]@)),
    }
}

/// Whether `w` holds the bytes `lit`.
fn word_is(w: &Vec<u8>, lit: &[u8]) -> (r: bool)
    ensures
        r == (w@ == lit@),
{
    if w.len() != lit.len() {
        return false;
    }
    let mut i: usize = 0;
    while i < w.len()
        invariant
            w@.len() == lit@.len(),
            i <= w@.len(),
            forall|k: int| 0 <= k < i ==> w@[k] == lit@[k],
        decreases w@.len() - i,
    {
        if w[i] != lit[i] {
            return false;
        }
        i = i + 1;
    }
    assert(w@ =~= lit@);
    true
}

/// A copy of the bytes of `w`.
fn copy_word(w: &Vec<u8>) -> (r: Vec<u8>)
    ensures
        r@ == w@,
{
    let mut r: Vec<u8> = Vec::new();
    let mut i: usize = 0;
    while i < w.len()
        invariant
            i <= w@.len(),
            r@ == w@.subrange(0, i as int),
        decreases w@.len() - i,
    {
        r.push(w[i]);
        i = i + 1;
        assert(r@ =~= w@.subrange(0, i as int));
    }
    r
}

/// What the command line `line` asks for (see `command_spec`); `Run`
/// carries the line's words.
pub fn parse_command(line: &[u8]) -> (r: Command)
    ensures
        command_view(r) == command_spec(words(line@)),
{
    let w = split_words(line);
    let ghost ws = words(line@);
    proof {
        assert forall|i: int| 0 <= i < w@.len() implies #[trigger] w@[i]@ == ws[i] by {}
    }
    if w.len() == 0 {
        return Command::Nothing;
    }
    assert(w@[0]@ == ws[0]);
    proof {
        if w@.len() > 1 {
            assert(w@[1]@ == ws[1]);
        }
        if w@.len() > 2 {
            assert(w@[2]@ == ws[2]);
        }
    }
    let echo: &[u8] = &[0x65, 0x63, 0x68, 0x6f];
    let clear: &[u8] = &[0x63, 0x6c, 0x65, 0x61, 0x72];
    let lspci: &[u8] = &[0x6c, 0x73, 0x70, 0x63, 0x69];
    let ls: &[u8] = &[0x6c, 0x73];
    let cat: &[u8] = &[0x63, 0x61, 0x74];
    let noterm: &[u8] = &[0x6e, 0x6f, 0x74, 0x65, 0x72, 0x6d];
    let ulimit: &[u8] = &[0x75, 0x6c, 0x69, 0x6d, 0x69, 0x74];
    let memstat: &[u8] = &[0x6d, 0x65, 0x6d, 0x73, 0x74, 0x61, 0x74];
    let dash_s: &[u8] = &[0x2d, 0x73];
    assert(echo@ == word_echo());
    assert(clear@ == word_clear());
    assert(lspci@ == word_lspci());
    assert(ls@ == word_ls());
    assert(cat@ == word_cat());
    assert(noterm@ == word_noterm());
    assert(ulimit@ == word_ulimit());
    assert(memstat@ == word_memstat());
    assert(dash_s@ == word_dash_s());
    if word_is(&w[0], echo) {
        let mut t: Vec<u8> = if w.len() > 1 { copy_word(&w[1]) } else { Vec::new() };
        t.push(0x0a);
        Command::Echo(t)
    } else if word_is(&w[0], clear) {
        Command::Clear
    } else if word_is(&w[0], lspci) {
        Command::Lspci
    } else if word_is(&w[0], ls) {
        if w.len() > 1 { Command::Ls(Some(copy_word(&w[1]))) } else { Command::Ls(None) }
    } else if word_is(&w[0], cat) {
        if w.len() > 1 { Command::Cat(Some(copy_word(&w[1]))) } else { Command::Cat(None) }
    } else if word_is(&w[0], noterm) {
        if w.len() > 1 { Command::NoTerm(copy_word(&w[1])) } else { Command::Nothing }
    } else if word_is(&w[0], ulimit) {
        if w.len() >= 3 {
            if word_is(&w[1], dash_s) {
                match parse_u64(w[2].as_slice()) {
                    Some(n) => Command::SetStackSize(n << 10u64),
                    None => Command::UlimitUsage,
                }
            } else {
                Command::Nothing
            }
        } else {
            Command::ShowStackSize
        }
    } else if word_is(&w[0], memstat) {
        Command::MemStat
    } else {
        assert(Seq::new(w@.len(), |i: int| w@[i]@) =~= ws);
        Command::Run(w)
    }
}

/// `No such file or directory: `
pub open spec fn text_no_such_path() -> Seq<u8> {
    seq![0x4eu8, 0x6f, 0x20, 0x73, 0x75, 0x63, 0x68, 0x20, 0x66, 0x69, 0x6c, 0x65, 0x20, 0x6f, 0x72, 0x20,
        0x64, 0x69, 0x72, 0x65, 0x63, 0x74, 0x6f, 0x72, 0x79, 0x3a, 0x20]
}

/// ` is not a directory` and a newline.
pub open spec fn text_not_dir() -> Seq<u8> {
    seq![0x20u8, 0x69, 0x73, 0x20, 0x6e, 0x6f, 0x74, 0x20, 0x61, 0x20, 0x64, 0x69, 0x72, 0x65, 0x63, 0x74,
        0x6f, 0x72, 0x79, 0x0a]
}

/// `no such file: `
pub open spec fn text_no_such_file() -> Seq<u8> {
    seq![0x6eu8, 0x6f, 0x20, 0x73, 0x75, 0x63, 0x68, 0x20, 0x66, 0x69, 0x6c, 0x65, 0x3a, 0x20]
}

/// `no such command: `
pub open spec fn text_no_such_command() -> Seq<u8> {
    seq![0x6eu8, 0x6f, 0x20, 0x73, 0x75, 0x63, 0x68, 0x20, 0x63, 0x6f, 0x6d, 0x6d, 0x61, 0x6e, 0x64, 0x3a, 0x20]
}

/// `Usage: cat <file>` and a newline.
pub open spec fn text_cat_usage() -> Seq<u8> {
    seq![0x55u8, 0x73, 0x61, 0x67, 0x65, 0x3a, 0x20, 0x63, 0x61, 0x74, 0x20, 0x3c, 0x66, 0x69, 0x6c, 0x65,
        0x3e, 0x0a]
}

/// The 11 name bytes of a directory entry as a file name: the name, then a
/// `.` and the extension when it has one.
pub open spec fn display_name(name: Seq<u8>) -> Seq<u8> {
    let base = trim_end(name.subrange(0, 8));
    let ext = trim_end(name.subrange(8, 11));
    if ext.len() > 0 { base + seq![0x2eu8] + ext } else { base }
}

/// What `ls path` prints: the listing of the directory `path` names, the
/// name of the file it names (with ` is not a directory` when a `/`
/// followed it), or that there is no such file or directory; `None` when
/// the listing meets a name of spaces only.
pub open spec fn ls_spec(vol: VolumeModel, path: Seq<u8>) -> Option<Seq<u8>> {
    let (found, post_slash) = vol.find_spec(path, 0);
    match found {
        None => Some(text_no_such_path() + path + seq![0x0au8]),
        Some((c, i)) => if vol.entry_attr(c, i) == 0x10 {
            vol.listing(vol.entry_first_cluster(c, i), vol.fuel())
        } else if post_slash {
            Some(display_name(vol.entry_name(c, i)) + text_not_dir())
        } else {
            Some(display_name(vol.entry_name(c, i)) + seq![0x0au8])
        },
    }
}

/// What `cat path` prints, and whether it is the file's content: the bytes
/// of the file `path` names, or that there is no such file, or that the
/// file named before a `/` is not a directory.
pub open spec fn cat_spec(vol: VolumeModel, path: Seq<u8>) -> (Seq<u8>, bool) {
    let (found, post_slash) = vol.find_spec(path, 0);
    match found {
        None => (text_no_such_file() + path + seq![0x0au8], false),
        Some((c, i)) => if vol.entry_attr(c, i) != 0x10 && post_slash {
            (path + text_not_dir(), false)
        } else {
            (vol.load_spec(vol.entry_first_cluster(c, i), vol.entry_size(c, i), vol.fuel()), true)
        },
    }
}

/// Where the file that the command `name` runs stands, as (cluster,
/// index), or the text to print instead: that there is no such command, or
/// that the file named before a `/` is not a directory.
pub open spec fn run_spec(vol: VolumeModel, name: Seq<u8>) -> Result<(int, int), Seq<u8>> {
    let (found, post_slash) = vol.find_spec(name, 0);
    match found {
        None => Err(text_no_such_command() + name + seq![0x0au8]),
        Some((c, i)) => if vol.entry_attr(c, i) != 0x10 && post_slash {
            Err(name + text_not_dir())
        } else {
            Ok((c, i))
        },
    }
}

/// Appends the bytes of `s` to `out`.
pub(crate) fn push_all(out: &mut Vec<u8>, s: &[u8])
    ensures
        final(out)@ == old(out)@ + s@,
{
    let mut i: usize = 0;
    while i < s.len()
        invariant
            i <= s@.len(),
            out@ == old(out)@ + s@.subrange(0, i as int),
        decreases s@.len() - i,
    {
        out.push(s[i]);
        i = i + 1;
        assert(out@ =~= old(out)@ + s@.subrange(0, i as int));
    }
    assert(s@.subrange(0, s@.len() as int) =~= s@);
}

/// The name of entry `i` of cluster `cluster` as `display_name` writes it.
fn entry_display_name(vol: &FatVolume, cluster: u64, i: usize) -> (r: Vec<u8>)
    requires
        vol@.wf(),
        vol@.valid_cluster(cluster as int),
        i < vol@.epc(),
    ensures
        r@ == display_name(vol@.entry_name(cluster as int, i as int)),
{
    let e = vol.entry_at(cluster, i);
    let (base, ext) = read_name(&e);
    let mut out: Vec<u8> = Vec::new();
    push_all(&mut out, base.as_slice());
    if ext.len() > 0 {
        out.push(0x2e);
        push_all(&mut out, ext.as_slice());
    }
    assert(out@ =~= display_name(vol@.entry_name(cluster as int, i as int)));
    out
}

/// What `ls path` prints (see `ls_spec`).
pub fn ls_output(vol: &FatVolume, path: &[u8]) -> (r: Option<Vec<u8>>)
    requires
        vol@.wf(),
    ensures
        match r {
            Some(v) => ls_spec(vol@, path@) == Some(v@),
            None => ls_spec(vol@, path@) is None,
        },
{
    let (found, post_slash) = vol.find_file(path, 0);
    match found {
        None => {
            let mut out: Vec<u8> = Vec::new();
            let msg: &[u8] = &[0x4e, 0x6f, 0x20, 0x73, 0x75, 0x63, 0x68, 0x20, 0x66, 0x69, 0x6c, 0x65, 0x20, 0x6f,
                0x72, 0x20, 0x64, 0x69, 0x72, 0x65, 0x63, 0x74, 0x6f, 0x72, 0x79, 0x3a, 0x20];
            assert(msg@ == text_no_such_path());
            push_all(&mut out, msg);
            push_all(&mut out, path);
            out.push(0x0a);
            Some(out)
        },
        Some((c, i)) => {
            let e = vol.entry_at(c, i);
            if e.attr == 0x10 {
                vol.list_entries(e.first_cluster() as u64)
            } else {
                let mut out = entry_display_name(vol, c, i);
                if post_slash {
                    let msg: &[u8] = &[0x20, 0x69, 0x73, 0x20, 0x6e, 0x6f, 0x74, 0x20, 0x61, 0x20, 0x64, 0x69, 0x72,
                        0x65, 0x63, 0x74, 0x6f, 0x72, 0x79, 0x0a];
                    assert(msg@ == text_not_dir());
                    push_all(&mut out, msg);
                } else {
                    out.push(0x0a);
                }
                Some(out)
            }
        },
    }
}

/// What `ls` with no path prints: the listing of the root directory.
pub fn ls_root_output(vol: &FatVolume) -> (r: Option<Vec<u8>>)
    requires
        vol@.wf(),
    ensures
        match r {
            Some(v) => vol@.listing(vol@.root(), vol@.fuel()) == Some(v@),
            None => vol@.listing(vol@.root(), vol@.fuel()) is None,
        },
{
    vol.list_entries(vol.bpb().root_clus() as u64)
}

/// What `cat path` prints, and whether it is the file's content (see
/// `cat_spec`).
pub fn cat_output(vol: &FatVolume, path: &[u8]) -> (r: (Vec<u8>, bool))
    requires
        vol@.wf(),
    ensures
        (r.0@, r.1) == cat_spec(vol@, path@),
{
    let (found, post_slash) = vol.find_file(path, 0);
    match found {
        None => {
            let mut out: Vec<u8> = Vec::new();
            let msg: &[u8] = &[0x6e, 0x6f, 0x20, 0x73, 0x75, 0x63, 0x68, 0x20, 0x66, 0x69, 0x6c, 0x65, 0x3a, 0x20];
            assert(msg@ == text_no_such_file());
            push_all(&mut out, msg);
            push_all(&mut out, path);
            out.push(0x0a);
            (out, false)
        },
        Some((c, i)) => {
            let e = vol.entry_at(c, i);
            if e.attr != 0x10 && post_slash {
                let mut out: Vec<u8> = Vec::new();
                push_all(&mut out, path);
                let msg: &[u8] = &[0x20, 0x69, 0x73, 0x20, 0x6e, 0x6f, 0x74, 0x20, 0x61, 0x20, 0x64, 0x69, 0x72,
                    0x65, 0x63, 0x74, 0x6f, 0x72, 0x79, 0x0a];
                assert(msg@ == text_not_dir());
                push_all(&mut out, msg);
                (out, false)
            } else {
                (vol.load_file(&e), true)
            }
        },
    }
}

/// Where the file that the command `name` runs stands, or the text to
/// print instead (see `run_spec`).
pub fn find_command(vol: &FatVolume, name: &[u8]) -> (r: Result<(u64, usize), Vec<u8>>)
    requires
        vol@.wf(),
    ensures
        r is Ok <==> run_spec(vol@, name@) is Ok,
        r matches Ok((c, i)) ==> run_spec(vol@, name@) == Ok::<(int, int), Seq<u8>>((c as int, i as int))
            && vol@.valid_cluster(c as int) && i < vol@.epc(),
        r matches Err(t) ==> run_spec(vol@, name@) == Err::<(int, int), Seq<u8>>(t@),
{
    let (found, post_slash) = vol.find_file(name, 0);
    match found {
        None => {
            let mut out: Vec<u8> = Vec::new();
            let msg: &[u8] = &[0x6e, 0x6f, 0x20, 0x73, 0x75, 0x63, 0x68, 0x20, 0x63, 0x6f, 0x6d, 0x6d, 0x61, 0x6e,
                0x64, 0x3a, 0x20];
            assert(msg@ == text_no_such_command());
            push_all(&mut out, msg);
            push_all(&mut out, name);
            out.push(0x0a);
            assert(out@ =~= text_no_such_command() + name@ + seq![0x0au8]);
            Err(out)
        },
        Some((c, i)) => {
            let e = vol.entry_at(c, i);
            if e.attr != 0x10 && post_slash {
                let mut out: Vec<u8> = Vec::new();
                push_all(&mut out, name);
                let msg: &[u8] = &[0x20, 0x69, 0x73, 0x20, 0x6e, 0x6f, 0x74, 0x20, 0x61, 0x20, 0x64, 0x69, 0x72,
                    0x65, 0x63, 0x74, 0x6f, 0x72, 0x79, 0x0a];
                assert(msg@ == text_not_dir());
                push_all(&mut out, msg);
                assert(out@ =~= name@ + text_not_dir());
                Err(out)
            } else {
                Ok((c, i))
            }
        },
    }
}

/// What `ulimit -s` prints for a stack of `size` bytes: the size in KiB.
pub open spec fn stack_size_spec(size: u64) -> Seq<u8> {
    seq![0x73u8, 0x74, 0x61, 0x63, 0x6b, 0x5f, 0x73, 0x69, 0x7a, 0x65, 0x3a, 0x20]
        + dec_digits((size / 1024) as nat) + seq![0x20u8, 0x4b, 0x69, 0x42, 0x0a]
}

/// Prints "stack_size: <size in KiB> KiB".
pub fn stack_size_text(size: u64) -> (r: Vec<u8>)
    ensures
        r@ == stack_size_spec(size),
{
    let mut out: Vec<u8> = Vec::new();
    let head: [u8; 12] = [0x73, 0x74, 0x61, 0x63, 0x6b, 0x5f, 0x73, 0x69, 0x7a, 0x65, 0x3a, 0x20];
    push_all(&mut out, &head);
    push_dec(&mut out, size >> 10);
    let tail: [u8; 5] = [0x20, 0x4b, 0x69, 0x42, 0x0a];
    push_all(&mut out, &tail);
    proof {
        assert(size >> 10 == size / 1024) by (bit_vector);
        assert(head@ =~= seq![0x73u8, 0x74, 0x61, 0x63, 0x6b, 0x5f, 0x73, 0x69, 0x7a, 0x65, 0x3a, 0x20]);
        assert(tail@ =~= seq![0x20u8, 0x4b, 0x69, 0x42, 0x0a]);
    }
    out
}

/// One line of `memstat`: `label`, the frame count, and the MiB they make
/// (256 frames of 4 KiB to the MiB, rounded down).
pub open spec fn memstat_line(label: Seq<u8>, frames: nat) -> Seq<u8> {
    label + dec_digits(frames) + seq![0x20u8, 0x66, 0x72, 0x61, 0x6d, 0x65, 0x73, 0x20, 0x28]
        + dec_digits(frames / 256) + seq![0x20u8, 0x4d, 0x69, 0x42, 0x29, 0x0a]
}

/// What `memstat` prints: frames in use and frames in all, each also in
/// MiB.
pub open spec fn memstat_spec(stat: MemoryStat) -> Seq<u8> {
    memstat_line(seq![0x50u8, 0x68, 0x79, 0x73, 0x20, 0x75, 0x73, 0x65, 0x64, 0x20, 0x3a, 0x20], stat.allocated_frames as nat)
        + memstat_line(seq![0x50u8, 0x68, 0x79, 0x73, 0x20, 0x74, 0x6f, 0x74, 0x61, 0x6c, 0x3a, 0x20], stat.total_frames as nat)
}

fn push_memstat_line(out: &mut Vec<u8>, label: &[u8], frames: usize)
    ensures
        final(out)@ == old(out)@ + memstat_line(label@, frames as nat),
{
    push_all(out, label);
    push_dec(out, frames as u64);
    let mid: [u8; 9] = [0x20, 0x66, 0x72, 0x61, 0x6d, 0x65, 0x73, 0x20, 0x28];
    push_all(out, &mid);
    push_dec(out, (frames / 256) as u64);
    let tail: [u8; 6] = [0x20, 0x4d, 0x69, 0x42, 0x29, 0x0a];
    push_all(out, &tail);
    proof {
        assert(mid@ =~= seq![0x20u8, 0x66, 0x72, 0x61, 0x6d, 0x65, 0x73, 0x20, 0x28]);
        assert(tail@ =~= seq![0x20u8, 0x4d, 0x69, 0x42, 0x29, 0x0a]);
        assert(final(out)@ =~= old(out)@ + memstat_line(label@, frames as nat));
    }
}

/// Prints what `memstat` shows for `stat`.
pub fn memstat_text(stat: &MemoryStat) -> (r: Vec<u8>)
    ensures
        r@ == memstat_spec(*stat),
{
    let mut out: Vec<u8> = Vec::new();
    let used: [u8; 12] = [0x50, 0x68, 0x79, 0x73, 0x20, 0x75, 0x73, 0x65, 0x64, 0x20, 0x3a, 0x20];
    push_memstat_line(&mut out, &used, stat.allocated_frames);
    let total: [u8; 12] = [0x50, 0x68, 0x79, 0x73, 0x20, 0x74, 0x6f, 0x74, 0x61, 0x6c, 0x3a, 0x20];
    push_memstat_line(&mut out, &total, stat.total_frames);
    proof {
        assert(used@ =~= seq![0x50u8, 0x68, 0x79, 0x73, 0x20, 0x75, 0x73, 0x65, 0x64, 0x20, 0x3a, 0x20]);
        assert(total@ =~= seq![0x50u8, 0x68, 0x79, 0x73, 0x20, 0x74, 0x6f, 0x74, 0x61, 0x6c, 0x3a, 0x20]);
        assert(out@ =~= memstat_spec(*stat));
    }
    out
}

} // verus!
