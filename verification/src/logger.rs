//! Log levels, the level below which messages are shown, and the
//! printf-style formatting of messages that C++ code logs.
use vstd::prelude::*;
use crate::interrupt::hex_digit;

verus! {

/// How serious a log message is, most serious first.
#[derive(Clone, Copy, Debug, PartialEq, Eq, Structural)]
pub enum LogLevel {
    Error,
    Warn,
    Info,
    Debug,
}

impl LogLevel {
    /// The level's number: 3, 4, 6 and 7.
    pub open spec fn value_spec(self) -> u8 {
        match self {
            LogLevel::Error => 3,
            LogLevel::Warn => 4,
            LogLevel::Info => 6,
            LogLevel::Debug => 7,
        }
    }

    pub fn value(&self) -> (r: u8)
        ensures
            r == self.value_spec(),
    {
        match self {
            LogLevel::Error => 3,
            LogLevel::Warn => 4,
            LogLevel::Info => 6,
            LogLevel::Debug => 7,
        }
    }
}

/// The logger's setting: messages up to this level are shown.
pub struct Logger {
    level: LogLevel,
}

impl Logger {
    pub closed spec fn level_spec(&self) -> LogLevel {
        self.level
    }

    /// Shows warnings and errors.
    pub fn new() -> (r: Self)
        ensures
            r.level_spec() == LogLevel::Warn,
    {
        Logger { level: LogLevel::Warn }
    }

    pub fn set_log_level(&mut self, level: LogLevel)
        ensures
            final(self).level_spec() == level,
    {
        self.level = level;
    }

    pub fn get_log_level(&self) -> (r: LogLevel)
        ensures
            r == self.level_spec(),
    {
        self.level
    }

    /// Whether a message of `level` is shown: its level is at most the
    /// logger's.
    pub fn enabled(&self, level: LogLevel) -> (r: bool)
        ensures
            r == (level.value_spec() <= self.level_spec().value_spec()),
    {
        level.value() <= self.level.value()
    }
}

/// A piece of a formatted log line: a byte as it stands, or conversion
/// `conv` (`s`, `d`, `x`, `u`, `c` or `p`) of argument `index`, with zero
/// padding or not, to at least `width` characters.
#[derive(Clone, Copy, Debug, PartialEq, Eq, Structural)]
pub enum Piece {
    Byte(u8),
    Conv { conv: u8, padding: bool, width: usize, index: usize },
}

/// Whether `c` names a conversion.
pub open spec fn is_conv(c: u8) -> bool {
    c == 0x73 || c == 0x64 || c == 0x78 || c == 0x75 || c == 0x63 || c == 0x70
}

/// `p` before the pieces of `r`, when `r` is not an error.
pub open spec fn prepend(p: Seq<Piece>, r: Result<Seq<Piece>, int>) -> Result<Seq<Piece>, int> {
    match r {
        Ok(s) => Ok(p + s),
        Err(e) => Err(e),
    }
}

proof fn lemma_prepend(a: Seq<Piece>, b: Seq<Piece>, r: Result<Seq<Piece>, int>)
    ensures
        prepend(a, prepend(b, r)) == prepend(a + b, r),
{
    if let Ok(s) = r {
        assert(a + (b + s) =~= (a + b) + s);
    }
}

/// The pieces of `fmt` from byte `i` on, in the given state: after a `%`
/// or not, zero padding asked for, width read so far, arguments used so
/// far. After `%`: a conversion letter ends the conversion and clears
/// padding and width; `%` gives a `%` and leaves them; `l` is skipped; `0`
/// asks for zero padding; `1` to `9` add a decimal digit to the width. Any
/// other byte there, or a width past `usize::MAX`, is an error at its index.
pub open spec fn parse_from(fmt: Seq<u8>, i: int, in_conv: bool, padding: bool, width: int, num_read: int) -> Result<Seq<Piece>, int>
    decreases fmt.len() - i,
{
    if i < 0 || i >= fmt.len() {
        Ok(Seq::empty())
    } else {
        let c = fmt[i];
        if !in_conv {
            if c == 0x25 {
                parse_from(fmt, i + 1, true, padding, width, num_read)
            } else {
                prepend(seq![Piece::Byte(c)], parse_from(fmt, i + 1, false, padding, width, num_read))
            }
        } else if is_conv(c) {
            prepend(
                seq![Piece::Conv { conv: c, padding, width: width as usize, index: num_read as usize }],
                parse_from(fmt, i + 1, false, false, 0, num_read + 1),
            )
        } else if c == 0x25 {
            prepend(seq![Piece::Byte(0x25)], parse_from(fmt, i + 1, false, padding, width, num_read))
        } else if c == 0x6c {
            parse_from(fmt, i + 1, true, padding, width, num_read)
        } else if c == 0x30 {
            parse_from(fmt, i + 1, true, true, width, num_read)
        } else if 0x31 <= c <= 0x39 {
            if width * 10 + (c - 0x30) > usize::MAX {
                Err(i)
            } else {
                parse_from(fmt, i + 1, true, padding, width * 10 + (c - 0x30), num_read)
            }
        } else {
            Err(i)
        }
    }
}

/// How many conversions there are among the pieces `ps`.
pub open spec fn conv_count(ps: Seq<Piece>) -> nat
    decreases ps.len(),
{
    if ps.len() == 0 {
        0
    } else {
        conv_count(ps.drop_last()) + if ps.last() is Conv { 1nat } else { 0nat }
    }
}

/// Whether each conversion of `ps` takes the argument after those the
/// conversions before it took, counting from `first`.
pub open spec fn args_in_order(ps: Seq<Piece>, first: int) -> bool {
    forall|j: int| 0 <= j < ps.len() ==> (#[trigger] ps[j] matches Piece::Conv { index, .. } ==> index == first + conv_count(ps.take(j)))
}

proof fn lemma_conv_count_prepend(p: Piece, ps: Seq<Piece>)
    ensures
        conv_count(seq![p] + ps) == conv_count(ps) + if p is Conv { 1nat } else { 0nat },
    decreases ps.len(),
{
    let q = seq![p] + ps;
    if ps.len() > 0 {
        lemma_conv_count_prepend(p, ps.drop_last());
        assert(q.drop_last() =~= seq![p] + ps.drop_last());
        assert(q.last() == ps.last());
    } else {
        assert(q.drop_last() =~= Seq::<Piece>::empty());
        assert(q.last() == p);
        assert(conv_count(Seq::<Piece>::empty()) == 0);
    }
}

/// Arguments are used in order, one for each conversion, from `num_read`
/// on: a `%%` or a plain byte takes none.
pub proof fn lemma_parse_args_in_order(fmt: Seq<u8>, i: int, in_conv: bool, padding: bool, width: int, num_read: int)
    requires
        0 <= num_read,
        num_read + (fmt.len() - i) <= usize::MAX,
    ensures
        parse_from(fmt, i, in_conv, padding, width, num_read) matches Ok(ps) ==> args_in_order(ps, num_read),
    decreases fmt.len() - i,
{
    if i < 0 || i >= fmt.len() {
    } else {
        let c = fmt[i];
        if !in_conv {
            lemma_parse_args_in_order(fmt, i + 1, c == 0x25, padding, width, num_read);
        } else if is_conv(c) {
            lemma_parse_args_in_order(fmt, i + 1, false, false, 0, num_read + 1);
        } else if c == 0x25 {
            lemma_parse_args_in_order(fmt, i + 1, false, padding, width, num_read);
        } else if c == 0x6c {
            lemma_parse_args_in_order(fmt, i + 1, true, padding, width, num_read);
        } else if c == 0x30 {
            lemma_parse_args_in_order(fmt, i + 1, true, true, width, num_read);
        } else if 0x31 <= c <= 0x39 {
            lemma_parse_args_in_order(fmt, i + 1, true, padding, width * 10 + (c - 0x30), num_read);
        }
        let emits = (!in_conv && c != 0x25) || (in_conv && (is_conv(c) || c == 0x25));
        if emits {
            let p = if !in_conv { Piece::Byte(c) } else if is_conv(c) {
                Piece::Conv { conv: c, padding, width: width as usize, index: num_read as usize }
            } else {
                Piece::Byte(0x25)
            };
            let next_read = if in_conv && is_conv(c) { num_read + 1 } else { num_read };
            let rp = if in_conv && is_conv(c) {
                parse_from(fmt, i + 1, false, false, 0, num_read + 1)
            } else {
                parse_from(fmt, i + 1, false, padding, width, num_read)
            };
            assert(parse_from(fmt, i, in_conv, padding, width, num_read) == prepend(seq![p], rp));
            if let Ok(rps) = rp {
                let ps = seq![p] + rps;
                assert forall|j: int| 0 <= j < ps.len() implies (#[trigger] ps[j] matches Piece::Conv { index, .. } ==> index == num_read + conv_count(ps.take(j))) by {
                    if j == 0 {
                        assert(ps.take(0) =~= Seq::<Piece>::empty());
                        assert(conv_count(Seq::<Piece>::empty()) == 0);
                    } else {
                        assert(ps[j] == rps[j - 1]);
                        assert(ps.take(j) =~= seq![p] + rps.take(j - 1));
                        lemma_conv_count_prepend(p, rps.take(j - 1));
                        if rps[j - 1] is Conv {
                            assert(rps[j - 1] matches Piece::Conv { index, .. } ==> index == next_read + conv_count(rps.take(j - 1)));
                        }
                    }
                }
            }
        }
    }
}

/// Cuts a C-style format into pieces (see `parse_from`); `Err` with the
/// index of a byte after `%` that is no known conversion, or of a width
/// digit that makes the width overflow.
pub fn parse_format(fmt: &[u8]) -> (r: Result<Vec<Piece>, usize>)
    ensures
        r matches Ok(ps) ==> parse_from(fmt@, 0, false, false, 0, 0) == Ok::<Seq<Piece>, int>(ps@),
        r matches Err(i) ==> parse_from(fmt@, 0, false, false, 0, 0) == Err::<Seq<Piece>, int>(i as int),
        r matches Ok(ps) ==> args_in_order(ps@, 0),
{
    let flen = fmt.len();
    proof { lemma_parse_args_in_order(fmt@, 0, false, false, 0, 0); }
    let ghost target = parse_from(fmt@, 0, false, false, 0, 0);
    let mut out: Vec<Piece> = Vec::new();
    let mut in_conv = false;
    let mut padding = false;
    let mut width: usize = 0;
    let mut num_read: usize = 0;
    let mut i: usize = 0;
    while i < fmt.len()
        invariant
            i <= fmt@.len(),
            num_read <= i,
            target == parse_from(fmt@, 0, false, false, 0, 0),
            target == prepend(out@, parse_from(fmt@, i as int, in_conv, padding, width as int, num_read as int)),
        decreases fmt@.len() - i,
    {
        let c = fmt[i];
        let ghost before = out@;
        let ghost cur = parse_from(fmt@, i as int, in_conv, padding, width as int, num_read as int);
        assert(target == prepend(before, cur));
        if !in_conv {
            if c == 0x25 {
                in_conv = true;
            } else {
                out.push(Piece::Byte(c));
                proof {
                    lemma_prepend(before, seq![Piece::Byte(c)], parse_from(fmt@, i + 1, false, padding, width as int, num_read as int));
                    assert(out@ =~= before + seq![Piece::Byte(c)]);
                }
            }
        } else if c == 0x73 || c == 0x64 || c == 0x78 || c == 0x75 || c == 0x63 || c == 0x70 {
            out.push(Piece::Conv { conv: c, padding, width, index: num_read });
            proof {
                lemma_prepend(before, seq![Piece::Conv { conv: c, padding, width, index: num_read }], parse_from(fmt@, i + 1, false, false, 0, num_read + 1));
                assert(out@ =~= before + seq![Piece::Conv { conv: c, padding, width, index: num_read }]);
            }
            in_conv = false;
            padding = false;
            width = 0;
            num_read = num_read + 1;
        } else if c == 0x25 {
            out.push(Piece::Byte(0x25));
            proof {
                lemma_prepend(before, seq![Piece::Byte(0x25)], parse_from(fmt@, i + 1, false, padding, width as int, num_read as int));
                assert(out@ =~= before + seq![Piece::Byte(0x25)]);
            }
            in_conv = false;
        } else if c == 0x6c {
        } else if c == 0x30 {
            padding = true;
        } else if 0x31 <= c && c <= 0x39 {
            let d = (c - 0x30) as usize;
            if width > (usize::MAX - d) / 10 {
                proof {
                    assert(width * 10 + d > usize::MAX) by (nonlinear_arith)
                        requires width > (usize::MAX - d) / 10, d <= 9;
                }
                assert(cur == Err::<Seq<Piece>, int>(i as int));
                return Err(i);
            }
            proof {
                assert(width * 10 + d <= usize::MAX) by (nonlinear_arith)
                    requires width <= (usize::MAX - d) / 10, d <= 9;
            }
            width = width * 10 + (c - 0x30) as usize;
        } else {
            assert(cur == Err::<Seq<Piece>, int>(i as int));
            return Err(i);
        }
        i = i + 1;
    }
    Ok(out)
}

/// The decimal digits of `n`.
pub open spec fn dec_digits(n: nat) -> Seq<u8>
    decreases n,
{
    if n < 10 {
        seq![(0x30 + n) as u8]
    } else {
        dec_digits(n / 10).push((0x30 + n % 10) as u8)
    }
}

/// The lower-case hexadecimal digits of `n`.
pub open spec fn hex_all(n: nat) -> Seq<u8>
    decreases n,
{
    if n < 16 {
        seq![hex_digit(n)]
    } else {
        hex_all(n / 16).push(hex_digit(n % 16))
    }
}

/// `sign` and `body` widened to `width`: with zeros between them when
/// `zero`, else with spaces before them.
pub open spec fn padded_num(sign: Seq<u8>, body: Seq<u8>, width: int, zero: bool) -> Seq<u8> {
    let len = sign.len() + body.len();
    if width <= len {
        sign + body
    } else if zero {
        sign + Seq::new((width - len) as nat, |j: int| 0x30u8) + body
    } else {
        Seq::new((width - len) as nat, |j: int| 0x20u8) + sign + body
    }
}

/// The text of conversion `conv` of `arg` (of the string `s` for `s`):
/// `d` the argument as a signed 64-bit integer, `u` unsigned, `x` its bits
/// in hexadecimal, each widened to `width`; `c` its low byte as a
/// character (UTF-8); `p` `0x` and its hexadecimal digits.
pub open spec fn conv_text(conv: u8, padding: bool, width: int, arg: u64, s: Seq<u8>) -> Seq<u8> {
    if conv == 0x73 {
        s
    } else if conv == 0x64 {
        if arg >= 0x8000_0000_0000_0000 {
            padded_num(seq![0x2du8], dec_digits((0x1_0000_0000_0000_0000 - arg) as nat), width, padding)
        } else {
            padded_num(Seq::empty(), dec_digits(arg as nat), width, padding)
        }
    } else if conv == 0x78 {
        padded_num(Seq::empty(), hex_all(arg as nat), width, padding)
    } else if conv == 0x75 {
        padded_num(Seq::empty(), dec_digits(arg as nat), width, padding)
    } else if conv == 0x63 {
        let b = (arg % 0x100) as u8;
        if b < 0x80 { seq![b] } else { seq![(0xc0 + b / 64) as u8, (0x80 + b % 64) as u8] }
    } else {
        seq![0x30u8, 0x78u8] + hex_all(arg as nat)
    }
}

/// The text of `ps`, with `args` for the arguments and `strs` for the
/// strings that `s` conversions show.
pub open spec fn render_text(ps: Seq<Piece>, args: Seq<u64>, strs: Seq<Vec<u8>>) -> Seq<u8>
    decreases ps.len(),
{
    if ps.len() == 0 {
        Seq::empty()
    } else {
        let last = match ps.last() {
            Piece::Byte(b) => seq![b],
            Piece::Conv { conv, padding, width, index } => conv_text(conv, padding, width as int, args[index as int], strs[index as int]@),
        };
        render_text(ps.drop_last(), args, strs) + last
    }
}

/// Appends the decimal digits of `n`.
pub(crate) fn push_dec(out: &mut Vec<u8>, n: u64)
    ensures
        final(out)@ == old(out)@ + dec_digits(n as nat),
    decreases n,
{
    if n >= 10 {
        push_dec(out, n / 10);
    }
    out.push(0x30 + (n % 10) as u8);
    assert(final(out)@ =~= old(out)@ + dec_digits(n as nat)) by {
        if n >= 10 {
            assert(dec_digits(n as nat) == dec_digits((n / 10) as nat).push((0x30 + n % 10) as u8));
        }
    }
}

/// Appends the hexadecimal digits of `n`.
fn push_hex(out: &mut Vec<u8>, n: u64)
    ensures
        final(out)@ == old(out)@ + hex_all(n as nat),
    decreases n,
{
    if n >= 16 {
        push_hex(out, n / 16);
    }
    let x = (n % 16) as u8;
    out.push(if x < 10 { 0x30 + x } else { 0x57 + x });
    assert(final(out)@ =~= old(out)@ + hex_all(n as nat)) by {
        if n >= 16 {
            assert(hex_all(n as nat) == hex_all((n / 16) as nat).push(hex_digit((n % 16) as nat)));
        }
    }
}

/// Appends `n` copies of `b`.
fn push_fill(out: &mut Vec<u8>, b: u8, n: usize)
    ensures
        final(out)@ == old(out)@ + Seq::new(n as nat, |j: int| b),
{
    let mut k: usize = 0;
    while k < n
        invariant
            k <= n,
            out@ == old(out)@ + Seq::new(k as nat, |j: int| b),
        decreases n - k,
    {
        out.push(b);
        k = k + 1;
        assert(out@ =~= old(out)@ + Seq::new(k as nat, |j: int| b));
    }
}

/// Appends `sign` and `body` widened to `width` (see `padded_num`).
fn push_padded(out: &mut Vec<u8>, sign: &[u8], body: &Vec<u8>, width: usize, zero: bool)
    requires
        sign@.len() <= 1,
    ensures
        final(out)@ == old(out)@ + padded_num(sign@, body@, width as int, zero),
{
    let slen = sign.len();
    let blen = body.len();
    if width <= slen || width - slen <= blen {
        out.extend_from_slice(sign);
        out.extend_from_slice(body.as_slice());
        assert(out@ =~= old(out)@ + padded_num(sign@, body@, width as int, zero));
    } else if zero {
        out.extend_from_slice(sign);
        let ghost mid = out@;
        push_fill(out, 0x30, width - slen - blen);
        out.extend_from_slice(body.as_slice());
        assert(out@ =~= old(out)@ + padded_num(sign@, body@, width as int, zero));
    } else {
        push_fill(out, 0x20, width - slen - blen);
        out.extend_from_slice(sign);
        out.extend_from_slice(body.as_slice());
        assert(out@ =~= old(out)@ + padded_num(sign@, body@, width as int, zero));
    }
}

/// Appends the text of conversion `conv` of `arg` (see `conv_text`).
fn push_conv(out: &mut Vec<u8>, conv: u8, padding: bool, width: usize, arg: u64, s: &[u8])
    ensures
        final(out)@ == old(out)@ + conv_text(conv, padding, width as int, arg, s@),
{
    let empty: &[u8] = &[];
    if conv == 0x73 {
        out.extend_from_slice(s);
        assert(out@ =~= old(out)@ + s@);
    } else if conv == 0x64 {
        let mut body: Vec<u8> = Vec::new();
        if arg >= 0x8000_0000_0000_0000 {
            push_dec(&mut body, u64::MAX - arg + 1);
            let minus: &[u8] = &[0x2d];
            assert(minus@ =~= seq![0x2du8]);
            push_padded(out, minus, &body, width, padding);
        } else {
            push_dec(&mut body, arg);
            assert(body@ =~= dec_digits(arg as nat));
            push_padded(out, empty, &body, width, padding);
        }
    } else if conv == 0x78 || conv == 0x75 {
        let mut body: Vec<u8> = Vec::new();
        if conv == 0x78 {
            push_hex(&mut body, arg);
            assert(body@ =~= hex_all(arg as nat));
        } else {
            push_dec(&mut body, arg);
            assert(body@ =~= dec_digits(arg as nat));
        }
        push_padded(out, empty, &body, width, padding);
    } else if conv == 0x63 {
        let b = (arg % 0x100) as u8;
        if b < 0x80 {
            out.push(b);
        } else {
            out.push(0xc0 + b / 64);
            out.push(0x80 + b % 64);
        }
        assert(out@ =~= old(out)@ + conv_text(conv, padding, width as int, arg, s@));
    } else {
        out.push(0x30);
        out.push(0x78);
        let ghost mid = out@;
        push_hex(out, arg);
        assert(out@ =~= old(out)@ + conv_text(conv, padding, width as int, arg, s@));
    }
}

/// The text of `pieces` (see `render_text`); every argument index they
/// use has an argument and a string.
pub fn render(pieces: &Vec<Piece>, args: &Vec<u64>, strs: &Vec<Vec<u8>>) -> (r: Vec<u8>)
    requires
        forall|k: int| 0 <= k < pieces@.len() ==> (#[trigger] pieces@[k] matches Piece::Conv { index, .. } ==> index < args@.len() && index < strs@.len()),
    ensures
        r@ == render_text(pieces@, args@, strs@),
{
    let mut out: Vec<u8> = Vec::new();
    let mut k: usize = 0;
    while k < pieces.len()
        invariant
            k <= pieces@.len(),
            forall|j: int| 0 <= j < pieces@.len() ==> (#[trigger] pieces@[j] matches Piece::Conv { index, .. } ==> index < args@.len() && index < strs@.len()),
            out@ == render_text(pieces@.take(k as int), args@, strs@),
        decreases pieces@.len() - k,
    {
        let p = pieces[k];
        match p {
            Piece::Byte(b) => {
                out.push(b);
            },
            Piece::Conv { conv, padding, width, index } => {
                push_conv(&mut out, conv, padding, width, args[index], strs[index].as_slice());
            },
        }
        proof {
            assert(pieces@.take(k + 1).drop_last() =~= pieces@.take(k as int));
            assert(pieces@.take(k + 1).last() == p);
        }
        k = k + 1;
    }
    assert(pieces@.take(pieces@.len() as int) =~= pieces@);
    out
}

/// A format without `%` gives its own bytes: each byte is a piece that
/// shows itself.
pub proof fn lemma_plain_format(fmt: Seq<u8>, args: Seq<u64>, strs: Seq<Vec<u8>>)
    requires
        forall|k: int| 0 <= k < fmt.len() ==> fmt[k] != 0x25,
    ensures
        parse_from(fmt, 0, false, false, 0, 0) is Ok,
        render_text(parse_from(fmt, 0, false, false, 0, 0)->Ok_0, args, strs) == fmt,
{
    lemma_plain_from(fmt, 0);
    assert(fmt.skip(0) =~= fmt);
    lemma_render_bytes(fmt, args, strs);
}

/// The pieces of a `%`-free tail of a format are its bytes.
proof fn lemma_plain_from(fmt: Seq<u8>, i: int)
    requires
        0 <= i <= fmt.len(),
        forall|k: int| 0 <= k < fmt.len() ==> fmt[k] != 0x25,
    ensures
        parse_from(fmt, i, false, false, 0, 0) == Ok::<Seq<Piece>, int>(fmt.skip(i).map_values(|b: u8| Piece::Byte(b))),
    decreases fmt.len() - i,
{
    if i < fmt.len() {
        lemma_plain_from(fmt, i + 1);
        assert(seq![Piece::Byte(fmt[i])] + fmt.skip(i + 1).map_values(|b: u8| Piece::Byte(b))
            =~= fmt.skip(i).map_values(|b: u8| Piece::Byte(b)));
    } else {
        assert(fmt.skip(i).map_values(|b: u8| Piece::Byte(b)) =~= Seq::<Piece>::empty());
    }
}

/// Byte pieces show their bytes.
proof fn lemma_render_bytes(bytes: Seq<u8>, args: Seq<u64>, strs: Seq<Vec<u8>>)
    ensures
        render_text(bytes.map_values(|b: u8| Piece::Byte(b)), args, strs) == bytes,
    decreases bytes.len(),
{
    if bytes.len() > 0 {
        lemma_render_bytes(bytes.drop_last(), args, strs);
        assert(bytes.map_values(|b: u8| Piece::Byte(b)).drop_last() =~= bytes.drop_last().map_values(|b: u8| Piece::Byte(b)));
        assert(bytes.drop_last().push(bytes.last()) =~= bytes);
    } else {
        assert(bytes.map_values(|b: u8| Piece::Byte(b)) =~= Seq::<Piece>::empty());
        assert(bytes =~= Seq::<u8>::empty());
    }
}

} // verus!
