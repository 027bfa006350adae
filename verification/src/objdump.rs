//! The disassembly index: the text that the platform's object-code
//! disassembler prints is parsed into a map from instruction address to
//! mnemonic and operands. The measurement loop reads it to recover the
//! destination register of the load that ends a hardware accessor.

use crate::text;
use vstd::prelude::*;

verus! {

/// Why the disassembly text was rejected.
#[derive(Debug, Clone, Copy, PartialEq, Eq, Structural)]
pub enum ObjdumpError {
    /// An address field is empty, is not hexadecimal, or does not fit.
    BadAddress,
}

/// The model of the instruction map: address/instruction pairs, earlier
/// entries shadowing later ones.
pub type InstrMap = Seq<(u64, Seq<char>)>;

/// The first instruction bound to `a` at or after index `i`.
pub open spec fn instr_lookup_from(m: InstrMap, a: u64, i: int) -> Option<Seq<char>>
    decreases m.len() - i,
{
    if i < 0 || i >= m.len() {
        None
    } else if m[i].0 == a {
        Some(m[i].1)
    } else {
        instr_lookup_from(m, a, i + 1)
    }
}

/// The instruction bound to `a`.
pub open spec fn instr_lookup(m: InstrMap, a: u64) -> Option<Seq<char>> {
    instr_lookup_from(m, a, 0)
}

/// The first index bound to `a` at or after index `i`.
pub open spec fn instr_index_from(m: InstrMap, a: u64, i: int) -> Option<int>
    decreases m.len() - i,
{
    if i < 0 || i >= m.len() {
        None
    } else if m[i].0 == a {
        Some(i)
    } else {
        instr_index_from(m, a, i + 1)
    }
}

/// Binding an address: the first entry for it is replaced, or a new entry
/// appended.
pub open spec fn instr_insert(m: InstrMap, a: u64, v: Seq<char>) -> InstrMap {
    match instr_index_from(m, a, 0) {
        Some(i) => m.update(i, (a, v)),
        None => m.push((a, v)),
    }
}

/// The disassembly of the replay binary.
#[derive(Debug, PartialEq)]
pub struct Objdump {
    pub instructions: Vec<(u64, String)>,
}

impl View for Objdump {
    type V = InstrMap;

    open spec fn view(&self) -> InstrMap {
        self.instructions@.map_values(|p: (u64, String)| (p.0, p.1@))
    }
}

impl Objdump {
    /// An empty disassembly index.
    pub fn new() -> (r: Objdump)
        ensures
            r@ == Seq::<(u64, Seq<char>)>::empty(),
    {
        let r = Objdump { instructions: Vec::new() };
        proof {
            assert(r@ =~= Seq::<(u64, Seq<char>)>::empty());
        }
        r
    }

    /// Returns the instruction at the given address if it exists.
    pub fn get_instruction(&self, address: &u64) -> (r: Option<String>)
        ensures
            match r {
                Some(s) => instr_lookup(self@, *address) == Some(s@),
                None => instr_lookup(self@, *address) is None,
            },
    {
        let n = self.instructions.len();
        let mut i: usize = 0;
        while i < n
            invariant
                n == self.instructions.len(),
                i <= n,
                instr_lookup(self@, *address) == instr_lookup_from(self@, *address, i as int),
            decreases n - i,
        {
            if self.instructions[i].0 == *address {
                return Some(self.instructions[i].1.clone());
            }
            i += 1;
        }
        None
    }

    /// Bind an address to its instruction text.
    fn insert(&mut self, a: u64, v: String)
        ensures
            final(self)@ == instr_insert(old(self)@, a, v@),
    {
        let n = self.instructions.len();
        let mut i: usize = 0;
        while i < n
            invariant
                n == self.instructions.len(),
                i <= n,
                self == old(self),
                instr_index_from(self@, a, 0) == instr_index_from(self@, a, i as int),
            decreases n - i,
        {
            if self.instructions[i].0 == a {
                self.instructions[i] = (a, v);
                proof {
                    assert(final(self)@ =~= instr_insert(old(self)@, a, v@));
                }
                return ;
            }
            i += 1;
        }
        self.instructions.push((a, v));
        proof {
            assert(final(self)@ =~= instr_insert(old(self)@, a, v@));
        }
    }
}

/// The value of a hexadecimal digit.
pub open spec fn spec_hex_digit(c: char) -> Option<int> {
    if '0' <= c <= '9' {
        Some(c as int - '0' as int)
    } else if 'a' <= c <= 'f' {
        Some(10 + c as int - 'a' as int)
    } else if 'A' <= c <= 'F' {
        Some(10 + c as int - 'A' as int)
    } else {
        None
    }
}

/// The value of the first `n` characters read as a hexadecimal number, or
/// nothing if one of them is not a hexadecimal digit.
pub open spec fn spec_hex_upto(s: Seq<char>, n: int) -> Option<int>
    decreases n,
{
    if n <= 0 || n > s.len() {
        Some(0)
    } else {
        match (spec_hex_upto(s, n - 1), spec_hex_digit(s[n - 1])) {
            (Some(v), Some(d)) => Some(v * 16 + d),
            _ => None,
        }
    }
}

/// The 64-bit address a string denotes in hexadecimal: it must be
/// non-empty, all digits, and fit in 64 bits.
pub open spec fn spec_parse_hex(s: Seq<char>) -> Option<u64> {
    if s.len() == 0 {
        None
    } else {
        match spec_hex_upto(s, s.len() as int) {
            Some(v) => {
                if v <= u64::MAX {
                    Some(v as u64)
                } else {
                    None
                }
            },
            None => None,
        }
    }
}

/// Parses a hexadecimal address.
fn parse_hex(s: &str) -> (r: Option<u64>)
    ensures
        r == spec_parse_hex(s@),
{
    let n = s.unicode_len();
    if n == 0 {
        return None;
    }
    let mut value: u64 = 0;
    let mut i: usize = 0;
    while i < n
        invariant
            n == s@.len(),
            i <= n,
            spec_hex_upto(s@, i as int) == Some(value as int),
        decreases n - i,
    {
        let c = s.get_char(i);
        let d: u64 = if '0' <= c && c <= '9' {
            c as u64 - '0' as u64
        } else if 'a' <= c && c <= 'f' {
            10 + c as u64 - 'a' as u64
        } else if 'A' <= c && c <= 'F' {
            10 + c as u64 - 'A' as u64
        } else {
            proof {
                lemma_hex_bad_digit(s@, i as int, n as int);
            }
            return None;
        };
        if value > (0xffff_ffff_ffff_ffffu64 - d) / 16 {
            proof {
                lemma_hex_overflow(s@, i as int + 1, n as int);
            }
            return None;
        }
        value = value * 16 + d;
        i += 1;
    }
    Some(value)
}

/// A bad digit at position `i` spoils every longer prefix.
proof fn lemma_hex_bad_digit(s: Seq<char>, i: int, n: int)
    requires
        0 <= i < n <= s.len(),
        spec_hex_digit(s[i]) is None,
    ensures
        spec_hex_upto(s, n) is None,
    decreases n,
{
    if n > i + 1 {
        lemma_hex_bad_digit(s, i, n - 1);
    }
}

/// Hexadecimal values grow with their prefixes: a later prefix is at least
/// as large as an earlier one.
proof fn lemma_hex_overflow(s: Seq<char>, i: int, n: int)
    requires
        0 < i <= n <= s.len(),
        spec_hex_upto(s, i) matches Some(v) && v > u64::MAX,
    ensures
        spec_hex_upto(s, n) matches Some(v2) ==> v2 > u64::MAX,
    decreases n,
{
    if n > i {
        lemma_hex_overflow(s, i, n - 1);
        if spec_hex_upto(s, n - 1) is Some && spec_hex_digit(s[n - 1]) is Some {
            let v = spec_hex_upto(s, n - 1).unwrap();
            let d = spec_hex_digit(s[n - 1]).unwrap();
            assert(d >= 0);
            assert(v * 16 + d > u64::MAX) by (nonlinear_arith)
                requires
                    v > u64::MAX,
                    d >= 0,
            ;
        }
    }
}

/// One character of a line, with tabs read as spaces.
pub open spec fn spec_norm_char(c: char) -> char {
    if c == '\t' {
        ' '
    } else {
        c
    }
}

/// A line with its tabs read as spaces.
pub open spec fn spec_normalize(s: Seq<char>) -> Seq<char> {
    Seq::new(s.len(), |i: int| spec_norm_char(s[i]))
}

/// The first position at or after `i` whose character is not a space.
pub open spec fn spec_skip_spaces(s: Seq<char>, i: int) -> int
    decreases s.len() - i,
{
    if i < 0 || i >= s.len() {
        s.len() as int
    } else if s[i] == ' ' {
        spec_skip_spaces(s, i + 1)
    } else {
        i
    }
}

/// The position after the last non-space character at or before `i`.
pub open spec fn spec_rskip_spaces(s: Seq<char>, i: int) -> int
    decreases i,
{
    if i <= 0 {
        0
    } else if s[i - 1] == ' ' {
        spec_rskip_spaces(s, i - 1)
    } else {
        i
    }
}

/// A line without its leading and trailing spaces.
pub open spec fn spec_trim(s: Seq<char>) -> Seq<char> {
    let from = spec_skip_spaces(s, 0);
    let to = spec_rskip_spaces(s, s.len() as int);
    if from <= to {
        s.subrange(from, to)
    } else {
        Seq::empty()
    }
}

/// Normalizes tabs to spaces.
fn normalize_line(s: &str) -> (r: String)
    ensures
        r@ == spec_normalize(s@),
{
    let n = s.unicode_len();
    let mut out = String::new();
    let mut i: usize = 0;
    while i < n
        invariant
            n == s@.len(),
            i <= n,
            out@ == spec_normalize(s@).take(i as int),
        decreases n - i,
    {
        let c = s.get_char(i);
        if c == '\t' {
            out.append(" ");
            proof {
                reveal_strlit(" ");
                assert(" "@ =~= seq![' ']);
            }
        } else {
            let piece = s.substring_char(i, i + 1);
            out.append(piece);
            proof {
                assert(piece@ =~= seq![s@[i as int]]);
            }
        }
        proof {
            assert(spec_normalize(s@).take(i + 1) =~= spec_normalize(s@).take(i as int).push(
                spec_norm_char(s@[i as int]),
            ));
            assert(spec_normalize(s@).take(i + 1) =~= out@);
        }
        i += 1;
    }
    proof {
        assert(spec_normalize(s@).take(n as int) =~= spec_normalize(s@));
    }
    out
}

/// Trims leading and trailing spaces.
fn trim_spaces(s: &str) -> (r: String)
    ensures
        r@ == spec_trim(s@),
{
    let n = s.unicode_len();
    let mut from: usize = 0;
    while from < n && s.get_char(from) == ' '
        invariant
            n == s@.len(),
            from <= n,
            spec_skip_spaces(s@, 0) == spec_skip_spaces(s@, from as int),
            forall|q: int| 0 <= q < from ==> s@[q] == ' ',
        decreases n - from,
    {
        from += 1;
    }
    let mut to: usize = n;
    while to > from && s.get_char(to - 1) == ' '
        invariant
            n == s@.len(),
            from <= to <= n,
            from == spec_skip_spaces(s@, 0),
            spec_rskip_spaces(s@, n as int) == spec_rskip_spaces(s@, to as int),
        decreases to,
    {
        to -= 1;
    }
    proof {
        lemma_rskip_le(s@, to as int);
        if to > from {
            assert(spec_rskip_spaces(s@, to as int) == to as int);
        } else {
            assert(s@.subrange(from as int, from as int) =~= Seq::<char>::empty());
            let rk = spec_rskip_spaces(s@, n as int);
            if from <= rk {
                assert(s@.subrange(from as int, rk) =~= Seq::<char>::empty());
            }
        }
    }
    text::substring(s, from, to)
}

/// Trimming from the right never passes the starting position.
proof fn lemma_rskip_le(s: Seq<char>, i: int)
    requires
        0 <= i,
    ensures
        0 <= spec_rskip_spaces(s, i) <= i,
    decreases i,
{
    if i > 0 && s[i - 1] == ' ' {
        lemma_rskip_le(s, i - 1);
    }
}

/// The first position of `c` in `s` at or after `i`.
pub open spec fn find_char_from(s: Seq<char>, c: char, i: int) -> Option<int>
    decreases s.len() - i,
{
    if i < 0 || i >= s.len() {
        None
    } else if s[i] == c {
        Some(i)
    } else {
        find_char_from(s, c, i + 1)
    }
}

proof fn lemma_find_char_bounds(s: Seq<char>, c: char, i: int, j: int)
    requires
        find_char_from(s, c, i) == Some(j),
    ensures
        i <= j < s.len(),
        s[j] == c,
    decreases s.len() - i,
{
    if !(i < 0 || i >= s.len()) && s[i] != c {
        lemma_find_char_bounds(s, c, i + 1, j);
    }
}

/// The first position of `c` in `s` at or after `from`.
pub fn find_char(s: &str, c: char, from: usize) -> (r: Option<usize>)
    requires
        from <= s@.len(),
    ensures
        match r {
            Some(j) => find_char_from(s@, c, from as int) == Some(j as int),
            None => find_char_from(s@, c, from as int) is None,
        },
{
    let n = s.unicode_len();
    let mut i: usize = from;
    while i < n
        invariant
            n == s@.len(),
            from <= i <= n,
            find_char_from(s@, c, from as int) == find_char_from(s@, c, i as int),
        decreases n - i,
    {
        if s.get_char(i) == c {
            return Some(i);
        }
        i += 1;
    }
    None
}

/// The address and instruction a disassembly line yields: a normalized,
/// trimmed line that starts with `8` and has a colon maps the hexadecimal
/// field before the colon to the trimmed text after it. Other lines yield
/// nothing; a bad address field is an error.
pub open spec fn spec_line_entry(line: Seq<char>) -> Result<
    Option<(u64, Seq<char>)>,
    ObjdumpError,
> {
    let tl = spec_trim(spec_normalize(line));
    if tl.len() > 0 && tl[0] == '8' {
        match find_char_from(tl, ':', 0) {
            Some(ci) => {
                match spec_parse_hex(tl.subrange(0, ci)) {
                    Some(a) => Ok(
                        Some((a, spec_trim(tl.subrange(ci + 1, tl.len() as int)))),
                    ),
                    None => Err(ObjdumpError::BadAddress),
                }
            },
            None => Ok(None),
        }
    } else {
        Ok(None)
    }
}

/// Parses one disassembly line.
fn parse_line(line: &str) -> (r: Result<Option<(u64, String)>, ObjdumpError>)
    ensures
        match r {
            Ok(Some((a, ins))) => spec_line_entry(line@) == Ok::<
                Option<(u64, Seq<char>)>,
                ObjdumpError,
            >(Some((a, ins@))),
            Ok(None) => spec_line_entry(line@) == Ok::<Option<(u64, Seq<char>)>, ObjdumpError>(
                None,
            ),
            Err(e) => spec_line_entry(line@) == Err::<Option<(u64, Seq<char>)>, ObjdumpError>(e),
        },
{
    let norm = normalize_line(line);
    let tl = trim_spaces(norm.as_str());
    let tls = tl.as_str();
    let n = tls.unicode_len();
    if n == 0 {
        return Ok(None);
    }
    if tls.get_char(0) != '8' {
        return Ok(None);
    }
    match find_char(tls, ':', 0) {
        Some(ci) => {
            proof {
                lemma_find_char_bounds(tl@, ':', 0, ci as int);
            }
            let address = text::substring(tls, 0, ci);
            match parse_hex(address.as_str()) {
                Some(a) => {
                    let tail = text::substring(tls, ci + 1, n);
                    let ins = trim_spaces(tail.as_str());
                    Ok(Some((a, ins)))
                },
                None => Err(ObjdumpError::BadAddress),
            }
        },
        None => Ok(None),
    }
}

/// The instruction map the whole disassembly text from offset `i` on folds
/// to.
pub open spec fn spec_objdump_from(s: Seq<char>, i: int, acc: InstrMap) -> Result<
    InstrMap,
    ObjdumpError,
>
    decreases s.len() + 1 - i,
    via spec_objdump_from_dec
{
    if i < 0 || i >= s.len() {
        Ok(acc)
    } else {
        let end = match find_char_from(s, '\n', i) {
            Some(e) => e,
            None => s.len() as int,
        };
        let line = s.subrange(i, end);
        match spec_line_entry(line) {
            Ok(Some((a, ins))) => spec_objdump_from(s, end + 1, instr_insert(acc, a, ins)),
            Ok(None) => spec_objdump_from(s, end + 1, acc),
            Err(e) => Err(e),
        }
    }
}

#[via_fn]
proof fn spec_objdump_from_dec(s: Seq<char>, i: int, acc: InstrMap) {
    if 0 <= i < s.len() {
        match find_char_from(s, '\n', i) {
            Some(e) => {
                lemma_find_char_bounds(s, '\n', i, e);
            },
            None => {},
        }
    }
}

/// Parses the disassembler's output. Lines beginning with an instruction
/// address (flash addresses start with `8` on the target family) are
/// entered into the map as `address -> mnemonic and operands`, with tabs
/// normalized to spaces and surrounding whitespace trimmed.
pub fn parse_objdump_output(output: &String) -> (r: Result<Objdump, ObjdumpError>)
    ensures
        match r {
            Ok(o) => spec_objdump_from(output@, 0, Seq::empty()) == Ok::<InstrMap, ObjdumpError>(
                o@,
            ),
            Err(e) => spec_objdump_from(output@, 0, Seq::empty()) == Err::<InstrMap, ObjdumpError>(
                e,
            ),
        },
{
    let s = output.as_str();
    let n = s.unicode_len();
    let mut map = Objdump::new();
    proof {
        assert(map@ =~= Seq::<(u64, Seq<char>)>::empty());
    }
    let mut i: usize = 0;
    while i < n
        invariant
            n == s@.len(),
            i <= n,
            s@ == output@,
            spec_objdump_from(output@, 0, Seq::empty()) == spec_objdump_from(
                output@,
                i as int,
                map@,
            ),
        decreases n - i,
    {
        let ghost old_map = map@;
        match find_char(s, '\n', i) {
            Some(e) => {
                proof {
                    lemma_find_char_bounds(s@, '\n', i as int, e as int);
                }
                let line = text::substring(s, i, e);
                match parse_line(line.as_str()) {
                    Ok(Some((a, ins))) => {
                        map.insert(a, ins);
                    },
                    Ok(None) => {},
                    Err(err) => {
                        proof {
                            assert(spec_objdump_from(output@, i as int, old_map) == Err::<
                                InstrMap,
                                ObjdumpError,
                            >(err));
                        }
                        return Err(err);
                    },
                }
                proof {
                    assert(spec_objdump_from(output@, i as int, old_map) == spec_objdump_from(
                        output@,
                        e as int + 1,
                        map@,
                    ));
                }
                i = e + 1;
            },
            None => {
                let line = text::substring(s, i, n);
                match parse_line(line.as_str()) {
                    Ok(Some((a, ins))) => {
                        map.insert(a, ins);
                    },
                    Ok(None) => {},
                    Err(err) => {
                        proof {
                            assert(spec_objdump_from(output@, i as int, old_map) == Err::<
                                InstrMap,
                                ObjdumpError,
                            >(err));
                        }
                        return Err(err);
                    },
                }
                proof {
                    assert(spec_objdump_from(output@, s@.len() as int + 1, map@) == Ok::<
                        InstrMap,
                        ObjdumpError,
                    >(map@));
                    assert(spec_objdump_from(output@, i as int, old_map) == Ok::<
                        InstrMap,
                        ObjdumpError,
                    >(map@));
                }
                return Ok(map);
            },
        }
    }
    Ok(map)
}

} // verus!
