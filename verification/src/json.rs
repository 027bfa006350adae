//! Serialization of trace forests to JSON and back. A trace node is
//! written as an object with the fields `name`, `ttype`, `start`, `inner`
//! and `end`, in that order; a forest is written as an array. The reader
//! accepts exactly what the writer produces.

use crate::trace::{Trace, TraceModel, TraceType};
use vstd::prelude::*;

verus! {

/// The decimal digit character for a value below ten.
pub open spec fn dec_digit(n: int) -> char
    recommends
        0 <= n < 10,
{
    if n == 0 {
        '0'
    } else if n == 1 {
        '1'
    } else if n == 2 {
        '2'
    } else if n == 3 {
        '3'
    } else if n == 4 {
        '4'
    } else if n == 5 {
        '5'
    } else if n == 6 {
        '6'
    } else if n == 7 {
        '7'
    } else if n == 8 {
        '8'
    } else {
        '9'
    }
}

/// The decimal representation of a non-negative number.
pub open spec fn dec_rep(n: int) -> Seq<char>
    recommends
        0 <= n,
    decreases n,
{
    if n < 10 {
        seq![dec_digit(n)]
    } else {
        dec_rep(n / 10) + seq![dec_digit(n % 10)]
    }
}

/// The name a trace type is written as.
pub open spec fn ttype_text(t: TraceType) -> Seq<char> {
    match t {
        TraceType::SoftwareTask => "SoftwareTask"@,
        TraceType::HardwareTask => "HardwareTask"@,
        TraceType::ResourceLock => "ResourceLock"@,
    }
}

/// The escaped form of one name character: quotes and backslashes get a
/// backslash before them, every other character stands as it is.
pub open spec fn esc_char(c: char) -> Seq<char> {
    if c == '"' || c == '\\' {
        seq!['\\', c]
    } else {
        seq![c]
    }
}

/// The escaped form of a name.
pub open spec fn esc(s: Seq<char>) -> Seq<char>
    decreases s.len(),
{
    if s.len() == 0 {
        Seq::empty()
    } else {
        esc_char(s[0]) + esc(s.drop_first())
    }
}

/// Escaping one more character appends its escaped form.
proof fn lemma_esc_snoc(s: Seq<char>, c: char)
    ensures
        esc(s.push(c)) == esc(s) + esc_char(c),
    decreases s.len(),
{
    if s.len() == 0 {
        assert(s.push(c)[0] == c);
        assert(s.push(c).drop_first() =~= Seq::<char>::empty());
        assert(esc(s) =~= Seq::<char>::empty());
        assert(esc(s.push(c).drop_first()) =~= Seq::<char>::empty());
        assert(esc(s.push(c)) =~= esc(s) + esc_char(c));
    } else {
        assert(s.push(c)[0] == s[0]);
        assert(s.push(c).drop_first() =~= s.drop_first().push(c));
        lemma_esc_snoc(s.drop_first(), c);
        assert(esc(s.push(c)) =~= esc(s) + esc_char(c));
    }
}

/// Appends a name with its quotes and backslashes escaped.
fn write_escaped(out: &mut String, name: &str)
    ensures
        final(out)@ == old(out)@ + esc(name@),
{
    let n = name.unicode_len();
    let mut i: usize = 0;
    proof {
        assert(name@.take(0) =~= Seq::<char>::empty());
        assert(out@ =~= old(out)@ + esc(name@.take(0)));
    }
    while i < n
        invariant
            n == name@.len(),
            i <= n,
            out@ == old(out)@ + esc(name@.take(i as int)),
        decreases n - i,
    {
        let c = name.get_char(i);
        if c == '"' {
            out.append("\\\"");
            proof {
                reveal_strlit("\\\"");
                assert("\\\""@ =~= seq!['\\', '"']);
            }
        } else if c == '\\' {
            out.append("\\\\");
            proof {
                reveal_strlit("\\\\");
                assert("\\\\"@ =~= seq!['\\', '\\']);
            }
        } else {
            let piece = name.substring_char(i, i + 1);
            out.append(piece);
            proof {
                assert(piece@ =~= seq![name@[i as int]]);
            }
        }
        proof {
            lemma_esc_snoc(name@.take(i as int), name@[i as int]);
            assert(name@.take(i + 1) =~= name@.take(i as int).push(name@[i as int]));
            assert(out@ =~= old(out)@ + esc(name@.take(i + 1)));
        }
        i += 1;
    }
    proof {
        assert(name@.take(n as int) =~= name@);
    }
}

/// The JSON text of one trace node.
pub open spec fn ser_trace(t: TraceModel) -> Seq<char>
    decreases t,
{
    "{\"name\":\""@ + esc(t.name) + "\",\"ttype\":\""@ + ttype_text(t.ttype) + "\",\"start\":"@
        + dec_rep(t.start as int) + ",\"inner\":"@ + ser_forest(t.inner) + ",\"end\":"@ + dec_rep(
        t.end as int,
    ) + "}"@
}

/// The JSON text of a forest: an array of nodes.
pub open spec fn ser_forest(ts: Seq<TraceModel>) -> Seq<char>
    decreases ts, 1int,
{
    seq!['['] + ser_items(ts, 0) + seq![']']
}

/// The comma-separated node texts from index `i` on.
pub open spec fn ser_items(ts: Seq<TraceModel>, i: int) -> Seq<char>
    decreases ts, 0int, ts.len() - i,
{
    if i < 0 || i >= ts.len() {
        Seq::empty()
    } else if i == ts.len() - 1 {
        ser_trace(ts[i])
    } else {
        ser_trace(ts[i]) + seq![','] + ser_items(ts, i + 1)
    }
}

/// Appends the decimal representation of `n`.
fn write_u32(out: &mut String, n: u32)
    ensures
        final(out)@ == old(out)@ + dec_rep(n as int),
    decreases n,
{
    if n >= 10 {
        write_u32(out, n / 10);
    }
    let d = n % 10;
    let piece = match d {
        0 => "0",
        1 => "1",
        2 => "2",
        3 => "3",
        4 => "4",
        5 => "5",
        6 => "6",
        7 => "7",
        8 => "8",
        _ => "9",
    };
    proof {
        reveal_strlit("0");
        reveal_strlit("1");
        reveal_strlit("2");
        reveal_strlit("3");
        reveal_strlit("4");
        reveal_strlit("5");
        reveal_strlit("6");
        reveal_strlit("7");
        reveal_strlit("8");
        reveal_strlit("9");
    }
    out.append(piece);
    proof {
        assert(piece@ =~= seq![dec_digit(d as int)]);
        if n >= 10 {
            assert(final(out)@ =~= old(out)@ + dec_rep(n as int));
        } else {
            assert(dec_rep(n as int) =~= seq![dec_digit(n as int)]);
            assert(final(out)@ =~= old(out)@ + dec_rep(n as int));
        }
    }
}

/// Appends the JSON text of one trace node.
#[verifier::rlimit(60)]
fn write_trace(out: &mut String, t: &Trace)
    ensures
        final(out)@ == old(out)@ + ser_trace(t@),
    decreases *t,
{
    out.append("{\"name\":\"");
    write_escaped(out, t.name.as_str());
    out.append("\",\"ttype\":\"");
    match t.ttype {
        TraceType::SoftwareTask => out.append("SoftwareTask"),
        TraceType::HardwareTask => out.append("HardwareTask"),
        TraceType::ResourceLock => out.append("ResourceLock"),
    }
    out.append("\",\"start\":");
    write_u32(out, t.start);
    out.append(",\"inner\":");
    write_forest(out, &t.inner);
    out.append(",\"end\":");
    write_u32(out, t.end);
    out.append("}");
    proof {
        crate::trace::lemma_trace_model_inner(*t);
        assert(crate::trace::traces_model(t.inner@) =~= t@.inner);
        assert(final(out)@ =~= old(out)@ + ser_trace(t@));
    }
}

/// Appends the JSON text of a forest.
fn write_forest(out: &mut String, ts: &Vec<Trace>)
    ensures
        final(out)@ == old(out)@ + ser_forest(crate::trace::traces_model(ts@)),
    decreases *ts,
{
    let ghost ms = crate::trace::traces_model(ts@);
    out.append("[");
    proof {
        reveal_strlit("[");
        assert("["@ =~= seq!['[']);
    }
    let n = ts.len();
    let mut i: usize = 0;
    proof {
        assert(out@ =~= old(out)@ + seq!['['] + ser_items_prefix(ms, 0));
    }
    while i < n
        invariant
            n == ts.len(),
            i <= n,
            ms == crate::trace::traces_model(ts@),
            ms.len() == n,
            out@ == old(out)@ + seq!['['] + ser_items_prefix(ms, i as int),
        decreases n - i,
    {
        if i > 0 {
            out.append(",");
            proof {
                reveal_strlit(",");
                assert(","@ =~= seq![',']);
            }
        }
        proof {
            assert(ms[i as int] == ts@[i as int]@);
        }
        write_trace(out, &ts[i]);
        proof {
            assert(out@ =~= old(out)@ + seq!['['] + ser_items_prefix(ms, i as int + 1));
        }
        i += 1;
    }
    out.append("]");
    proof {
        reveal_strlit("]");
        assert("]"@ =~= seq![']']);
        if n == 0 {
            assert(ser_items(ms, 0) =~= Seq::<char>::empty());
            assert(ser_items_prefix(ms, 0) =~= Seq::<char>::empty());
        } else {
            lemma_prefix_whole(ms, n as int);
        }
        assert(final(out)@ =~= old(out)@ + ser_forest(ms));
    }
}

/// The comma-separated node texts of the first `i` nodes.
pub open spec fn ser_items_prefix(ts: Seq<TraceModel>, i: int) -> Seq<char>
    decreases i,
{
    if i <= 0 || i > ts.len() {
        Seq::empty()
    } else if i == 1 {
        ser_trace(ts[0])
    } else {
        ser_items_prefix(ts, i - 1) + seq![','] + ser_trace(ts[i - 1])
    }
}

/// The items from `i` on, each preceded by a comma.
pub open spec fn comma_items(ts: Seq<TraceModel>, i: int) -> Seq<char>
    decreases ts, 0int, ts.len() - i,
{
    if i < 0 || i >= ts.len() {
        Seq::empty()
    } else {
        seq![','] + ser_trace(ts[i]) + comma_items(ts, i + 1)
    }
}

/// The item list from `i` on is its first item followed by the
/// comma-prefixed rest.
proof fn lemma_items_comma(ts: Seq<TraceModel>, i: int)
    requires
        0 <= i < ts.len(),
    ensures
        ser_items(ts, i) == ser_trace(ts[i]) + comma_items(ts, i + 1),
    decreases ts.len() - i,
{
    if i == ts.len() - 1 {
        assert(comma_items(ts, i + 1) =~= Seq::<char>::empty());
        assert(ser_items(ts, i) =~= ser_trace(ts[i]) + comma_items(ts, i + 1));
    } else {
        lemma_items_comma(ts, i + 1);
        assert(ser_items(ts, i) =~= ser_trace(ts[i]) + comma_items(ts, i + 1));
    }
}

/// The prefix of all items, read left to right, is the whole item list.
proof fn lemma_prefix_whole(ts: Seq<TraceModel>, n: int)
    requires
        n == ts.len(),
        n >= 1,
    ensures
        ser_items_prefix(ts, n) == ser_items(ts, 0),
{
    lemma_prefix_step(ts, n);
    assert(comma_items(ts, n) =~= Seq::<char>::empty());
    assert(ser_items_prefix(ts, n) =~= ser_items_prefix(ts, n) + comma_items(ts, n));
}

/// At every split point the prefix plus the comma-prefixed rest is the
/// whole item list.
proof fn lemma_prefix_step(ts: Seq<TraceModel>, i: int)
    requires
        1 <= i <= ts.len(),
    ensures
        ser_items_prefix(ts, i) + comma_items(ts, i) == ser_items(ts, 0),
    decreases i,
{
    if i == 1 {
        lemma_items_comma(ts, 0);
        assert(ser_items_prefix(ts, 1) + comma_items(ts, 1) =~= ser_items(ts, 0));
    } else {
        lemma_prefix_step(ts, i - 1);
        assert(ser_items_prefix(ts, i - 1) + comma_items(ts, i - 1) =~= ser_items_prefix(ts, i)
            + comma_items(ts, i));
    }
}

/// Serializes a forest of traces to JSON.
pub fn traces_to_json(traces: &Vec<Trace>) -> (r: String)
    ensures
        r@ == ser_forest(crate::trace::traces_model(traces@)),
{
    let mut out = String::new();
    write_forest(&mut out, traces);
    proof {
        assert(out@ =~= ser_forest(crate::trace::traces_model(traces@)));
    }
    out
}

/// Whether a character is a decimal digit.
pub open spec fn is_dec_digit(c: char) -> bool {
    '0' <= c <= '9'
}

/// The first position at or after `i` whose character is not a digit.
pub open spec fn digits_end(s: Seq<char>, i: int) -> int
    decreases s.len() - i,
{
    if i < 0 || i >= s.len() {
        s.len() as int
    } else if is_dec_digit(s[i]) {
        digits_end(s, i + 1)
    } else {
        i
    }
}

/// The value of the digits from `i` up to `j`, accumulated onto `acc`.
pub open spec fn dec_val(s: Seq<char>, i: int, j: int, acc: int) -> int
    decreases j - i,
{
    if i >= j {
        acc
    } else {
        dec_val(s, i + 1, j, acc * 10 + (s[i] as int - '0' as int))
    }
}

/// Consuming a literal: the position after it, where the text at `i`
/// matches it.
pub open spec fn expect(s: Seq<char>, i: int, lit: Seq<char>) -> Option<int> {
    if 0 <= i && i + lit.len() <= s.len() && s.subrange(i, i + lit.len()) == lit {
        Some(i + lit.len())
    } else {
        None
    }
}

/// Parsing a name from position `i` with the characters read so far: the
/// name runs to the next unescaped quote, and a backslash makes the
/// character after it literal.
pub open spec fn parse_name_acc(s: Seq<char>, i: int, acc: Seq<char>) -> Option<(Seq<char>, int)>
    decreases s.len() - i,
{
    if i < 0 || i >= s.len() {
        None
    } else if s[i] == '"' {
        Some((acc, i))
    } else if s[i] == '\\' {
        if i + 1 < s.len() {
            parse_name_acc(s, i + 2, acc.push(s[i + 1]))
        } else {
            None
        }
    } else {
        parse_name_acc(s, i + 1, acc.push(s[i]))
    }
}

/// Parsing a name: the unescaped characters up to the next unescaped
/// quote.
pub open spec fn parse_name(s: Seq<char>, i: int) -> Option<(Seq<char>, int)> {
    parse_name_acc(s, i, Seq::empty())
}

/// Parsing a trace type name.
pub open spec fn parse_ttype(s: Seq<char>, i: int) -> Option<(TraceType, int)> {
    match expect(s, i, "SoftwareTask"@) {
        Some(j) => Some((TraceType::SoftwareTask, j)),
        None => match expect(s, i, "HardwareTask"@) {
            Some(j) => Some((TraceType::HardwareTask, j)),
            None => match expect(s, i, "ResourceLock"@) {
                Some(j) => Some((TraceType::ResourceLock, j)),
                None => None,
            },
        },
    }
}

/// Parsing a 32-bit number: at least one digit, and the value must fit.
pub open spec fn parse_u32(s: Seq<char>, i: int) -> Option<(u32, int)> {
    if i < 0 {
        None
    } else {
        let j = digits_end(s, i);
        if j == i {
            None
        } else {
            let v = dec_val(s, i, j, 0);
            if v <= u32::MAX {
                Some((v as u32, j))
            } else {
                None
            }
        }
    }
}

/// Parsing one trace node.
pub open spec fn parse_trace(s: Seq<char>, i: int, fuel: nat) -> Option<(TraceModel, int)>
    decreases fuel,
{
    if fuel == 0 {
        None
    } else {
        match expect(s, i, "{\"name\":\""@) {
            Some(i1) => match parse_name(s, i1) {
                Some((name, i2)) => match expect(s, i2, "\",\"ttype\":\""@) {
                    Some(i3) => match parse_ttype(s, i3) {
                        Some((tt, i4)) => match expect(s, i4, "\",\"start\":"@) {
                            Some(i5) => match parse_u32(s, i5) {
                                Some((start, i6)) => match expect(s, i6, ",\"inner\":"@) {
                                    Some(i7) => match parse_forest(s, i7, (fuel - 1) as nat) {
                                        Some((inner, i8)) => match expect(s, i8, ",\"end\":"@) {
                                            Some(i9) => match parse_u32(s, i9) {
                                                Some((end, i10)) => match expect(s, i10, "}"@) {
                                                    Some(i11) => Some(
                                                        (
                                                            TraceModel {
                                                                name,
                                                                ttype: tt,
                                                                start,
                                                                inner,
                                                                end,
                                                            },
                                                            i11,
                                                        ),
                                                    ),
                                                    None => None,
                                                },
                                                None => None,
                                            },
                                            None => None,
                                        },
                                        None => None,
                                    },
                                    None => None,
                                },
                                None => None,
                            },
                            None => None,
                        },
                        None => None,
                    },
                    None => None,
                },
                None => None,
            },
            None => None,
        }
    }
}

/// Parsing an array of trace nodes, including its brackets.
pub open spec fn parse_forest(s: Seq<char>, i: int, fuel: nat) -> Option<(Seq<TraceModel>, int)>
    decreases fuel,
{
    if fuel == 0 {
        None
    } else {
        match expect(s, i, "["@) {
            Some(i1) => match expect(s, i1, "]"@) {
                Some(i2) => Some((Seq::empty(), i2)),
                None => parse_items(s, i1, (fuel - 1) as nat),
            },
            None => None,
        }
    }
}

/// Parsing the nodes of a non-empty array, through the closing bracket.
pub open spec fn parse_items(s: Seq<char>, i: int, fuel: nat) -> Option<(Seq<TraceModel>, int)>
    decreases fuel,
{
    if fuel == 0 {
        None
    } else {
        match parse_trace(s, i, (fuel - 1) as nat) {
            Some((t, j)) => match expect(s, j, ","@) {
                Some(j2) => match parse_items(s, j2, (fuel - 1) as nat) {
                    Some((rest, k)) => Some((seq![t] + rest, k)),
                    None => None,
                },
                None => match expect(s, j, "]"@) {
                    Some(j2) => Some((seq![t], j2)),
                    None => None,
                },
            },
            None => None,
        }
    }
}

/// What a whole JSON text denotes: a forest that uses every character.
pub open spec fn spec_traces_from_json(s: Seq<char>) -> Option<Seq<TraceModel>> {
    match parse_forest(s, 0, (s.len() + 2) as nat) {
        Some((ms, j)) => {
            if j == s.len() {
                Some(ms)
            } else {
                None
            }
        },
        None => None,
    }
}

/// Consumes the literal `lit` at position `i`.
fn expect_lit(s: &str, i: usize, lit: &str) -> (r: Option<usize>)
    ensures
        match r {
            Some(j) => expect(s@, i as int, lit@) == Some(j as int),
            None => expect(s@, i as int, lit@) is None,
        },
{
    let n = s.unicode_len();
    let m = lit.unicode_len();
    if i > n || n - i < m {
        return None;
    }
    if crate::text::match_at(s, lit, i) {
        Some(i + m)
    } else {
        None
    }
}

/// Parses a 32-bit number at position `i`.
fn parse_u32_at(s: &str, i: usize) -> (r: Option<(u32, usize)>)
    requires
        i <= s@.len(),
    ensures
        match r {
            Some((v, j)) => parse_u32(s@, i as int) == Some((v, j as int)),
            None => parse_u32(s@, i as int) is None,
        },
{
    let n = s.unicode_len();
    let mut j: usize = i;
    let mut acc: u64 = 0;
    loop
        invariant
            n == s@.len(),
            i <= j <= n,
            digits_end(s@, i as int) == digits_end(s@, j as int),
            forall|q: int| i <= q < j ==> is_dec_digit(#[trigger] s@[q]),
            acc <= 0xffff_ffffu64 ==> acc == dec_val(s@, i as int, j as int, 0),
            acc > 0xffff_ffffu64 ==> dec_val(s@, i as int, j as int, 0) > u32::MAX,
            acc <= 0xf_ffff_ffffu64,
        decreases n - j,
    {
        let done: bool = if j >= n {
            true
        } else {
            let c0 = s.get_char(j);
            !('0' <= c0 && c0 <= '9')
        };
        if done {
            proof {
                assert(digits_end(s@, j as int) == j as int);
            }
            if j == i {
                return None;
            }
            if acc > 0xffff_ffffu64 {
                return None;
            }
            return Some((acc as u32, j));
        }
        let c = s.get_char(j);
        let d = (c as u32 - '0' as u32) as u64;
        proof {
            lemma_dec_val_snoc(s@, i as int, j as int, 0);
            assert(d == s@[j as int] as int - '0' as int);
        }
        if acc > 0xffff_ffffu64 {
            proof {
                assert(dec_val(s@, i as int, j as int + 1, 0) > u32::MAX) by (nonlinear_arith)
                    requires
                        dec_val(s@, i as int, j as int + 1, 0) == dec_val(s@, i as int, j as int, 0)
                            * 10 + (s@[j as int] as int - '0' as int),
                        dec_val(s@, i as int, j as int, 0) > u32::MAX,
                        s@[j as int] as int - '0' as int >= 0,
                ;
            }
            acc = 0x1_0000_0000u64;
        } else {
            if acc * 10 + d > 0xffff_ffffu64 {
                acc = 0x1_0000_0000u64;
            } else {
                acc = acc * 10 + d;
            }
        }
        j += 1;
    }
}

/// One more digit extends the accumulated value tenfold plus the digit.
proof fn lemma_dec_val_snoc(s: Seq<char>, i: int, j: int, acc: int)
    requires
        0 <= i <= j < s.len(),
    ensures
        dec_val(s, i, j + 1, acc) == dec_val(s, i, j, acc) * 10 + (s[j] as int - '0' as int),
    decreases j - i,
{
    if i < j {
        lemma_dec_val_snoc(s, i + 1, j, acc * 10 + (s[i] as int - '0' as int));
    } else {
        assert(dec_val(s, i, j + 1, acc) == dec_val(s, j + 1, j + 1, acc * 10 + (s[j] as int
            - '0' as int)));
        assert(dec_val(s, j + 1, j + 1, acc * 10 + (s[j] as int - '0' as int)) == acc * 10 + (
        s[j] as int - '0' as int));
    }
}

/// Parses a name at position `i`: the characters up to the next unescaped
/// quote, with escapes resolved.
fn parse_name_at(s: &str, i: usize) -> (r: Option<(String, usize)>)
    requires
        i <= s@.len(),
    ensures
        match r {
            Some((name, j)) => parse_name(s@, i as int) == Some((name@, j as int)) && i <= j
                <= s@.len(),
            None => parse_name(s@, i as int) is None,
        },
{
    let n = s.unicode_len();
    let mut name = String::new();
    let mut j: usize = i;
    proof {
        assert(name@ =~= Seq::<char>::empty());
    }
    loop
        invariant
            n == s@.len(),
            i <= j <= n,
            parse_name_acc(s@, i as int, Seq::empty()) == parse_name_acc(s@, j as int, name@),
        decreases n - j,
    {
        if j >= n {
            return None;
        }
        let c = s.get_char(j);
        if c == '"' {
            proof {
                assert(parse_name_acc(s@, j as int, name@) == Some((name@, j as int)));
            }
            return Some((name, j));
        }
        if c == '\\' {
            if j + 1 >= n {
                return None;
            }
            let ghost old_name = name@;
            let piece = s.substring_char(j + 1, j + 2);
            name.append(piece);
            proof {
                assert(piece@ =~= seq![s@[j + 1]]);
                assert(name@ =~= old_name.push(s@[j + 1]));
                assert(parse_name_acc(s@, j as int, old_name) == parse_name_acc(
                    s@,
                    j + 2,
                    name@,
                ));
            }
            j += 2;
        } else {
            let ghost old_name = name@;
            let piece = s.substring_char(j, j + 1);
            name.append(piece);
            proof {
                assert(piece@ =~= seq![s@[j as int]]);
                assert(name@ =~= old_name.push(s@[j as int]));
                assert(parse_name_acc(s@, j as int, old_name) == parse_name_acc(
                    s@,
                    j + 1,
                    name@,
                ));
            }
            j += 1;
        }
    }
}

/// Parses a trace type name at position `i`.
fn parse_ttype_at(s: &str, i: usize) -> (r: Option<(TraceType, usize)>)
    ensures
        match r {
            Some((tt, j)) => parse_ttype(s@, i as int) == Some((tt, j as int)),
            None => parse_ttype(s@, i as int) is None,
        },
{
    match expect_lit(s, i, "SoftwareTask") {
        Some(j) => Some((TraceType::SoftwareTask, j)),
        None => match expect_lit(s, i, "HardwareTask") {
            Some(j) => Some((TraceType::HardwareTask, j)),
            None => match expect_lit(s, i, "ResourceLock") {
                Some(j) => Some((TraceType::ResourceLock, j)),
                None => None,
            },
        },
    }
}

/// Parses one trace node at position `i`.
fn parse_trace_at(s: &str, i: usize, fuel: u128) -> (r: Option<(Trace, usize)>)
    requires
        i <= s@.len(),
    ensures
        match r {
            Some((t, j)) => parse_trace(s@, i as int, fuel as nat) == Some((t@, j as int)) && j
                <= s@.len(),
            None => parse_trace(s@, i as int, fuel as nat) is None,
        },
    decreases fuel,
{
    if fuel == 0 {
        return None;
    }
    let i1 = match expect_lit(s, i, "{\"name\":\"") {
        Some(x) => x,
        None => {
            return None;
        },
    };
    let (name, i2) = match parse_name_at(s, i1) {
        Some(x) => x,
        None => {
            return None;
        },
    };
    let i3 = match expect_lit(s, i2, "\",\"ttype\":\"") {
        Some(x) => x,
        None => {
            return None;
        },
    };
    let (tt, i4) = match parse_ttype_at(s, i3) {
        Some(x) => x,
        None => {
            return None;
        },
    };
    let i5 = match expect_lit(s, i4, "\",\"start\":") {
        Some(x) => x,
        None => {
            return None;
        },
    };
    let (start, i6) = match parse_u32_at(s, i5) {
        Some(x) => x,
        None => {
            return None;
        },
    };
    let i7 = match expect_lit(s, i6, ",\"inner\":") {
        Some(x) => x,
        None => {
            return None;
        },
    };
    let (inner, i8) = match parse_forest_at(s, i7, fuel - 1) {
        Some(x) => x,
        None => {
            return None;
        },
    };
    let i9 = match expect_lit(s, i8, ",\"end\":") {
        Some(x) => x,
        None => {
            return None;
        },
    };
    let (end, i10) = match parse_u32_at(s, i9) {
        Some(x) => x,
        None => {
            return None;
        },
    };
    let i11 = match expect_lit(s, i10, "}") {
        Some(x) => x,
        None => {
            return None;
        },
    };
    let t = Trace { name, ttype: tt, start, inner, end };
    proof {
        crate::trace::lemma_trace_model_inner(t);
        assert(t@.inner =~= crate::trace::traces_model(t.inner@));
        assert(parse_trace(s@, i as int, fuel as nat) matches Some((tm, _)) && tm =~~= t@);
    }
    Some((t, i11))
}

/// Parses a trace array at position `i`.
fn parse_forest_at(s: &str, i: usize, fuel: u128) -> (r: Option<(Vec<Trace>, usize)>)
    requires
        i <= s@.len(),
    ensures
        match r {
            Some((ts, j)) => parse_forest(s@, i as int, fuel as nat) == Some(
                (crate::trace::traces_model(ts@), j as int),
            ) && j <= s@.len(),
            None => parse_forest(s@, i as int, fuel as nat) is None,
        },
    decreases fuel,
{
    if fuel == 0 {
        return None;
    }
    let i1 = match expect_lit(s, i, "[") {
        Some(x) => x,
        None => {
            return None;
        },
    };
    match expect_lit(s, i1, "]") {
        Some(i2) => {
            let ts: Vec<Trace> = Vec::new();
            proof {
                assert(crate::trace::traces_model(ts@) =~= Seq::<TraceModel>::empty());
            }
            Some((ts, i2))
        },
        None => parse_items_at(s, i1, fuel - 1),
    }
}

/// Parses the nodes of a non-empty array at position `i`, through the
/// closing bracket.
fn parse_items_at(s: &str, i: usize, fuel: u128) -> (r: Option<(Vec<Trace>, usize)>)
    requires
        i <= s@.len(),
    ensures
        match r {
            Some((ts, j)) => parse_items(s@, i as int, fuel as nat) == Some(
                (crate::trace::traces_model(ts@), j as int),
            ) && j <= s@.len(),
            None => parse_items(s@, i as int, fuel as nat) is None,
        },
    decreases fuel,
{
    if fuel == 0 {
        return None;
    }
    let (t, j) = match parse_trace_at(s, i, fuel - 1) {
        Some(x) => x,
        None => {
            return None;
        },
    };
    match expect_lit(s, j, ",") {
        Some(j2) => {
            match parse_items_at(s, j2, fuel - 1) {
                Some((rest, k)) => {
                    let ghost tm = parse_trace(s@, i as int, (fuel - 1) as nat).unwrap().0;
                    let ghost rest_models = crate::trace::traces_model(rest@);
                    let mut ts: Vec<Trace> = Vec::new();
                    ts.push(t);
                    let mut rest = rest;
                    proof {
                        assert(crate::trace::traces_model(ts@) =~= seq![tm]);
                        assert(crate::trace::traces_model(ts@) + crate::trace::traces_model(rest@)
                            =~= seq![tm] + rest_models);
                    }
                    while rest.len() > 0
                        invariant
                            crate::trace::traces_model(ts@) + crate::trace::traces_model(rest@)
                                == seq![tm] + rest_models,
                        decreases rest.len(),
                    {
                        let ghost ts_m = crate::trace::traces_model(ts@);
                        let ghost rest_m = crate::trace::traces_model(rest@);
                        let x = rest.remove(0);
                        ts.push(x);
                        proof {
                            assert(crate::trace::traces_model(ts@) =~= ts_m.push(rest_m[0]));
                            assert(crate::trace::traces_model(rest@) =~= rest_m.drop_first());
                            assert(crate::trace::traces_model(ts@) + crate::trace::traces_model(
                                rest@,
                            ) =~= ts_m + rest_m);
                        }
                    }
                    proof {
                        assert(crate::trace::traces_model(rest@) =~= Seq::<TraceModel>::empty());
                        assert(crate::trace::traces_model(ts@) =~= seq![tm] + rest_models);
                    }
                    Some((ts, k))
                },
                None => None,
            }
        },
        None => match expect_lit(s, j, "]") {
            Some(j2) => {
                let mut ts: Vec<Trace> = Vec::new();
                ts.push(t);
                proof {
                    assert(crate::trace::traces_model(ts@) =~= seq![
                        parse_trace(s@, i as int, (fuel - 1) as nat).unwrap().0,
                    ]);
                }
                Some((ts, j2))
            },
            None => None,
        },
    }
}

/// Parsing unescapes what escaping produced: at a position holding the
/// escaped form of a name followed by a quote, the name parser returns the
/// name appended to what it read so far, stopping at that quote.
proof fn lemma_parse_name_esc(s: Seq<char>, i: int, nm: Seq<char>, acc: Seq<char>)
    requires
        0 <= i,
        i + esc(nm).len() < s.len(),
        s.subrange(i, i + esc(nm).len()) == esc(nm),
        s[i + esc(nm).len()] == '"',
    ensures
        parse_name_acc(s, i, acc) == Some((acc + nm, i + esc(nm).len())),
    decreases nm.len(),
{
    if nm.len() == 0 {
        assert(esc(nm) =~= Seq::<char>::empty());
        assert(acc + nm =~= acc);
    } else {
        let c = nm[0];
        let rest = nm.drop_first();
        assert(esc(nm) == esc_char(c) + esc(rest));
        lemma_split_last(s, i, esc_char(c), esc(rest));
        let k = esc_char(c).len();
        if c == '"' || c == '\\' {
            assert(k == 2);
            assert(s[i] == s.subrange(i, i + 2)[0]);
            assert(s[i] == '\\');
            assert(s[i + 1] == s.subrange(i, i + 2)[1]);
            assert(s[i + 1] == c);
            lemma_parse_name_esc(s, i + 2, rest, acc.push(c));
            assert(acc.push(c) + rest =~= acc + nm);
        } else {
            assert(k == 1);
            assert(s[i] == s.subrange(i, i + 1)[0]);
            assert(s[i] == c);
            lemma_parse_name_esc(s, i + 1, rest, acc.push(c));
            assert(acc.push(c) + rest =~= acc + nm);
        }
    }
}

proof fn lemma_dec_rep_digits(v: int)
    requires
        0 <= v,
    ensures
        forall|k: int| 0 <= k < dec_rep(v).len() ==> is_dec_digit(#[trigger] dec_rep(v)[k]),
        dec_rep(v).len() >= 1,
    decreases v,
{
    if v >= 10 {
        lemma_dec_rep_digits(v / 10);
        assert forall|k: int| 0 <= k < dec_rep(v).len() implies is_dec_digit(
            #[trigger] dec_rep(v)[k],
        ) by {
            if k < dec_rep(v / 10).len() {
                assert(dec_rep(v)[k] == dec_rep(v / 10)[k]);
            } else {
                assert(dec_rep(v)[k] == dec_digit(v % 10));
            }
        }
    }
}

proof fn lemma_digits_end_run(s: Seq<char>, i: int, j: int)
    requires
        0 <= i <= j < s.len(),
        forall|q: int| i <= q < j ==> is_dec_digit(#[trigger] s[q]),
        !is_dec_digit(s[j]),
    ensures
        digits_end(s, i) == j,
    decreases j - i,
{
    if i < j {
        lemma_digits_end_run(s, i + 1, j);
    }
}

proof fn lemma_dec_val_of_rep(s: Seq<char>, i: int, v: int)
    requires
        0 <= i,
        0 <= v,
        i + dec_rep(v).len() <= s.len(),
        s.subrange(i, i + dec_rep(v).len()) == dec_rep(v),
    ensures
        dec_val(s, i, i + dec_rep(v).len(), 0) == v,
    decreases v,
{
    let len = dec_rep(v).len();
    if v < 10 {
        assert(s[i] == dec_rep(v)[0]);
        assert(s[i] == dec_digit(v));
        assert(dec_val(s, i, i + 1, 0) == dec_val(s, i + 1, i + 1, 0 * 10 + (s[i] as int
            - '0' as int)));
        assert(s[i] as int - '0' as int == v);
    } else {
        let pre = dec_rep(v / 10);
        assert(s.subrange(i, i + pre.len()) =~= pre) by {
            assert forall|k: int| 0 <= k < pre.len() implies s.subrange(i, i + pre.len())[k]
                == pre[k] by {
                assert(s.subrange(i, i + len)[k] == dec_rep(v)[k]);
                assert(dec_rep(v)[k] == pre[k]);
            }
        }
        lemma_dec_val_of_rep(s, i, v / 10);
        let j = i + pre.len();
        assert(s[j] == dec_rep(v)[len - 1]);
        assert(s[j] == dec_digit(v % 10));
        lemma_dec_val_snoc(s, i, j, 0);
        assert(s[j] as int - '0' as int == v % 10);
    }
}

proof fn lemma_parse_u32_ser(s: Seq<char>, i: int, v: u32)
    requires
        0 <= i,
        i + dec_rep(v as int).len() < s.len(),
        s.subrange(i, i + dec_rep(v as int).len()) == dec_rep(v as int),
        !is_dec_digit(s[i + dec_rep(v as int).len()]),
    ensures
        parse_u32(s, i) == Some((v, i + dec_rep(v as int).len())),
{
    let len = dec_rep(v as int).len();
    lemma_dec_rep_digits(v as int);
    assert forall|q: int| i <= q < i + len implies is_dec_digit(#[trigger] s[q]) by {
        assert(s[q] == s.subrange(i, i + len)[q - i]);
        assert(s[q] == dec_rep(v as int)[q - i]);
    }
    lemma_digits_end_run(s, i, i + len);
    lemma_dec_val_of_rep(s, i, v as int);
}

proof fn lemma_split_last(s: Seq<char>, i: int, a: Seq<char>, b: Seq<char>)
    requires
        0 <= i,
        i + a.len() + b.len() <= s.len(),
        s.subrange(i, i + a.len() + b.len()) == a + b,
    ensures
        s.subrange(i, i + a.len()) == a,
        s.subrange(i + a.len(), i + a.len() + b.len()) == b,
{
    assert(s.subrange(i, i + a.len()) =~= a) by {
        assert forall|q: int| 0 <= q < a.len() implies s.subrange(i, i + a.len())[q] == a[q] by {
            assert(s.subrange(i, i + a.len() + b.len())[q] == (a + b)[q]);
        }
    }
    assert(s.subrange(i + a.len(), i + a.len() + b.len()) =~= b) by {
        assert forall|q: int| 0 <= q < b.len() implies s.subrange(
            i + a.len(),
            i + a.len() + b.len(),
        )[q] == b[q] by {
            assert(s.subrange(i, i + a.len() + b.len())[a.len() + q] == (a + b)[a.len() + q]);
            assert(s.subrange(i, i + a.len() + b.len())[a.len() + q] == s[i + a.len() + q]);
            assert(s.subrange(i + a.len(), i + a.len() + b.len())[q] == s[i + a.len() + q]);
            assert((a + b)[a.len() + q] == b[q]);
        }
    }
}

proof fn lemma_expect_at(s: Seq<char>, i: int, lit: Seq<char>)
    requires
        0 <= i,
        i + lit.len() <= s.len(),
        s.subrange(i, i + lit.len()) == lit,
    ensures
        expect(s, i, lit) == Some(i + lit.len()),
{
}

/// Parsing reads back exactly what the writer produced for one node.
proof fn lemma_parse_trace_ser(s: Seq<char>, i: int, t: TraceModel, fuel: nat)
    requires
        0 <= i,
        i + ser_trace(t).len() <= s.len(),
        s.subrange(i, i + ser_trace(t).len()) == ser_trace(t),
        fuel >= s.len() - i + 1,
    ensures
        parse_trace(s, i, fuel) == Some((t, i + ser_trace(t).len())),
    decreases t,
{
    reveal_strlit("{\"name\":\"");
    reveal_strlit("\",\"ttype\":\"");
    reveal_strlit("\",\"start\":");
    reveal_strlit(",\"inner\":");
    reveal_strlit(",\"end\":");
    reveal_strlit("}");
    reveal_strlit("SoftwareTask");
    reveal_strlit("HardwareTask");
    reveal_strlit("ResourceLock");
    let l1 = "{\"name\":\""@;
    let l2 = "\",\"ttype\":\""@;
    let l3 = "\",\"start\":"@;
    let l4 = ",\"inner\":"@;
    let l5 = ",\"end\":"@;
    let l6 = "}"@;
    let tt = ttype_text(t.ttype);
    let d1 = dec_rep(t.start as int);
    let d2 = dec_rep(t.end as int);
    let fo = ser_forest(t.inner);
    let total = ser_trace(t).len();
    let p0 = i;
    let p1 = p0 + l1.len();
    let p2 = p1 + esc(t.name).len();
    let p3 = p2 + l2.len();
    let p4 = p3 + tt.len();
    let p5 = p4 + l3.len();
    let p6 = p5 + d1.len();
    let p7 = p6 + l4.len();
    let p8 = p7 + fo.len();
    let p9 = p8 + l5.len();
    let p10 = p9 + d2.len();
    let p11 = p10 + l6.len();
    assert(p11 == i + total);
    let c1 = l1 + esc(t.name);
    let c2 = c1 + l2;
    let c3 = c2 + tt;
    let c4 = c3 + l3;
    let c5 = c4 + d1;
    let c6 = c5 + l4;
    let c7 = c6 + fo;
    let c8 = c7 + l5;
    let c9 = c8 + d2;
    assert(ser_trace(t) == c9 + l6);
    lemma_split_last(s, p0, c9, l6);
    lemma_split_last(s, p0, c8, d2);
    lemma_split_last(s, p0, c7, l5);
    lemma_split_last(s, p0, c6, fo);
    lemma_split_last(s, p0, c5, l4);
    lemma_split_last(s, p0, c4, d1);
    lemma_split_last(s, p0, c3, l3);
    lemma_split_last(s, p0, c2, tt);
    lemma_split_last(s, p0, c1, l2);
    lemma_split_last(s, p0, l1, esc(t.name));
    lemma_dec_rep_digits(t.start as int);
    lemma_dec_rep_digits(t.end as int);
    lemma_expect_at(s, p0, l1);
    assert(s[p2] == l2[0]);
    assert(s[p2] == '"');
    lemma_parse_name_esc(s, p1, t.name, Seq::empty());
    assert(Seq::<char>::empty() + t.name =~= t.name);
    assert(parse_name(s, p1) == Some((t.name, p2)));
    lemma_expect_at(s, p2, l2);
    lemma_parse_ttype_ser(s, p3, t.ttype);
    lemma_expect_at(s, p4, l3);
    assert(s[p6] == l4[0]);
    assert(!is_dec_digit(s[p6]));
    lemma_parse_u32_ser(s, p5, t.start);
    lemma_expect_at(s, p6, l4);
    assert(p7 >= i + 2);
    lemma_parse_forest_ser(s, p7, t.inner, (fuel - 1) as nat);
    lemma_expect_at(s, p8, l5);
    assert(s[p10] == l6[0]);
    assert(!is_dec_digit(s[p10]));
    lemma_parse_u32_ser(s, p9, t.end);
    lemma_expect_at(s, p10, l6);
}

proof fn lemma_parse_ttype_ser(s: Seq<char>, i: int, tt: TraceType)
    requires
        0 <= i,
        i + ttype_text(tt).len() <= s.len(),
        s.subrange(i, i + ttype_text(tt).len()) == ttype_text(tt),
    ensures
        parse_ttype(s, i) == Some((tt, i + ttype_text(tt).len())),
{
    reveal_strlit("SoftwareTask");
    reveal_strlit("HardwareTask");
    reveal_strlit("ResourceLock");
    let txt = ttype_text(tt);
    assert(s.subrange(i, i + 12) =~= txt);
    match tt {
        TraceType::SoftwareTask => {
            lemma_expect_at(s, i, "SoftwareTask"@);
        },
        TraceType::HardwareTask => {
            assert(s[i] == txt[0]);
            assert(expect(s, i, "SoftwareTask"@) is None) by {
                if expect(s, i, "SoftwareTask"@) is Some {
                    assert(s.subrange(i, i + 12)[0] == "SoftwareTask"@[0]);
                }
            }
            lemma_expect_at(s, i, "HardwareTask"@);
        },
        TraceType::ResourceLock => {
            assert(s[i] == txt[0]);
            assert(expect(s, i, "SoftwareTask"@) is None) by {
                if expect(s, i, "SoftwareTask"@) is Some {
                    assert(s.subrange(i, i + 12)[0] == "SoftwareTask"@[0]);
                }
            }
            assert(expect(s, i, "HardwareTask"@) is None) by {
                if expect(s, i, "HardwareTask"@) is Some {
                    assert(s.subrange(i, i + 12)[0] == "HardwareTask"@[0]);
                }
            }
            lemma_expect_at(s, i, "ResourceLock"@);
        },
    }
}

/// Parsing reads back exactly what the writer produced for a forest.
proof fn lemma_parse_forest_ser(s: Seq<char>, i: int, ts: Seq<TraceModel>, fuel: nat)
    requires
        0 <= i,
        i + ser_forest(ts).len() <= s.len(),
        s.subrange(i, i + ser_forest(ts).len()) == ser_forest(ts),
        fuel >= s.len() - i + 2,
    ensures
        parse_forest(s, i, fuel) == Some((ts, i + ser_forest(ts).len())),
    decreases ts, 1int,
{
    reveal_strlit("[");
    reveal_strlit("]");
    let total = ser_forest(ts).len();
    assert(s[i] == ser_forest(ts)[0]);
    assert(ser_forest(ts)[0] == '[');
    assert(s.subrange(i, i + 1) =~= "["@);
    lemma_expect_at(s, i, "["@);
    if ts.len() == 0 {
        assert(ser_items(ts, 0) =~= Seq::<char>::empty());
        assert(total == 2);
        assert(s[i + 1] == ser_forest(ts)[1]);
        assert(s[i + 1] == ']');
        assert(s.subrange(i + 1, i + 2) =~= "]"@);
        lemma_expect_at(s, i + 1, "]"@);
    } else {
        let items = ser_items(ts, 0);
        assert(s.subrange(i + 1, i + 1 + items.len() + 1) =~= items + seq![']']) by {
            assert forall|k: int| 0 <= k < items.len() + 1 implies s.subrange(
                i + 1,
                i + 1 + items.len() + 1,
            )[k] == (items + seq![']'])[k] by {
                assert(s.subrange(i, i + total)[k + 1] == ser_forest(ts)[k + 1]);
            }
        }
        assert(s[i + 1 + items.len()] == s.subrange(i, i + total)[total - 1]);
        assert(ser_forest(ts)[total - 1] == ']');
        assert(s[i + 1 + items.len()] == ']');
        assert(ser_items(ts, 0)[0] == ser_trace(ts[0])[0]) by {
            lemma_items_comma(ts, 0);
        }
        assert(s[i + 1] == '{') by {
            reveal_strlit("{\"name\":\"");
            assert(ser_trace(ts[0])[0] == '{');
            assert(s.subrange(i, i + total)[1] == ser_forest(ts)[1]);
        }
        assert(expect(s, i + 1, "]"@) is None) by {
            if expect(s, i + 1, "]"@) is Some {
                assert(s.subrange(i + 1, i + 2)[0] == "]"@[0]);
            }
        }
        lemma_parse_items_ser(s, i + 1, ts, 0, (fuel - 1) as nat);
        assert(ts.skip(0) =~= ts);
    }
}

/// Parsing reads back the items of a forest from index `k` on, through
/// the closing bracket.
proof fn lemma_parse_items_ser(s: Seq<char>, i: int, ts: Seq<TraceModel>, k: int, fuel: nat)
    requires
        0 <= k < ts.len(),
        0 <= i,
        i + ser_items(ts, k).len() + 1 <= s.len(),
        s.subrange(i, i + ser_items(ts, k).len() + 1) == ser_items(ts, k) + seq![']'],
        fuel >= s.len() - i + 2,
    ensures
        parse_items(s, i, fuel) == Some((ts.skip(k), i + ser_items(ts, k).len() + 1)),
    decreases ts, 0int, ts.len() - k,
{
    reveal_strlit(",");
    reveal_strlit("]");
    let st = ser_trace(ts[k]);
    let items = ser_items(ts, k);
    if k == ts.len() - 1 {
        assert(items == st);
        assert(s.subrange(i, i + st.len()) =~= st);
        lemma_parse_trace_ser(s, i, ts[k], (fuel - 1) as nat);
        let j = i + st.len();
        assert(s[j] == (items + seq![']'])[items.len() as int]);
        assert(s[j] == ']');
        assert(expect(s, j, ","@) is None) by {
            if expect(s, j, ","@) is Some {
                assert(s.subrange(j, j + 1)[0] == ","@[0]);
            }
        }
        assert(s.subrange(j, j + 1) =~= "]"@);
        lemma_expect_at(s, j, "]"@);
        assert(ts.skip(k) =~= seq![ts[k]]);
    } else {
        assert(items == st + seq![','] + ser_items(ts, k + 1));
        assert(s.subrange(i, i + st.len()) =~= st);
        lemma_parse_trace_ser(s, i, ts[k], (fuel - 1) as nat);
        let j = i + st.len();
        assert(s[j] == (items + seq![']'])[st.len() as int]);
        assert(s[j] == ',');
        assert(s.subrange(j, j + 1) =~= ","@);
        lemma_expect_at(s, j, ","@);
        let rest = ser_items(ts, k + 1);
        assert(s.subrange(j + 1, j + 1 + rest.len() + 1) =~= rest + seq![']']) by {
            assert forall|q: int| 0 <= q < rest.len() + 1 implies s.subrange(
                j + 1,
                j + 1 + rest.len() + 1,
            )[q] == (rest + seq![']'])[q] by {
                assert(s.subrange(i, i + items.len() + 1)[st.len() + 1 + q] == (items + seq![
                    ']',
                ])[st.len() + 1 + q]);
            }
        }
        lemma_parse_items_ser(s, j + 1, ts, k + 1, (fuel - 1) as nat);
        assert(ts.skip(k) =~= seq![ts[k]] + ts.skip(k + 1));
    }
}

/// Serializing a forest of traces to JSON and reading it back yields the
/// same forest.
pub proof fn lemma_json_round_trip(ts: Seq<TraceModel>)
    ensures
        spec_traces_from_json(ser_forest(ts)) == Some(ts),
{
    let s = ser_forest(ts);
    assert(s.subrange(0, s.len() as int) =~= s);
    lemma_parse_forest_ser(s, 0, ts, (s.len() + 2) as nat);
}

/// Reads a forest of traces back from JSON. Accepts exactly the texts the
/// writer produces.
pub fn traces_from_json(s: &String) -> (r: Option<Vec<Trace>>)
    ensures
        match r {
            Some(ts) => spec_traces_from_json(s@) == Some(crate::trace::traces_model(ts@)),
            None => spec_traces_from_json(s@) is None,
        },
{
    let st = s.as_str();
    let n = st.unicode_len();
    let fuel: u128 = n as u128 + 2;
    match parse_forest_at(st, 0, fuel) {
        Some((ts, j)) => {
            if j == n {
                Some(ts)
            } else {
                None
            }
        },
        None => None,
    }
}

} // verus!
