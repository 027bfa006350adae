//! The KTest input-vector format: a parsed test vector holds named byte
//! strings for RAM injection and, among them, the queued values for
//! hardware-register reads.

use crate::text;
use vstd::prelude::*;

verus! {

/// The model of one test-vector object.
#[verifier::ext_equal]
pub struct KTestObjectModel {
    pub name: Seq<char>,
    pub num_bytes: u32,
    pub bytes: Seq<u8>,
}

/// One named byte string of a test vector.
#[derive(Debug, PartialEq, Eq)]
pub struct KTestObject {
    /// The name of the symbolic object.
    pub name: String,
    /// The length of `bytes`.
    pub num_bytes: u32,
    /// The concrete bytes chosen for the object.
    pub bytes: Vec<u8>,
}

impl View for KTestObject {
    type V = KTestObjectModel;

    open spec fn view(&self) -> KTestObjectModel {
        KTestObjectModel { name: self.name@, num_bytes: self.num_bytes, bytes: self.bytes@ }
    }
}

impl KTestObject {
    /// A deep copy whose model is the model of `self`.
    pub fn duplicate(&self) -> (r: KTestObject)
        ensures
            r@ == self@,
    {
        let mut bytes: Vec<u8> = Vec::new();
        let n = self.bytes.len();
        let mut i: usize = 0;
        while i < n
            invariant
                n == self.bytes.len(),
                i <= n,
                bytes@ == self.bytes@.take(i as int),
            decreases n - i,
        {
            bytes.push(self.bytes[i]);
            proof {
                assert(self.bytes@.take(i + 1) =~= self.bytes@.take(i as int).push(
                    self.bytes@[i as int],
                ));
            }
            i += 1;
        }
        proof {
            assert(self.bytes@.take(n as int) =~= self.bytes@);
        }
        let r = KTestObject { name: self.name.clone(), num_bytes: self.num_bytes, bytes };
        proof {
            assert(r@ =~= self@);
        }
        r
    }
}

/// The model of a parsed test vector.
#[verifier::ext_equal]
pub struct KTestModel {
    pub version: u32,
    pub args: Seq<Seq<char>>,
    pub sym_argvs: u32,
    pub sym_argv_len: u32,
    pub num_objects: u32,
    pub objects: Seq<KTestObjectModel>,
}

/// A parsed test vector.
#[derive(Debug, PartialEq)]
pub struct KTest {
    /// KTest file format version.
    pub version: u32,
    /// The generator's arguments.
    pub args: Vec<String>,
    /// The number of symbolic arguments.
    pub sym_argvs: u32,
    /// The length of each symbolic argument.
    pub sym_argv_len: u32,
    /// The number of objects parsed.
    pub num_objects: u32,
    /// The named byte strings of the vector.
    pub objects: Vec<KTestObject>,
}

impl View for KTest {
    type V = KTestModel;

    open spec fn view(&self) -> KTestModel {
        KTestModel {
            version: self.version,
            args: self.args@.map_values(|s: String| s@),
            sym_argvs: self.sym_argvs,
            sym_argv_len: self.sym_argv_len,
            num_objects: self.num_objects,
            objects: self.objects@.map_values(|o: KTestObject| o@),
        }
    }
}

/// Why a byte string was rejected as a test vector.
#[derive(Debug, Clone, Copy, PartialEq, Eq, Structural)]
pub enum KTestError {
    /// The file does not begin with a known magic number.
    BadMagic,
    /// The file ends inside a fixed-size field.
    Truncated,
    /// A name or argument is not valid UTF-8.
    InvalidString,
}

/// The bytes of the primary magic number.
pub open spec fn ktest_magic() -> Seq<u8> {
    seq![0x4bu8, 0x54u8, 0x45u8, 0x53u8, 0x54u8]
}

/// The bytes of the older magic number.
pub open spec fn bout_magic() -> Seq<u8> {
    seq![0x42u8, 0x4fu8, 0x55u8, 0x54u8, 0x0au8]
}

/// The big-endian 32-bit value at offset `i`.
pub open spec fn spec_be_u32(b: Seq<u8>, i: int) -> int
    recommends
        0 <= i,
        i + 4 <= b.len(),
{
    b[i] * 0x1000000 + b[i + 1] * 0x10000 + b[i + 2] * 0x100 + b[i + 3]
}

/// The arguments parsed from offset `i` on: `count` length-prefixed UTF-8
/// strings, appended to `acc`, with the offset after them.
pub open spec fn spec_parse_args(b: Seq<u8>, i: int, count: int, acc: Seq<Seq<char>>) -> Result<
    (Seq<Seq<char>>, int),
    KTestError,
>
    decreases count,
{
    if count <= 0 {
        Ok((acc, i))
    } else if i + 4 > b.len() {
        Err(KTestError::Truncated)
    } else {
        let len = spec_be_u32(b, i);
        if i + 4 + len > b.len() {
            Err(KTestError::Truncated)
        } else {
            let arg = b.subrange(i + 4, i + 4 + len);
            if !vstd::utf8::valid_utf8(arg) {
                Err(KTestError::InvalidString)
            } else {
                spec_parse_args(
                    b,
                    i + 4 + len,
                    count - 1,
                    acc.push(vstd::utf8::decode_utf8(arg)),
                )
            }
        }
    }
}

/// The objects parsed from offset `i` on, as many as the bytes allow:
/// each is a length-prefixed UTF-8 name and a length-prefixed byte string.
/// Parsing stops cleanly where a field would pass the end, and fails only
/// on a name that is not UTF-8.
pub open spec fn spec_parse_objects(b: Seq<u8>, i: int, acc: Seq<KTestObjectModel>) -> Result<
    (Seq<KTestObjectModel>, int),
    KTestError,
>
    decreases b.len() - i,
{
    if i < 0 || i + 4 > b.len() {
        Ok((acc, i))
    } else {
        let name_len = spec_be_u32(b, i);
        if i + 4 + name_len > b.len() {
            Ok((acc, i))
        } else {
            let name_bytes = b.subrange(i + 4, i + 4 + name_len);
            if !vstd::utf8::valid_utf8(name_bytes) {
                Err(KTestError::InvalidString)
            } else {
                let j = i + 4 + name_len;
                if j + 4 > b.len() {
                    Ok((acc, i))
                } else {
                    let size = spec_be_u32(b, j);
                    if j + 4 + size > b.len() {
                        Ok((acc, i))
                    } else {
                        let obj = KTestObjectModel {
                            name: vstd::utf8::decode_utf8(name_bytes),
                            num_bytes: size as u32,
                            bytes: b.subrange(j + 4, j + 4 + size),
                        };
                        spec_parse_objects(b, j + 4 + size, acc.push(obj))
                    }
                }
            }
        }
    }
}

/// The test vector a byte string parses to: the magic number, the format
/// version, the arguments, the symbolic-argument counters for versions
/// above 2, and the objects.
pub open spec fn spec_parse_ktest(b: Seq<u8>) -> Result<KTestModel, KTestError> {
    if b.len() < 5 || (b.subrange(0, 5) != ktest_magic() && b.subrange(0, 5) != bout_magic()) {
        Err(KTestError::BadMagic)
    } else if b.len() < 13 {
        Err(KTestError::Truncated)
    } else {
        let version = spec_be_u32(b, 5);
        let num_args = spec_be_u32(b, 9);
        match spec_parse_args(b, 13, num_args, Seq::empty()) {
            Ok((args, i)) => {
                if version > 2 && i + 8 > b.len() {
                    Err(KTestError::Truncated)
                } else {
                    let sym_argvs = if version > 2 {
                        spec_be_u32(b, i)
                    } else {
                        0
                    };
                    let sym_argv_len = if version > 2 {
                        spec_be_u32(b, i + 4)
                    } else {
                        0
                    };
                    let j = if version > 2 {
                        i + 8
                    } else {
                        i
                    };
                    if j + 4 > b.len() {
                        Err(KTestError::Truncated)
                    } else {
                        match spec_parse_objects(b, j + 4, Seq::empty()) {
                            Ok((objects, _)) => Ok(
                                KTestModel {
                                    version: version as u32,
                                    args,
                                    sym_argvs: sym_argvs as u32,
                                    sym_argv_len: sym_argv_len as u32,
                                    num_objects: objects.len() as u32,
                                    objects,
                                },
                            ),
                            Err(e) => Err(e),
                        }
                    }
                }
            },
            Err(e) => Err(e),
        }
    }
}

/// Relies on String::from_utf8: it succeeds exactly on valid UTF-8, and
/// the returned string holds the characters those bytes encode.
#[verifier::external_body]
fn string_from_utf8(bytes: Vec<u8>) -> (r: Option<String>)
    ensures
        match r {
            Some(s) => vstd::utf8::valid_utf8(bytes@) && s@ == vstd::utf8::decode_utf8(bytes@),
            None => !vstd::utf8::valid_utf8(bytes@),
        },
{
    match String::from_utf8(bytes) {
        Ok(s) => Some(s),
        Err(_) => None,
    }
}

/// Checks that the input starts with one of the two known magic numbers.
pub fn magic_number(input: &[u8]) -> (r: bool)
    ensures
        r == (input@.len() >= 5 && (input@.subrange(0, 5) == ktest_magic() || input@.subrange(0, 5)
            == bout_magic())),
{
    if input.len() < 5 {
        return false;
    }
    let is_kt = input[0] == 0x4b && input[1] == 0x54 && input[2] == 0x45 && input[3] == 0x53
        && input[4] == 0x54;
    let is_bt = input[0] == 0x42 && input[1] == 0x4f && input[2] == 0x55 && input[3] == 0x54
        && input[4] == 0x0a;
    proof {
        let sub = input@.subrange(0, 5);
        assert(sub[0] == input@[0] && sub[1] == input@[1] && sub[2] == input@[2] && sub[3]
            == input@[3] && sub[4] == input@[4]);
        if is_kt {
            assert(sub =~= ktest_magic());
        }
        if is_bt {
            assert(sub =~= bout_magic());
        }
    }
    is_kt || is_bt
}

/// The big-endian 32-bit value at offset `i`.
fn be_u32_at(input: &[u8], i: usize) -> (r: u32)
    requires
        i + 4 <= input@.len(),
    ensures
        r == spec_be_u32(input@, i as int),
{
    let b0 = input[i] as u32;
    let b1 = input[i + 1] as u32;
    let b2 = input[i + 2] as u32;
    let b3 = input[i + 3] as u32;
    b0 * 0x1000000 + b1 * 0x10000 + b2 * 0x100 + b3
}

/// The bytes of `input` from `from` up to `to`, as an owned vector.
fn bytes_of(input: &[u8], from: usize, to: usize) -> (r: Vec<u8>)
    requires
        from <= to <= input@.len(),
    ensures
        r@ == input@.subrange(from as int, to as int),
{
    let mut out: Vec<u8> = Vec::new();
    let mut i: usize = from;
    while i < to
        invariant
            from <= i <= to <= input@.len(),
            out@ == input@.subrange(from as int, i as int),
        decreases to - i,
    {
        out.push(input[i]);
        proof {
            assert(input@.subrange(from as int, i + 1) =~= input@.subrange(from as int, i as int)
                .push(input@[i as int]));
        }
        i += 1;
    }
    out
}

/// Parses the argument strings of a test vector.
fn parse_args(input: &[u8], start: usize, count: u32) -> (r: Result<(Vec<String>, usize), KTestError>)
    requires
        start <= input@.len(),
    ensures
        match r {
            Ok((args, end)) => {
                &&& spec_parse_args(input@, start as int, count as int, Seq::empty()) == Ok::<
                    (Seq<Seq<char>>, int),
                    KTestError,
                >((args@.map_values(|s: String| s@), end as int))
                &&& start <= end <= input@.len()
            },
            Err(e) => spec_parse_args(input@, start as int, count as int, Seq::empty()) == Err::<
                (Seq<Seq<char>>, int),
                KTestError,
            >(e),
        },
{
    let mut args: Vec<String> = Vec::new();
    let mut i: usize = start;
    let mut remaining = count;
    proof {
        assert(args@.map_values(|s: String| s@) =~= Seq::<Seq<char>>::empty());
    }
    while remaining > 0
        invariant
            start <= i <= input@.len(),
            spec_parse_args(input@, start as int, count as int, Seq::empty()) == spec_parse_args(
                input@,
                i as int,
                remaining as int,
                args@.map_values(|s: String| s@),
            ),
        decreases remaining,
    {
        if input.len() - i < 4 {
            return Err(KTestError::Truncated);
        }
        let len = be_u32_at(input, i) as usize;
        if input.len() - i - 4 < len {
            return Err(KTestError::Truncated);
        }
        let arg_bytes = bytes_of(input, i + 4, i + 4 + len);
        let ghost old_args = args@.map_values(|s: String| s@);
        match string_from_utf8(arg_bytes) {
            Some(s) => {
                args.push(s);
                proof {
                    assert(args@.map_values(|s2: String| s2@) =~= old_args.push(
                        vstd::utf8::decode_utf8(input@.subrange(i + 4, i + 4 + len)),
                    ));
                }
            },
            None => {
                return Err(KTestError::InvalidString);
            },
        }
        i = i + 4 + len;
        remaining = remaining - 1;
    }
    Ok((args, i))
}

/// Parses the objects of a test vector, as many as the bytes allow.
fn parse_objects(input: &[u8], start: usize) -> (r: Result<Vec<KTestObject>, KTestError>)
    requires
        start <= input@.len(),
    ensures
        match r {
            Ok(objects) => spec_parse_objects(input@, start as int, Seq::empty()) matches Ok((
                ms,
                _,
            )) && ms == objects@.map_values(|o: KTestObject| o@),
            Err(e) => spec_parse_objects(input@, start as int, Seq::empty()) == Err::<
                (Seq<KTestObjectModel>, int),
                KTestError,
            >(e),
        },
{
    let mut objects: Vec<KTestObject> = Vec::new();
    proof {
        assert(objects@.map_values(|o: KTestObject| o@) =~= Seq::<KTestObjectModel>::empty());
    }
    let mut i: usize = start;
    loop
        invariant
            start <= i <= input@.len(),
            spec_parse_objects(input@, start as int, Seq::empty()) == spec_parse_objects(
                input@,
                i as int,
                objects@.map_values(|o: KTestObject| o@),
            ),
        decreases input@.len() - i,
    {
        let ghost ms = objects@.map_values(|o: KTestObject| o@);
        if input.len() - i < 4 {
            proof {
                assert(spec_parse_objects(input@, i as int, ms) == Ok::<
                    (Seq<KTestObjectModel>, int),
                    KTestError,
                >((ms, i as int)));
            }
            return Ok(objects);
        }
        let name_len = be_u32_at(input, i) as usize;
        if input.len() - i - 4 < name_len {
            proof {
                assert(spec_parse_objects(input@, i as int, ms) == Ok::<
                    (Seq<KTestObjectModel>, int),
                    KTestError,
                >((ms, i as int)));
            }
            return Ok(objects);
        }
        let name_bytes = bytes_of(input, i + 4, i + 4 + name_len);
        match string_from_utf8(name_bytes) {
            Some(name) => {
                let j = i + 4 + name_len;
                if input.len() - j < 4 {
                    proof {
                        assert(spec_parse_objects(input@, i as int, ms) == Ok::<
                            (Seq<KTestObjectModel>, int),
                            KTestError,
                        >((ms, i as int)));
                    }
                    return Ok(objects);
                }
                let size = be_u32_at(input, j) as usize;
                if input.len() - j - 4 < size {
                    proof {
                        assert(spec_parse_objects(input@, i as int, ms) == Ok::<
                            (Seq<KTestObjectModel>, int),
                            KTestError,
                        >((ms, i as int)));
                    }
                    return Ok(objects);
                }
                let bytes = bytes_of(input, j + 4, j + 4 + size);
                let obj = KTestObject { name, num_bytes: size as u32, bytes };
                let ghost om = obj@;
                objects.push(obj);
                proof {
                    assert(objects@.map_values(|o: KTestObject| o@) =~~= ms.push(om));
                }
                i = j + 4 + size;
            },
            None => {
                return Err(KTestError::InvalidString);
            },
        }
    }
}

/// Parses a KTest byte string into a test vector.
pub fn parse_ktest_binary(input: &[u8]) -> (r: Result<KTest, KTestError>)
    ensures
        match r {
            Ok(kt) => spec_parse_ktest(input@) == Ok::<KTestModel, KTestError>(kt@),
            Err(e) => spec_parse_ktest(input@) == Err::<KTestModel, KTestError>(e),
        },
{
    if !magic_number(input) {
        return Err(KTestError::BadMagic);
    }
    if input.len() < 13 {
        return Err(KTestError::Truncated);
    }
    let version = be_u32_at(input, 5);
    let num_args = be_u32_at(input, 9);
    let (args, after_args) = match parse_args(input, 13, num_args) {
        Ok(pair) => pair,
        Err(e) => {
            return Err(e);
        },
    };
    let mut i = after_args;
    let (sym_argvs, sym_argv_len) = if version > 2 {
        if input.len() - i < 8 {
            return Err(KTestError::Truncated);
        }
        let a = be_u32_at(input, i);
        let b = be_u32_at(input, i + 4);
        i = i + 8;
        (a, b)
    } else {
        (0, 0)
    };
    if input.len() - i < 4 {
        return Err(KTestError::Truncated);
    }
    i = i + 4;
    let objects = match parse_objects(input, i) {
        Ok(objects) => objects,
        Err(e) => {
            return Err(e);
        },
    };
    let num_objects = #[verifier::truncate] (objects.len() as u32);
    let kt = KTest { version, args, sym_argvs, sym_argv_len, num_objects, objects };
    proof {
        assert(kt@ =~~= spec_parse_ktest(input@).unwrap());
    }
    Ok(kt)
}

/// The objects of a vector that feed hardware reads: those whose name
/// mentions `vcell`, in their order in the vector.
pub open spec fn spec_vcell_objects_upto(ms: Seq<KTestObjectModel>, n: int) -> Seq<
    KTestObjectModel,
>
    decreases n,
{
    if n <= 0 || n > ms.len() {
        Seq::empty()
    } else {
        let prev = spec_vcell_objects_upto(ms, n - 1);
        if text::spec_contains(ms[n - 1].name, "vcell"@) {
            prev.push(ms[n - 1])
        } else {
            prev
        }
    }
}

/// Returns the test objects of `ktest` that feed hardware-register reads,
/// in order.
pub fn get_vcell_ktestobjects(ktest: &KTest) -> (r: Vec<KTestObject>)
    ensures
        r@.map_values(|o: KTestObject| o@) == spec_vcell_objects_upto(
            ktest@.objects,
            ktest@.objects.len() as int,
        ),
{
    let ghost ms = ktest@.objects;
    let mut out: Vec<KTestObject> = Vec::new();
    let n = ktest.objects.len();
    proof {
        assert(out@.map_values(|o: KTestObject| o@) =~= Seq::<KTestObjectModel>::empty());
    }
    let mut i: usize = 0;
    while i < n
        invariant
            n == ktest.objects.len(),
            i <= n,
            ms == ktest@.objects,
            ms.len() == n,
            out@.map_values(|o: KTestObject| o@) == spec_vcell_objects_upto(ms, i as int),
        decreases n - i,
    {
        let o = &ktest.objects[i];
        proof {
            assert(ms[i as int] == o@);
        }
        if text::contains_str(o.name.as_str(), "vcell") {
            let ghost prev = out@.map_values(|o2: KTestObject| o2@);
            out.push(o.duplicate());
            proof {
                assert(out@.map_values(|o2: KTestObject| o2@) =~= prev.push(ms[i as int]));
            }
        }
        i += 1;
    }
    out
}

} // verus!
