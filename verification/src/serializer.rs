//! The wire codec for table layouts and fixed-size strings.
//!
//! Values are encoded with little-endian fixed-width integers: a `Layout` as
//! its size (8 bytes), its optional flag (1 byte, 0 or 1) and the index of
//! its column type (4 bytes); a string as a 8-byte length prefix followed by
//! exactly that many bytes, padded with `0x0`.  Decoding a string cuts it at
//! the first `0x0`, undoing the padding.

use vstd::prelude::*;

verus! {

/// A byte buffer together with its length.
pub struct DynArray {
    /// The bytes.
    pub array: Vec<u8>,
    /// How many bytes `array` holds.
    pub length: u64,
}

impl DynArray {
    /// The recorded length always matches the buffer.
    pub open spec fn wf(self) -> bool {
        self.length == self.array@.len()
    }
}

/// The type of a table column.
#[derive(Clone, Copy, Debug, PartialEq, Eq, Structural)]
#[allow(missing_docs)]
pub enum ColumnType {
    U8,
    U16,
    U32,
    U64,
    I8,
    I16,
    I32,
    I64,
    F32,
    F64,
    Str,
    RBool,
}

/// How many column types there are.
pub const COLUMN_TYPE_COUNT: u32 = 12;

/// The index under which a column type is encoded.
pub open spec fn spec_code_of(t: ColumnType) -> u32 {
    match t {
        ColumnType::U8 => 0,
        ColumnType::U16 => 1,
        ColumnType::U32 => 2,
        ColumnType::U64 => 3,
        ColumnType::I8 => 4,
        ColumnType::I16 => 5,
        ColumnType::I32 => 6,
        ColumnType::I64 => 7,
        ColumnType::F32 => 8,
        ColumnType::F64 => 9,
        ColumnType::Str => 10,
        ColumnType::RBool => 11,
    }
}

/// The column type encoded by an index below `COLUMN_TYPE_COUNT`.
pub open spec fn spec_type_of_code(c: u32) -> ColumnType {
    if c == 0 {
        ColumnType::U8
    } else if c == 1 {
        ColumnType::U16
    } else if c == 2 {
        ColumnType::U32
    } else if c == 3 {
        ColumnType::U64
    } else if c == 4 {
        ColumnType::I8
    } else if c == 5 {
        ColumnType::I16
    } else if c == 6 {
        ColumnType::I32
    } else if c == 7 {
        ColumnType::I64
    } else if c == 8 {
        ColumnType::F32
    } else if c == 9 {
        ColumnType::F64
    } else if c == 10 {
        ColumnType::Str
    } else {
        ColumnType::RBool
    }
}

impl ColumnType {
    /// The index under which this column type is encoded.
    pub fn code(self) -> (c: u32)
        ensures
            c == spec_code_of(self),
            c < COLUMN_TYPE_COUNT,
    {
        match self {
            ColumnType::U8 => 0,
            ColumnType::U16 => 1,
            ColumnType::U32 => 2,
            ColumnType::U64 => 3,
            ColumnType::I8 => 4,
            ColumnType::I16 => 5,
            ColumnType::I32 => 6,
            ColumnType::I64 => 7,
            ColumnType::F32 => 8,
            ColumnType::F64 => 9,
            ColumnType::Str => 10,
            ColumnType::RBool => 11,
        }
    }

    /// The column type of an index, if it is one.
    pub fn from_code(c: u32) -> (r: Option<ColumnType>)
        ensures
            r is Some <==> c < COLUMN_TYPE_COUNT,
            c < COLUMN_TYPE_COUNT ==> r == Some(spec_type_of_code(c)),
    {
        if c == 0 {
            Some(ColumnType::U8)
        } else if c == 1 {
            Some(ColumnType::U16)
        } else if c == 2 {
            Some(ColumnType::U32)
        } else if c == 3 {
            Some(ColumnType::U64)
        } else if c == 4 {
            Some(ColumnType::I8)
        } else if c == 5 {
            Some(ColumnType::I16)
        } else if c == 6 {
            Some(ColumnType::I32)
        } else if c == 7 {
            Some(ColumnType::I64)
        } else if c == 8 {
            Some(ColumnType::F32)
        } else if c == 9 {
            Some(ColumnType::F64)
        } else if c == 10 {
            Some(ColumnType::Str)
        } else if c == 11 {
            Some(ColumnType::RBool)
        } else {
            None
        }
    }
}

/// Round trip of the column-type index.
pub proof fn lemma_code_roundtrip(t: ColumnType)
    ensures
        spec_type_of_code(spec_code_of(t)) == t,
{
}

/// The layout of a table column.
#[derive(Clone, Copy, Debug, PartialEq, Eq, Structural)]
pub struct Layout {
    /// Size of the column value, in bytes.
    pub size: u64,
    /// Whether the column may be absent.
    pub optional: bool,
    /// The column's type.
    pub typ: ColumnType,
}

/// The little-endian bytes of a 64-bit value.
pub open spec fn u64_le(v: u64) -> Seq<u8> {
    seq![
        ((v >> 0) & 0xff) as u8,
        ((v >> 8) & 0xff) as u8,
        ((v >> 16) & 0xff) as u8,
        ((v >> 24) & 0xff) as u8,
        ((v >> 32) & 0xff) as u8,
        ((v >> 40) & 0xff) as u8,
        ((v >> 48) & 0xff) as u8,
        ((v >> 56) & 0xff) as u8,
    ]
}

/// The little-endian bytes of a 32-bit value.
pub open spec fn u32_le(v: u32) -> Seq<u8> {
    seq![
        ((v >> 0) & 0xff) as u8,
        ((v >> 8) & 0xff) as u8,
        ((v >> 16) & 0xff) as u8,
        ((v >> 24) & 0xff) as u8,
    ]
}

/// The 64-bit value read little-endian at position `off` of `s`.
pub open spec fn le64_at(s: Seq<u8>, off: int) -> u64 {
    (s[off] as u64) | ((s[off + 1] as u64) << 8) | ((s[off + 2] as u64) << 16) | ((s[off + 3]
        as u64) << 24) | ((s[off + 4] as u64) << 32) | ((s[off + 5] as u64) << 40) | ((s[off + 6]
        as u64) << 48) | ((s[off + 7] as u64) << 56)
}

/// The 32-bit value read little-endian at position `off` of `s`.
pub open spec fn le32_at(s: Seq<u8>, off: int) -> u32 {
    (s[off] as u32) | ((s[off + 1] as u32) << 8) | ((s[off + 2] as u32) << 16) | ((s[off + 3]
        as u32) << 24)
}

/// Writing a 64-bit value and reading it back gives the value.
pub proof fn lemma_u64_le_roundtrip(v: u64)
    ensures
        le64_at(u64_le(v), 0) == v,
{
    assert(((((v >> 0) & 0xff) as u8 as u64) | ((((v >> 8) & 0xff) as u8 as u64) << 8) | ((((v
        >> 16) & 0xff) as u8 as u64) << 16) | ((((v >> 24) & 0xff) as u8 as u64) << 24) | ((((v
        >> 32) & 0xff) as u8 as u64) << 32) | ((((v >> 40) & 0xff) as u8 as u64) << 40) | ((((v
        >> 48) & 0xff) as u8 as u64) << 48) | ((((v >> 56) & 0xff) as u8 as u64) << 56)) == v)
        by (bit_vector);
}

/// Writing a 32-bit value and reading it back gives the value.
pub proof fn lemma_u32_le_roundtrip(v: u32)
    ensures
        le32_at(u32_le(v), 0) == v,
{
    assert(((((v >> 0) & 0xff) as u8 as u32) | ((((v >> 8) & 0xff) as u8 as u32) << 8) | ((((v
        >> 16) & 0xff) as u8 as u32) << 16) | ((((v >> 24) & 0xff) as u8 as u32) << 24)) == v)
        by (bit_vector);
}

/// Appends the little-endian bytes of a 64-bit value.
fn write_u64_le(out: &mut Vec<u8>, v: u64)
    ensures
        final(out)@ == old(out)@ + u64_le(v),
{
    out.push(((v >> 0) & 0xff) as u8);
    out.push(((v >> 8) & 0xff) as u8);
    out.push(((v >> 16) & 0xff) as u8);
    out.push(((v >> 24) & 0xff) as u8);
    out.push(((v >> 32) & 0xff) as u8);
    out.push(((v >> 40) & 0xff) as u8);
    out.push(((v >> 48) & 0xff) as u8);
    out.push(((v >> 56) & 0xff) as u8);
    proof {
        assert(out@ =~= old(out)@ + u64_le(v));
    }
}

/// Appends the little-endian bytes of a 32-bit value.
fn write_u32_le(out: &mut Vec<u8>, v: u32)
    ensures
        final(out)@ == old(out)@ + u32_le(v),
{
    out.push(((v >> 0) & 0xff) as u8);
    out.push(((v >> 8) & 0xff) as u8);
    out.push(((v >> 16) & 0xff) as u8);
    out.push(((v >> 24) & 0xff) as u8);
    proof {
        assert(out@ =~= old(out)@ + u32_le(v));
    }
}

/// Reads the 64-bit value stored little-endian at `off`.
fn read_u64_le(bytes: &[u8], off: usize) -> (v: u64)
    requires
        off + 8 <= bytes@.len(),
    ensures
        v == le64_at(bytes@, off as int),
{
    (bytes[off] as u64) | ((bytes[off + 1] as u64) << 8) | ((bytes[off + 2] as u64) << 16) | ((
    bytes[off + 3] as u64) << 24) | ((bytes[off + 4] as u64) << 32) | ((bytes[off + 5] as u64)
        << 40) | ((bytes[off + 6] as u64) << 48) | ((bytes[off + 7] as u64) << 56)
}

/// Reads the 32-bit value stored little-endian at `off`.
fn read_u32_le(bytes: &[u8], off: usize) -> (v: u32)
    requires
        off + 4 <= bytes@.len(),
    ensures
        v == le32_at(bytes@, off as int),
{
    (bytes[off] as u32) | ((bytes[off + 1] as u32) << 8) | ((bytes[off + 2] as u32) << 16) | ((
    bytes[off + 3] as u32) << 24)
}

/// The byte a boolean is encoded as.
pub open spec fn bool_byte(b: bool) -> u8 {
    if b {
        1u8
    } else {
        0u8
    }
}

/// The encoding of a layout: 13 bytes.
pub open spec fn layout_enc(l: Layout) -> Seq<u8> {
    u64_le(l.size) + seq![bool_byte(l.optional)] + u32_le(spec_code_of(l.typ))
}

/// What decoding a 13-byte layout gives, if anything: the size, the flag
/// byte (which must be 0 or 1) and a known column-type index.
pub open spec fn layout_dec(s: Seq<u8>) -> Option<Layout> {
    if s.len() != 13 {
        None
    } else if s[8] != 0 && s[8] != 1 {
        None
    } else if le32_at(s, 9) >= COLUMN_TYPE_COUNT {
        None
    } else {
        Some(
            Layout {
                size: le64_at(s, 0),
                optional: s[8] == 1,
                typ: spec_type_of_code(le32_at(s, 9)),
            },
        )
    }
}

/// Encodes a layout.
pub fn serialize_layout(arg: Layout) -> (r: DynArray)
    ensures
        r.wf(),
        r.array@ == layout_enc(arg),
        r.length == 13,
{
    let mut out: Vec<u8> = Vec::new();
    write_u64_le(&mut out, arg.size);
    out.push(if arg.optional { 1u8 } else { 0u8 });
    write_u32_le(&mut out, arg.typ.code());
    proof {
        assert(out@ =~= layout_enc(arg));
    }
    let length = out.len() as u64;
    DynArray { array: out, length }
}

/// Decodes a layout; reports `None` on anything that is not the encoding of
/// one (wrong length, a flag byte beyond 0 and 1, an unknown column-type
/// index).
pub fn deserialize_layout(bytes: &[u8]) -> (r: Option<Layout>)
    ensures
        r == layout_dec(bytes@),
{
    if bytes.len() != 13 {
        return None;
    }
    let size = read_u64_le(bytes, 0);
    let flag = bytes[8];
    if flag != 0 && flag != 1 {
        return None;
    }
    let code = read_u32_le(bytes, 9);
    match ColumnType::from_code(code) {
        None => None,
        Some(typ) => Some(Layout { size, optional: flag == 1, typ }),
    }
}

/// Decoding an encoded layout gives the layout back.
pub proof fn lemma_layout_roundtrip(l: Layout)
    ensures
        layout_dec(layout_enc(l)) == Some(l),
{
    let s = layout_enc(l);
    assert(s.len() == 13);
    assert(s[8] == bool_byte(l.optional));
    assert forall|i: int| 0 <= i < 8 implies s[i] == u64_le(l.size)[i] by {}
    assert forall|i: int| 0 <= i < 4 implies s[9 + i] == u32_le(spec_code_of(l.typ))[i] by {}
    assert(le64_at(s, 0) == le64_at(u64_le(l.size), 0));
    lemma_u64_le_roundtrip(l.size);
    assert(le32_at(s, 9) == le32_at(u32_le(spec_code_of(l.typ)), 0));
    lemma_u32_le_roundtrip(spec_code_of(l.typ));
    lemma_code_roundtrip(l.typ);
}

/// `s` brought to exactly `n` bytes: cut off beyond `n`, padded with `0x0`
/// up to `n`.
pub open spec fn padded_to(s: Seq<u8>, n: int) -> Seq<u8> {
    Seq::new(n as nat, |i: int| if i < s.len() { s[i] } else { 0u8 })
}

/// The encoding of string bytes at fixed size `n`: a little-endian length
/// prefix, then the padded bytes.
pub open spec fn str_enc(s: Seq<u8>, n: int) -> Seq<u8> {
    u64_le(n as u64) + padded_to(s, n)
}

/// Position of the first `0x0` in `s`, or the length if there is none.
pub open spec fn nul_pos(s: Seq<u8>) -> int
    decreases s.len(),
{
    if s.len() == 0 {
        0
    } else if s[0] == 0 {
        0
    } else {
        1 + nul_pos(s.drop_first())
    }
}

/// `nul_pos` finds the first `0x0`: everything before it is non-zero, and
/// it points at a `0x0` unless there is none.
pub proof fn lemma_nul_pos(s: Seq<u8>)
    ensures
        0 <= nul_pos(s) <= s.len(),
        forall|i: int| 0 <= i < nul_pos(s) ==> s[i] != 0,
        nul_pos(s) < s.len() ==> s[nul_pos(s)] == 0,
    decreases s.len(),
{
    if s.len() == 0 {
    } else if s[0] == 0 {
    } else {
        lemma_nul_pos(s.drop_first());
        assert forall|i: int| 0 <= i < nul_pos(s) implies s[i] != 0 by {
            if i > 0 {
                assert(s.drop_first()[i - 1] != 0);
            }
        }
        if nul_pos(s) < s.len() {
            assert(s.drop_first()[nul_pos(s) - 1] == 0);
        }
    }
}

/// Any position with only non-zero bytes before it and a zero at it (or the
/// end of `s`) is `nul_pos`.
pub proof fn lemma_nul_pos_unique(s: Seq<u8>, k: int)
    requires
        0 <= k <= s.len(),
        forall|i: int| 0 <= i < k ==> s[i] != 0,
        k < s.len() ==> s[k] == 0,
    ensures
        nul_pos(s) == k,
{
    lemma_nul_pos(s);
    let p = nul_pos(s);
    if p < k {
        assert(s[p] != 0);
        assert(s[p] == 0);
    }
    if k < p {
        assert(s[k] != 0);
    }
}

/// What decoding a fixed-size string gives: the padded bytes cut at the
/// first `0x0`.  The length prefix must match the bytes that follow it.
pub open spec fn str_dec(s: Seq<u8>) -> Option<Seq<u8>> {
    if s.len() < 8 {
        None
    } else if le64_at(s, 0) != s.len() - 8 {
        None
    } else {
        let payload = s.subrange(8, s.len() as int);
        Some(payload.subrange(0, nul_pos(payload)))
    }
}

/// Encodes string bytes at fixed size `size`: whatever exceeds `size` is
/// cut off, missing bytes are padded with `0x0`.
pub fn serialize_str(arg: &[u8], size: usize) -> (r: DynArray)
    requires
        size + 8 <= usize::MAX,
    ensures
        r.wf(),
        r.array@ == str_enc(arg@, size as int),
        r.length == size + 8,
{
    let mut out: Vec<u8> = Vec::new();
    write_u64_le(&mut out, size as u64);
    let mut i: usize = 0;
    while i < size
        invariant
            i <= size,
            out@.len() == 8 + i,
            out@ == u64_le(size as u64) + padded_to(arg@, i as int),
        decreases size - i,
    {
        if i < arg.len() {
            out.push(arg[i]);
        } else {
            out.push(0u8);
        }
        proof {
            assert(out@ =~= u64_le(size as u64) + padded_to(arg@, i + 1));
        }
        i = i + 1;
    }
    proof {
        assert(out@ =~= str_enc(arg@, size as int));
    }
    let length = out.len() as u64;
    DynArray { array: out, length }
}

/// Decodes a fixed-size string: checks the length prefix, then cuts the
/// padded bytes at the first `0x0`.
pub fn deserialize_str(bytes: &[u8]) -> (r: Option<Vec<u8>>)
    ensures
        r is Some <==> str_dec(bytes@) is Some,
        r matches Some(v) ==> str_dec(bytes@) == Some(v@),
{
    if bytes.len() < 8 {
        return None;
    }
    let n = read_u64_le(bytes, 0);
    let payload_len = bytes.len() - 8;
    if n != payload_len as u64 {
        proof {
            if le64_at(bytes@, 0) == bytes@.len() - 8 {
                assert(n == payload_len as u64);
            }
        }
        return None;
    }
    let ghost payload = bytes@.subrange(8, bytes@.len() as int);
    let mut out: Vec<u8> = Vec::new();
    let mut i: usize = 0;
    while i < payload_len && bytes[8 + i] != 0
        invariant
            i <= payload_len,
            payload_len + 8 <= usize::MAX,
            payload_len == bytes@.len() - 8,
            bytes@.len() >= 8,
            payload == bytes@.subrange(8, bytes@.len() as int),
            forall|j: int| 0 <= j < i ==> payload[j] != 0,
            out@ == payload.subrange(0, i as int),
        decreases payload_len - i,
    {
        out.push(bytes[8 + i]);
        proof {
            assert(payload[i as int] == bytes@[8 + i]);
            assert(out@ =~= payload.subrange(0, i + 1));
        }
        i = i + 1;
    }
    proof {
        if i < payload_len {
            assert(payload[i as int] == bytes@[8 + i]);
        }
        lemma_nul_pos_unique(payload, i as int);
    }
    Some(out)
}

/// Decoding an encoded string gives the bytes back, whenever they hold no
/// `0x0` (the padding marker) and fit the fixed size.
pub proof fn lemma_str_roundtrip(s: Seq<u8>, n: int)
    requires
        0 <= s.len() <= n <= u64::MAX,
        forall|i: int| 0 <= i < s.len() ==> s[i] != 0,
    ensures
        str_dec(str_enc(s, n)) == Some(s),
{
    let e = str_enc(s, n);
    assert(e.len() == 8 + n);
    assert forall|i: int| 0 <= i < 8 implies e[i] == u64_le(n as u64)[i] by {}
    assert(le64_at(e, 0) == le64_at(u64_le(n as u64), 0));
    lemma_u64_le_roundtrip(n as u64);
    assert(n as u64 as int == n);
    let payload = e.subrange(8, e.len() as int);
    assert(payload =~= padded_to(s, n));
    assert forall|i: int| 0 <= i < s.len() implies payload[i] != 0 by {
        assert(payload[i] == s[i]);
    }
    if (s.len() as int) < n {
        assert(payload[s.len() as int] == 0);
    }
    lemma_nul_pos_unique(payload, s.len() as int);
    assert(payload.subrange(0, s.len() as int) =~= s);
}

} // verus!
