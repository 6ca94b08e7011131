//! Logical element types, their storage sizes, and packed 4-bit encodings.
use crate::error::Error;
use crate::shape::{product_fits, Shape};
use vstd::prelude::*;

verus! {

/// Storage kind for tensor elements.
#[derive(Clone, Copy, Debug, PartialEq, Eq, Structural, Hash)]
pub enum TypeCode {
    Uint,
    Int,
    Float,
    Bfloat,
    Float8,
    Float4,
    OpaqueHandle,
}

/// A compact logical data type description.
#[derive(Clone, Copy, Debug, PartialEq, Eq, Structural, Hash)]
pub struct DataType {
    pub code: TypeCode,
    pub bits: u8,
    pub lanes: u8,
}

/// Number of bytes needed to hold `bits` bits.
pub open spec fn bytes_for_bits(bits: int) -> int {
    (bits + 7) / 8
}

impl DataType {
    #[allow(non_snake_case)]
    pub open spec fn spec_U8() -> DataType {
        DataType { code: TypeCode::Uint, bits: 8, lanes: 1 }
    }

    #[allow(non_snake_case)]
    pub fn U8() -> (r: DataType)
        ensures
            r == Self::spec_U8(),
    {
        DataType { code: TypeCode::Uint, bits: 8, lanes: 1 }
    }

    #[allow(non_snake_case)]
    pub open spec fn spec_U16() -> DataType {
        DataType { code: TypeCode::Uint, bits: 16, lanes: 1 }
    }

    #[allow(non_snake_case)]
    pub fn U16() -> (r: DataType)
        ensures
            r == Self::spec_U16(),
    {
        DataType { code: TypeCode::Uint, bits: 16, lanes: 1 }
    }

    #[allow(non_snake_case)]
    pub open spec fn spec_I4() -> DataType {
        DataType { code: TypeCode::Int, bits: 4, lanes: 1 }
    }

    #[allow(non_snake_case)]
    pub fn I4() -> (r: DataType)
        ensures
            r == Self::spec_I4(),
    {
        DataType { code: TypeCode::Int, bits: 4, lanes: 1 }
    }

    #[allow(non_snake_case)]
    pub open spec fn spec_I8() -> DataType {
        DataType { code: TypeCode::Int, bits: 8, lanes: 1 }
    }

    #[allow(non_snake_case)]
    pub fn I8() -> (r: DataType)
        ensures
            r == Self::spec_I8(),
    {
        DataType { code: TypeCode::Int, bits: 8, lanes: 1 }
    }

    #[allow(non_snake_case)]
    pub open spec fn spec_I16() -> DataType {
        DataType { code: TypeCode::Int, bits: 16, lanes: 1 }
    }

    #[allow(non_snake_case)]
    pub fn I16() -> (r: DataType)
        ensures
            r == Self::spec_I16(),
    {
        DataType { code: TypeCode::Int, bits: 16, lanes: 1 }
    }

    #[allow(non_snake_case)]
    pub open spec fn spec_F4() -> DataType {
        DataType { code: TypeCode::Float4, bits: 4, lanes: 1 }
    }

    #[allow(non_snake_case)]
    pub fn F4() -> (r: DataType)
        ensures
            r == Self::spec_F4(),
    {
        DataType { code: TypeCode::Float4, bits: 4, lanes: 1 }
    }

    #[allow(non_snake_case)]
    pub open spec fn spec_F8() -> DataType {
        DataType { code: TypeCode::Float8, bits: 8, lanes: 1 }
    }

    #[allow(non_snake_case)]
    pub fn F8() -> (r: DataType)
        ensures
            r == Self::spec_F8(),
    {
        DataType { code: TypeCode::Float8, bits: 8, lanes: 1 }
    }

    #[allow(non_snake_case)]
    pub open spec fn spec_F16() -> DataType {
        DataType { code: TypeCode::Float, bits: 16, lanes: 1 }
    }

    #[allow(non_snake_case)]
    pub fn F16() -> (r: DataType)
        ensures
            r == Self::spec_F16(),
    {
        DataType { code: TypeCode::Float, bits: 16, lanes: 1 }
    }

    #[allow(non_snake_case)]
    pub open spec fn spec_BF16() -> DataType {
        DataType { code: TypeCode::Bfloat, bits: 16, lanes: 1 }
    }

    #[allow(non_snake_case)]
    pub fn BF16() -> (r: DataType)
        ensures
            r == Self::spec_BF16(),
    {
        DataType { code: TypeCode::Bfloat, bits: 16, lanes: 1 }
    }

    #[allow(non_snake_case)]
    pub open spec fn spec_F32() -> DataType {
        DataType { code: TypeCode::Float, bits: 32, lanes: 1 }
    }

    #[allow(non_snake_case)]
    pub fn F32() -> (r: DataType)
        ensures
            r == Self::spec_F32(),
    {
        DataType { code: TypeCode::Float, bits: 32, lanes: 1 }
    }

    #[allow(non_snake_case)]
    pub open spec fn spec_F64() -> DataType {
        DataType { code: TypeCode::Float, bits: 64, lanes: 1 }
    }

    #[allow(non_snake_case)]
    pub fn F64() -> (r: DataType)
        ensures
            r == Self::spec_F64(),
    {
        DataType { code: TypeCode::Float, bits: 64, lanes: 1 }
    }


    pub fn new(code: TypeCode, bits: u8, lanes: u8) -> (r: Self)
        ensures
            r == (DataType { code, bits, lanes }),
    {
        DataType { code, bits, lanes }
    }

    /// Bits of one element: bits per lane times lanes.
    pub open spec fn spec_size_in_bits(self) -> int {
        self.bits * self.lanes
    }

    pub fn size_in_bits(self) -> (r: usize)
        ensures
            r == self.spec_size_in_bits(),
    {
        proof {
            vstd::arithmetic::mul::lemma_mul_upper_bound(
                self.bits as int,
                255,
                self.lanes as int,
                255,
            );
        }
        (self.bits as usize) * (self.lanes as usize)
    }

    pub fn bytes_per_element_ceil(self) -> (r: usize)
        ensures
            r == bytes_for_bits(self.spec_size_in_bits()),
    {
        let bits = self.size_in_bits();
        bits / 8 + if bits % 8 != 0 { 1usize } else { 0usize }
    }

    /// Bytes needed to store `elements` densely packed elements; fails when the
    /// bit count does not fit in `usize`.
    pub fn storage_bytes_for_elements(self, elements: usize) -> (r: Result<usize, Error>)
        ensures
            self.spec_size_in_bits() * elements <= usize::MAX ==> r == Ok::<usize, Error>(
                bytes_for_bits(self.spec_size_in_bits() * elements) as usize,
            ),
            self.spec_size_in_bits() * elements > usize::MAX ==> (r matches Err(
                Error::InvalidArgument(m),
            ) && m@ == "datatype size overflow"@),
    {
        let bits = self.size_in_bits();
        match bits.checked_mul(elements) {
            Some(total) => Ok(total / 8 + if total % 8 != 0 { 1usize } else { 0usize }),
            None => Err(Error::InvalidArgument("datatype size overflow".to_string())),
        }
    }

    /// Bytes needed to store a tensor of `shape`.
    pub fn storage_bytes_for_shape(self, shape: &Shape) -> (r: Result<usize, Error>)
        ensures
            !product_fits(shape@) ==> (r matches Err(Error::Shape(m)) && m@ == "shape element count overflow"@),
            product_fits(shape@) && self.spec_size_in_bits() * shape.spec_element_count()
                <= usize::MAX ==> r == Ok::<usize, Error>(
                bytes_for_bits(self.spec_size_in_bits() * shape.spec_element_count()) as usize,
            ),
            product_fits(shape@) && self.spec_size_in_bits() * shape.spec_element_count()
                > usize::MAX ==> (r matches Err(Error::InvalidArgument(m)) && m@ == "datatype size overflow"@),
    {
        proof {
            crate::shape::lemma_product_fits_bound(shape@);
        }
        let count = shape.element_count()?;
        self.storage_bytes_for_elements(count)
    }

    /// The data type of a native element type.
    pub fn of<T: NativeDataType>() -> (r: Self)
        ensures
            r == T::spec_data_type(),
    {
        T::data_type()
    }
}

/// Maps a native Rust value type to a `DataType`.
pub trait NativeDataType {
    spec fn spec_data_type() -> DataType;

    fn data_type() -> (r: DataType)
        ensures
            r == Self::spec_data_type(),
    ;
}

impl NativeDataType for u8 {
    open spec fn spec_data_type() -> DataType {
        DataType::spec_U8()
    }

    fn data_type() -> DataType {
        DataType::U8()
    }
}

impl NativeDataType for i8 {
    open spec fn spec_data_type() -> DataType {
        DataType::spec_I8()
    }

    fn data_type() -> DataType {
        DataType::I8()
    }
}

impl NativeDataType for u16 {
    open spec fn spec_data_type() -> DataType {
        DataType::spec_U16()
    }

    fn data_type() -> DataType {
        DataType::U16()
    }
}

impl NativeDataType for i16 {
    open spec fn spec_data_type() -> DataType {
        DataType::spec_I16()
    }

    fn data_type() -> DataType {
        DataType::I16()
    }
}

impl NativeDataType for u32 {
    open spec fn spec_data_type() -> DataType {
        DataType { code: TypeCode::Uint, bits: 32, lanes: 1 }
    }

    fn data_type() -> DataType {
        DataType::new(TypeCode::Uint, 32, 1)
    }
}

impl NativeDataType for i32 {
    open spec fn spec_data_type() -> DataType {
        DataType { code: TypeCode::Int, bits: 32, lanes: 1 }
    }

    fn data_type() -> DataType {
        DataType::new(TypeCode::Int, 32, 1)
    }
}

impl NativeDataType for u64 {
    open spec fn spec_data_type() -> DataType {
        DataType { code: TypeCode::Uint, bits: 64, lanes: 1 }
    }

    fn data_type() -> DataType {
        DataType::new(TypeCode::Uint, 64, 1)
    }
}

impl NativeDataType for i64 {
    open spec fn spec_data_type() -> DataType {
        DataType { code: TypeCode::Int, bits: 64, lanes: 1 }
    }

    fn data_type() -> DataType {
        DataType::new(TypeCode::Int, 64, 1)
    }
}

// ---------------------------------------------------------------------------
// Packed nibbles
// ---------------------------------------------------------------------------

/// The low four bits of a byte.
pub open spec fn lo_nibble(b: u8) -> u8 {
    (b % 16) as u8
}

/// The high four bits of a byte.
pub open spec fn hi_nibble(b: u8) -> u8 {
    (b / 16) as u8
}

/// One packed byte: `lo` in the low nibble, `hi` in the high nibble (each truncated to 4 bits).
pub open spec fn packed_byte(lo: u8, hi: u8) -> u8 {
    (lo % 16 + 16 * (hi % 16)) as u8
}

/// Packs values two per byte, first value in the low nibble; an odd tail is padded with zero.
pub open spec fn pack_nibbles_spec(values: Seq<u8>) -> Seq<u8> {
    Seq::new(
        ((values.len() + 1) / 2) as nat,
        |i: int|
            packed_byte(
                values[2 * i],
                if 2 * i + 1 < values.len() {
                    values[2 * i + 1]
                } else {
                    0u8
                },
            ),
    )
}

/// The `i`-th nibble of `bytes`, low nibble first.
pub open spec fn nibble_at(bytes: Seq<u8>, i: int) -> u8 {
    if i % 2 == 0 {
        lo_nibble(bytes[i / 2])
    } else {
        hi_nibble(bytes[i / 2])
    }
}

/// Unpacks up to `count` nibbles (fewer when `bytes` runs out).
pub open spec fn unpack_nibbles_spec(bytes: Seq<u8>, count: nat) -> Seq<u8> {
    Seq::new(
        if count <= 2 * bytes.len() {
            count
        } else {
            2 * bytes.len()
        },
        |i: int| nibble_at(bytes, i),
    )
}

/// Two's complement 4-bit encoding of a value in `-8..=7`.
pub open spec fn int4_encode(v: i8) -> u8 {
    if v < 0 {
        (v + 16) as u8
    } else {
        v as u8
    }
}

/// Decoding of a 4-bit two's complement nibble.
pub open spec fn int4_decode(n: u8) -> i8 {
    if n >= 8 {
        (n - 16) as i8
    } else {
        n as i8
    }
}

pub open spec fn int4_in_range(values: Seq<i8>) -> bool {
    forall|i: int| 0 <= i < values.len() ==> -8 <= #[trigger] values[i] <= 7
}

pub open spec fn float4_in_range(values: Seq<u8>) -> bool {
    forall|i: int| 0 <= i < values.len() ==> #[trigger] values[i] <= 15
}

proof fn lemma_pack_bits(lo: u8, hi: u8)
    ensures
        (lo & 0x0f) | ((hi & 0x0f) << 4u8) == packed_byte(lo, hi),
{
    assert((lo & 0x0f) | ((hi & 0x0f) << 4u8) == (lo % 16 + 16 * (hi % 16)) as u8)
        by (bit_vector);
}

proof fn lemma_unpack_bits(b: u8)
    ensures
        b & 0x0f == lo_nibble(b),
        (b >> 4u8) & 0x0f == hi_nibble(b),
{
    assert(b & 0x0f == (b % 16) as u8) by (bit_vector);
    assert((b >> 4u8) & 0x0f == (b / 16) as u8) by (bit_vector);
}

fn pack_nibbles(values: &[u8]) -> (r: Vec<u8>)
    ensures
        r@ == pack_nibbles_spec(values@),
{
    let n = values.len();
    let out_len = n / 2 + n % 2;
    let mut packed: Vec<u8> = Vec::with_capacity(out_len);
    let mut j: usize = 0;
    while j < out_len
        invariant
            n == values@.len(),
            out_len == (n + 1) / 2,
            j <= out_len,
            packed@.len() == j,
            forall|k: int| 0 <= k < j ==> packed@[k] == #[trigger] pack_nibbles_spec(values@)[k],
        decreases out_len - j,
    {
        let lo = values[2 * j];
        let hi = if 2 * j + 1 < n {
            values[2 * j + 1]
        } else {
            0u8
        };
        proof {
            lemma_pack_bits(lo, hi);
        }
        packed.push((lo & 0x0f) | ((hi & 0x0f) << 4u8));
        j += 1;
    }
    assert(packed@ =~= pack_nibbles_spec(values@));
    packed
}

fn unpack_nibbles(bytes: &[u8], count: usize) -> (r: Vec<u8>)
    ensures
        r@ == unpack_nibbles_spec(bytes@, count as nat),
{
    let avail: usize = if bytes.len() <= usize::MAX / 2 {
        2 * bytes.len()
    } else {
        usize::MAX
    };
    let total = if count <= avail {
        count
    } else {
        avail
    };
    assert(total == (if count <= 2 * bytes@.len() {
        count as int
    } else {
        2 * bytes@.len() as int
    })) by {
        if bytes@.len() > usize::MAX / 2 {
            assert(count <= 2 * bytes@.len());
        }
    }
    let mut values: Vec<u8> = Vec::with_capacity(total);
    let mut i: usize = 0;
    while i < total
        invariant
            total <= 2 * bytes@.len(),
            i <= total,
            values@.len() == i,
            forall|k: int| 0 <= k < i ==> values@[k] == #[trigger] nibble_at(bytes@, k),
        decreases total - i,
    {
        let b = bytes[i / 2];
        proof {
            lemma_unpack_bits(b);
        }
        if i % 2 == 0 {
            values.push(b & 0x0f);
        } else {
            values.push((b >> 4u8) & 0x0f);
        }
        i += 1;
    }
    assert(values@ =~= unpack_nibbles_spec(bytes@, count as nat));
    values
}

/// Packs 4-bit signed integers using two's complement nibble encoding.
pub fn pack_int4(values: &[i8]) -> (r: Result<Vec<u8>, Error>)
    ensures
        int4_in_range(values@) ==> (r matches Ok(p) && p@ == pack_nibbles_spec(
            values@.map_values(|v: i8| int4_encode(v)),
        )),
        !int4_in_range(values@) ==> (r matches Err(Error::InvalidArgument(m)) && m@ == "int4 out of range"@),
{
    let mut raw: Vec<u8> = Vec::with_capacity(values.len());
    let mut i: usize = 0;
    while i < values.len()
        invariant
            i <= values@.len(),
            raw@ == values@.subrange(0, i as int).map_values(|v: i8| int4_encode(v)),
            forall|k: int| 0 <= k < i ==> -8 <= #[trigger] values@[k] <= 7,
        decreases values@.len() - i,
    {
        let value = values[i];
        if value < -8 || value > 7 {
            return Err(Error::InvalidArgument("int4 out of range".to_string()));
        }
        let nibble: u8 = if value < 0 {
            (value + 16) as u8
        } else {
            value as u8
        };
        raw.push(nibble);
        proof {
            assert(values@.subrange(0, i + 1) =~= values@.subrange(0, i as int).push(value));
        }
        i += 1;
    }
    assert(values@.subrange(0, values@.len() as int) =~= values@);
    Ok(pack_nibbles(raw.as_slice()))
}

/// Unpacks 4-bit signed integers using two's complement nibble encoding.
pub fn unpack_int4(bytes: &[u8], count: usize) -> (r: Result<Vec<i8>, Error>)
    ensures
        r matches Ok(v) && v@ == unpack_nibbles_spec(bytes@, count as nat).map_values(
            |n: u8| int4_decode(n),
        ),
{
    let raw = unpack_nibbles(bytes, count);
    let mut out: Vec<i8> = Vec::with_capacity(raw.len());
    let mut i: usize = 0;
    while i < raw.len()
        invariant
            i <= raw@.len(),
            raw@ == unpack_nibbles_spec(bytes@, count as nat),
            forall|k: int| 0 <= k < raw@.len() ==> #[trigger] raw@[k] < 16,
            out@ == raw@.subrange(0, i as int).map_values(|n: u8| int4_decode(n)),
        decreases raw@.len() - i,
    {
        let nibble = raw[i];
        let v: i8 = if nibble & 0x08 != 0 {
            proof {
                assert(nibble < 16 ==> (nibble & 0x08 != 0) == (nibble >= 8)) by (bit_vector);
            }
            (nibble as i8) - 16
        } else {
            proof {
                assert(nibble < 16 ==> (nibble & 0x08 != 0) == (nibble >= 8)) by (bit_vector);
            }
            nibble as i8
        };
        out.push(v);
        proof {
            assert(raw@.subrange(0, i + 1) =~= raw@.subrange(0, i as int).push(nibble));
        }
        i += 1;
    }
    assert(raw@.subrange(0, raw@.len() as int) =~= raw@);
    Ok(out)
}

/// Packs 4-bit floating payloads as raw nibbles.
pub fn pack_float4(values: &[u8]) -> (r: Result<Vec<u8>, Error>)
    ensures
        float4_in_range(values@) ==> (r matches Ok(p) && p@ == pack_nibbles_spec(values@)),
        !float4_in_range(values@) ==> (r matches Err(Error::InvalidArgument(m)) && m@ == "float4 out of range"@),
{
    let mut i: usize = 0;
    while i < values.len()
        invariant
            i <= values@.len(),
            forall|k: int| 0 <= k < i ==> #[trigger] values@[k] <= 15,
        decreases values@.len() - i,
    {
        if values[i] > 0x0f {
            return Err(Error::InvalidArgument("float4 out of range".to_string()));
        }
        i += 1;
    }
    Ok(pack_nibbles(values))
}

/// Unpacks 4-bit floating payloads as raw nibbles.
pub fn unpack_float4(bytes: &[u8], count: usize) -> (r: Result<Vec<u8>, Error>)
    ensures
        r matches Ok(v) && v@ == unpack_nibbles_spec(bytes@, count as nat),
{
    Ok(unpack_nibbles(bytes, count))
}

// ---------------------------------------------------------------------------
// Laws
// ---------------------------------------------------------------------------

/// Unpacking the packed form of any nibble sequence, asking for as many values
/// as were packed, gives back the values truncated to four bits.
pub proof fn lemma_nibble_round_trip(values: Seq<u8>)
    ensures
        unpack_nibbles_spec(pack_nibbles_spec(values), values.len()) == values.map_values(
            |v: u8| (v % 16) as u8,
        ),
{
    let packed = pack_nibbles_spec(values);
    let lhs = unpack_nibbles_spec(packed, values.len());
    let rhs = values.map_values(|v: u8| (v % 16) as u8);
    assert(lhs.len() == rhs.len());
    assert forall|i: int| 0 <= i < lhs.len() implies lhs[i] == rhs[i] by {
        let j = i / 2;
        assert(0 <= j < packed.len());
        let lo = values[2 * j];
        let hi = if 2 * j + 1 < values.len() {
            values[2 * j + 1]
        } else {
            0u8
        };
        let b = packed[j];
        assert(b == packed_byte(lo, hi));
        assert(lo_nibble(packed_byte(lo, hi)) == lo % 16 && hi_nibble(packed_byte(lo, hi)) == hi
            % 16) by {
            assert(((lo % 16 + 16 * (hi % 16)) as u8) % 16 == lo % 16 && ((lo % 16 + 16 * (hi
                % 16)) as u8) / 16 == hi % 16) by (bit_vector);
        }
        if i % 2 == 0 {
            assert(i == 2 * j);
        } else {
            assert(i == 2 * j + 1);
        }
    }
    assert(lhs =~= rhs);
}

/// Round trip of 4-bit integers: unpacking what `pack_int4` produced, asking for
/// as many values as were given, returns exactly the original values.
pub proof fn lemma_int4_round_trip(values: Seq<i8>)
    requires
        int4_in_range(values),
    ensures
        unpack_nibbles_spec(
            pack_nibbles_spec(values.map_values(|v: i8| int4_encode(v))),
            values.len(),
        ).map_values(|n: u8| int4_decode(n)) == values,
{
    let enc = values.map_values(|v: i8| int4_encode(v));
    lemma_nibble_round_trip(enc);
    let un = unpack_nibbles_spec(pack_nibbles_spec(enc), values.len());
    assert(un == enc.map_values(|v: u8| (v % 16) as u8));
    let dec = un.map_values(|n: u8| int4_decode(n));
    assert forall|i: int| 0 <= i < values.len() implies dec[i] == values[i] by {
        let v = values[i];
        assert(-8 <= v <= 7);
        assert(enc[i] == int4_encode(v));
        assert(enc[i] < 16);
    }
    assert(dec =~= values);
}

/// Round trip of 4-bit float payloads: every value `<= 15` survives packing and unpacking.
pub proof fn lemma_float4_round_trip(values: Seq<u8>)
    requires
        float4_in_range(values),
    ensures
        unpack_nibbles_spec(pack_nibbles_spec(values), values.len()) == values,
{
    lemma_nibble_round_trip(values);
    let m = values.map_values(|v: u8| (v % 16) as u8);
    assert forall|i: int| 0 <= i < values.len() implies m[i] == values[i] by {
        assert(values[i] <= 15);
    }
    assert(m =~= values);
}

/// The packed 4-bit form of `n` values is exactly as long as the storage that a
/// 4-bit data type reserves for `n` elements.
pub proof fn lemma_packed_len_matches_storage(values: Seq<u8>)
    ensures
        pack_nibbles_spec(values).len() == bytes_for_bits(DataType::spec_I4().spec_size_in_bits()
            * values.len()),
        pack_nibbles_spec(values).len() == bytes_for_bits(DataType::spec_F4().spec_size_in_bits()
            * values.len()),
{
    let n = values.len() as int;
    assert((4 * n + 7) / 8 == (n + 1) / 2) by (nonlinear_arith)
        requires
            n >= 0,
    ;
    assert(DataType::spec_I4().spec_size_in_bits() == 4);
    assert(DataType::spec_F4().spec_size_in_bits() == 4);
}

} // verus!
