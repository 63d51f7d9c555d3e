//! Schemas of the primitive types: fixed-width little-endian integers, bytes and booleans.
use super::{Encoding, SchemaRead, SchemaRoundtrip, SchemaWrite, TypeMeta};
use crate::config::Config;
use crate::error::{self, ReadError, ReadResult, WriteError, WriteResult};
use crate::io::{Reader, Writer};
use vstd::bytes::{
    lemma_auto_spec_u16_to_from_le_bytes, lemma_auto_spec_u32_to_from_le_bytes,
    lemma_auto_spec_u64_to_from_le_bytes, spec_u16_from_le_bytes, spec_u16_to_le_bytes,
    spec_u32_from_le_bytes, spec_u32_to_le_bytes, spec_u64_from_le_bytes, spec_u64_to_le_bytes,
    u16_from_le_bytes, u16_to_le_bytes, u32_from_le_bytes, u32_to_le_bytes, u64_from_le_bytes,
    u64_to_le_bytes,
};
use vstd::prelude::*;

verus! {

/// The error of input too short for a value of `n` bytes.
pub open spec fn short_input(n: usize) -> ReadError {
    ReadError::Io(crate::io::ReadError::ReadSizeLimit(n))
}

// ---- u8 ----

impl<C: Config> SchemaWrite<C> for u8 {
    type Src = u8;

    open spec fn spec_type_meta() -> TypeMeta {
        TypeMeta::Static { size: 1, zero_copy: true }
    }

    open spec fn spec_encode(src: u8) -> Encoding {
        Ok(seq![src])
    }

    fn type_meta() -> (m: TypeMeta) {
        TypeMeta::Static { size: 1, zero_copy: true }
    }

    fn size_of(src: &u8) -> (r: WriteResult<usize>) {
        Ok(1)
    }

    fn write<W: Writer>(writer: &mut W, src: &u8) -> (r: WriteResult<()>) {
        let buf = [*src];
        let r = error::from_io_write(writer.write(buf.as_slice()));
        assert(buf@ =~= seq![*src]);
        r
    }

    proof fn lemma_encode_static(src: u8) {
    }
}

impl<'de, C: Config> SchemaRead<'de, C> for u8 {
    type Dst = u8;

    open spec fn spec_type_meta() -> TypeMeta {
        TypeMeta::Static { size: 1, zero_copy: true }
    }

    open spec fn spec_decode(bytes: Seq<u8>) -> Result<(u8, nat), ReadError> {
        if bytes.len() < 1 {
            Err(short_input(1))
        } else {
            Ok((bytes[0], 1))
        }
    }

    fn type_meta() -> (m: TypeMeta) {
        TypeMeta::Static { size: 1, zero_copy: true }
    }

    fn get<R: Reader<'de>>(reader: &mut R) -> (r: ReadResult<u8>) {
        let r = error::from_io_read(reader.take_byte());
        proof {
            if r is Ok {
                assert(seq![r->Ok_0] =~= old(reader).readable().take(1));
                assert(seq![r->Ok_0][0] == old(reader).readable()[0]);
                assert(r->Ok_0.deep_view() == r->Ok_0);
            }
        }
        r
    }

    proof fn lemma_decode_local(bytes: Seq<u8>) {
    }

    proof fn lemma_decode_prefix(bytes: Seq<u8>, extra: Seq<u8>) {
    }

    proof fn lemma_decode_static(bytes: Seq<u8>) {
    }
}

impl<'de, C: Config> SchemaRoundtrip<'de, C> for u8 {
    open spec fn spec_within_limits(v: u8) -> bool {
        true
    }

    proof fn lemma_type_meta_agrees() {
    }

    proof fn lemma_roundtrip(v: u8, extra: Seq<u8>) {
    }
}

// ---- bool ----

impl<C: Config> SchemaWrite<C> for bool {
    type Src = bool;

    open spec fn spec_type_meta() -> TypeMeta {
        TypeMeta::Static { size: 1, zero_copy: false }
    }

    open spec fn spec_encode(src: bool) -> Encoding {
        Ok(seq![if src { 1u8 } else { 0u8 }])
    }

    fn type_meta() -> (m: TypeMeta) {
        TypeMeta::Static { size: 1, zero_copy: false }
    }

    fn size_of(src: &bool) -> (r: WriteResult<usize>) {
        Ok(1)
    }

    fn write<W: Writer>(writer: &mut W, src: &bool) -> (r: WriteResult<()>) {
        let b: u8 = if *src {
            1
        } else {
            0
        };
        let buf = [b];
        let r = error::from_io_write(writer.write(buf.as_slice()));
        assert(buf@ =~= seq![b]);
        r
    }

    proof fn lemma_encode_static(src: bool) {
    }
}

impl<'de, C: Config> SchemaRead<'de, C> for bool {
    type Dst = bool;

    open spec fn spec_type_meta() -> TypeMeta {
        TypeMeta::Static { size: 1, zero_copy: false }
    }

    /// A boolean is one byte, 0 or 1; any other byte is invalid.
    open spec fn spec_decode(bytes: Seq<u8>) -> Result<(bool, nat), ReadError> {
        if bytes.len() < 1 {
            Err(short_input(1))
        } else if bytes[0] == 0 {
            Ok((false, 1))
        } else if bytes[0] == 1 {
            Ok((true, 1))
        } else {
            Err(ReadError::InvalidValue)
        }
    }

    fn type_meta() -> (m: TypeMeta) {
        TypeMeta::Static { size: 1, zero_copy: false }
    }

    fn get<R: Reader<'de>>(reader: &mut R) -> (r: ReadResult<bool>) {
        let b = error::from_io_read(reader.take_byte())?;
        proof {
            assert(seq![b] =~= old(reader).readable().take(1));
            assert(seq![b][0] == old(reader).readable()[0]);
        }
        if b == 0 {
            assert(false.deep_view() == false);
            Ok(false)
        } else if b == 1 {
            assert(true.deep_view() == true);
            Ok(true)
        } else {
            Err(ReadError::InvalidValue)
        }
    }

    proof fn lemma_decode_local(bytes: Seq<u8>) {
    }

    proof fn lemma_decode_prefix(bytes: Seq<u8>, extra: Seq<u8>) {
    }

    proof fn lemma_decode_static(bytes: Seq<u8>) {
    }
}

impl<'de, C: Config> SchemaRoundtrip<'de, C> for bool {
    open spec fn spec_within_limits(v: bool) -> bool {
        true
    }

    proof fn lemma_type_meta_agrees() {
    }

    proof fn lemma_roundtrip(v: bool, extra: Seq<u8>) {
    }
}

// ---- u16 ----

impl<C: Config> SchemaWrite<C> for u16 {
    type Src = u16;

    open spec fn spec_type_meta() -> TypeMeta {
        TypeMeta::Static { size: 2, zero_copy: false }
    }

    open spec fn spec_encode(src: u16) -> Encoding {
        Ok(spec_u16_to_le_bytes(src))
    }

    fn type_meta() -> (m: TypeMeta) {
        TypeMeta::Static { size: 2, zero_copy: false }
    }

    fn size_of(src: &u16) -> (r: WriteResult<usize>) {
        proof {
            lemma_auto_spec_u16_to_from_le_bytes();
        }
        Ok(2)
    }

    fn write<W: Writer>(writer: &mut W, src: &u16) -> (r: WriteResult<()>) {
        let bytes = u16_to_le_bytes(*src);
        error::from_io_write(writer.write(bytes.as_slice()))
    }

    proof fn lemma_encode_static(src: u16) {
        lemma_auto_spec_u16_to_from_le_bytes();
    }
}

impl<'de, C: Config> SchemaRead<'de, C> for u16 {
    type Dst = u16;

    open spec fn spec_type_meta() -> TypeMeta {
        TypeMeta::Static { size: 2, zero_copy: false }
    }

    open spec fn spec_decode(bytes: Seq<u8>) -> Result<(u16, nat), ReadError> {
        if bytes.len() < 2 {
            Err(short_input(2))
        } else {
            Ok((spec_u16_from_le_bytes(bytes.take(2)), 2))
        }
    }

    fn type_meta() -> (m: TypeMeta) {
        TypeMeta::Static { size: 2, zero_copy: false }
    }

    fn get<R: Reader<'de>>(reader: &mut R) -> (r: ReadResult<u16>) {
        let a = error::from_io_read(reader.take_array::<2>())?;
        let v = u16_from_le_bytes(a.as_slice());
        assert(v.deep_view() == v);
        Ok(v)
    }

    proof fn lemma_decode_local(bytes: Seq<u8>) {
        if bytes.len() >= 2 {
            assert(bytes.take(2).take(2) =~= bytes.take(2));
        }
    }

    proof fn lemma_decode_prefix(bytes: Seq<u8>, extra: Seq<u8>) {
        if bytes.len() >= 2 {
            assert((bytes + extra).take(2) =~= bytes.take(2));
        }
    }

    proof fn lemma_decode_static(bytes: Seq<u8>) {
    }
}

impl<'de, C: Config> SchemaRoundtrip<'de, C> for u16 {
    open spec fn spec_within_limits(v: u16) -> bool {
        true
    }

    proof fn lemma_type_meta_agrees() {
    }

    proof fn lemma_roundtrip(v: u16, extra: Seq<u8>) {
        lemma_auto_spec_u16_to_from_le_bytes();
        let b = spec_u16_to_le_bytes(v);
        assert((b + extra).take(2) =~= b);
    }
}

// ---- u32 ----

impl<C: Config> SchemaWrite<C> for u32 {
    type Src = u32;

    open spec fn spec_type_meta() -> TypeMeta {
        TypeMeta::Static { size: 4, zero_copy: false }
    }

    open spec fn spec_encode(src: u32) -> Encoding {
        Ok(spec_u32_to_le_bytes(src))
    }

    fn type_meta() -> (m: TypeMeta) {
        TypeMeta::Static { size: 4, zero_copy: false }
    }

    fn size_of(src: &u32) -> (r: WriteResult<usize>) {
        proof {
            lemma_auto_spec_u32_to_from_le_bytes();
        }
        Ok(4)
    }

    fn write<W: Writer>(writer: &mut W, src: &u32) -> (r: WriteResult<()>) {
        let bytes = u32_to_le_bytes(*src);
        error::from_io_write(writer.write(bytes.as_slice()))
    }

    proof fn lemma_encode_static(src: u32) {
        lemma_auto_spec_u32_to_from_le_bytes();
    }
}

impl<'de, C: Config> SchemaRead<'de, C> for u32 {
    type Dst = u32;

    open spec fn spec_type_meta() -> TypeMeta {
        TypeMeta::Static { size: 4, zero_copy: false }
    }

    open spec fn spec_decode(bytes: Seq<u8>) -> Result<(u32, nat), ReadError> {
        if bytes.len() < 4 {
            Err(short_input(4))
        } else {
            Ok((spec_u32_from_le_bytes(bytes.take(4)), 4))
        }
    }

    fn type_meta() -> (m: TypeMeta) {
        TypeMeta::Static { size: 4, zero_copy: false }
    }

    fn get<R: Reader<'de>>(reader: &mut R) -> (r: ReadResult<u32>) {
        let a = error::from_io_read(reader.take_array::<4>())?;
        let v = u32_from_le_bytes(a.as_slice());
        assert(v.deep_view() == v);
        Ok(v)
    }

    proof fn lemma_decode_local(bytes: Seq<u8>) {
        if bytes.len() >= 4 {
            assert(bytes.take(4).take(4) =~= bytes.take(4));
        }
    }

    proof fn lemma_decode_prefix(bytes: Seq<u8>, extra: Seq<u8>) {
        if bytes.len() >= 4 {
            assert((bytes + extra).take(4) =~= bytes.take(4));
        }
    }

    proof fn lemma_decode_static(bytes: Seq<u8>) {
    }
}

impl<'de, C: Config> SchemaRoundtrip<'de, C> for u32 {
    open spec fn spec_within_limits(v: u32) -> bool {
        true
    }

    proof fn lemma_type_meta_agrees() {
    }

    proof fn lemma_roundtrip(v: u32, extra: Seq<u8>) {
        lemma_auto_spec_u32_to_from_le_bytes();
        let b = spec_u32_to_le_bytes(v);
        assert((b + extra).take(4) =~= b);
    }
}

// ---- u64 ----

impl<C: Config> SchemaWrite<C> for u64 {
    type Src = u64;

    open spec fn spec_type_meta() -> TypeMeta {
        TypeMeta::Static { size: 8, zero_copy: false }
    }

    open spec fn spec_encode(src: u64) -> Encoding {
        Ok(spec_u64_to_le_bytes(src))
    }

    fn type_meta() -> (m: TypeMeta) {
        TypeMeta::Static { size: 8, zero_copy: false }
    }

    fn size_of(src: &u64) -> (r: WriteResult<usize>) {
        proof {
            lemma_auto_spec_u64_to_from_le_bytes();
        }
        Ok(8)
    }

    fn write<W: Writer>(writer: &mut W, src: &u64) -> (r: WriteResult<()>) {
        let bytes = u64_to_le_bytes(*src);
        error::from_io_write(writer.write(bytes.as_slice()))
    }

    proof fn lemma_encode_static(src: u64) {
        lemma_auto_spec_u64_to_from_le_bytes();
    }
}

impl<'de, C: Config> SchemaRead<'de, C> for u64 {
    type Dst = u64;

    open spec fn spec_type_meta() -> TypeMeta {
        TypeMeta::Static { size: 8, zero_copy: false }
    }

    open spec fn spec_decode(bytes: Seq<u8>) -> Result<(u64, nat), ReadError> {
        if bytes.len() < 8 {
            Err(short_input(8))
        } else {
            Ok((spec_u64_from_le_bytes(bytes.take(8)), 8))
        }
    }

    fn type_meta() -> (m: TypeMeta) {
        TypeMeta::Static { size: 8, zero_copy: false }
    }

    fn get<R: Reader<'de>>(reader: &mut R) -> (r: ReadResult<u64>) {
        let a = error::from_io_read(reader.take_array::<8>())?;
        let v = u64_from_le_bytes(a.as_slice());
        assert(v.deep_view() == v);
        Ok(v)
    }

    proof fn lemma_decode_local(bytes: Seq<u8>) {
        if bytes.len() >= 8 {
            assert(bytes.take(8).take(8) =~= bytes.take(8));
        }
    }

    proof fn lemma_decode_prefix(bytes: Seq<u8>, extra: Seq<u8>) {
        if bytes.len() >= 8 {
            assert((bytes + extra).take(8) =~= bytes.take(8));
        }
    }

    proof fn lemma_decode_static(bytes: Seq<u8>) {
    }
}

impl<'de, C: Config> SchemaRoundtrip<'de, C> for u64 {
    open spec fn spec_within_limits(v: u64) -> bool {
        true
    }

    proof fn lemma_type_meta_agrees() {
    }

    proof fn lemma_roundtrip(v: u64, extra: Seq<u8>) {
        lemma_auto_spec_u64_to_from_le_bytes();
        let b = spec_u64_to_le_bytes(v);
        assert((b + extra).take(8) =~= b);
    }
}

} // verus!
