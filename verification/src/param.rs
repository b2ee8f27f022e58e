//! The 40-byte parameter block of a typeface.
//!
//! A typeface is ten single-precision numbers. On the wire each is its 32
//! bits, least significant byte first, in the order of the fields below.
//! This module holds the numbers as their bits: the block is a matter of
//! byte order alone.

use vstd::prelude::*;
use crate::wire::{
    le_bytes, le_value, lemma_le_bytes_len, lemma_le_bytes_of_value, lemma_le_value_of_bytes,
    lemma_radix_pow_values, read_le, write_le,
};

verus! {

/// The ten parameters of a typeface, each as the bits of a single-precision
/// number.
#[derive(Debug, Clone, Copy, PartialEq, Eq, Structural)]
pub struct ParamBits {
    /// Stroke weight.
    pub weight: u32,
    /// Horizontal width.
    pub width: u32,
    /// Serif amount.
    pub serif: u32,
    /// Thick/thin contrast.
    pub contrast: u32,
    /// Italic slant angle.
    pub slant: u32,
    /// x-height relative to the em.
    pub x_height: u32,
    /// Capital height relative to the em.
    pub cap_height: u32,
    /// Ascender relative to the em.
    pub ascender: u32,
    /// Descender relative to the em.
    pub descender: u32,
    /// Corner roundness.
    pub roundness: u32,
}

impl ParamBits {
    /// Size of the block in bytes.
    pub const SIZE: usize = 40;

    /// The block: the ten fields in declaration order, four bytes each,
    /// least significant byte first.
    pub open spec fn wire_bytes(self) -> Seq<u8> {
        le_bytes(self.weight as nat, 4) + le_bytes(self.width as nat, 4) + le_bytes(
            self.serif as nat,
            4,
        ) + le_bytes(self.contrast as nat, 4) + le_bytes(self.slant as nat, 4) + le_bytes(
            self.x_height as nat,
            4,
        ) + le_bytes(self.cap_height as nat, 4) + le_bytes(self.ascender as nat, 4) + le_bytes(
            self.descender as nat,
            4,
        ) + le_bytes(self.roundness as nat, 4)
    }

    /// Writes the parameters as their 40-byte block.
    pub fn encode(&self) -> (buf: [u8; 40])
        ensures
            buf@ == self.wire_bytes(),
    {
        let mut buf = [0u8; 40];
        proof {
            lemma_field_lengths(*self);
        }
        write_le(&mut buf, 0, self.weight as u64, 4);
        write_le(&mut buf, 4, self.width as u64, 4);
        write_le(&mut buf, 8, self.serif as u64, 4);
        write_le(&mut buf, 12, self.contrast as u64, 4);
        write_le(&mut buf, 16, self.slant as u64, 4);
        write_le(&mut buf, 20, self.x_height as u64, 4);
        write_le(&mut buf, 24, self.cap_height as u64, 4);
        write_le(&mut buf, 28, self.ascender as u64, 4);
        write_le(&mut buf, 32, self.descender as u64, 4);
        write_le(&mut buf, 36, self.roundness as u64, 4);
        assert(buf@ =~= self.wire_bytes());
        buf
    }

    /// Reads the parameters from their 40-byte block. Every block is the
    /// block of some parameters.
    pub fn decode(data: &[u8; 40]) -> (params: Self)
        ensures
            params.wire_bytes() == data@,
    {
        let weight = read_le(data, 0, 4);
        let width = read_le(data, 4, 4);
        let serif = read_le(data, 8, 4);
        let contrast = read_le(data, 12, 4);
        let slant = read_le(data, 16, 4);
        let x_height = read_le(data, 20, 4);
        let cap_height = read_le(data, 24, 4);
        let ascender = read_le(data, 28, 4);
        let descender = read_le(data, 32, 4);
        let roundness = read_le(data, 36, 4);
        proof {
            lemma_radix_pow_values();
            lemma_le_bytes_of_value(data@.subrange(0, 4));
            lemma_le_bytes_of_value(data@.subrange(4, 8));
            lemma_le_bytes_of_value(data@.subrange(8, 12));
            lemma_le_bytes_of_value(data@.subrange(12, 16));
            lemma_le_bytes_of_value(data@.subrange(16, 20));
            lemma_le_bytes_of_value(data@.subrange(20, 24));
            lemma_le_bytes_of_value(data@.subrange(24, 28));
            lemma_le_bytes_of_value(data@.subrange(28, 32));
            lemma_le_bytes_of_value(data@.subrange(32, 36));
            lemma_le_bytes_of_value(data@.subrange(36, 40));
        }
        let params = ParamBits {
            weight: weight as u32,
            width: width as u32,
            serif: serif as u32,
            contrast: contrast as u32,
            slant: slant as u32,
            x_height: x_height as u32,
            cap_height: cap_height as u32,
            ascender: ascender as u32,
            descender: descender as u32,
            roundness: roundness as u32,
        };
        assert(params.wire_bytes() =~= data@);
        params
    }
}

proof fn lemma_field_lengths(params: ParamBits)
    ensures
        le_bytes(params.weight as nat, 4).len() == 4,
        le_bytes(params.width as nat, 4).len() == 4,
        le_bytes(params.serif as nat, 4).len() == 4,
        le_bytes(params.contrast as nat, 4).len() == 4,
        le_bytes(params.slant as nat, 4).len() == 4,
        le_bytes(params.x_height as nat, 4).len() == 4,
        le_bytes(params.cap_height as nat, 4).len() == 4,
        le_bytes(params.ascender as nat, 4).len() == 4,
        le_bytes(params.descender as nat, 4).len() == 4,
        le_bytes(params.roundness as nat, 4).len() == 4,
        params.wire_bytes().len() == 40,
{
    lemma_le_bytes_len(params.weight as nat, 4);
    lemma_le_bytes_len(params.width as nat, 4);
    lemma_le_bytes_len(params.serif as nat, 4);
    lemma_le_bytes_len(params.contrast as nat, 4);
    lemma_le_bytes_len(params.slant as nat, 4);
    lemma_le_bytes_len(params.x_height as nat, 4);
    lemma_le_bytes_len(params.cap_height as nat, 4);
    lemma_le_bytes_len(params.ascender as nat, 4);
    lemma_le_bytes_len(params.descender as nat, 4);
    lemma_le_bytes_len(params.roundness as nat, 4);
}

/// A block is 40 bytes long.
pub proof fn lemma_param_bytes_len(params: ParamBits)
    ensures
        params.wire_bytes().len() == ParamBits::SIZE,
{
    lemma_field_lengths(params);
}

/// Each parameter can be read off the block at its offset.
pub proof fn lemma_param_bytes_fields(params: ParamBits)
    ensures
        le_value(params.wire_bytes().subrange(0, 4)) == params.weight,
        le_value(params.wire_bytes().subrange(4, 8)) == params.width,
        le_value(params.wire_bytes().subrange(8, 12)) == params.serif,
        le_value(params.wire_bytes().subrange(12, 16)) == params.contrast,
        le_value(params.wire_bytes().subrange(16, 20)) == params.slant,
        le_value(params.wire_bytes().subrange(20, 24)) == params.x_height,
        le_value(params.wire_bytes().subrange(24, 28)) == params.cap_height,
        le_value(params.wire_bytes().subrange(28, 32)) == params.ascender,
        le_value(params.wire_bytes().subrange(32, 36)) == params.descender,
        le_value(params.wire_bytes().subrange(36, 40)) == params.roundness,
{
    let w = params.wire_bytes();
    lemma_field_lengths(params);
    lemma_radix_pow_values();
    lemma_le_value_of_bytes(params.weight as nat, 4);
    lemma_le_value_of_bytes(params.width as nat, 4);
    lemma_le_value_of_bytes(params.serif as nat, 4);
    lemma_le_value_of_bytes(params.contrast as nat, 4);
    lemma_le_value_of_bytes(params.slant as nat, 4);
    lemma_le_value_of_bytes(params.x_height as nat, 4);
    lemma_le_value_of_bytes(params.cap_height as nat, 4);
    lemma_le_value_of_bytes(params.ascender as nat, 4);
    lemma_le_value_of_bytes(params.descender as nat, 4);
    lemma_le_value_of_bytes(params.roundness as nat, 4);
    assert(w.subrange(0, 4) =~= le_bytes(params.weight as nat, 4));
    assert(w.subrange(4, 8) =~= le_bytes(params.width as nat, 4));
    assert(w.subrange(8, 12) =~= le_bytes(params.serif as nat, 4));
    assert(w.subrange(12, 16) =~= le_bytes(params.contrast as nat, 4));
    assert(w.subrange(16, 20) =~= le_bytes(params.slant as nat, 4));
    assert(w.subrange(20, 24) =~= le_bytes(params.x_height as nat, 4));
    assert(w.subrange(24, 28) =~= le_bytes(params.cap_height as nat, 4));
    assert(w.subrange(28, 32) =~= le_bytes(params.ascender as nat, 4));
    assert(w.subrange(32, 36) =~= le_bytes(params.descender as nat, 4));
    assert(w.subrange(36, 40) =~= le_bytes(params.roundness as nat, 4));
}

/// Reading the block of some parameters gives those parameters back:
/// whatever has the block of `params` is `params`.
pub proof fn lemma_param_decode_encode(params: ParamBits, decoded: ParamBits)
    requires
        decoded.wire_bytes() == params.wire_bytes(),
    ensures
        decoded == params,
{
    lemma_param_bytes_fields(params);
    lemma_param_bytes_fields(decoded);
}

} // verus!
