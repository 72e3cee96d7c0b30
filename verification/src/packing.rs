//! Symbols into bytes.

use vstd::prelude::*;
use vstd::arithmetic::power2::pow2;
use crate::bits::{bit_of, byte_from_msb_bits};

verus! {

/// Smallest spreading factor whose symbols can be packed into bytes.
pub const MIN_SPREADING_FACTOR: u8 = 7;

/// Largest spreading factor whose symbols can be packed into bytes.
pub const MAX_SPREADING_FACTOR: u8 = 12;

/// The low `width` bits of `symbol`, most significant first.
pub open spec fn symbol_bits(symbol: u16, width: int) -> Seq<bool> {
    Seq::new(width as nat, |j: int| bit_of(symbol as u32, (width - 1 - j) as u32))
}

/// The bits of all symbols in order, each symbol contributing its low `width`
/// bits, most significant first.
pub open spec fn symbol_stream(symbols: Seq<u16>, width: int) -> Seq<bool>
    decreases symbols.len(),
{
    if symbols.len() == 0 {
        Seq::empty()
    } else {
        symbol_stream(symbols.drop_last(), width) + symbol_bits(symbols.last(), width)
    }
}

/// The eight bits of `stream` that make up byte `k`, with zeros where the
/// stream has ended.
pub open spec fn stream_octet(stream: Seq<bool>, k: int) -> Seq<bool> {
    Seq::new(8, |j: int| 8 * k + j < stream.len() && stream[8 * k + j])
}

/// A bit stream cut into bytes, the first bit of each byte being its most
/// significant; the last byte is filled up with zeros.
pub open spec fn bytes_of_stream(stream: Seq<bool>) -> Seq<u8> {
    Seq::new(
        ((stream.len() + 7) / 8) as nat,
        |k: int| byte_from_msb_bits(stream_octet(stream, k)) as u8,
    )
}

/// The low `width` bits of every symbol, packed into bytes without gaps.
pub open spec fn packed_symbols(symbols: Seq<u16>, width: int) -> Seq<u8> {
    bytes_of_stream(symbol_stream(symbols, width))
}

/// The byte that a symbol of more than eight bits is reduced to: its eight most
/// significant bits. At eight bits that is the symbol itself.
pub open spec fn top_byte(symbol: u16, sf: u8) -> u8
    recommends
        8 <= sf <= 16,
{
    ((symbol >> ((sf - 8) as u16)) & 0xFF) as u8
}

/// Whether symbols of `sf` bits can be packed into bytes.
pub open spec fn packing_supported(sf: u8) -> bool {
    MIN_SPREADING_FACTOR <= sf <= MAX_SPREADING_FACTOR
}

/// The bytes that a symbol sequence stands for at spreading factor `sf`, and
/// no bytes at all at a spreading factor that cannot be packed.
pub open spec fn symbol_bytes(symbols: Seq<u16>, sf: u8) -> Seq<u8> {
    if sf == 7 {
        packed_symbols(symbols, 7)
    } else if 8 <= sf <= MAX_SPREADING_FACTOR {
        symbols.map_values(|symbol: u16| top_byte(symbol, sf))
    } else {
        Seq::empty()
    }
}

/// In numbers, the byte of a symbol of `sf` bits is the symbol divided by
/// `2^(sf - 8)`, reduced to eight bits. A symbol of eight bits that is below
/// 256 is its own byte.
pub proof fn lemma_top_byte_value(symbol: u16, sf: u8)
    requires
        8 <= sf <= 16,
    ensures
        top_byte(symbol, sf) == (symbol / (pow2((sf - 8) as nat) as u16)) % 256,
        sf == 8 && symbol < 256 ==> top_byte(symbol, sf) == symbol,
{
    let shift = (sf - 8) as u16;
    let shifted = symbol >> shift;
    vstd::arithmetic::power2::lemma2_to64();
    vstd::bits::lemma_u16_shr_is_div(symbol, shift);
    assert(shifted & 0xFF == shifted % 256) by (bit_vector);
    if shift < 8 {
        vstd::arithmetic::power2::lemma_pow2_strictly_increases(shift as nat, 8);
    }
    assert(symbol >> 0u16 == symbol) by (bit_vector);
}

/// At a spreading factor outside 7 to 12 no symbol sequence gives any byte.
pub proof fn lemma_unsupported_gives_no_bytes(symbols: Seq<u16>, sf: u8)
    requires
        !packing_supported(sf),
    ensures
        symbol_bytes(symbols, sf).len() == 0,
{
}

/// At a spreading factor from 8 to 12 every symbol gives one byte.
pub proof fn lemma_one_byte_per_symbol(symbols: Seq<u16>, sf: u8)
    requires
        8 <= sf <= MAX_SPREADING_FACTOR,
    ensures
        symbol_bytes(symbols, sf).len() == symbols.len(),
        forall|i: int|
            0 <= i < symbols.len() ==> #[trigger] symbol_bytes(symbols, sf)[i] == top_byte(
                symbols[i],
                sf,
            ),
{
}

/// A stream of `n` symbols of `width` bits holds `n * width` bits.
pub proof fn lemma_symbol_stream_len(symbols: Seq<u16>, width: int)
    requires
        width >= 0,
    ensures
        symbol_stream(symbols, width).len() == symbols.len() * width,
    decreases symbols.len(),
{
    if symbols.len() > 0 {
        lemma_symbol_stream_len(symbols.drop_last(), width);
        assert((symbols.len() - 1) * width + width == symbols.len() * width) by (nonlinear_arith);
    }
}

/// Bit `p` of the stream is a bit of symbol `p / width`: counted from that
/// symbol's most significant bit of the `width`, it is bit `p % width`.
pub proof fn lemma_stream_bit(symbols: Seq<u16>, width: int, p: int)
    requires
        width > 0,
        0 <= p < symbols.len() * width,
    ensures
        0 <= p / width < symbols.len(),
        symbol_stream(symbols, width)[p] == bit_of(
            symbols[p / width] as u32,
            (width - 1 - p % width) as u32,
        ),
    decreases symbols.len(),
{
    let n = symbols.len() as int;
    if n > 0 {
        let earlier = symbols.drop_last();
        lemma_symbol_stream_len(earlier, width);
        assert((n - 1) * width + width == n * width) by (nonlinear_arith);
        if p < (n - 1) * width {
            lemma_stream_bit(earlier, width, p);
        } else {
            vstd::arithmetic::div_mod::lemma_fundamental_div_mod_converse(
                p,
                width,
                n - 1,
                p - (n - 1) * width,
            );
        }
    } else {
        assert(symbols.len() * width == 0) by (nonlinear_arith)
            requires
                symbols.len() == 0,
        ;
    }
}

/// Packing `n` symbols of `width` bits gives `ceil(n * width / 8)` bytes.
pub proof fn lemma_packed_len(symbols: Seq<u16>, width: int)
    requires
        width >= 0,
    ensures
        packed_symbols(symbols, width).len() == (symbols.len() * width + 7) / 8,
{
    lemma_symbol_stream_len(symbols, width);
}

/// Shifting `w` bits of `x` into an accumulator puts them below the bits that
/// the accumulator held.
pub(crate) proof fn lemma_push_symbol_bits(acc: u32, x: u32, w: u32, mask: u32, i: u32)
    by (bit_vector)
    requires
        w <= 16,
        i < 32,
        mask + 1 == (1u32 << w),
    ensures
        i < w ==> bit_of((acc << w) | (x & mask), i) == bit_of(x, i),
        i >= w ==> bit_of((acc << w) | (x & mask), i) == bit_of(acc, (i - w) as u32),
{
}

/// The byte taken from an accumulator above its lowest `c` bits has the
/// accumulator's bits from `c` on.
pub(crate) proof fn lemma_take_byte_bits(acc: u32, c: u32, i: u32)
    by (bit_vector)
    requires
        c <= 24,
        i < 8,
    ensures
        (acc >> c) & 0xFF < 256,
        bit_of((acc >> c) & 0xFF, i) == bit_of(acc, (c + i) as u32),
{
}

/// The lowest `c` bits of an accumulator, moved to the top of a byte, leave
/// zeros below them.
pub(crate) proof fn lemma_pad_byte_bits(acc: u32, c: u32, i: u32)
    by (bit_vector)
    requires
        0 < c < 8,
        i < 8,
    ensures
        (acc << ((8 - c) as u32)) & 0xFF < 256,
        i < 8 - c ==> !bit_of((acc << ((8 - c) as u32)) & 0xFF, i),
        i >= 8 - c ==> bit_of((acc << ((8 - c) as u32)) & 0xFF, i) == bit_of(
            acc,
            (i - (8 - c)) as u32,
        ),
{
}

} // verus!
