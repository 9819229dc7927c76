//! Bit streams: a sequence of fixed-width numbers read as one run of bits,
//! most significant bit first, and a run of bits cut into fixed-width numbers.
//!
//! Bech32 regroups bytes into 5-bit symbols with these, and the mnemonic
//! codec regroups entropy and checksum into 11-bit word indices.

use vstd::prelude::*;

verus! {

/// Bit `position` of `value`, counted from the least significant bit.
pub open spec fn bit(value: u32, position: u32) -> bool {
    (value >> position) & 1 == 1
}

/// The `width` low bits of `value`, most significant first.
pub open spec fn bits_of(value: u32, width: nat) -> Seq<bool> {
    Seq::new(width, |k: int| bit(value, (width - 1 - k) as u32))
}

/// The number whose binary digits, most significant first, are `bits`.
pub open spec fn from_bits(bits: Seq<bool>) -> u32
    decreases bits.len(),
{
    if bits.len() == 0 {
        0
    } else {
        (from_bits(bits.drop_last()) << 1) | (if bits.last() { 1u32 } else { 0u32 })
    }
}

/// `value` has no bit set at position `width` or above.
pub open spec fn fits(value: u32, width: nat) -> bool {
    value >> (width as u32) == 0
}

/// Every element of `data` fits in `width` bits.
pub open spec fn all_fit(data: Seq<u32>, width: nat) -> bool {
    forall|j: int| 0 <= j < data.len() ==> fits(#[trigger] data[j], width)
}

/// The bits of all elements of `data`, each `width` bits wide, in order.
pub open spec fn stream(data: Seq<u32>, width: nat) -> Seq<bool>
    decreases data.len(),
{
    if data.len() == 0 {
        Seq::empty()
    } else {
        stream(data.drop_last(), width) + bits_of(data.last(), width)
    }
}

/// The first `count` groups of `width` bits, each read as a number.
pub open spec fn pack(bits: Seq<bool>, width: nat, count: nat) -> Seq<u32> {
    Seq::new(count, |j: int| from_bits(bits.subrange(j * width, j * width + width)))
}

/// Bytes as 32-bit numbers.
pub open spec fn widen_u8(data: Seq<u8>) -> Seq<u32> {
    Seq::new(data.len(), |j: int| data[j] as u32)
}

/// 16-bit numbers as 32-bit numbers.
pub open spec fn widen_u16(data: Seq<u16>) -> Seq<u32> {
    Seq::new(data.len(), |j: int| data[j] as u32)
}

/// `count` bits, all clear.
pub open spec fn zero_bits(count: nat) -> Seq<bool> {
    Seq::new(count, |k: int| false)
}

/// A number built from bits has exactly those bits, and no others.
pub proof fn lemma_from_bits(bits: Seq<bool>)
    requires
        bits.len() < 32,
    ensures
        fits(from_bits(bits), bits.len()),
        bits_of(from_bits(bits), bits.len()) =~= bits,
    decreases bits.len(),
{
    let n = bits.len();
    if n > 0 {
        let rest = bits.drop_last();
        lemma_from_bits(rest);
        let x = from_bits(rest);
        let b: u32 = if bits.last() { 1 } else { 0 };
        let v = from_bits(bits);
        assert(v == (x << 1) | b);
        let n32 = n as u32;
        assert(v >> n32 == 0) by (bit_vector)
            requires
                v == (x << 1) | b,
                b <= 1,
                1 <= n32 < 32,
                x >> ((n32 - 1) as u32) == 0,
        ;
        assert forall|k: int| 0 <= k < n implies bits_of(v, n)[k] == bits[k] by {
            if k == n - 1 {
                assert((v >> 0) & 1 == b) by (bit_vector)
                    requires
                        v == (x << 1) | b,
                        b <= 1,
                ;
            } else {
                let m = (n - 2 - k) as u32;
                assert((v >> ((m + 1) as u32)) & 1 == (x >> m) & 1) by (bit_vector)
                    requires
                        v == (x << 1) | b,
                        b <= 1,
                        m < 31,
                ;
                assert(bits_of(x, rest.len())[k] == rest[k]);
            }
        }
    } else {
        let v = from_bits(bits);
        assert(v >> 0 == 0) by (bit_vector)
            requires
                v == 0,
        ;
    }
}

/// A number that fits in `width` bits is rebuilt from its `width` bits.
pub proof fn lemma_bits_of(value: u32, width: nat)
    requires
        width < 32,
        fits(value, width),
    ensures
        from_bits(bits_of(value, width)) == value,
    decreases width,
{
    let bits = bits_of(value, width);
    if width == 0 {
        assert(value == 0) by (bit_vector)
            requires
                value >> 0 == 0,
        ;
    } else {
        let half = value >> 1;
        let w32 = width as u32;
        assert(half >> ((w32 - 1) as u32) == 0) by (bit_vector)
            requires
                half == value >> 1,
                value >> w32 == 0,
                1 <= w32 < 32,
        ;
        lemma_bits_of(half, (width - 1) as nat);
        assert forall|k: int| 0 <= k < width - 1 implies bits.drop_last()[k] == bits_of(
            half,
            (width - 1) as nat,
        )[k] by {
            let m = (width - 2 - k) as u32;
            assert((value >> ((m + 1) as u32)) & 1 == (half >> m) & 1) by (bit_vector)
                requires
                    half == value >> 1,
                    m < 31,
            ;
        }
        assert(bits.drop_last() =~= bits_of(half, (width - 1) as nat));
        let b: u32 = if bits.last() { 1 } else { 0 };
        assert((half << 1) | b == value) by (bit_vector)
            requires
                half == value >> 1,
                b == (if (value >> 0) & 1 == 1 { 1u32 } else { 0u32 }),
        ;
    }
}

/// A stream holds `width` bits for each element.
pub proof fn lemma_stream_len(data: Seq<u32>, width: nat)
    ensures
        stream(data, width).len() == data.len() * width,
    decreases data.len(),
{
    if data.len() > 0 {
        lemma_stream_len(data.drop_last(), width);
        assert((data.len() - 1) * width + width == data.len() * width) by (nonlinear_arith);
    } else {
        assert(0 * width == 0);
    }
}

/// Where the bits of element `j` stand in the stream.
pub proof fn lemma_stream_index(data: Seq<u32>, width: nat, j: int, k: int)
    requires
        0 <= j < data.len(),
        0 <= k < width,
    ensures
        0 <= j * width + k < stream(data, width).len(),
        stream(data, width)[j * width + k] == bit(data[j], (width - 1 - k) as u32),
    decreases data.len(),
{
    lemma_stream_len(data, width);
    lemma_stream_len(data.drop_last(), width);
    let last = data.len() - 1;
    assert(last * width + width == data.len() * width) by (nonlinear_arith)
        requires
            last == data.len() - 1,
    ;
    if j == last {
        assert(stream(data, width)[j * width + k] == bits_of(data.last(), width)[k]);
    } else {
        assert(0 <= j * width && j * width + width <= last * width) by (nonlinear_arith)
            requires
                0 <= j < last,
                0 <= width,
        ;
        lemma_stream_index(data.drop_last(), width, j, k);
    }
}

/// Cutting a stream back into its elements returns them.
pub proof fn lemma_pack_stream(data: Seq<u32>, width: nat)
    requires
        0 < width < 32,
        all_fit(data, width),
    ensures
        pack(stream(data, width), width, data.len()) =~= data,
{
    let bits = stream(data, width);
    lemma_stream_len(data, width);
    assert forall|j: int| 0 <= j < data.len() implies pack(bits, width, data.len())[j]
        == data[j] by {
        lemma_stream_index(data, width, j, 0);
        lemma_stream_index(data, width, j, width - 1);
        let group = bits.subrange(j * width, j * width + width);
        assert forall|k: int| 0 <= k < width implies group[k] == bits_of(data[j], width)[k] by {
            lemma_stream_index(data, width, j, k);
        }
        assert(group =~= bits_of(data[j], width));
        lemma_bits_of(data[j], width);
    }
}

/// The elements cut from a run of bits hold those bits.
pub proof fn lemma_stream_pack(bits: Seq<bool>, width: nat, count: nat)
    requires
        0 < width < 32,
        count * width <= bits.len(),
    ensures
        all_fit(pack(bits, width, count), width),
        stream(pack(bits, width, count), width) =~= bits.take((count * width) as int),
{
    let data = pack(bits, width, count);
    lemma_stream_len(data, width);
    assert forall|j: int| 0 <= j < data.len() implies fits(#[trigger] data[j], width) by {
        assert(0 <= j * width && j * width + width <= count * width) by (nonlinear_arith)
            requires
                0 <= j < count,
                0 < width,
        ;
        lemma_from_bits(bits.subrange(j * width, j * width + width));
    }
    assert forall|i: int| 0 <= i < count * width implies stream(data, width)[i] == bits[i] by {
        let j = i / (width as int);
        let k = i % (width as int);
        vstd::arithmetic::div_mod::lemma_fundamental_div_mod(i, width as int);
        vstd::arithmetic::div_mod::lemma_div_pos_is_pos(i, width as int);
        assert(i == j * width + k) by (nonlinear_arith)
            requires
                i == width * j + k,
        ;
        assert(j < count) by (nonlinear_arith)
            requires
                i == j * width + k,
                0 <= k,
                i < count * width,
                0 < width,
        ;
        assert(0 <= j * width && j * width + width <= count * width) by (nonlinear_arith)
            requires
                0 <= j < count,
                0 < width,
        ;
        lemma_stream_index(data, width, j, k);
        let group = bits.subrange(j * width, j * width + width);
        lemma_from_bits(group);
        assert(bits_of(data[j], width)[k] == group[k]);
    }
}

/// Appends the `width` low bits of `value`, most significant first.
pub fn push_bits(out: &mut Vec<bool>, value: u32, width: u32)
    requires
        width < 32,
    ensures
        final(out)@ == old(out)@ + bits_of(value, width as nat),
{
    let ghost before = out@;
    let mut k: u32 = 0;
    while k < width
        invariant
            width < 32,
            k <= width,
            out@ == before + bits_of(value, width as nat).take(k as int),
        decreases width - k,
    {
        let b = (value >> (width - 1 - k)) & 1 == 1;
        out.push(b);
        assert(out@ =~= before + bits_of(value, width as nat).take(k + 1));
        k += 1;
    }
    assert(bits_of(value, width as nat).take(width as int) =~= bits_of(value, width as nat));
}

/// Reads `width` bits from position `start` as a number.
pub fn read_bits(bits: &[bool], start: usize, width: u32) -> (value: u32)
    requires
        width < 32,
        start + width <= bits@.len(),
    ensures
        value == from_bits(bits@.subrange(start as int, start + width)),
        fits(value, width as nat),
{
    let ghost group = bits@.subrange(start as int, start + width);
    let total = bits.len();
    let mut value: u32 = 0;
    let mut k: u32 = 0;
    proof {
        lemma_from_bits(group.take(0));
    }
    while k < width
        invariant
            width < 32,
            k <= width,
            start + width <= bits@.len(),
            total == bits@.len(),
            group == bits@.subrange(start as int, start + width),
            value == from_bits(group.take(k as int)),
            fits(value, k as nat),
        decreases width - k,
    {
        let b: u32 = if bits[start + k as usize] { 1 } else { 0 };
        proof {
            assert(group.take(k + 1).drop_last() =~= group.take(k as int));
            assert(group.take(k + 1).last() == bits@[start + k]);
            lemma_from_bits(group.take(k + 1));
            assert(value << 1 >> 1 == value) by (bit_vector)
                requires
                    value >> k == 0,
                    k < 31,
            ;
        }
        value = (value << 1) | b;
        k += 1;
    }
    proof {
        assert(group.take(width as int) =~= group);
    }
    value
}

/// The bits of `data`, `width` bits for each byte.
pub fn explode_u8(data: &[u8], width: u32) -> (bits: Vec<bool>)
    requires
        0 < width <= 8,
    ensures
        bits@ == stream(widen_u8(data@), width as nat),
{
    let mut bits: Vec<bool> = Vec::new();
    let mut j: usize = 0;
    while j < data.len()
        invariant
            0 < width <= 8,
            j <= data.len(),
            bits@ == stream(widen_u8(data@).take(j as int), width as nat),
        decreases data.len() - j,
    {
        push_bits(&mut bits, data[j] as u32, width);
        proof {
            let wide = widen_u8(data@);
            assert(wide.take(j + 1).drop_last() =~= wide.take(j as int));
            assert(wide.take(j + 1).last() == data@[j as int] as u32);
        }
        j += 1;
    }
    proof {
        assert(widen_u8(data@).take(data@.len() as int) =~= widen_u8(data@));
    }
    bits
}

/// The bits of `data`, `width` bits for each element.
pub fn explode_u16(data: &[u16], width: u32) -> (bits: Vec<bool>)
    requires
        0 < width <= 16,
    ensures
        bits@ == stream(widen_u16(data@), width as nat),
{
    let mut bits: Vec<bool> = Vec::new();
    let mut j: usize = 0;
    while j < data.len()
        invariant
            0 < width <= 16,
            j <= data.len(),
            bits@ == stream(widen_u16(data@).take(j as int), width as nat),
        decreases data.len() - j,
    {
        push_bits(&mut bits, data[j] as u32, width);
        proof {
            let wide = widen_u16(data@);
            assert(wide.take(j + 1).drop_last() =~= wide.take(j as int));
            assert(wide.take(j + 1).last() == data@[j as int] as u32);
        }
        j += 1;
    }
    proof {
        assert(widen_u16(data@).take(data@.len() as int) =~= widen_u16(data@));
    }
    bits
}

/// The first `count` groups of `width` bits, as bytes.
pub fn implode_u8(bits: &[bool], width: u32, count: usize) -> (data: Vec<u8>)
    requires
        0 < width <= 8,
        count * width <= bits@.len(),
    ensures
        widen_u8(data@) == pack(bits@, width as nat, count as nat),
        data@.len() == count,
{
    let mut data: Vec<u8> = Vec::new();
    let mut j: usize = 0;
    let total = bits.len();
    while j < count
        invariant
            0 < width <= 8,
            j <= count,
            count * width <= bits@.len(),
            total == bits@.len(),
            data@.len() == j,
            widen_u8(data@) =~= pack(bits@, width as nat, j as nat),
        decreases count - j,
    {
        assert(0 <= j * width && j * width + width <= count * width) by (nonlinear_arith)
            requires
                0 <= j < count,
                0 < width,
        ;
        let value = read_bits(bits, j * (width as usize), width);
        assert(value < 256) by (bit_vector)
            requires
                value >> width == 0,
                width <= 8,
        ;
        data.push(value as u8);
        j += 1;
        proof {
            let expected = pack(bits@, width as nat, j as nat);
            assert forall|i: int| 0 <= i < j implies widen_u8(data@)[i] == expected[i] by {
                if i < j - 1 {
                    assert(widen_u8(data@.drop_last())[i] == pack(
                        bits@,
                        width as nat,
                        (j - 1) as nat,
                    )[i]);
                }
            }
        }
    }
    data
}

/// The first `count` groups of `width` bits, as 16-bit numbers.
pub fn implode_u16(bits: &[bool], width: u32, count: usize) -> (data: Vec<u16>)
    requires
        0 < width <= 16,
        count * width <= bits@.len(),
    ensures
        widen_u16(data@) == pack(bits@, width as nat, count as nat),
        data@.len() == count,
{
    let mut data: Vec<u16> = Vec::new();
    let mut j: usize = 0;
    let total = bits.len();
    while j < count
        invariant
            0 < width <= 16,
            j <= count,
            count * width <= bits@.len(),
            total == bits@.len(),
            data@.len() == j,
            widen_u16(data@) =~= pack(bits@, width as nat, j as nat),
        decreases count - j,
    {
        assert(0 <= j * width && j * width + width <= count * width) by (nonlinear_arith)
            requires
                0 <= j < count,
                0 < width,
        ;
        let value = read_bits(bits, j * (width as usize), width);
        assert(value < 65536) by (bit_vector)
            requires
                value >> width == 0,
                width <= 16,
        ;
        data.push(value as u16);
        j += 1;
        proof {
            let expected = pack(bits@, width as nat, j as nat);
            assert forall|i: int| 0 <= i < j implies widen_u16(data@)[i] == expected[i] by {
                if i < j - 1 {
                    assert(widen_u16(data@.drop_last())[i] == pack(
                        bits@,
                        width as nat,
                        (j - 1) as nat,
                    )[i]);
                }
            }
        }
    }
    data
}


/// 32-bit numbers cut down to bytes.
pub open spec fn narrow_u8(data: Seq<u32>) -> Seq<u8> {
    Seq::new(data.len(), |j: int| data[j] as u8)
}

/// 32-bit numbers cut down to 16 bits.
pub open spec fn narrow_u16(data: Seq<u32>) -> Seq<u16> {
    Seq::new(data.len(), |j: int| data[j] as u16)
}

/// Widening 16-bit numbers and cutting them down returns them.
pub proof fn lemma_narrow_widen_u16(data: Seq<u16>)
    ensures
        narrow_u16(widen_u16(data)) =~= data,
{
}

/// Numbers that fit in 16 bits or fewer survive being cut down to 16 bits.
pub proof fn lemma_widen_narrow_u16(data: Seq<u32>, width: nat)
    requires
        width <= 16,
        all_fit(data, width),
    ensures
        widen_u16(narrow_u16(data)) =~= data,
        forall|j: int|
            0 <= j < data.len() ==> fits(#[trigger] narrow_u16(data)[j] as u32, width) && (width
                == 11 ==> narrow_u16(data)[j] < 2048),
{
    let w = width as u32;
    assert forall|j: int| 0 <= j < data.len() implies widen_u16(narrow_u16(data))[j] == data[j]
        && fits(#[trigger] narrow_u16(data)[j] as u32, width) && (width == 11 ==> narrow_u16(
        data,
    )[j] < 2048) by {
        let x = data[j];
        assert(fits(x, width));
        assert(x < 65536 && (w == 11 ==> x < 2048)) by (bit_vector)
            requires
                x >> w == 0,
                w <= 16,
        ;
    }
}

/// Bytes as 5-bit symbols: the bits of the bytes in order, cut into groups
/// of five, the last group filled up with zero bits.
pub open spec fn spec_bytes_to_symbols(bytes: Seq<u8>) -> Seq<u8> {
    let count = (bytes.len() * 8 + 4) / 5;
    let bits = stream(widen_u8(bytes), 8) + zero_bits((count * 5 - bytes.len() * 8) as nat);
    narrow_u8(pack(bits, 5, count as nat))
}

/// The bytes that 5-bit symbols spell: the bits of the symbols in order, cut
/// into groups of eight. Fewer than five bits may be left over, and they
/// must be zero.
pub open spec fn spec_symbols_to_bytes(symbols: Seq<u8>) -> Option<Seq<u8>> {
    let bits = stream(widen_u8(symbols), 5);
    let count = symbols.len() * 5 / 8;
    let rest = bits.skip((count * 8) as int);
    if rest.len() < 5 && rest == zero_bits(rest.len()) {
        Some(narrow_u8(pack(bits, 8, count as nat)))
    } else {
        None
    }
}

/// Widening bytes and cutting them down returns them, and bytes fit in
/// eight bits.
pub proof fn lemma_narrow_widen(data: Seq<u8>)
    ensures
        narrow_u8(widen_u8(data)) =~= data,
        all_fit(widen_u8(data), 8),
{
    assert forall|j: int| 0 <= j < data.len() implies fits(#[trigger] widen_u8(data)[j], 8) by {
        let b = data[j];
        assert((b as u32) >> 8 == 0) by (bit_vector);
    }
}

/// Numbers that fit in eight bits or fewer survive being cut down to bytes.
pub proof fn lemma_widen_narrow(data: Seq<u32>, width: nat)
    requires
        width <= 8,
        all_fit(data, width),
    ensures
        widen_u8(narrow_u8(data)) =~= data,
        forall|j: int| 0 <= j < data.len() ==> #[trigger] narrow_u8(data)[j] < 0x100 && (width == 5
            ==> narrow_u8(data)[j] < 32),
{
    let w = width as u32;
    assert forall|j: int| 0 <= j < data.len() implies widen_u8(narrow_u8(data))[j] == data[j] && (
    width == 5 ==> #[trigger] narrow_u8(data)[j] < 32) by {
        let x = data[j];
        assert(fits(x, width));
        assert(x < 256 && (w == 5 ==> x < 32)) by (bit_vector)
            requires
                x >> w == 0,
                w <= 8,
        ;
    }
}

/// Regrouping bytes into symbols and back returns the bytes.
pub proof fn lemma_symbols_round_trip(bytes: Seq<u8>)
    ensures
        spec_symbols_to_bytes(spec_bytes_to_symbols(bytes)) == Some(bytes),
        forall|j: int|
            0 <= j < spec_bytes_to_symbols(bytes).len() ==> #[trigger] spec_bytes_to_symbols(
                bytes,
            )[j] < 32,
        spec_bytes_to_symbols(bytes).len() == (bytes.len() * 8 + 4) / 5,
{
    let wide = widen_u8(bytes);
    let len = bytes.len();
    let count = ((len * 8 + 4) / 5) as nat;
    let pad = (count * 5 - len * 8) as nat;
    let bits = stream(wide, 8) + zero_bits(pad);
    lemma_stream_len(wide, 8);
    assert(bits.len() == count * 5);
    let packed = pack(bits, 5, count);
    let symbols = narrow_u8(packed);
    lemma_stream_pack(bits, 5, count);
    lemma_widen_narrow(packed, 5);
    assert(widen_u8(symbols) == packed);
    let back = stream(widen_u8(symbols), 5);
    assert(bits.take((count * 5) as int) =~= bits);
    assert(back == bits);
    assert(symbols.len() * 5 / 8 == len);
    let rest = back.skip((len * 8) as int);
    assert(rest =~= zero_bits(pad));
    let unpacked = pack(back, 8, len);
    lemma_narrow_widen(bytes);
    lemma_pack_stream(wide, 8);
    assert forall|j: int| 0 <= j < len implies unpacked[j] == wide[j] by {
        assert(back.subrange(j * 8, j * 8 + 8) =~= stream(wide, 8).subrange(j * 8, j * 8 + 8));
        assert(pack(stream(wide, 8), 8, len)[j] == wide[j]);
    }
    assert(unpacked =~= wide);
}

/// Bytes as 5-bit symbols.
pub fn bytes_to_symbols(bytes: &[u8]) -> (symbols: Vec<u8>)
    requires
        bytes@.len() <= 0x1000_0000,
    ensures
        symbols@ == spec_bytes_to_symbols(bytes@),
{
    let len = bytes.len();
    let count = (len * 8 + 4) / 5;
    let mut bits = explode_u8(bytes, 8);
    proof {
        lemma_stream_len(widen_u8(bytes@), 8);
    }
    let ghost head = bits@;
    let pad = count * 5 - len * 8;
    let mut k: usize = 0;
    while k < pad
        invariant
            k <= pad,
            bits@ == head + zero_bits(k as nat),
        decreases pad - k,
    {
        bits.push(false);
        k += 1;
        assert(bits@ =~= head + zero_bits(k as nat));
    }
    let symbols = implode_u8(bits.as_slice(), 5, count);
    proof {
        lemma_narrow_widen(symbols@);
    }
    symbols
}

/// The bytes that 5-bit symbols spell, if the bits left over are few and zero.
pub fn symbols_to_bytes(symbols: &[u8]) -> (bytes: Option<Vec<u8>>)
    requires
        symbols@.len() <= 0x1000_0000,
    ensures
        match (bytes, spec_symbols_to_bytes(symbols@)) {
            (Some(got), Some(want)) => got@ == want,
            (None, None) => true,
            _ => false,
        },
{
    let bits = explode_u8(symbols, 5);
    proof {
        lemma_stream_len(widen_u8(symbols@), 5);
    }
    let count = symbols.len() * 5 / 8;
    let start = count * 8;
    let ghost rest = bits@.skip(start as int);
    if bits.len() - start >= 5 {
        return None;
    }
    let mut k: usize = start;
    while k < bits.len()
        invariant
            start <= k <= bits.len(),
            rest == bits@.skip(start as int),
            bits@ == stream(widen_u8(symbols@), 5),
            start == symbols@.len() * 5 / 8 * 8,
            forall|i: int| start <= i < k ==> !bits@[i],
        decreases bits.len() - k,
    {
        if bits[k] {
            assert(rest[k - start]);
            assert(!zero_bits(rest.len())[k - start]);
            assert(rest != zero_bits(rest.len()));
            assert(rest == stream(widen_u8(symbols@), 5).skip((symbols@.len() * 5 / 8 * 8) as int));
            return None;
        }
        k += 1;
    }
    assert(rest =~= zero_bits(rest.len()));
    let bytes = implode_u8(bits.as_slice(), 8, count);
    proof {
        lemma_narrow_widen(bytes@);
    }
    Some(bytes)
}

} // verus!
