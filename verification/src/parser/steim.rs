//! Steim1/Steim2 decompression of MiniSEED data records.
use vstd::prelude::*;
use vstd::string::*;
use byteorder::{BigEndian, ByteOrder};
use crate::text::{decimal_text, decimal_u64};
use crate::forward::io_error_text;

verus! {

/// Errors of Steim decompression.
#[derive(Debug)]
pub enum SteimError {
    /// Reading the compressed words failed.
    Io(std::io::Error),
    /// The record announces an encoding that is neither Steim1 nor Steim2.
    InvalidSteimCode(u8),
}

impl SteimError {
    /// The error's message (what the application displays).
    pub fn message(&self) -> (r: String)
        ensures
            self matches SteimError::InvalidSteimCode(c) ==> r@ == "Invalid Steim code: "@
                + decimal_text(c as nat),
            self is Io ==> "IO error: "@.is_prefix_of(r@),
    {
        match self {
            SteimError::Io(e) => {
                let mut m = String::from_str("IO error: ");
                let ghost head = m@;
                m.append(io_error_text(e).as_str());
                assert(head =~= m@.subrange(0, head.len() as int));
                m
            },
            SteimError::InvalidSteimCode(c) => {
                let mut m = String::from_str("Invalid Steim code: ");
                m.append(decimal_u64(*c as u64).as_str());
                m
            },
        }
    }
}

/// Decoder for the Steim compression schemes of MiniSEED data records.
#[derive(Debug, Clone, Copy)]
pub struct SteimDecoder;


/// Value of the big-endian 32-bit word made of four bytes.
pub open spec fn be_u32_of(b0: u8, b1: u8, b2: u8, b3: u8) -> int {
    b0 as int * 0x100_0000 + b1 as int * 0x1_0000 + b2 as int * 0x100 + b3 as int
}

/// `byteorder::BigEndian::read_u32` on the bytes of `data` from `pos` on: the
/// four bytes at `pos` read as a big-endian `u32` (it panics when fewer than
/// four bytes remain, hence the `requires`).
#[verifier::external_body]
pub(crate) fn read_be_u32_at(data: &[u8], pos: usize) -> (r: u32)
    requires
        pos + 4 <= data@.len(),
    ensures
        r as int == be_u32_of(data@[pos as int], data@[pos + 1], data@[pos + 2], data@[pos + 3]),
{
    BigEndian::read_u32(&data[pos..])
}

/// The unsigned `bits`-wide field of `word` that starts at bit `shift`.
pub open spec fn bit_field(word: u32, shift: u32, bits: u32) -> u64 {
    ((word as u64) >> (shift as u64)) & (((1u64 << (bits as u64)) - 1) as u64)
}

/// The `bits`-wide field of `word` at bit `shift`, read as a two's complement number.
pub open spec fn signed_field(word: u32, shift: u32, bits: u32) -> int {
    let f = bit_field(word, shift, bits);
    if f >= (1u64 << ((bits - 1) as u64)) {
        f as int - (1u64 << (bits as u64)) as int
    } else {
        f as int
    }
}

/// Sign-extends the `bits`-wide field of `word` that starts at bit `shift`.
pub fn extract_bits(word: u32, shift: u32, bits: u32) -> (r: i32)
    requires
        1 <= bits <= 31,
        shift <= 31,
    ensures
        r as int == signed_field(word, shift, bits),
{
    assert(1u32 << bits >= 1) by (bit_vector)
        requires
            1 <= bits <= 31,
    ;
    let mask = (1u32 << bits) - 1;
    let val = (word >> shift) & mask;
    assert(val <= mask) by (bit_vector)
        requires
            val == (word >> shift) & mask,
    ;
    let sign_bit = 1u32 << (bits - 1);
    assert(val as u64 == bit_field(word, shift, bits)) by (bit_vector)
        requires
            1 <= bits <= 31,
            shift <= 31,
            mask == (1u32 << bits) - 1,
            val == (word >> shift) & mask,
    ;
    if val & sign_bit != 0 {
        assert(val as u64 >= (1u64 << ((bits - 1) as u64))
            && ((val | !mask) as i32) as int == val as int - (1u64 << (bits as u64)) as int)
            by (bit_vector)
            requires
                1 <= bits <= 31,
                mask == (1u32 << bits) - 1,
                val <= mask,
                sign_bit == 1u32 << ((bits - 1) as u32),
                val & sign_bit != 0,
        ;
        (#[verifier::truncate] ((val | !mask) as i32))
    } else {
        assert((val as u64) < (1u64 << ((bits - 1) as u64)) && val < 0x8000_0000u32) by (bit_vector)
            requires
                1 <= bits <= 31,
                mask == (1u32 << bits) - 1,
                val <= mask,
                sign_bit == 1u32 << ((bits - 1) as u32),
                val & sign_bit == 0,
        ;
        val as i32
    }
}


/// The `k`-th big-endian 32-bit word of `data` (bytes `4k .. 4k+4`).
pub open spec fn word_at(data: Seq<u8>, k: int) -> u32 {
    be_u32_of(data[4 * k], data[4 * k + 1], data[4 * k + 2], data[4 * k + 3]) as u32
}

/// The 2-bit compression code that the control word of its 64-byte frame
/// assigns to word `k`.
pub open spec fn nibble_at(data: Seq<u8>, k: int) -> u32 {
    let ctrl = word_at(data, 16 * (k / 16));
    (ctrl >> ((30 - 2 * (k % 16)) as u32)) & 3
}

/// `count` signed fields of `bits` bits packed into `word`, most significant first.
pub open spec fn packed(word: u32, bits: u32, count: nat) -> Seq<i32> {
    Seq::new(count, |j: int| signed_field(word, ((count - 1 - j) * bits) as u32, bits) as i32)
}

/// The differences that a Steim2 data word holds, given its 2-bit code.
pub open spec fn unpack(nibble: u32, word: u32) -> Seq<i32> {
    let dn = (word >> 30u32) & 3;
    if nibble == 1 {
        packed(word, 8, 4)
    } else if nibble == 2 {
        if dn == 1 {
            packed(word, 30, 1)
        } else if dn == 2 {
            packed(word, 15, 2)
        } else if dn == 3 {
            packed(word, 10, 3)
        } else {
            Seq::empty()
        }
    } else if nibble == 3 {
        if dn == 0 {
            packed(word, 6, 5)
        } else if dn == 1 {
            packed(word, 5, 6)
        } else if dn == 2 {
            packed(word, 4, 7)
        } else {
            Seq::empty()
        }
    } else {
        Seq::empty()
    }
}

/// Words that carry no differences: each frame's control word, and the
/// forward (X0) and reverse (Xn) integration constants of the first frame.
pub open spec fn is_header_word(k: int) -> bool {
    k % 16 == 0 || k == 1 || k == 2
}

/// The differences that word `k` contributes.
pub open spec fn word_diffs(data: Seq<u8>, k: int) -> Seq<i32> {
    if is_header_word(k) {
        Seq::empty()
    } else {
        unpack(nibble_at(data, k), word_at(data, k))
    }
}

/// The differences held by the words before word `k`, in order.
pub open spec fn diffs_before(data: Seq<u8>, k: nat) -> Seq<i32>
    decreases k,
{
    if k == 0 {
        Seq::empty()
    } else {
        diffs_before(data, (k - 1) as nat) + word_diffs(data, k - 1)
    }
}

/// All differences that the whole words of `data` hold.
pub open spec fn steim2_differences(data: Seq<u8>) -> Seq<i32> {
    diffs_before(data, (data.len() / 4) as nat)
}

/// The forward integration constant X0 (word 1), or 0 when the data is too short.
pub open spec fn steim2_first_sample(data: Seq<u8>) -> i32 {
    if data.len() >= 8 {
        word_at(data, 1) as i32
    } else {
        0
    }
}

/// `x0` followed by the running (wrapping) sums of `diffs`.
pub open spec fn integrate(x0: i32, diffs: Seq<i32>) -> Seq<i32>
    decreases diffs.len(),
{
    if diffs.len() == 0 {
        seq![x0]
    } else {
        let prev = integrate(x0, diffs.drop_last());
        prev.push(vstd::wrapping::i32_specs::wrapping_add(prev.last(), diffs.last()))
    }
}

/// The samples that Steim2 decoding of `data` yields when `n` samples are
/// announced: X0, then one running sum per difference, at most `n` in all.
pub open spec fn steim2_samples(data: Seq<u8>, n: nat) -> Seq<i32> {
    if n == 0 {
        Seq::empty()
    } else {
        let d = steim2_differences(data);
        let m = if n - 1 <= d.len() { (n - 1) as int } else { d.len() as int };
        integrate(steim2_first_sample(data), d.take(m))
    }
}

proof fn lemma_integrate_len(x0: i32, diffs: Seq<i32>)
    ensures
        integrate(x0, diffs).len() == diffs.len() + 1,
    decreases diffs.len(),
{
    if diffs.len() > 0 {
        lemma_integrate_len(x0, diffs.drop_last());
    }
}

/// The differences of a shorter prefix of words are a prefix of those of a longer one.
proof fn lemma_diffs_prefix(data: Seq<u8>, a: nat, b: nat)
    requires
        a <= b,
    ensures
        diffs_before(data, a).len() <= diffs_before(data, b).len(),
        diffs_before(data, b).take(diffs_before(data, a).len() as int) == diffs_before(data, a),
    decreases b,
{
    if a < b {
        lemma_diffs_prefix(data, a, (b - 1) as nat);
        let pa = diffs_before(data, a);
        let pb1 = diffs_before(data, (b - 1) as nat);
        assert(diffs_before(data, b) == pb1 + word_diffs(data, b - 1));
        assert((pb1 + word_diffs(data, b - 1)).take(pa.len() as int) =~= pb1.take(pa.len() as int));
    } else {
        assert(diffs_before(data, b).take(diffs_before(data, a).len() as int) =~= diffs_before(data, a));
    }
}

/// Each element of `integrate` after the first is the wrapping sum of the
/// one before it and the matching difference.
proof fn lemma_integrate_index(x0: i32, diffs: Seq<i32>, i: int)
    requires
        0 < i <= diffs.len(),
    ensures
        integrate(x0, diffs)[0] == x0,
        integrate(x0, diffs)[i] == vstd::wrapping::i32_specs::wrapping_add(integrate(x0, diffs)[i - 1], diffs[i - 1]),
    decreases diffs.len(),
{
    lemma_integrate_len(x0, diffs.drop_last());
    if i < diffs.len() {
        lemma_integrate_index(x0, diffs.drop_last(), i);
        assert(diffs.drop_last()[i - 1] == diffs[i - 1]);
    } else if diffs.len() > 1 {
        lemma_integrate_index(x0, diffs.drop_last(), 1);
    }
}

/// Integrating a prefix of the differences gives a prefix of the samples.
proof fn lemma_integrate_prefix(x0: i32, diffs: Seq<i32>, a: int)
    requires
        0 <= a <= diffs.len(),
    ensures
        integrate(x0, diffs.take(a)) == integrate(x0, diffs).take(a + 1),
    decreases diffs.len(),
{
    lemma_integrate_len(x0, diffs);
    if a == diffs.len() {
        assert(diffs.take(a) =~= diffs);
        assert(integrate(x0, diffs).take(a + 1) =~= integrate(x0, diffs));
    } else {
        lemma_integrate_len(x0, diffs.drop_last());
        lemma_integrate_prefix(x0, diffs.drop_last(), a);
        assert(diffs.drop_last().take(a) =~= diffs.take(a));
        assert(integrate(x0, diffs.drop_last()).take(a + 1) =~= integrate(x0, diffs).take(a + 1));
    }
}

/// The bit pattern of `a` in a two's complement field `full` values wide.
pub open spec fn twos(a: int, full: int) -> int {
    if a < 0 {
        a + full
    } else {
        a
    }
}

/// A field that holds the pattern of `a` reads back as `a`.
proof fn lemma_signed_field_is(w: u32, shift: u32, bits: u32, a: int, half: int, full: int)
    requires
        half == (1u64 << ((bits - 1) as u64)) as int,
        full == (1u64 << (bits as u64)) as int,
        full == 2 * half,
        -half <= a < half,
        bit_field(w, shift, bits) as int == twos(a, full),
    ensures
        signed_field(w, shift, bits) == a,
{
}

/// A word coded 1 holds four 8-bit differences, the most significant byte
/// first.
pub proof fn lemma_steim2_four_bytes(a: int, b: int, c: int, d: int)
    requires
        -128 <= a < 128,
        -128 <= b < 128,
        -128 <= c < 128,
        -128 <= d < 128,
    ensures
        ({
            let w = ((twos(a, 256) as u32) << 24u32) | ((twos(b, 256) as u32) << 16u32) | ((twos(c, 256)
                as u32) << 8u32) | (twos(d, 256) as u32);
            unpack(1, w) == seq![a as i32, b as i32, c as i32, d as i32]
        }),
{
    let (fa, fb, fc, fd) = (twos(a, 256) as u32, twos(b, 256) as u32, twos(c, 256) as u32, twos(d, 256) as u32);
    let w = (fa << 24u32) | (fb << 16u32) | (fc << 8u32) | fd;
    assert(bit_field(w, 24, 8) == fa as u64 && bit_field(w, 16, 8) == fb as u64 && bit_field(w, 8, 8)
        == fc as u64 && bit_field(w, 0, 8) == fd as u64 && (1u64 << ((8u32 - 1) as u64)) == 128u64
        && (1u64 << (8u32 as u64)) == 256u64) by (bit_vector)
        requires
            fa < 256 && fb < 256 && fc < 256 && fd < 256,
            w == (fa << 24u32) | (fb << 16u32) | (fc << 8u32) | fd,
    ;
    lemma_signed_field_is(w, 24, 8, a, 128, 256);
    lemma_signed_field_is(w, 16, 8, b, 128, 256);
    lemma_signed_field_is(w, 8, 8, c, 128, 256);
    lemma_signed_field_is(w, 0, 8, d, 128, 256);
    assert(unpack(1, w) =~= seq![a as i32, b as i32, c as i32, d as i32]);
}

/// A word coded 2 with dnib 1 holds one 30-bit difference.
pub proof fn lemma_steim2_one_thirty(a: int)
    requires
        -0x2000_0000 <= a < 0x2000_0000,
    ensures
        unpack(2, (1u32 << 30u32) | (twos(a, 0x4000_0000) as u32)) == seq![a as i32],
{
    let fa = twos(a, 0x4000_0000) as u32;
    let w = (1u32 << 30u32) | fa;
    assert(bit_field(w, 0, 30) == fa as u64 && (w >> 30u32) & 3 == 1 && (1u64 << ((30u32 - 1) as u64))
        == 0x2000_0000u64 && (1u64 << (30u32 as u64)) == 0x4000_0000u64) by (bit_vector)
        requires
            fa < 0x4000_0000,
            w == (1u32 << 30u32) | fa,
    ;
    lemma_signed_field_is(w, 0, 30, a, 0x2000_0000, 0x4000_0000);
    assert(unpack(2, w) =~= seq![a as i32]);
}

/// A word coded 2 with dnib 2 holds two 15-bit differences, the more
/// significant first.
pub proof fn lemma_steim2_two_fifteens(a: int, b: int)
    requires
        -16384 <= a < 16384,
        -16384 <= b < 16384,
    ensures
        unpack(2, (2u32 << 30u32) | ((twos(a, 32768) as u32) << 15u32) | (twos(b, 32768) as u32))
            == seq![a as i32, b as i32],
{
    let (fa, fb) = (twos(a, 32768) as u32, twos(b, 32768) as u32);
    let w = (2u32 << 30u32) | (fa << 15u32) | fb;
    assert(bit_field(w, 15, 15) == fa as u64 && bit_field(w, 0, 15) == fb as u64 && (w >> 30u32) & 3 == 2
        && (1u64 << ((15u32 - 1) as u64)) == 16384u64 && (1u64 << (15u32 as u64)) == 32768u64)
        by (bit_vector)
        requires
            fa < 32768 && fb < 32768,
            w == (2u32 << 30u32) | (fa << 15u32) | fb,
    ;
    lemma_signed_field_is(w, 15, 15, a, 16384, 32768);
    lemma_signed_field_is(w, 0, 15, b, 16384, 32768);
    assert(unpack(2, w) =~= seq![a as i32, b as i32]);
}

/// A word coded 2 with dnib 3 holds three 10-bit differences, the most
/// significant first: bits 29..20, then 19..10, then 9..0.
pub proof fn lemma_steim2_three_tens(a: int, b: int, c: int)
    requires
        -512 <= a < 512,
        -512 <= b < 512,
        -512 <= c < 512,
    ensures
        unpack(
            2,
            (3u32 << 30u32) | ((twos(a, 1024) as u32) << 20u32) | ((twos(b, 1024) as u32) << 10u32) | (twos(
                c,
                1024,
            ) as u32),
        ) == seq![a as i32, b as i32, c as i32],
{
    let (fa, fb, fc) = (twos(a, 1024) as u32, twos(b, 1024) as u32, twos(c, 1024) as u32);
    let w = (3u32 << 30u32) | (fa << 20u32) | (fb << 10u32) | fc;
    assert(bit_field(w, 20, 10) == fa as u64 && bit_field(w, 10, 10) == fb as u64 && bit_field(w, 0, 10)
        == fc as u64 && (w >> 30u32) & 3 == 3 && (1u64 << ((10u32 - 1) as u64)) == 512u64 && (1u64 << (
    10u32 as u64)) == 1024u64) by (bit_vector)
        requires
            fa < 1024 && fb < 1024 && fc < 1024,
            w == (3u32 << 30u32) | (fa << 20u32) | (fb << 10u32) | fc,
    ;
    lemma_signed_field_is(w, 20, 10, a, 512, 1024);
    lemma_signed_field_is(w, 10, 10, b, 512, 1024);
    lemma_signed_field_is(w, 0, 10, c, 512, 1024);
    assert(unpack(2, w) =~= seq![a as i32, b as i32, c as i32]);
}

/// A word coded 3 with dnib 0 holds five 6-bit differences, the most
/// significant first.
pub proof fn lemma_steim2_five_sixes(a: int, b: int, c: int, d: int, e: int)
    requires
        -32 <= a < 32,
        -32 <= b < 32,
        -32 <= c < 32,
        -32 <= d < 32,
        -32 <= e < 32,
    ensures
        unpack(
            3,
            ((twos(a, 64) as u32) << 24u32) | ((twos(b, 64) as u32) << 18u32) | ((twos(c, 64) as u32) << 12u32)
                | ((twos(d, 64) as u32) << 6u32) | (twos(e, 64) as u32),
        ) == seq![a as i32, b as i32, c as i32, d as i32, e as i32],
{
    let (fa, fb, fc, fd, fe) = (
        twos(a, 64) as u32,
        twos(b, 64) as u32,
        twos(c, 64) as u32,
        twos(d, 64) as u32,
        twos(e, 64) as u32,
    );
    let w = (fa << 24u32) | (fb << 18u32) | (fc << 12u32) | (fd << 6u32) | fe;
    assert(bit_field(w, 24, 6) == fa as u64 && bit_field(w, 18, 6) == fb as u64 && bit_field(w, 12, 6)
        == fc as u64 && bit_field(w, 6, 6) == fd as u64 && bit_field(w, 0, 6) == fe as u64 && (w >> 30u32)
        & 3 == 0 && (1u64 << ((6u32 - 1) as u64)) == 32u64 && (1u64 << (6u32 as u64)) == 64u64)
        by (bit_vector)
        requires
            fa < 64 && fb < 64 && fc < 64 && fd < 64 && fe < 64,
            w == (fa << 24u32) | (fb << 18u32) | (fc << 12u32) | (fd << 6u32) | fe,
    ;
    lemma_signed_field_is(w, 24, 6, a, 32, 64);
    lemma_signed_field_is(w, 18, 6, b, 32, 64);
    lemma_signed_field_is(w, 12, 6, c, 32, 64);
    lemma_signed_field_is(w, 6, 6, d, 32, 64);
    lemma_signed_field_is(w, 0, 6, e, 32, 64);
    assert(unpack(3, w) =~= seq![a as i32, b as i32, c as i32, d as i32, e as i32]);
}

/// A word coded 3 with dnib 1 holds six 5-bit differences, the most
/// significant first.
pub proof fn lemma_steim2_six_fives(a: int, b: int, c: int, d: int, e: int, f: int)
    requires
        -16 <= a < 16,
        -16 <= b < 16,
        -16 <= c < 16,
        -16 <= d < 16,
        -16 <= e < 16,
        -16 <= f < 16,
    ensures
        unpack(
            3,
            (1u32 << 30u32) | ((twos(a, 32) as u32) << 25u32) | ((twos(b, 32) as u32) << 20u32) | ((twos(c, 32)
                as u32) << 15u32) | ((twos(d, 32) as u32) << 10u32) | ((twos(e, 32) as u32) << 5u32) | (twos(
                f,
                32,
            ) as u32),
        ) == seq![a as i32, b as i32, c as i32, d as i32, e as i32, f as i32],
{
    let (fa, fb, fc, fd, fe, ff) = (
        twos(a, 32) as u32,
        twos(b, 32) as u32,
        twos(c, 32) as u32,
        twos(d, 32) as u32,
        twos(e, 32) as u32,
        twos(f, 32) as u32,
    );
    let w = (1u32 << 30u32) | (fa << 25u32) | (fb << 20u32) | (fc << 15u32) | (fd << 10u32) | (fe << 5u32)
        | ff;
    assert(bit_field(w, 25, 5) == fa as u64 && bit_field(w, 20, 5) == fb as u64 && bit_field(w, 15, 5)
        == fc as u64 && bit_field(w, 10, 5) == fd as u64 && bit_field(w, 5, 5) == fe as u64 && bit_field(
        w,
        0,
        5,
    ) == ff as u64 && (w >> 30u32) & 3 == 1 && (1u64 << ((5u32 - 1) as u64)) == 16u64 && (1u64 << (5u32
        as u64)) == 32u64) by (bit_vector)
        requires
            fa < 32 && fb < 32 && fc < 32 && fd < 32 && fe < 32 && ff < 32,
            w == (1u32 << 30u32) | (fa << 25u32) | (fb << 20u32) | (fc << 15u32) | (fd << 10u32) | (fe
                << 5u32) | ff,
    ;
    lemma_signed_field_is(w, 25, 5, a, 16, 32);
    lemma_signed_field_is(w, 20, 5, b, 16, 32);
    lemma_signed_field_is(w, 15, 5, c, 16, 32);
    lemma_signed_field_is(w, 10, 5, d, 16, 32);
    lemma_signed_field_is(w, 5, 5, e, 16, 32);
    lemma_signed_field_is(w, 0, 5, f, 16, 32);
    assert(unpack(3, w) =~= seq![a as i32, b as i32, c as i32, d as i32, e as i32, f as i32]);
}

/// A word coded 3 with dnib 2 holds seven 4-bit differences, the most
/// significant first.
pub proof fn lemma_steim2_seven_fours(v: Seq<int>)
    requires
        v.len() == 7,
        forall|j: int| 0 <= j < 7 ==> -8 <= #[trigger] v[j] < 8,
    ensures
        unpack(
            3,
            (2u32 << 30u32) | ((twos(v[0], 16) as u32) << 24u32) | ((twos(v[1], 16) as u32) << 20u32) | ((twos(
                v[2],
                16,
            ) as u32) << 16u32) | ((twos(v[3], 16) as u32) << 12u32) | ((twos(v[4], 16) as u32) << 8u32) | ((twos(
                v[5],
                16,
            ) as u32) << 4u32) | (twos(v[6], 16) as u32),
        ) == v.map_values(|x: int| x as i32),
{
    let f0 = twos(v[0], 16) as u32;
    let f1 = twos(v[1], 16) as u32;
    let f2 = twos(v[2], 16) as u32;
    let f3 = twos(v[3], 16) as u32;
    let f4 = twos(v[4], 16) as u32;
    let f5 = twos(v[5], 16) as u32;
    let f6 = twos(v[6], 16) as u32;
    let w = (2u32 << 30u32) | (f0 << 24u32) | (f1 << 20u32) | (f2 << 16u32) | (f3 << 12u32) | (f4 << 8u32)
        | (f5 << 4u32) | f6;
    assert(bit_field(w, 24, 4) == f0 as u64 && bit_field(w, 20, 4) == f1 as u64 && bit_field(w, 16, 4)
        == f2 as u64 && bit_field(w, 12, 4) == f3 as u64 && bit_field(w, 8, 4) == f4 as u64 && bit_field(
        w,
        4,
        4,
    ) == f5 as u64 && bit_field(w, 0, 4) == f6 as u64 && (w >> 30u32) & 3 == 2 && (1u64 << ((4u32 - 1)
        as u64)) == 8u64 && (1u64 << (4u32 as u64)) == 16u64) by (bit_vector)
        requires
            f0 < 16 && f1 < 16 && f2 < 16 && f3 < 16 && f4 < 16 && f5 < 16 && f6 < 16,
            w == (2u32 << 30u32) | (f0 << 24u32) | (f1 << 20u32) | (f2 << 16u32) | (f3 << 12u32) | (f4
                << 8u32) | (f5 << 4u32) | f6,
    ;
    assert(-8 <= v[0] < 8 && -8 <= v[1] < 8 && -8 <= v[2] < 8 && -8 <= v[3] < 8);
    assert(-8 <= v[4] < 8 && -8 <= v[5] < 8 && -8 <= v[6] < 8);
    lemma_signed_field_is(w, 24, 4, v[0], 8, 16);
    lemma_signed_field_is(w, 20, 4, v[1], 8, 16);
    lemma_signed_field_is(w, 16, 4, v[2], 8, 16);
    lemma_signed_field_is(w, 12, 4, v[3], 8, 16);
    lemma_signed_field_is(w, 8, 4, v[4], 8, 16);
    lemma_signed_field_is(w, 4, 4, v[5], 8, 16);
    lemma_signed_field_is(w, 0, 4, v[6], 8, 16);
    assert(unpack(3, w) =~= v.map_values(|x: int| x as i32));
}

/// Decoding yields `min(n, 1 + d)` samples when `n` are announced and the
/// data holds `d` differences (none when `n` is 0).
pub proof fn lemma_steim2_sample_count(data: Seq<u8>, n: nat)
    ensures
        steim2_samples(data, n).len() == (if n == 0 {
            0int
        } else if n <= steim2_differences(data).len() + 1 {
            n as int
        } else {
            steim2_differences(data).len() + 1int
        }),
{
    if n > 0 {
        let d = steim2_differences(data);
        let m = if n - 1 <= d.len() { (n - 1) as int } else { d.len() as int };
        lemma_integrate_len(steim2_first_sample(data), d.take(m));
    }
}

/// The first decoded sample is the forward integration constant X0.
pub proof fn lemma_steim2_starts_at_x0(data: Seq<u8>, n: nat)
    requires
        n > 0,
    ensures
        steim2_samples(data, n)[0] == steim2_first_sample(data),
{
    let d = steim2_differences(data);
    let m = if n - 1 <= d.len() { (n - 1) as int } else { d.len() as int };
    if m == 0 {
        assert(d.take(m).len() == 0);
    } else {
        lemma_integrate_index(steim2_first_sample(data), d.take(m), 1);
    }
}

/// Each decoded sample after the first is the one before it plus the next
/// difference (wrapping on overflow, as the decoder does).
pub proof fn lemma_steim2_running_sums(data: Seq<u8>, n: nat, i: int)
    requires
        0 < i < steim2_samples(data, n).len(),
    ensures
        steim2_samples(data, n)[i] == vstd::wrapping::i32_specs::wrapping_add(
            steim2_samples(data, n)[i - 1],
            steim2_differences(data)[i - 1],
        ),
{
    let d = steim2_differences(data);
    let m = if n - 1 <= d.len() { (n - 1) as int } else { d.len() as int };
    lemma_integrate_len(steim2_first_sample(data), d.take(m));
    lemma_integrate_index(steim2_first_sample(data), d.take(m), i);
}

/// Announcing fewer samples decodes a prefix of what announcing more decodes.
pub proof fn lemma_steim2_fewer_is_prefix(data: Seq<u8>, n: nat, m: nat)
    requires
        n <= m,
    ensures
        steim2_samples(data, n) == steim2_samples(data, m).take(steim2_samples(data, n).len() as int),
{
    lemma_steim2_sample_count(data, n);
    lemma_steim2_sample_count(data, m);
    if n == 0 {
        assert(steim2_samples(data, m).take(0) =~= Seq::<i32>::empty());
    } else {
        let d = steim2_differences(data);
        let x0 = steim2_first_sample(data);
        let a = if n - 1 <= d.len() { (n - 1) as int } else { d.len() as int };
        let b = if m - 1 <= d.len() { (m - 1) as int } else { d.len() as int };
        lemma_integrate_prefix(x0, d.take(b), a);
        assert(d.take(b).take(a) =~= d.take(a));
    }
}

/// Appends the differences held by one data word with the given 2-bit code.
fn push_unpacked(diffs: &mut Vec<i32>, nibble: u32, word: u32)
    ensures
        final(diffs)@ == old(diffs)@ + unpack(nibble, word),
{
    let ghost start = diffs@;
    let dn = (word >> 30) & 0x03;
    if nibble == 1 {
        diffs.push(extract_bits(word, 24, 8));
        diffs.push(extract_bits(word, 16, 8));
        diffs.push(extract_bits(word, 8, 8));
        diffs.push(extract_bits(word, 0, 8));
        assert(diffs@ =~= start + packed(word, 8, 4));
    } else if nibble == 2 {
        if dn == 1 {
            diffs.push(extract_bits(word, 0, 30));
            assert(diffs@ =~= start + packed(word, 30, 1));
        } else if dn == 2 {
            diffs.push(extract_bits(word, 15, 15));
            diffs.push(extract_bits(word, 0, 15));
            assert(diffs@ =~= start + packed(word, 15, 2));
        } else if dn == 3 {
            diffs.push(extract_bits(word, 20, 10));
            diffs.push(extract_bits(word, 10, 10));
            diffs.push(extract_bits(word, 0, 10));
            assert(diffs@ =~= start + packed(word, 10, 3));
        } else {
            assert(diffs@ =~= start + unpack(nibble, word));
        }
    } else if nibble == 3 {
        if dn == 0 {
            diffs.push(extract_bits(word, 24, 6));
            diffs.push(extract_bits(word, 18, 6));
            diffs.push(extract_bits(word, 12, 6));
            diffs.push(extract_bits(word, 6, 6));
            diffs.push(extract_bits(word, 0, 6));
            assert(diffs@ =~= start + packed(word, 6, 5));
        } else if dn == 1 {
            diffs.push(extract_bits(word, 25, 5));
            diffs.push(extract_bits(word, 20, 5));
            diffs.push(extract_bits(word, 15, 5));
            diffs.push(extract_bits(word, 10, 5));
            diffs.push(extract_bits(word, 5, 5));
            diffs.push(extract_bits(word, 0, 5));
            assert(diffs@ =~= start + packed(word, 5, 6));
        } else if dn == 2 {
            diffs.push(extract_bits(word, 24, 4));
            diffs.push(extract_bits(word, 20, 4));
            diffs.push(extract_bits(word, 16, 4));
            diffs.push(extract_bits(word, 12, 4));
            diffs.push(extract_bits(word, 8, 4));
            diffs.push(extract_bits(word, 4, 4));
            diffs.push(extract_bits(word, 0, 4));
            assert(diffs@ =~= start + packed(word, 4, 7));
        } else {
            assert(diffs@ =~= start + unpack(nibble, word));
        }
    } else {
        assert(diffs@ =~= start + unpack(nibble, word));
    }
}


impl SteimDecoder {
    /// Decodes `num_samples` samples from Steim2-compressed `data`: X0 (word 1
    /// of the first frame), then the running wrapping sums of the packed
    /// differences, read frame by frame; decoding stops at the first
    /// incomplete word or once enough differences are known.
    pub fn decode_steim2(data: &[u8], num_samples: usize) -> (r: Result<Vec<i32>, SteimError>)
        ensures
            r matches Ok(v) && v@ == steim2_samples(data@, num_samples as nat),
    {
        if num_samples == 0 {
            return Ok(Vec::new());
        }
        let mut diffs: Vec<i32> = Vec::new();
        let mut x0: i32 = 0;
        let mut ctrl: u32 = 0;
        let len = data.len();
        let nwords = len / 4;
        let mut k: usize = 0;
        while k < nwords
            invariant_except_break
                k <= nwords,
                len == data@.len(),
                nwords == data@.len() / 4,
                diffs@ == diffs_before(data@, k as nat),
                k < 2 ==> x0 == 0,
                k >= 2 ==> x0 == word_at(data@, 1) as i32,
                k % 16 != 0 ==> ctrl == word_at(data@, 16 * (k / 16)),
            ensures
                k <= nwords,
                nwords == data@.len() / 4,
                diffs@ == diffs_before(data@, k as nat),
                k < 2 ==> x0 == 0,
                k >= 2 ==> x0 == word_at(data@, 1) as i32,
                k == nwords || diffs@.len() >= num_samples,
            decreases nwords - k,
        {
            assert(4 * k + 4 <= data@.len()) by (nonlinear_arith)
                requires
                    k < nwords,
                    nwords == data@.len() / 4,
            ;
            assert(4 * k + 4 <= len);
            let word = read_be_u32_at(data, 4 * k);
            assert(word == word_at(data@, k as int));
            let i = k % 16;
            if i == 0 {
                ctrl = word;
                assert(diffs_before(data@, (k + 1) as nat) =~= diffs@);
            } else if k == 1 {
                x0 = word as i32;
                assert(diffs_before(data@, (k + 1) as nat) =~= diffs@);
            } else if k == 2 {
                // Xn, the reverse integration constant, is not checked.
                assert(diffs_before(data@, (k + 1) as nat) =~= diffs@);
            } else {
                let nibble = (ctrl >> (30 - 2 * i) as u32) & 0x03;
                assert(nibble == nibble_at(data@, k as int));
                push_unpacked(&mut diffs, nibble, word);
                assert(diffs@ == diffs_before(data@, (k + 1) as nat));
                if diffs.len() >= num_samples {
                    k = k + 1;
                    break;
                }
            }
            k = k + 1;
        }
        let ghost full = steim2_differences(data@);
        proof {
            lemma_diffs_prefix(data@, k as nat, (data@.len() / 4) as nat);
        }
        let take = if num_samples - 1 <= diffs.len() { num_samples - 1 } else { diffs.len() };
        assert(diffs@.take(take as int) == full.take(take as int));
        let mut samples: Vec<i32> = Vec::new();
        samples.push(x0);
        let mut cur = x0;
        let mut j: usize = 0;
        assert(samples@ =~= integrate(x0, diffs@.take(0)));
        while j < take
            invariant
                j <= take,
                take <= diffs@.len(),
                samples@ == integrate(x0, diffs@.take(j as int)),
                cur == samples@.last(),
            decreases take - j,
        {
            proof { lemma_integrate_len(x0, diffs@.take(j as int)); }
            cur = cur.wrapping_add(diffs[j]);
            samples.push(cur);
            assert(diffs@.take(j + 1).drop_last() =~= diffs@.take(j as int));
            j = j + 1;
        }
        proof {
            if k >= 2 {
                assert(data@.len() >= 8);
            } else {
                reveal_with_fuel(diffs_before, 2);
                assert(diffs@.len() == 0);
                assert(k == nwords);
                assert(data@.len() < 8);
            }
            assert(x0 == steim2_first_sample(data@));
            let m = if num_samples - 1 <= full.len() { (num_samples - 1) as int } else { full.len() as int };
            assert(m == take);
            assert(diffs@.take(take as int) == full.take(m));
        }
        Ok(samples)
    }

    /// Steim1 is not decoded: the result is always empty.
    pub fn decode_steim1(_data: &[u8], _num_samples: usize) -> (r: Result<Vec<i32>, SteimError>)
        ensures
            r matches Ok(v) && v@.len() == 0,
    {
        Ok(Vec::new())
    }
}

} // verus!
