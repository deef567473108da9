//! Encodings of EBML, the binary format that Matroska is written in:
//! variable-length integers, unsigned integers, floating point numbers and
//! elements.

use vstd::arithmetic::power2;
use vstd::prelude::*;

verus! {

/// `256` to the power `n`.
pub open spec fn pow256(n: nat) -> nat
    decreases n,
{
    if n == 0 {
        1
    } else {
        256 * pow256((n - 1) as nat)
    }
}

/// The low `n` bytes of `v`, most significant byte first.
pub open spec fn be_bytes(v: nat, n: nat) -> Seq<u8>
    decreases n,
{
    if n == 0 {
        Seq::empty()
    } else {
        be_bytes(v / 256, (n - 1) as nat).push((v % 256) as u8)
    }
}

/// The number that the bytes `s` stand for, most significant byte first.
pub open spec fn be_value(s: Seq<u8>) -> nat
    decreases s.len(),
{
    if s.len() == 0 {
        0
    } else {
        be_value(s.drop_last()) * 256 + s.last() as nat
    }
}

/// The number of bytes that `v` needs: one for zero.
pub open spec fn uint_len(v: nat) -> nat
    decreases v,
{
    if v < 256 {
        1
    } else {
        1 + uint_len(v / 256)
    }
}

/// An unsigned integer in as few bytes as it takes.
pub open spec fn uint_bytes(v: nat) -> Seq<u8> {
    be_bytes(v, uint_len(v))
}

/// The length marker of a VINT of `n` bytes: the bit just above its `7 * n`
/// bits of payload.
pub open spec fn vint_marker(n: nat) -> nat
    decreases n,
{
    if n == 0 {
        1
    } else {
        128 * vint_marker((n - 1) as nat)
    }
}

/// The first value that no VINT of up to eight bytes can hold.
pub open spec fn vint_limit() -> nat {
    0x100_0000_0000_0000
}

/// The number of bytes of the shortest VINT that holds `v`.
pub open spec fn vint_len(v: nat) -> nat {
    if v < 0x80 {
        1
    } else if v < 0x4000 {
        2
    } else if v < 0x20_0000 {
        3
    } else if v < 0x1000_0000 {
        4
    } else if v < 0x8_0000_0000 {
        5
    } else if v < 0x400_0000_0000 {
        6
    } else if v < 0x2_0000_0000_0000 {
        7
    } else {
        8
    }
}

/// `v` as a VINT. A value of `vint_limit()` or more has none: it comes out
/// as its eight bytes behind a byte that is the complement of its bit 56.
pub open spec fn vint_bytes(v: nat) -> Seq<u8> {
    if v < vint_limit() {
        be_bytes(v + vint_marker(vint_len(v)), vint_len(v))
    } else {
        seq![if (v / vint_limit()) % 2 == 0 { 1u8 } else { 0u8 }] + be_bytes(v, 8)
    }
}

/// The length of the VINT that starts with the byte `first`: one more than
/// its leading zero bits.
pub open spec fn vint_width(first: u8) -> nat {
    if first >= 0x80 {
        1
    } else if first >= 0x40 {
        2
    } else if first >= 0x20 {
        3
    } else if first >= 0x10 {
        4
    } else if first >= 0x08 {
        5
    } else if first >= 0x04 {
        6
    } else if first >= 0x02 {
        7
    } else if first >= 0x01 {
        8
    } else {
        9
    }
}

/// What the VINT at the front of `data` reads as: its value and its length.
pub open spec fn vint_at(data: Seq<u8>) -> Result<(nat, nat), VintError> {
    if data.len() == 0 {
        Err(VintError::Empty)
    } else {
        let n = vint_width(data[0]);
        if n > 8 || data.len() < n {
            Err(VintError::InvalidLength)
        } else {
            Ok(((be_value(data.take(n as int)) - vint_marker(n)) as nat, n))
        }
    }
}

/// Whether a size that reads as `len`, from a VINT of `size` bytes, stands for
/// an unknown size: all bits of its payload are ones.
pub open spec fn is_unknown_size(len: nat, size: nat) -> bool {
    len + 1 == vint_marker(size)
}

/// Whether the 64 bits `bits` are the IEEE 754 double of the integer `n`:
/// sign 0, an exponent `e` biased by 1023, and a fraction of 52 bits that,
/// with the implicit leading one, is `n` scaled by `2^(52 - e)`.
pub open spec fn is_binary64(bits: nat, n: nat) -> bool {
    if n == 0 {
        bits == 0
    } else {
        let e = bits / 0x10_0000_0000_0000 - 1023;
        let fraction = bits % 0x10_0000_0000_0000;
        0 <= e <= 52 && 0x10_0000_0000_0000 + fraction == n * power2::pow2((52 - e) as nat)
    }
}

/// The bits of the IEEE 754 double of `n`.
pub open spec fn binary64(n: nat) -> nat {
    choose|bits: nat| is_binary64(bits, n)
}

/// The IEEE 754 double of `n`, most significant byte first.
pub open spec fn float64_bytes(n: nat) -> Seq<u8> {
    be_bytes(binary64(n), 8)
}

/// An EBML element: its ID, the length of its data as a VINT, its data.
pub open spec fn element_bytes(id: Seq<u8>, data: Seq<u8>) -> Seq<u8> {
    id + vint_bytes(data.len()) + data
}

/// Why no VINT could be read.
#[derive(Debug, Clone, Copy, PartialEq, Eq, Structural)]
pub enum VintError {
    /// There was no byte to read.
    Empty,
    /// The first byte announces more than eight bytes, or more than there are.
    InvalidLength,
}

impl VintError {
    /// The error as a message.
    pub fn message(&self) -> (r: &'static str)
        ensures
            r@ == (match *self {
                VintError::Empty => "Empty VINT"@,
                VintError::InvalidLength => "Invalid VINT length"@,
            }),
    {
        match self {
            VintError::Empty => "Empty VINT",
            VintError::InvalidLength => "Invalid VINT length",
        }
    }
}

proof fn lemma_pow256_values()
    ensures
        pow256(0) == 1,
        pow256(1) == 0x100,
        pow256(2) == 0x1_0000,
        pow256(3) == 0x100_0000,
        pow256(4) == 0x1_0000_0000,
        pow256(5) == 0x100_0000_0000,
        pow256(6) == 0x1_0000_0000_0000,
        pow256(7) == 0x100_0000_0000_0000,
        pow256(8) == 0x1_0000_0000_0000_0000,
{
    reveal_with_fuel(pow256, 9);
}

proof fn lemma_marker_values()
    ensures
        vint_marker(1) == 0x80,
        vint_marker(2) == 0x4000,
        vint_marker(3) == 0x20_0000,
        vint_marker(4) == 0x1000_0000,
        vint_marker(5) == 0x8_0000_0000,
        vint_marker(6) == 0x400_0000_0000,
        vint_marker(7) == 0x2_0000_0000_0000,
        vint_marker(8) == 0x100_0000_0000_0000,
{
    reveal_with_fuel(vint_marker, 9);
}

/// The low `n` bytes of a number are `n` bytes.
pub proof fn lemma_be_bytes_len(v: nat, n: nat)
    ensures
        be_bytes(v, n).len() == n,
    decreases n,
{
    if n > 0 {
        lemma_be_bytes_len(v / 256, (n - 1) as nat);
    }
}

proof fn lemma_pow256_positive(n: nat)
    ensures
        pow256(n) >= 1,
    decreases n,
{
    if n > 0 {
        lemma_pow256_positive((n - 1) as nat);
    }
}

/// The big-endian bytes of a number that fits stand for that number.
pub proof fn be_bytes_read_back(v: nat, n: nat)
    requires
        v < pow256(n),
    ensures
        be_value(be_bytes(v, n)) == v,
    decreases n,
{
    if n > 0 {
        lemma_pow256_positive((n - 1) as nat);
        be_bytes_read_back(v / 256, (n - 1) as nat);
        let s = be_bytes(v, n);
        assert(s.drop_last() =~= be_bytes(v / 256, (n - 1) as nat));
    }
}

proof fn lemma_be_value_bound(s: Seq<u8>)
    ensures
        be_value(s) < pow256(s.len()),
    decreases s.len(),
{
    if s.len() > 0 {
        lemma_be_value_bound(s.drop_last());
    }
}

proof fn lemma_be_value_lower(s: Seq<u8>)
    requires
        s.len() > 0,
    ensures
        be_value(s) >= s[0] * pow256((s.len() - 1) as nat),
    decreases s.len(),
{
    if s.len() > 1 {
        let rest = s.drop_last();
        lemma_be_value_lower(rest);
        let p = pow256((rest.len() - 1) as nat);
        let b = s[0] as nat;
        assert(rest[0] == s[0]);
        assert(pow256(rest.len()) == 256 * p);
        assert((s.len() - 1) as nat == rest.len());
        assert(b * (256 * p) == (b * p) * 256) by (nonlinear_arith);
        assert(be_value(rest) >= b * p);
        assert(be_value(s) >= (b * p) * 256);
    } else {
        assert(s.drop_last().len() == 0);
        assert(s.last() == s[0]);
        assert(pow256(0) == 1);
        assert(be_value(s.drop_last()) == 0);
        assert(s[0] * pow256(0) == s[0]) by (nonlinear_arith)
            requires
                pow256(0) == 1,
        ;
    }
}

proof fn lemma_be_bytes_first(v: nat, n: nat)
    requires
        n > 0,
        v < pow256(n),
    ensures
        be_bytes(v, n).len() == n,
        be_bytes(v, n)[0] == v / pow256((n - 1) as nat),
    decreases n,
{
    lemma_be_bytes_len(v, n);
    if n > 1 {
        lemma_be_bytes_first(v / 256, (n - 1) as nat);
        lemma_pow256_positive((n - 2) as nat);
        vstd::arithmetic::div_mod::lemma_div_denominator(
            v as int,
            256,
            pow256((n - 2) as nat) as int,
        );
        lemma_be_bytes_len(v / 256, (n - 1) as nat);
    } else {
        lemma_pow256_values();
        assert(be_bytes(v / 256, 0).len() == 0);
    }
}

/// A number between the marker of `n` bytes and its double starts, in `n`
/// bytes, with a byte that announces `n` bytes.
proof fn lemma_width_of_quotient(raw: nat, n: nat)
    requires
        1 <= n <= 8,
        vint_marker(n) <= raw < 2 * vint_marker(n),
    ensures
        0 <= raw / pow256((n - 1) as nat) < 256,
        vint_width((raw / pow256((n - 1) as nat)) as u8) == n,
{
    lemma_marker_values();
    lemma_pow256_values();
    if n == 1 {
        assert(0x80 <= raw / 1 < 0x100);
    } else if n == 2 {
        assert(0x40 <= raw / 0x100 < 0x80);
    } else if n == 3 {
        assert(0x20 <= raw / 0x1_0000 < 0x40);
    } else if n == 4 {
        assert(0x10 <= raw / 0x100_0000 < 0x20);
    } else if n == 5 {
        assert(0x08 <= raw / 0x1_0000_0000 < 0x10);
    } else if n == 6 {
        assert(0x04 <= raw / 0x100_0000_0000 < 0x08);
    } else if n == 7 {
        assert(0x02 <= raw / 0x1_0000_0000_0000 < 0x04);
    } else {
        assert(0x01 <= raw / 0x100_0000_0000_0000 < 0x02);
    }
}

/// A byte that announces `n` bytes puts the number that they stand for at
/// the marker of `n` bytes or above.
proof fn lemma_width_gives_marker(first: u8, n: nat)
    requires
        n == vint_width(first),
        n <= 8,
    ensures
        first * pow256((n - 1) as nat) >= vint_marker(n),
{
    lemma_marker_values();
    lemma_pow256_values();
    if n == 1 {
        assert(first * 1 >= 0x80 * 1);
    } else if n == 2 {
        assert(first * 0x100 >= 0x40 * 0x100);
    } else if n == 3 {
        assert(first * 0x1_0000 >= 0x20 * 0x1_0000);
    } else if n == 4 {
        assert(first * 0x100_0000 >= 0x10 * 0x100_0000);
    } else if n == 5 {
        assert(first * 0x1_0000_0000 >= 0x08 * 0x1_0000_0000);
    } else if n == 6 {
        assert(first * 0x100_0000_0000 >= 0x04 * 0x100_0000_0000);
    } else if n == 7 {
        assert(first * 0x1_0000_0000_0000 >= 0x02 * 0x1_0000_0000_0000);
    } else {
        assert(first * 0x100_0000_0000_0000 >= 0x01 * 0x100_0000_0000_0000);
    }
}

/// A value below `vint_limit()` is encoded in `vint_len` bytes, and reading
/// the encoding, whatever bytes follow it, gives the value and that length
/// back.
pub proof fn vint_read_back(v: nat, rest: Seq<u8>)
    requires
        v < vint_limit(),
    ensures
        vint_bytes(v).len() == vint_len(v),
        vint_at(vint_bytes(v) + rest) == Ok::<(nat, nat), VintError>((v, vint_len(v))),
{
    let n = vint_len(v);
    let raw = v + vint_marker(n);
    lemma_marker_values();
    lemma_pow256_values();
    lemma_be_bytes_first(raw, n);
    be_bytes_read_back(raw, n);
    let s = vint_bytes(v) + rest;
    assert(s[0] == vint_bytes(v)[0]);
    assert(s.take(n as int) =~= vint_bytes(v));
    lemma_width_of_quotient(raw, n);
}

/// No VINT is longer than it has to be: its value fits in its length, and
/// would not fit in one byte less.
pub proof fn vint_is_shortest(v: nat)
    requires
        v < vint_limit(),
    ensures
        1 <= vint_len(v) <= 8,
        v < vint_marker(vint_len(v)),
        vint_len(v) > 1 ==> v >= vint_marker((vint_len(v) - 1) as nat),
{
    lemma_marker_values();
}

/// Two values below `vint_limit()` have different VINTs, even with other
/// bytes behind them.
pub proof fn vint_is_prefix_free(a: nat, b: nat, rest_a: Seq<u8>, rest_b: Seq<u8>)
    requires
        a < vint_limit(),
        b < vint_limit(),
        vint_bytes(a) + rest_a == vint_bytes(b) + rest_b,
    ensures
        a == b,
        rest_a == rest_b,
{
    vint_read_back(a, rest_a);
    vint_read_back(b, rest_b);
    let n = vint_len(a) as int;
    assert(rest_a =~= (vint_bytes(a) + rest_a).skip(n));
    assert(rest_b =~= (vint_bytes(b) + rest_b).skip(n));
}

/// The VINT of a small number has one byte and is no unknown size.
pub proof fn lemma_small_size(len: nat)
    requires
        len < 0x7F,
    ensures
        vint_bytes(len).len() == 1,
        vint_len(len) == 1,
        !is_unknown_size(len, 1),
{
    lemma_vint_bytes_len(len);
    lemma_marker_values();
}

/// A VINT has `vint_len` bytes.
pub proof fn lemma_vint_bytes_len(v: nat)
    requires
        v < vint_limit(),
    ensures
        vint_bytes(v).len() == vint_len(v),
{
    lemma_be_bytes_len(v + vint_marker(vint_len(v)), vint_len(v));
}

proof fn lemma_uint_len_bounds(v: nat)
    ensures
        uint_len(v) >= 1,
        v < pow256(uint_len(v)),
        v > 0 ==> v >= pow256((uint_len(v) - 1) as nat),
    decreases v,
{
    if v < 256 {
        lemma_pow256_values();
    } else {
        lemma_uint_len_bounds(v / 256);
        let n = uint_len(v / 256);
        assert(uint_len(v) == n + 1);
        assert(pow256(n) == 256 * pow256((n - 1) as nat));
    }
}

/// An encoded unsigned integer stands for its value, and starts with a zero
/// byte only where it is the single byte of zero.
pub proof fn uint_read_back(v: nat)
    ensures
        be_value(uint_bytes(v)) == v,
        uint_bytes(v).len() == uint_len(v),
        uint_bytes(v)[0] == 0 <==> v == 0,
{
    let n = uint_len(v);
    lemma_uint_len_bounds(v);
    be_bytes_read_back(v, n);
    lemma_be_bytes_first(v, n);
    let p = pow256((n - 1) as nat);
    lemma_pow256_positive((n - 1) as nat);
    if v > 0 {
        assert(v / p >= 1) by (nonlinear_arith)
            requires
                v >= p,
                p >= 1,
        ;
    } else {
        assert(v / p == 0) by (nonlinear_arith)
            requires
                v == 0,
                p >= 1,
        ;
    }
}

/// An unsigned integer of 64 bits takes at most eight bytes.
pub proof fn lemma_uint_len_u64(v: u64)
    ensures
        1 <= uint_len(v as nat) <= 8,
{
    reveal_with_fuel(uint_len, 9);
}

/// The data of an element can be told from what follows it: behind the ID,
/// the VINT gives the length of the data.
pub proof fn element_read_back(id: Seq<u8>, data: Seq<u8>, rest: Seq<u8>)
    requires
        data.len() < vint_limit(),
    ensures
        ({
            let behind_id = (element_bytes(id, data) + rest).skip(id.len() as int);
            let n = vint_len(data.len()) as int;
            &&& (element_bytes(id, data) + rest).take(id.len() as int) == id
            &&& vint_at(behind_id) == Ok::<(nat, nat), VintError>((data.len(), n as nat))
            &&& behind_id.skip(n) == data + rest
        }),
{
    let whole = element_bytes(id, data) + rest;
    let behind_id = whole.skip(id.len() as int);
    let size = vint_bytes(data.len());
    vint_read_back(data.len(), data + rest);
    assert(whole.take(id.len() as int) =~= id);
    assert(behind_id =~= size + (data + rest));
    assert(behind_id.skip(size.len() as int) =~= data + rest);
}

proof fn lemma_pow2_values()
    ensures
        power2::pow2(0) == 1,
        power2::pow2(52) == 0x10_0000_0000_0000,
{
    power2::lemma2_to64();
    power2::lemma2_to64_rest();
}

/// No integer has two doubles.
pub proof fn binary64_is_unique(a: nat, b: nat, n: nat)
    requires
        is_binary64(a, n),
        is_binary64(b, n),
    ensures
        a == b,
{
    if n > 0 {
        let w: nat = 0x10_0000_0000_0000;
        let ka = (52 - (a / w - 1023)) as nat;
        let kb = (52 - (b / w - 1023)) as nat;
        if ka < kb {
            lemma_scaled_apart(n, ka, kb);
        } else if kb < ka {
            lemma_scaled_apart(n, kb, ka);
        }
        assert(ka == kb);
        assert(a == (a / w) * w + a % w) by (nonlinear_arith)
            requires
                w == 0x10_0000_0000_0000,
        ;
        assert(b == (b / w) * w + b % w) by (nonlinear_arith)
            requires
                w == 0x10_0000_0000_0000,
        ;
    }
}

/// No double is that of two integers.
pub proof fn binary64_is_injective(bits: nat, a: nat, b: nat)
    requires
        is_binary64(bits, a),
        is_binary64(bits, b),
    ensures
        a == b,
{
    if a > 0 && b > 0 {
        let k = (52 - (bits / 0x10_0000_0000_0000 - 1023)) as nat;
        power2::lemma_pow2_pos(k);
        let p = power2::pow2(k) as int;
        assert(a == b) by (nonlinear_arith)
            requires
                a * p == b * p,
                p > 0,
        ;
    }
}

proof fn lemma_scaled_apart(n: nat, lo: nat, hi: nat)
    requires
        lo < hi,
    ensures
        n * power2::pow2(hi) >= 2 * (n * power2::pow2(lo)),
{
    power2::lemma_pow2_unfold(hi);
    if lo < hi - 1 {
        power2::lemma_pow2_strictly_increases(lo, (hi - 1) as nat);
    }
    let p = power2::pow2((hi - 1) as nat) as int;
    let q = power2::pow2(lo) as int;
    assert(n * (2 * p) >= 2 * (n * q)) by (nonlinear_arith)
        requires
            p >= q,
            n >= 0,
    ;
}

proof fn lemma_binary64_found(value: nat, scaled: nat, exponent: nat)
    requires
        value >= 1,
        exponent <= 52,
        scaled == value * power2::pow2((52 - exponent) as nat),
        scaled < 0x20_0000_0000_0000,
    ensures
        exists|bits: nat| is_binary64(bits, value),
    decreases exponent,
{
    if scaled >= 0x10_0000_0000_0000 {
        let bits = ((1023 + exponent) * 0x10_0000_0000_0000 + (scaled
            - 0x10_0000_0000_0000)) as nat;
        assert(bits / 0x10_0000_0000_0000 == 1023 + exponent);
        assert(bits % 0x10_0000_0000_0000 == scaled - 0x10_0000_0000_0000);
        assert(is_binary64(bits, value));
    } else {
        lemma_scale_has_room(value, scaled, exponent);
        power2::lemma_pow2_unfold((53 - exponent) as nat);
        let p = power2::pow2((52 - exponent) as nat) as int;
        assert(value * (2 * p) == 2 * (value * p)) by (nonlinear_arith);
        lemma_binary64_found(value, 2 * scaled, (exponent - 1) as nat);
    }
}

/// An integer of 32 bits has a double, and the eight bytes of it stand for
/// that double.
pub proof fn float64_read_back(n: u32)
    ensures
        float64_bytes(n as nat).len() == 8,
        is_binary64(be_value(float64_bytes(n as nat)), n as nat),
{
    if n == 0 {
        assert(is_binary64(0, 0));
    } else {
        lemma_pow2_values();
        assert(n as nat * power2::pow2(0) == n);
        lemma_binary64_found(n as nat, n as nat, 52);
    }
    let bits = binary64(n as nat);
    assert(is_binary64(bits, n as nat));
    lemma_pow256_values();
    be_bytes_read_back(bits, 8);
    lemma_be_bytes_len(bits, 8);
}

/// The big-endian bytes of the low `n` bytes of `v`.
pub fn encode_be(v: u64, n: usize) -> (r: Vec<u8>)
    ensures
        r@ == be_bytes(v as nat, n as nat),
    decreases n,
{
    if n == 0 {
        Vec::new()
    } else {
        let mut bytes = encode_be(v / 256, n - 1);
        bytes.push((v % 256) as u8);
        bytes
    }
}

/// Encode a value as VINT (variable-length integer for element content).
pub fn encode_vint_value(value: u64) -> (r: Vec<u8>)
    ensures
        r@ == vint_bytes(value as nat),
{
    proof {
        lemma_marker_values();
    }
    if value < 0x80 {
        encode_be(value + 0x80, 1)
    } else if value < 0x4000 {
        encode_be(value + 0x4000, 2)
    } else if value < 0x20_0000 {
        encode_be(value + 0x20_0000, 3)
    } else if value < 0x1000_0000 {
        encode_be(value + 0x1000_0000, 4)
    } else if value < 0x8_0000_0000 {
        encode_be(value + 0x8_0000_0000, 5)
    } else if value < 0x400_0000_0000 {
        encode_be(value + 0x400_0000_0000, 6)
    } else if value < 0x2_0000_0000_0000 {
        encode_be(value + 0x2_0000_0000_0000, 7)
    } else if value < 0x100_0000_0000_0000 {
        encode_be(value + 0x100_0000_0000_0000, 8)
    } else {
        let mut bytes = encode_be(value, 8);
        let lead: u8 = if (value / 0x100_0000_0000_0000) % 2 == 0 {
            1
        } else {
            0
        };
        bytes.insert(0, lead);
        assert(bytes@ =~= seq![lead] + be_bytes(value as nat, 8));
        bytes
    }
}

/// Encode a size value as VINT for element size field.
pub fn encode_vint_size(value: u64) -> (r: Vec<u8>)
    ensures
        r@ == vint_bytes(value as nat),
{
    encode_vint_value(value)
}

proof fn lemma_be_bytes_drop(v: nat, high: nat, n: nat)
    ensures
        be_bytes(v + high * pow256(n), n) == be_bytes(v, n),
    decreases n,
{
    if n > 0 {
        let m = (n - 1) as nat;
        let added = high * pow256(m);
        assert(high * (256 * pow256(m)) == 256 * added) by (nonlinear_arith)
            requires
                added == high * pow256(m),
        ;
        assert((v + 256 * added) / 256 == v / 256 + added);
        assert((v + 256 * added) % 256 == v % 256);
        lemma_be_bytes_drop(v / 256, high, m);
    }
}

/// Encode the sum of two sizes as VINT for element size field, also where the
/// sum takes more than 64 bits.
pub fn encode_vint_sum(a: u64, b: u64) -> (r: Vec<u8>)
    ensures
        r@ == vint_bytes((a + b) as nat),
{
    match a.checked_add(b) {
        Some(sum) => encode_vint_size(sum),
        None => {
            let low: u64 = a.wrapping_add(b);
            let lead: u8 = if (low / 0x100_0000_0000_0000) % 2 == 0 {
                1
            } else {
                0
            };
            let mut bytes = encode_be(low, 8);
            bytes.insert(0, lead);
            proof {
                lemma_pow256_values();
                lemma_be_bytes_drop(low as nat, 1, 8);
                assert(a + b == low + 0x1_0000_0000_0000_0000);
                assert(bytes@ =~= seq![lead] + be_bytes(low as nat, 8));
            }
            bytes
        },
    }
}

fn count_uint_bytes(value: u64) -> (n: usize)
    ensures
        n == uint_len(value as nat),
        1 <= n <= 8,
    decreases value,
{
    proof {
        lemma_uint_len_u64(value);
    }
    if value < 256 {
        1
    } else {
        1 + count_uint_bytes(value / 256)
    }
}

/// Encode an unsigned integer using minimal bytes.
pub fn encode_uint(value: u64) -> (r: Vec<u8>)
    ensures
        r@ == uint_bytes(value as nat),
{
    let n = count_uint_bytes(value);
    encode_be(value, n)
}

/// Encode an integer as a 64-bit float (IEEE 754 big-endian).
pub fn encode_float64(value: u32) -> (r: Vec<u8>)
    ensures
        r@ == float64_bytes(value as nat),
        is_binary64(be_value(r@), value as nat),
{
    if value == 0 {
        proof {
            float64_read_back(value);
        }
        return encode_be(0, 8);
    }
    let mut scaled: u64 = value as u64;
    let mut exponent: u64 = 52;
    proof {
        lemma_pow2_values();
        assert(value * power2::pow2(0) == value);
    }
    while scaled < 0x10_0000_0000_0000
        invariant
            0 < value <= scaled < 0x20_0000_0000_0000,
            exponent <= 52,
            scaled == value * power2::pow2((52 - exponent) as nat),
        decreases exponent, 0x20_0000_0000_0000 - scaled,
    {
        proof {
            lemma_scale_has_room(value as nat, scaled as nat, exponent as nat);
            power2::lemma_pow2_unfold((53 - exponent) as nat);
            let p = power2::pow2((52 - exponent) as nat) as int;
            assert(value * (2 * p) == 2 * (value * p)) by (nonlinear_arith);
        }
        scaled = scaled * 2;
        exponent = exponent - 1;
    }
    let bits: u64 = (1023 + exponent) * 0x10_0000_0000_0000 + (scaled - 0x10_0000_0000_0000);
    proof {
        let b = bits as nat;
        assert(b / 0x10_0000_0000_0000 == 1023 + exponent);
        assert(b % 0x10_0000_0000_0000 == scaled - 0x10_0000_0000_0000);
        assert(is_binary64(b, value as nat));
        binary64_is_unique(b, binary64(value as nat), value as nat);
        float64_read_back(value);
    }
    encode_be(bits, 8)
}

proof fn lemma_scale_has_room(value: nat, scaled: nat, exponent: nat)
    requires
        value >= 1,
        exponent <= 52,
        scaled == value * power2::pow2((52 - exponent) as nat),
        scaled < 0x10_0000_0000_0000,
    ensures
        exponent >= 1,
{
    lemma_pow2_values();
    if exponent == 0 {
        assert(value * power2::pow2(52) >= power2::pow2(52)) by (nonlinear_arith)
            requires
                value >= 1,
        ;
    }
}

/// Read a VINT from the front of `data`: its value and its length.
pub fn parse_vint(data: &[u8]) -> (r: Result<(u64, usize), VintError>)
    ensures
        match r {
            Ok(pair) => vint_at(data@) == Ok::<(nat, nat), VintError>(
                (pair.0 as nat, pair.1 as nat),
            ),
            Err(e) => vint_at(data@) == Err::<(nat, nat), VintError>(e),
        },
{
    if data.len() == 0 {
        return Err(VintError::Empty);
    }
    let first = data[0];
    let width = vint_width_of(first);
    if width > 8 || data.len() < width {
        return Err(VintError::InvalidLength);
    }
    let mut raw: u64 = 0;
    let mut i: usize = 0;
    assert(data@.take(0) =~= Seq::<u8>::empty());
    while i < width
        invariant
            i <= width <= 8,
            width <= data@.len(),
            raw == be_value(data@.take(i as int)),
        decreases width - i,
    {
        proof {
            let next = data@.take(i + 1);
            assert(next.drop_last() =~= data@.take(i as int));
            lemma_be_value_bound(next);
            lemma_pow256_values();
        }
        raw = raw * 256 + data[i] as u64;
        i = i + 1;
    }
    let marker = vint_marker_of(width);
    proof {
        let s = data@.take(width as int);
        lemma_be_value_lower(s);
        lemma_width_gives_marker(first, width as nat);
    }
    Ok((raw - marker, width))
}

fn vint_width_of(first: u8) -> (n: usize)
    ensures
        n == vint_width(first),
{
    if first >= 0x80 {
        1
    } else if first >= 0x40 {
        2
    } else if first >= 0x20 {
        3
    } else if first >= 0x10 {
        4
    } else if first >= 0x08 {
        5
    } else if first >= 0x04 {
        6
    } else if first >= 0x02 {
        7
    } else if first >= 0x01 {
        8
    } else {
        9
    }
}

fn vint_marker_of(n: usize) -> (m: u64)
    requires
        1 <= n <= 8,
    ensures
        m == vint_marker(n as nat),
    decreases n,
{
    proof {
        lemma_marker_values();
    }
    if n == 1 {
        0x80
    } else {
        vint_marker_of(n - 1) * 128
    }
}

/// A byte in front counts as often as the bytes behind it have values.
pub proof fn leading_byte_counts_most(first: u8, rest: Seq<u8>)
    ensures
        be_value(seq![first] + rest) == first * vstd::arithmetic::power::pow(256, rest.len())
            + be_value(rest),
        be_value(Seq::empty()) == 0,
    decreases rest.len(),
{
    let s = seq![first] + rest;
    if rest.len() == 0 {
        vstd::arithmetic::power::lemma_pow0(256);
        assert(s.drop_last() =~= Seq::empty());
        assert(be_value(s.drop_last()) == 0);
        assert(s.last() == first);
    } else {
        leading_byte_counts_most(first, rest.drop_last());
        assert(s.drop_last() =~= seq![first] + rest.drop_last());
        let n = rest.drop_last().len();
        let p = vstd::arithmetic::power::pow(256, n);
        reveal(vstd::arithmetic::power::pow);
        assert(vstd::arithmetic::power::pow(256, rest.len()) == 256 * p);
        assert((first * p) * 256 == first * (256 * p)) by (nonlinear_arith);
        assert(s.last() == rest.last());
    }
}

/// The bytes of a number are as many as were asked for, and stand for what of
/// the number fits in them.
pub proof fn low_bytes_are_kept(v: nat, n: nat)
    ensures
        be_bytes(v, n).len() == n,
        be_value(be_bytes(v, n)) as int == v as int % vstd::arithmetic::power::pow(256, n),
{
    lemma_be_bytes_len(v, n);
    lemma_pow256_is_power(n);
    lemma_pow256_positive(n);
    let p = pow256(n);
    let low = v % p;
    let high = v / p;
    vstd::arithmetic::div_mod::lemma_fundamental_div_mod(v as int, p as int);
    assert(p * high == high * p) by (nonlinear_arith);
    assert(v == low + high * p);
    lemma_be_bytes_drop(low, high, n);
    be_bytes_read_back(low, n);
}

proof fn lemma_pow256_is_power(n: nat)
    ensures
        pow256(n) == vstd::arithmetic::power::pow(256, n),
    decreases n,
{
    reveal(vstd::arithmetic::power::pow);
    if n > 0 {
        lemma_pow256_is_power((n - 1) as nat);
    }
}

proof fn lemma_marker_is_power(n: nat)
    requires
        n <= 8,
    ensures
        vint_marker(n) == power2::pow2(7 * n),
{
    lemma_marker_values();
    assert(vint_marker(0) == 1);
    power2::lemma2_to64();
    power2::lemma2_to64_rest();
}

/// A VINT has seven bits of value in each byte, and one bit more that marks its
/// length.
pub proof fn vint_has_seven_bits_a_byte(v: nat)
    requires
        v < 0x100_0000_0000_0000,
    ensures
        1 <= vint_bytes(v).len() <= 8,
        v < power2::pow2(7 * vint_bytes(v).len()),
        vint_bytes(v).len() > 1 ==> v >= power2::pow2((7 * vint_bytes(v).len() - 7) as nat),
        be_value(vint_bytes(v)) == v + power2::pow2(7 * vint_bytes(v).len()),
{
    let n = vint_len(v);
    vint_is_shortest(v);
    lemma_vint_bytes_len(v);
    lemma_marker_is_power(n);
    lemma_marker_is_power((n - 1) as nat);
    lemma_marker_values();
    lemma_pow256_values();
    be_bytes_read_back(v + vint_marker(n), n);
    assert(7 * (n - 1) == 7 * n - 7);
}

/// A VINT is read by the length that it marks, also where it is longer than its
/// value needs.
pub proof fn long_vint_is_read(v: nat, n: nat, rest: Seq<u8>)
    requires
        1 <= n <= 8,
        v < power2::pow2(7 * n),
    ensures
        vint_at(be_bytes(v + power2::pow2(7 * n), n) + rest) == Ok::<(nat, nat), VintError>((v, n)),
{
    let raw = v + power2::pow2(7 * n);
    lemma_marker_is_power(n);
    lemma_marker_values();
    lemma_pow256_values();
    lemma_be_bytes_first(raw, n);
    be_bytes_read_back(raw, n);
    let s = be_bytes(raw, n) + rest;
    assert(s[0] == be_bytes(raw, n)[0]);
    assert(s.take(n as int) =~= be_bytes(raw, n));
    lemma_width_of_quotient(raw, n);
}

/// No VINT is read from no bytes, from bytes that start with a zero, and from
/// fewer bytes than the first one announces. A byte announces one byte more for
/// each power of two that it stays below.
pub proof fn vint_may_be_missing(data: Seq<u8>, n: nat)
    ensures
        data.len() == 0 <==> vint_at(data) == Err::<(nat, nat), VintError>(VintError::Empty),
        data.len() > 0 && data[0] == 0 ==> vint_at(data) == Err::<(nat, nat), VintError>(
            VintError::InvalidLength,
        ),
        data.len() > 0 && 1 <= n <= 8 && power2::pow2((8 - n) as nat) <= data[0] < power2::pow2(
            (9 - n) as nat,
        ) ==> (data.len() < n <==> vint_at(data) == Err::<(nat, nat), VintError>(
            VintError::InvalidLength,
        )) && (vint_at(data) matches Ok((_, size)) ==> size == n),
{
    power2::lemma2_to64();
    if data.len() > 0 && 1 <= n <= 8 && power2::pow2((8 - n) as nat) <= data[0] < power2::pow2(
        (9 - n) as nat,
    ) {
        assert(vint_width(data[0]) == n);
    }
}

/// A number of 64 bits that is too large for a VINT comes out as its eight bytes
/// behind a ninth one, the complement of its bit 56.
pub proof fn oversized_vint_is_nine_bytes(v: u64)
    requires
        v >= 0x100_0000_0000_0000,
    ensures
        vint_bytes(v as nat).len() == 9,
        be_value(vint_bytes(v as nat).skip(1)) == v,
        vint_bytes(v as nat)[0] + (v / 0x100_0000_0000_0000) % 2 == 1,
{
    lemma_pow256_values();
    lemma_be_bytes_len(v as nat, 8);
    be_bytes_read_back(v as nat, 8);
    assert(vint_bytes(v as nat).skip(1) =~= be_bytes(v as nat, 8));
}

/// The double of a number between two powers of two has the lower one's exponent,
/// biased by 1023, above the 52 bits in which what is left of the number stands.
pub proof fn binary64_has_exponent_and_fraction(n: nat, e: nat)
    requires
        e <= 52,
        power2::pow2(e) <= n < 2 * power2::pow2(e),
    ensures
        is_binary64(
            ((1023 + e) * 0x10_0000_0000_0000 + (n - power2::pow2(e)) * power2::pow2(
                (52 - e) as nat,
            )) as nat,
            n,
        ),
{
    let low = power2::pow2(e) as int;
    let scale = power2::pow2((52 - e) as nat) as int;
    lemma_pow2_values();
    power2::lemma_pow2_adds(e, (52 - e) as nat);
    power2::lemma_pow2_pos(e);
    power2::lemma_pow2_pos((52 - e) as nat);
    assert(low * scale == 0x10_0000_0000_0000);
    let fraction = (n - low) * scale;
    assert(0 <= fraction < low * scale) by (nonlinear_arith)
        requires
            0 <= n - low < low,
            scale > 0,
            fraction == (n - low) * scale,
    ;
    assert(low * scale + fraction == n * scale) by (nonlinear_arith)
        requires
            fraction == (n - low) * scale,
    ;
    let bits = ((1023 + e) * 0x10_0000_0000_0000 + fraction) as nat;
    assert(bits / 0x10_0000_0000_0000 == 1023 + e);
    assert(bits % 0x10_0000_0000_0000 == fraction);
}

} // verus!
