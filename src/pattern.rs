//! Ternary ID patterns: runs of `0`, `1` and `*` (wildcard), with optional `_`
//! separators, over an 11-bit or a 29-bit CAN identifier.
use vstd::prelude::*;

use crate::codec::Ser;
use crate::error::Error;

verus! {

pub open spec fn is_digit_byte(b: u8) -> bool {
    b == '0' as u8 || b == '1' as u8 || b == '*' as u8
}

pub open spec fn is_pattern_byte(b: u8) -> bool {
    b == '0' as u8 || b == '1' as u8 || b == '*' as u8 || b == '_' as u8
}

/// The pattern without its `_` separators.
pub open spec fn strip(p: Seq<u8>) -> Seq<u8>
    decreases p.len(),
{
    if p.len() == 0 {
        Seq::empty()
    } else if p.last() == '_' as u8 {
        strip(p.drop_last())
    } else {
        strip(p.drop_last()).push(p.last())
    }
}

pub open spec fn valid_pattern(p: Seq<u8>) -> bool {
    &&& forall|i: int| 0 <= i < p.len() ==> #[trigger] is_pattern_byte(p[i])
    &&& (strip(p).len() == 11 || strip(p).len() == 29)
}

/// The number whose binary digits (most significant first) are 1 exactly where `cs` holds `c`.
pub open spec fn value_of(cs: Seq<u8>, c: u8) -> nat
    decreases cs.len(),
{
    if cs.len() == 0 {
        0
    } else {
        2 * value_of(cs.drop_last(), c) + (if cs.last() == c {
            1nat
        } else {
            0nat
        })
    }
}

/// The number of bits of an identifier: 29 for an extended one, 11 for a standard one.
pub open spec fn width(extended: bool) -> nat {
    if extended {
        29
    } else {
        11
    }
}

/// All bits of an identifier of the given kind.
pub open spec fn id_mask(extended: bool) -> u32 {
    if extended {
        0x1FFF_FFFF
    } else {
        0x7FF
    }
}

/// What a pattern stands for: whether it is extended, and the masks of its `1` and `0` digits.
pub open spec fn parse_pattern(p: Seq<u8>) -> Result<(bool, u32, u32), Error> {
    if valid_pattern(p) {
        let cs = strip(p);
        Ok((cs.len() == 29, value_of(cs, '1' as u8) as u32, value_of(cs, '0' as u8) as u32))
    } else {
        Err(Error::ParseError)
    }
}

/// Bit `i` of `x`.
pub open spec fn bit(x: u32, i: int) -> bool {
    (x >> (i as u32)) & 1u32 == 1u32
}

pub open spec fn digit_char(one: bool, zero: bool) -> u8 {
    if one {
        '1' as u8
    } else if zero {
        '0' as u8
    } else {
        '*' as u8
    }
}

/// The digits of a pattern, most significant first.
pub open spec fn digits(extended: bool, ones: u32, zeros: u32) -> Seq<u8> {
    let n = width(extended);
    Seq::new(n, |k: int| digit_char(bit(ones, n - 1 - k), bit(zeros, n - 1 - k)))
}

/// The first `k` digits of a pattern of `n`, with `_` before each group of four counted
/// from the least significant end.
pub open spec fn group_prefix(cs: Seq<u8>, k: nat, n: nat) -> Seq<u8>
    decreases k,
{
    if k == 0 {
        Seq::empty()
    } else {
        group_prefix(cs, (k - 1) as nat, n) + (if k - 1 > 0 && (n - (k - 1)) % 4 == 0 {
            seq!['_' as u8]
        } else {
            Seq::empty()
        }) + seq![cs[k - 1]]
    }
}

/// The canonical form of a run of digits: `_` every four digits from the right.
pub open spec fn canonical(cs: Seq<u8>) -> Seq<u8> {
    group_prefix(cs, cs.len(), cs.len())
}

pub open spec fn emit_pattern(extended: bool, ones: u32, zeros: u32) -> Seq<u8> {
    canonical(digits(extended, ones, zeros))
}

/// Whether `id` has a 1 wherever `ones` has one and a 0 wherever `zeros` has one, within
/// the identifier's width.
pub open spec fn id_matches(id: u32, ones: u32, zeros: u32, extended: bool) -> bool {
    (id & ones) == ones && ((!id & id_mask(extended)) & zeros) == zeros
}

/// Applies the mask test of a ternary pattern to an identifier.
pub fn check(id: u32, ones: u32, zeros: u32, extended: bool) -> (r: bool)
    ensures
        r == id_matches(id, ones, zeros, extended),
{
    let mask: u32 = if extended { 0x1FFF_FFFF } else { 0x7FF };
    (id & ones) == ones && ((!id & mask) & zeros) == zeros
}

/// Parses a ternary pattern into whether it is extended and the masks of its `1` and `0`
/// digits.
#[verifier::spinoff_prover]
pub fn get_ones_zeros(bytes: &[u8]) -> (r: Result<(bool, u32, u32), Error>)
    ensures
        r == parse_pattern(bytes@),
{
    let mut bit_cnt: usize = 0;
    let mut i: usize = 0;
    while i < bytes.len()
        invariant
            i <= bytes@.len(),
            forall|k: int| 0 <= k < i ==> #[trigger] is_pattern_byte(bytes@[k]),
            bit_cnt == strip(bytes@.subrange(0, i as int)).len(),
            bit_cnt <= i,
        decreases bytes@.len() - i,
    {
        let b = bytes[i];
        if b == 48 || b == 49 || b == 42 {
            bit_cnt += 1;
        } else if b != 95 {
            assert(!is_pattern_byte(bytes@[i as int]));
            return Err(Error::ParseError);
        }
        assert(bytes@.subrange(0, i + 1).drop_last() =~= bytes@.subrange(0, i as int));
        i += 1;
    }
    assert(bytes@.subrange(0, bytes@.len() as int) =~= bytes@);
    let extended = if bit_cnt == 11 {
        false
    } else if bit_cnt == 29 {
        true
    } else {
        return Err(Error::ParseError);
    };
    let ghost cs = strip(bytes@);
    let mut ones: u32 = 0;
    let mut zeros: u32 = 0;
    let mut i: usize = 0;
    while i < bytes.len()
        invariant
            i <= bytes@.len(),
            cs == strip(bytes@),
            cs.len() == 11 || cs.len() == 29,
            ones as nat == value_of(strip(bytes@.subrange(0, i as int)), '1' as u8),
            zeros as nat == value_of(strip(bytes@.subrange(0, i as int)), '0' as u8),
            strip(bytes@.subrange(0, i as int)).len() <= cs.len(),
        decreases bytes@.len() - i,
    {
        let b = bytes[i];
        let ghost p = bytes@.subrange(0, i as int);
        let ghost q = bytes@.subrange(0, i + 1);
        assert(q.drop_last() =~= p);
        proof {
            lemma_strip_prefix_len(bytes@, i + 1);
            lemma_value_bound(strip(p), '1' as u8);
            lemma_value_bound(strip(p), '0' as u8);
            if b != 95 {
                assert(strip(q) == strip(p).push(b));
                assert(strip(q).drop_last() =~= strip(p));
                lemma_two_pow_mono(strip(p).len(), 28);
                lemma_two_pow_28();
            }
        }
        if b != 95 {
            ones = ones * 2;
            zeros = zeros * 2;
        }
        if b == 48 {
            zeros = zeros + 1;
        } else if b == 49 {
            ones = ones + 1;
        }
        i += 1;
    }
    assert(bytes@.subrange(0, bytes@.len() as int) =~= bytes@);
    Ok((extended, ones, zeros))
}

/// The canonical text of a pattern.
pub fn pattern_bytes(extended: bool, ones: u32, zeros: u32) -> (r: Vec<u8>)
    ensures
        r@ == emit_pattern(extended, ones, zeros),
{
    let n: u32 = if extended { 29 } else { 11 };
    let ghost cs = digits(extended, ones, zeros);
    let mut out: Vec<u8> = Vec::new();
    let mut k: u32 = 0;
    while k < n
        invariant
            n == width(extended),
            cs == digits(extended, ones, zeros),
            k <= n,
            out@ == group_prefix(cs, k as nat, n as nat),
        decreases n - k,
    {
        let ghost before = out@;
        if k > 0 && (n - k) % 4 == 0 {
            out.push(95);
        }
        let i = n - 1 - k;
        let one = (ones >> i) & 1 == 1;
        let zero = (zeros >> i) & 1 == 1;
        out.push(
            if one {
                49
            } else if zero {
                48
            } else {
                42
            },
        );
        assert(cs[k as int] == digit_char(bit(ones, i as int), bit(zeros, i as int)));
        k += 1;
        assert(out@ =~= group_prefix(cs, k as nat, n as nat));
    }
    out
}

/// Appends the canonical text of a pattern.
pub fn add_ones_zeros<const CAP: usize>(
    ser: &mut Ser<CAP>,
    extended: bool,
    ones: u32,
    zeros: u32,
) -> (r: Result<(), Error>)
    ensures
        Ser::<CAP>::appended(old(ser)@, final(ser)@, emit_pattern(extended, ones, zeros), r),
{
    let p = pattern_bytes(extended, ones, zeros);
    ser.add_slice(p.as_slice())
}

pub open spec fn two_pow(n: nat) -> nat
    decreases n,
{
    if n == 0 {
        1
    } else {
        2 * two_pow((n - 1) as nat)
    }
}

pub proof fn lemma_two_pow_28()
    ensures
        two_pow(28) == 0x1000_0000,
{
    reveal_with_fuel(two_pow, 29);
}

pub proof fn lemma_two_pow_mono(a: nat, b: nat)
    requires
        a <= b,
    ensures
        two_pow(a) <= two_pow(b),
    decreases b,
{
    if a < b {
        lemma_two_pow_mono(a, (b - 1) as nat);
    }
}

pub proof fn lemma_value_bound(cs: Seq<u8>, c: u8)
    ensures
        value_of(cs, c) < two_pow(cs.len()),
    decreases cs.len(),
{
    if cs.len() > 0 {
        lemma_value_bound(cs.drop_last(), c);
    }
}

pub proof fn lemma_strip_prefix_len(p: Seq<u8>, i: int)
    requires
        0 <= i <= p.len(),
    ensures
        strip(p.subrange(0, i)).len() <= strip(p).len(),
    decreases p.len() - i,
{
    if i < p.len() {
        lemma_strip_prefix_len(p.drop_last(), i);
        assert(p.drop_last().subrange(0, i) =~= p.subrange(0, i));
    } else {
        assert(p.subrange(0, i) =~= p);
    }
}

/// Emitting what a valid pattern parses to gives back its digits, with `_` re-inserted
/// every four digits counted from the least significant end.
pub proof fn lemma_pattern_round_trip(p: Seq<u8>)
    requires
        valid_pattern(p),
    ensures
        parse_pattern(p) is Ok,
        ({
            let (e, o, z) = parse_pattern(p)->Ok_0;
            emit_pattern(e, o, z) == canonical(strip(p))
        }),
{
    let cs = strip(p);
    let n = cs.len();
    let (e, o, z) = parse_pattern(p)->Ok_0;
    lemma_strip_digits(p);
    lemma_value_bits(cs, '1' as u8);
    lemma_value_bits(cs, '0' as u8);
    assert(digits(e, o, z) =~= cs) by {
        assert forall|k: int| 0 <= k < n implies #[trigger] digits(e, o, z)[k] == cs[k] by {
            assert(bit(o, n - 1 - k) == (cs[k] == '1' as u8));
            assert(bit(z, n - 1 - k) == (cs[k] == '0' as u8));
        }
    }
}

/// The digits left after stripping separators are `0`, `1` or `*`.
pub proof fn lemma_strip_digits(p: Seq<u8>)
    requires
        forall|i: int| 0 <= i < p.len() ==> #[trigger] is_pattern_byte(p[i]),
    ensures
        forall|k: int| 0 <= k < strip(p).len() ==> is_digit_byte(#[trigger] strip(p)[k]),
    decreases p.len(),
{
    if p.len() > 0 {
        let d = p.drop_last();
        assert forall|i: int| 0 <= i < d.len() implies #[trigger] is_pattern_byte(d[i]) by {
            assert(is_pattern_byte(p[i]));
        }
        lemma_strip_digits(d);
        assert(is_pattern_byte(p[p.len() - 1]));
        if p.last() != '_' as u8 {
            assert(strip(p) == strip(d).push(p.last()));
        }
    }
}

proof fn lemma_shift_in(x: u32, y: u32, b: u32, j: u32)
    by (bit_vector)
    requires
        x < 0x4000_0000,
        b <= 1,
        y == x * 2 + b,
        1 <= j < 31,
    ensures
        ((y >> j) & 1u32 == 1u32) == ((x >> ((j - 1) as u32)) & 1u32 == 1u32),
        ((y >> 0u32) & 1u32 == 1u32) == (b == 1u32),
{
}

/// Bit `len - 1 - k` of `value_of(cs, c)` is set exactly where `cs[k]` is `c`.
#[verifier::spinoff_prover]
pub proof fn lemma_value_bits(cs: Seq<u8>, c: u8)
    requires
        cs.len() <= 29,
    ensures
        value_of(cs, c) < 0x2000_0000,
        forall|k: int|
            0 <= k < cs.len() ==> #[trigger] bit(value_of(cs, c) as u32, cs.len() - 1 - k) == (
            cs[k] == c),
    decreases cs.len(),
{
    lemma_value_bound(cs, c);
    lemma_two_pow_mono(cs.len(), 29);
    lemma_two_pow_28();
    if cs.len() > 0 {
        let d = cs.drop_last();
        lemma_value_bits(d, c);
        lemma_value_bound(d, c);
        lemma_two_pow_mono(d.len(), 28);
        let x = value_of(d, c) as u32;
        let y = value_of(cs, c) as u32;
        let b: u32 = if cs.last() == c { 1 } else { 0 };
        assert forall|k: int| 0 <= k < cs.len() implies #[trigger] bit(
            value_of(cs, c) as u32,
            cs.len() - 1 - k,
        ) == (cs[k] == c) by {
            let j = (cs.len() - 1 - k) as u32;
            if k < cs.len() - 1 {
                lemma_shift_in(x, y, b, j);
                assert(bit(x, d.len() - 1 - k) == (d[k] == c));
            } else {
                lemma_shift_in(x, y, b, 1);
            }
        }
    }
}

/// Masks that a pattern can stand for: within the identifier's width, and no bit both a
/// `1` and a `0`.
pub open spec fn masks_ok(extended: bool, ones: u32, zeros: u32) -> bool {
    &&& ones <= id_mask(extended)
    &&& zeros <= id_mask(extended)
    &&& ones & zeros == 0
}

/// Stripping the separators out of a canonical prefix gives the digits back.
#[verifier::spinoff_prover]
pub proof fn lemma_group_prefix(cs: Seq<u8>, k: nat, n: nat)
    requires
        k <= cs.len(),
        forall|i: int| 0 <= i < cs.len() ==> is_digit_byte(#[trigger] cs[i]),
    ensures
        strip(group_prefix(cs, k, n)) == cs.subrange(0, k as int),
        forall|i: int|
            0 <= i < group_prefix(cs, k, n).len() ==> is_pattern_byte(
                #[trigger] group_prefix(cs, k, n)[i],
            ),
    decreases k,
{
    if k > 0 {
        let km = (k - 1) as nat;
        lemma_group_prefix(cs, km, n);
        let g = group_prefix(cs, km, n);
        let sep: Seq<u8> = if km > 0 && (n - km) % 4 == 0 {
            seq!['_' as u8]
        } else {
            Seq::empty()
        };
        let whole = group_prefix(cs, k, n);
        assert(whole == g + sep + seq![cs[km as int]]);
        assert(is_digit_byte(cs[km as int]));
        assert(whole.drop_last() =~= g + sep);
        if sep.len() > 0 {
            assert((g + sep).drop_last() =~= g);
            assert((g + sep).last() == '_' as u8);
            assert(strip(g + sep) == strip(g));
        } else {
            assert(g + sep =~= g);
        }
        assert(whole.last() == cs[km as int]);
        assert(strip(whole) == strip(g).push(cs[km as int]));
        assert(cs.subrange(0, k as int) =~= cs.subrange(0, km as int).push(cs[km as int]));
        assert forall|i: int| 0 <= i < whole.len() implies is_pattern_byte(#[trigger] whole[i]) by {
            if i < g.len() {
                assert(whole[i] == g[i]);
            }
        }
    }
}

proof fn lemma_shift_out(x: u32, j: u32)
    by (bit_vector)
    requires
        j < 31,
    ensures
        (x >> (j + 1)) * 2 + ((x >> j) & 1u32) == x >> j,
        (x >> j) & 1u32 <= 1,
{
}

proof fn lemma_mask_shift(x: u32)
    by (bit_vector)
    ensures
        x <= 0x7FF ==> x >> 11u32 == 0,
        x <= 0x1FFF_FFFF ==> x >> 29u32 == 0,
        x >> 0u32 == x,
{
}

proof fn lemma_disjoint_bits(o: u32, z: u32, j: u32)
    by (bit_vector)
    requires
        o & z == 0,
        j < 32,
    ensures
        !((o >> j) & 1u32 == 1u32 && (z >> j) & 1u32 == 1u32),
{
}

/// A run of digits whose `c` positions are the bits of `x` stands for `x`.
pub proof fn lemma_value_of_bits(cs: Seq<u8>, c: u8, x: u32, m: nat)
    requires
        cs.len() <= 29,
        m <= cs.len(),
        forall|k: int| 0 <= k < cs.len() ==> (cs[k] == c) == bit(x, cs.len() - 1 - k),
        x >> (cs.len() as u32) == 0,
    ensures
        value_of(cs.subrange(0, m as int), c) == (x >> ((cs.len() - m) as u32)) as nat,
    decreases m,
{
    if m > 0 {
        let mm = (m - 1) as nat;
        lemma_value_of_bits(cs, c, x, mm);
        let p = cs.subrange(0, m as int);
        assert(p.drop_last() =~= cs.subrange(0, mm as int));
        let j = (cs.len() - m) as u32;
        lemma_shift_out(x, j);
        assert((cs[mm as int] == c) == bit(x, j as int));
        assert(((cs.len() - mm) as u32) == j + 1);
        assert(p.last() == cs[mm as int]);
        assert(value_of(p, c) == 2 * value_of(p.drop_last(), c) + (if p.last() == c {
            1nat
        } else {
            0nat
        }));
    } else {
        assert(cs.subrange(0, 0) =~= Seq::<u8>::empty());
    }
}

/// Parsing the canonical text of well-formed masks gives them back; the text holds no
/// field separator.
#[verifier::spinoff_prover]
pub proof fn lemma_emit_parse(extended: bool, ones: u32, zeros: u32)
    requires
        masks_ok(extended, ones, zeros),
    ensures
        parse_pattern(emit_pattern(extended, ones, zeros)) == Ok::<(bool, u32, u32), Error>(
            (extended, ones, zeros),
        ),
        forall|i: int|
            0 <= i < emit_pattern(extended, ones, zeros).len() ==> is_pattern_byte(
                #[trigger] emit_pattern(extended, ones, zeros)[i],
            ),
{
    let cs = digits(extended, ones, zeros);
    let n = width(extended);
    assert forall|i: int| 0 <= i < cs.len() implies is_digit_byte(#[trigger] cs[i]) by {}
    lemma_group_prefix(cs, n, n);
    assert(cs.subrange(0, n as int) =~= cs);
    let p = emit_pattern(extended, ones, zeros);
    assert(strip(p) == cs);
    lemma_mask_shift(ones);
    lemma_mask_shift(zeros);
    assert forall|k: int| 0 <= k < cs.len() implies (cs[k] == '0' as u8) == bit(
        zeros,
        cs.len() - 1 - k,
    ) by {
        lemma_disjoint_bits(ones, zeros, (n - 1 - k) as u32);
    }
    lemma_value_of_bits(cs, '1' as u8, ones, n);
    lemma_value_of_bits(cs, '0' as u8, zeros, n);
    assert(cs.subrange(0, n as int) =~= cs);
}

} // verus!
