//! The secret codec: a base32-like decoding of shared secrets into the raw
//! bytes the one-time-code algorithm is keyed with, and the matching
//! encoding.
//!
//! A secret string is read as a sequence of 5-bit groups (letters of either
//! case and the digits `2`-`7`), with trailing `=` signs declaring how many
//! low bits are padding; the decoded bytes are the remaining bits, eight at
//! a time, most significant first.

use vstd::prelude::*;
use vstd::arithmetic::div_mod::{lemma_fundamental_div_mod, lemma_fundamental_div_mod_converse};
use vstd::arithmetic::power2::{lemma_pow2_adds, lemma_pow2_pos, pow2};

verus! {

/// The 5-bit value of a base32 character: `A`-`Z` or `a`-`z` are 0 to 25,
/// `2`-`7` are 26 to 31; anything else is -1, not a base32 character.
pub open spec fn b32_char_val(c: char) -> int {
    let x = c as int;
    if 65 <= x <= 90 {
        x - 65
    } else if 97 <= x <= 122 {
        x - 97
    } else if 50 <= x <= 55 {
        x - 50 + 26
    } else {
        -1
    }
}

/// `c` carries a 5-bit value.
pub open spec fn is_b32_char(c: char) -> bool {
    b32_char_val(c) >= 0
}

/// Every character of `s` carries a 5-bit value.
pub open spec fn all_b32(s: Seq<char>) -> bool {
    forall|i: int| 0 <= i < s.len() ==> is_b32_char(#[trigger] s[i])
}

/// The number read from a base32 string: each character contributes five
/// bits, most significant character first.
pub open spec fn b32_val(s: Seq<char>) -> int
    decreases s.len(),
{
    if s.len() == 0 {
        0
    } else {
        b32_val(s.drop_last()) * 32 + b32_char_val(s.last())
    }
}

/// The number read from a byte string, most significant byte first.
pub open spec fn bytes_val(b: Seq<u8>) -> int
    decreases b.len(),
{
    if b.len() == 0 {
        0
    } else {
        bytes_val(b.drop_last()) * 256 + b.last()
    }
}

/// The length of `s` without its trailing `=` signs.
pub open spec fn unpadded_len(s: Seq<char>) -> int
    decreases s.len(),
{
    if s.len() > 0 && s.last() == '=' {
        unpadded_len(s.drop_last())
    } else {
        s.len() as int
    }
}

/// How many low bits of the 5-bit groups are padding, by the count of
/// trailing `=` signs; -1 marks a count that no encoding produces.
pub open spec fn pad_zeros_of(pads: int) -> int {
    if pads == 0 {
        0
    } else if pads == 1 {
        3
    } else if pads == 3 {
        1
    } else if pads == 4 {
        4
    } else if pads == 6 {
        2
    } else {
        -1
    }
}

/// `s` is a decodable secret: a run of base32 characters followed by an
/// admissible number of `=` signs.
pub open spec fn b32_well_formed(s: Seq<char>) -> bool {
    let u = unpadded_len(s);
    pad_zeros_of(s.len() - u) >= 0 && all_b32(s.take(u))
}

/// `out` is the decoding of `s`: the padded-out low bits are dropped, and
/// the remaining bits are taken eight at a time, leftovers shorter than a
/// byte discarded.
pub open spec fn decodes(s: Seq<char>, out: Seq<u8>) -> bool {
    let u = unpadded_len(s);
    let pz = pad_zeros_of(s.len() - u);
    &&& b32_well_formed(s)
    &&& out.len() == if u == 0 {
        0int
    } else {
        (5 * u - pz) / 8
    }
    &&& bytes_val(out) == if u == 0 {
        0int
    } else {
        (b32_val(s.take(u)) / pow2(pz as nat) as int) / pow2(((5 * u - pz) % 8) as nat) as int
    }
}

/// A base32 string's value is never negative.
pub proof fn lemma_b32_val_nonneg(s: Seq<char>)
    requires
        all_b32(s),
    ensures
        b32_val(s) >= 0,
    decreases s.len(),
{
    if s.len() > 0 {
        assert(all_b32(s.drop_last()));
        lemma_b32_val_nonneg(s.drop_last());
    }
}

/// A byte string's value is never negative.
pub proof fn lemma_bytes_val_nonneg(b: Seq<u8>)
    ensures
        bytes_val(b) >= 0,
    decreases b.len(),
{
    if b.len() > 0 {
        lemma_bytes_val_nonneg(b.drop_last());
    }
}

/// The 5-bit value of a base32 character, in executable code; `None` for a
/// character outside the alphabet.
fn b32_char_val_exec(c: char) -> (r: Option<u16>)
    ensures
        r matches Some(v) ==> is_b32_char(c) && v == b32_char_val(c),
        r is None ==> !is_b32_char(c),
{
    let x = c as u32;
    if 65 <= x && x <= 90 {
        Some((x - 65) as u16)
    } else if 97 <= x && x <= 122 {
        Some((x - 97) as u16)
    } else if 50 <= x && x <= 55 {
        Some((x - 50 + 26) as u16)
    } else {
        None
    }
}

/// The length of `b64` without its trailing `=` signs.
fn unpadded_index(b64: &str) -> (u: usize)
    ensures
        u <= b64@.len(),
        u == unpadded_len(b64@),
{
    let mut e = b64.unicode_len();
    proof {
        assert(b64@.take(b64@.len() as int) =~= b64@);
    }
    while e > 0
        invariant
            e <= b64@.len(),
            unpadded_len(b64@) == unpadded_len(b64@.take(e as int)),
        decreases e,
    {
        let c = b64.get_char(e - 1);
        proof {
            assert(b64@.take(e as int).last() == b64@[e - 1]);
            assert(b64@.take(e as int).drop_last() =~= b64@.take(e - 1));
        }
        if c != '=' {
            return e;
        }
        e = e - 1;
    }
    proof {
        assert(b64@.take(0) =~= Seq::<char>::empty());
    }
    0
}

/// Decode a base32-like secret string into the raw bytes it names.
///
/// Succeeds exactly on well-formed strings: base32 characters of either
/// case followed by an admissible padding; the result holds the encoded
/// bits, the declared padding dropped.
pub fn b64_to_bytes(b64: &str) -> (r: Option<Vec<u8>>)
    ensures
        r is Some <==> b32_well_formed(b64@),
        r matches Some(v) ==> decodes(b64@, v@),
{
    let n = b64.unicode_len();
    let u = unpadded_index(b64);
    let pads = n - u;
    let pz: u16 = if pads == 0 {
        0
    } else if pads == 1 {
        3
    } else if pads == 3 {
        1
    } else if pads == 4 {
        4
    } else if pads == 6 {
        2
    } else {
        return None;
    };
    let ghost t = b64@.take(u as int);
    let mut result: Vec<u8> = Vec::new();
    let mut buf: u16 = 0;
    let mut bits: u16 = 0;
    let mut i: usize = 0;
    proof {
        assert(t.take(0) =~= Seq::<char>::empty());
        vstd::arithmetic::power2::lemma2_to64();
    }
    while i < u
        invariant
            i <= u,
            u <= n == b64@.len(),
            u == unpadded_len(b64@),
            t == b64@.take(u as int),
            pz == pad_zeros_of(n - u),
            0 <= pz <= 4,
            all_b32(t.take(i as int)),
            bits <= 7,
            (buf as int) < pow2(bits as nat),
            i < u || u == 0 ==> {
                &&& bytes_val(result@) * pow2(bits as nat) + buf == b32_val(t.take(i as int))
                &&& 8 * result@.len() + bits == 5 * i
            },
            i == u && u > 0 ==> {
                &&& bytes_val(result@) * pow2(bits as nat) + buf == b32_val(t) / pow2(
                    pz as nat,
                ) as int
                &&& 8 * result@.len() + bits == 5 * (u as int) - pz
            },
        decreases u - i,
    {
        let c = b64.get_char(i);
        proof {
            assert(t[i as int] == b64@[i as int]);
        }
        let v = match b32_char_val_exec(c) {
            Some(v) => v,
            None => {
                proof {
                    assert(!is_b32_char(t[i as int]));
                }
                return None;
            },
        };
        let ghost buf0 = buf as int;
        let ghost bits0 = bits as nat;
        let ghost rr = bytes_val(result@);
        proof {
            assert(t.take(i + 1).drop_last() =~= t.take(i as int));
            assert(t.take(i + 1).last() == t[i as int]);
            assert(all_b32(t.take(i + 1)));
            vstd::arithmetic::power2::lemma2_to64();
            if bits0 < 7 {
                vstd::arithmetic::power2::lemma_pow2_strictly_increases(bits0, 7);
            }
            assert(buf0 * pow2(5) <= u16::MAX);
            vstd::bits::lemma_u16_shl_is_mul(buf, 5);
        }
        buf = (buf << 5u16) + v;
        bits = bits + 5;
        proof {
            lemma_pow2_adds(bits0, 5);
            assert(buf == buf0 * 32 + v);
            assert(rr * (pow2(bits0) * 32) + buf0 * 32 == (rr * pow2(bits0) + buf0) * 32)
                by (nonlinear_arith);
            assert(rr * pow2(bits as nat) + buf == b32_val(t.take(i as int)) * 32 + v);
            assert(b32_val(t.take(i + 1)) == b32_val(t.take(i as int)) * 32 + b32_char_val(
                t[i as int],
            ));
            assert(rr * pow2(bits as nat) + buf == b32_val(t.take(i + 1)));
            assert((buf0 + 1) * 32 <= pow2(bits0) * 32) by (nonlinear_arith)
                requires
                    buf0 + 1 <= pow2(bits0),
            ;
            assert(buf < pow2(bits as nat));
            assert(8 * result@.len() + bits == 5 * (i + 1));
        }
        if i == u - 1 {
            // the declared padding bits are dropped from the tail
            proof {
                let big = bytes_val(result@) * pow2(bits as nat) + buf;
                lemma_b32_val_nonneg(t.take(i + 1));
                lemma_bytes_val_nonneg(result@);
                lemma_pow2_pos(bits as nat);
                lemma_pow2_pos(pz as nat);
                lemma_pow2_pos((bits - pz) as nat);
                vstd::bits::lemma_u16_shr_is_div(buf, pz);
                lemma_pow2_adds((bits - pz) as nat, pz as nat);
                lemma_fundamental_div_mod(buf as int, pow2(pz as nat) as int);
                let q = buf as int / pow2(pz as nat) as int;
                let rem = buf as int % pow2(pz as nat) as int;
                assert((bytes_val(result@) * (pow2((bits - pz) as nat) * pow2(pz as nat)) + (q
                    * pow2(pz as nat) + rem)) == (bytes_val(result@) * pow2((bits - pz) as nat) + q)
                    * pow2(pz as nat) + rem) by (nonlinear_arith);
                lemma_fundamental_div_mod_converse(
                    big,
                    pow2(pz as nat) as int,
                    bytes_val(result@) * pow2((bits - pz) as nat) + q,
                    rem,
                );
                assert(big / pow2(pz as nat) as int == bytes_val(result@) * pow2(
                    (bits - pz) as nat,
                ) + q);
                assert(big == b32_val(t.take(i + 1)));
                assert(t.take(i + 1) =~= t);
                // the new buffer still fits its bit count
                assert(q < pow2((bits - pz) as nat)) by (nonlinear_arith)
                    requires
                        q * pow2(pz as nat) + rem == buf,
                        rem >= 0,
                        pow2(pz as nat) > 0,
                        (buf as int) < pow2(bits as nat),
                        pow2(bits as nat) == pow2((bits - pz) as nat) * pow2(pz as nat),
                ;
                assert(buf >> pz == q);
            }
            buf = buf >> pz;
            bits = bits - pz;
        }
        let ghost whole = bytes_val(result@) * pow2(bits as nat) + buf;
        let ghost bitsum = 8 * result@.len() + bits as int;
        while bits >= 8
            invariant
                bits <= 12,
                (buf as int) < pow2(bits as nat),
                bytes_val(result@) * pow2(bits as nat) + buf == whole,
                8 * result@.len() + bits == bitsum,
            decreases bits,
        {
            let ghost bufd = buf as int;
            let ghost bitsd = bits as nat;
            let ghost rr2 = bytes_val(result@);
            let ghost olds = result@;
            proof {
                vstd::bits::lemma_u16_shr_is_div(buf, (bits - 8) as u16);
                lemma_pow2_adds((bitsd - 8) as nat, 8);
                vstd::arithmetic::power2::lemma2_to64();
                lemma_pow2_pos((bitsd - 8) as nat);
                lemma_fundamental_div_mod(bufd, pow2((bitsd - 8) as nat) as int);
            }
            bits = bits - 8;
            let byte = buf >> bits;
            proof {
                let q = bufd / pow2(bits as nat) as int;
                let rem = bufd % pow2(bits as nat) as int;
                assert(byte == q);
                assert(q < 256) by (nonlinear_arith)
                    requires
                        q * pow2(bits as nat) + rem == bufd,
                        rem >= 0,
                        bufd < pow2(bits as nat) * 256,
                        pow2(bits as nat) > 0,
                ;
                assert(q * pow2(bits as nat) <= bufd);
                vstd::bits::lemma_u16_shl_is_mul(byte, bits);
            }
            buf = buf - (byte << bits);
            result.push(byte as u8);
            proof {
                let rem = bufd % pow2(bits as nat) as int;
                assert(buf == rem);
                assert(result@.drop_last() =~= olds);
                assert(bytes_val(result@) == rr2 * 256 + byte);
                assert((rr2 * 256 + byte) * pow2(bits as nat) + rem == rr2 * (pow2(bits as nat)
                    * 256) + (byte * pow2(bits as nat) + rem)) by (nonlinear_arith);
            }
        }
        i = i + 1;
    }
    proof {
        if u == 0 {
        } else {
            assert(t.take(u as int) =~= t);
            assert(all_b32(t));
            lemma_b32_val_nonneg(t);
            lemma_pow2_pos(pz as nat);
            lemma_pow2_pos(bits as nat);
            let total = b32_val(t) / pow2(pz as nat) as int;
            vstd::arithmetic::div_mod::lemma_div_pos_is_pos(b32_val(t), pow2(pz as nat) as int);
            // leftover bits shorter than a byte are the division remainder
            lemma_fundamental_div_mod_converse(
                total,
                pow2(bits as nat) as int,
                bytes_val(result@),
                buf as int,
            );
            lemma_fundamental_div_mod_converse(
                5 * (u as int) - pz,
                8,
                result@.len() as int,
                bits as int,
            );
            assert(pow2(bits as nat) == pow2(((5 * (u as int) - pz) % 8) as nat));
        }
    }
    Some(result)
}

/// `s` is the canonical encoding of `data`: base32 characters whose number
/// names exactly the data bits plus the declared padding zeros, then the
/// matching `=` signs.
pub open spec fn encodes(data: Seq<u8>, s: Seq<char>) -> bool {
    let u = unpadded_len(s);
    let pz = pad_zeros_of(s.len() - u);
    &&& pz >= 0
    &&& all_b32(s.take(u))
    &&& 5 * u == 8 * data.len() + pz
    &&& b32_val(s.take(u)) == bytes_val(data) * pow2(pz as nat)
}

/// The base32 character for a 5-bit value.
fn b32_char(v: u16) -> (c: char)
    requires
        v < 32,
    ensures
        b32_char_val(c) == v,
{
    match v {
        0 => 'A',
        1 => 'B',
        2 => 'C',
        3 => 'D',
        4 => 'E',
        5 => 'F',
        6 => 'G',
        7 => 'H',
        8 => 'I',
        9 => 'J',
        10 => 'K',
        11 => 'L',
        12 => 'M',
        13 => 'N',
        14 => 'O',
        15 => 'P',
        16 => 'Q',
        17 => 'R',
        18 => 'S',
        19 => 'T',
        20 => 'U',
        21 => 'V',
        22 => 'W',
        23 => 'X',
        24 => 'Y',
        25 => 'Z',
        26 => '2',
        27 => '3',
        28 => '4',
        29 => '5',
        30 => '6',
        31 => '7',
        _ => '7',
    }
}

/// Trailing `=` signs do not change where the character part of an
/// encoding ends.
proof fn lemma_unpadded_append(s: Seq<char>, k: nat)
    requires
        unpadded_len(s) == s.len(),
    ensures
        unpadded_len(s + Seq::new(k, |x: int| '=')) == s.len(),
    decreases k,
{
    if k == 0 {
        assert(s + Seq::new(0, |x: int| '=') =~= s);
    } else {
        let w = s + Seq::new(k, |x: int| '=');
        assert(w.last() == '=');
        assert(w.drop_last() =~= s + Seq::new((k - 1) as nat, |x: int| '='));
        lemma_unpadded_append(s, (k - 1) as nat);
    }
}

/// Encode raw secret bytes as canonical base32: upper-case characters and
/// the padding that declares the appended zero bits.
pub fn bytes_to_b64(data: &Vec<u8>) -> (r: String)
    ensures
        encodes(data@, r@),
        b32_well_formed(r@),
{
    let m = data.len();
    let mut out = String::new();
    let mut buf: u16 = 0;
    let mut bits: u16 = 0;
    let mut i: usize = 0;
    proof {
        assert(data@.take(0) =~= Seq::<u8>::empty());
        assert(out@.take(0) =~= Seq::<char>::empty());
        vstd::arithmetic::power2::lemma2_to64();
    }
    while i < m
        invariant
            i <= m,
            m == data@.len(),
            bits <= 4,
            (buf as int) < pow2(bits as nat),
            all_b32(out@),
            unpadded_len(out@) == out@.len(),
            b32_val(out@) * pow2(bits as nat) + buf == bytes_val(data@.take(i as int)),
            5 * out@.len() + bits == 8 * i,
        decreases m - i,
    {
        let b = data[i];
        let ghost buf0 = buf as int;
        let ghost bits0 = bits as nat;
        let ghost vv = b32_val(out@);
        proof {
            assert(data@.take(i + 1).drop_last() =~= data@.take(i as int));
            assert(data@.take(i + 1).last() == data@[i as int]);
            vstd::arithmetic::power2::lemma2_to64();
            if bits0 < 4 {
                vstd::arithmetic::power2::lemma_pow2_strictly_increases(bits0, 4);
            }
            assert(buf0 * pow2(8) <= u16::MAX);
            vstd::bits::lemma_u16_shl_is_mul(buf, 8);
        }
        buf = (buf << 8u16) + (b as u16);
        bits = bits + 8;
        proof {
            lemma_pow2_adds(bits0, 8);
            assert(buf == buf0 * 256 + b);
            assert(vv * (pow2(bits0) * 256) + buf0 * 256 == (vv * pow2(bits0) + buf0) * 256)
                by (nonlinear_arith);
            assert(vv * pow2(bits as nat) + buf == bytes_val(data@.take(i + 1)));
            assert((buf0 + 1) * 256 <= pow2(bits0) * 256) by (nonlinear_arith)
                requires
                    buf0 + 1 <= pow2(bits0),
            ;
            assert(buf < pow2(bits as nat));
        }
        let ghost whole = b32_val(out@) * pow2(bits as nat) + buf;
        let ghost bitsum = 5 * out@.len() + bits as int;
        while bits >= 5
            invariant
                bits <= 12,
                (buf as int) < pow2(bits as nat),
                all_b32(out@),
                unpadded_len(out@) == out@.len(),
                b32_val(out@) * pow2(bits as nat) + buf == whole,
                5 * out@.len() + bits == bitsum,
            decreases bits,
        {
            let ghost bufd = buf as int;
            let ghost bitsd = bits as nat;
            let ghost vv2 = b32_val(out@);
            let ghost olds = out@;
            proof {
                vstd::bits::lemma_u16_shr_is_div(buf, (bits - 5) as u16);
                lemma_pow2_adds((bitsd - 5) as nat, 5);
                vstd::arithmetic::power2::lemma2_to64();
                lemma_pow2_pos((bitsd - 5) as nat);
                lemma_fundamental_div_mod(bufd, pow2((bitsd - 5) as nat) as int);
            }
            bits = bits - 5;
            let v = buf >> bits;
            proof {
                assert(bits as nat == (bitsd - 5) as nat);
                lemma_fundamental_div_mod(bufd, pow2(bits as nat) as int);
                let q = bufd / pow2(bits as nat) as int;
                let rem = bufd % pow2(bits as nat) as int;
                assert(pow2(bits as nat) as int * q + rem == bufd);
                assert(q * pow2(bits as nat) + rem == bufd) by (nonlinear_arith)
                    requires
                        pow2(bits as nat) as int * q + rem == bufd,
                ;
                assert(v == q);
                assert(q < 32) by (nonlinear_arith)
                    requires
                        q * pow2(bits as nat) + rem == bufd,
                        rem >= 0,
                        bufd < pow2(bits as nat) * 32,
                        pow2(bits as nat) > 0,
                ;
                assert(q * pow2(bits as nat) <= bufd);
                vstd::bits::lemma_u16_shl_is_mul(v, bits);
            }
            let c = b32_char(v);
            buf = buf - (v << bits);
            out.push(c);
            proof {
                let rem = bufd % pow2(bits as nat) as int;
                assert(buf == rem);
                assert(out@.drop_last() =~= olds);
                assert(b32_val(out@) == vv2 * 32 + v);
                assert((vv2 * 32 + v) * pow2(bits as nat) + rem == vv2 * (pow2(bits as nat) * 32)
                    + (v * pow2(bits as nat) + rem)) by (nonlinear_arith);
                assert(out@.last() == c);
            }
        }
        i = i + 1;
    }
    proof {
        assert(data@.take(m as int) =~= data@);
    }
    let ghost chars0 = out@;
    let pz: u16 = if bits > 0 {
        let ghost bits0 = bits as nat;
        let ghost vv = b32_val(out@);
        let ghost olds = out@;
        proof {
            vstd::arithmetic::power2::lemma2_to64();
            if bits0 < 4 {
                vstd::arithmetic::power2::lemma_pow2_strictly_increases(bits0, 4);
            }
            assert(buf * pow2((5 - bits) as nat) < pow2(bits0) * pow2((5 - bits) as nat))
                by (nonlinear_arith)
                requires
                    (buf as int) < pow2(bits0),
                    pow2((5 - bits) as nat) > 0,
            ;
            lemma_pow2_adds(bits0, (5 - bits) as nat);
            lemma_pow2_pos((5 - bits) as nat);
            vstd::bits::lemma_u16_shl_is_mul(buf, (5 - bits) as u16);
        }
        let v = buf << (5u16 - bits);
        let c = b32_char(v);
        out.push(c);
        proof {
            let vv2 = b32_val(olds);
            assert(out@.drop_last() =~= olds);
            assert(b32_val(out@) == vv2 * 32 + v);
            assert(v == buf * pow2((5 - bits) as nat));
            lemma_pow2_adds(bits0, (5 - bits) as nat);
            assert((vv2 * pow2(bits0) + buf) * pow2((5 - bits) as nat) == vv2 * (pow2(bits0)
                * pow2((5 - bits) as nat)) + buf * pow2((5 - bits) as nat)) by (nonlinear_arith);
            assert(b32_val(out@) == bytes_val(data@) * pow2((5 - bits) as nat));
            assert(out@.last() == c);
        }
        5 - bits
    } else {
        0
    };
    let pads: u16 = if pz == 0 {
        0
    } else if pz == 1 {
        3
    } else if pz == 2 {
        6
    } else if pz == 3 {
        1
    } else {
        4
    };
    let ghost chars = out@;
    proof {
        vstd::arithmetic::power2::lemma2_to64();
        assert(pow2(0) == 1);
        if bits == 0 {
            assert(buf == 0);
            assert(b32_val(chars) * 1 + 0 == bytes_val(data@));
            assert(b32_val(chars) * 1 == b32_val(chars)) by (nonlinear_arith);
            assert(bytes_val(data@) * 1 == bytes_val(data@)) by (nonlinear_arith);
            assert(b32_val(chars) == bytes_val(data@) * pow2(pz as nat));
        }
        assert(5 * chars.len() == 8 * data@.len() + pz);
        assert(all_b32(chars));
        assert(unpadded_len(chars) == chars.len());
    }
    let mut j: u16 = 0;
    while j < pads
        invariant
            j <= pads,
            out@ =~= chars + Seq::new(j as nat, |x: int| '='),
        decreases pads - j,
    {
        out.push('=');
        proof {
            assert(out@ =~= chars + Seq::new((j + 1) as nat, |x: int| '='));
        }
        j = j + 1;
    }
    proof {
        lemma_unpadded_append(chars, pads as nat);
        assert(unpadded_len(out@) == chars.len());
        assert(out@.take(chars.len() as int) =~= chars);
        assert(out@.len() - unpadded_len(out@) == pads);
        assert(pad_zeros_of(pads as int) == pz);
    }
    out
}

/// A byte string is pinned by its length and numeric value.
proof fn lemma_bytes_val_injective(a: Seq<u8>, b: Seq<u8>)
    requires
        a.len() == b.len(),
        bytes_val(a) == bytes_val(b),
    ensures
        a == b,
    decreases a.len(),
{
    if a.len() > 0 {
        lemma_bytes_val_nonneg(a.drop_last());
        lemma_bytes_val_nonneg(b.drop_last());
        lemma_fundamental_div_mod_converse(
            bytes_val(a),
            256,
            bytes_val(a.drop_last()),
            a.last() as int,
        );
        lemma_fundamental_div_mod_converse(
            bytes_val(b),
            256,
            bytes_val(b.drop_last()),
            b.last() as int,
        );
        lemma_bytes_val_injective(a.drop_last(), b.drop_last());
        assert(a.last() as int == bytes_val(a) % 256);
        assert(b.last() as int == bytes_val(b) % 256);
        assert forall|i: int| 0 <= i < a.len() implies a[i] == b[i] by {
            if i < a.len() - 1 {
                assert(a[i] == a.drop_last()[i]);
                assert(b[i] == b.drop_last()[i]);
            } else {
                assert(a[i] == a.last());
                assert(b[i] == b.last());
            }
        }
        assert(a =~= b);
    } else {
        assert(a =~= b);
    }
}

/// The codec round trip: decoding any canonical encoding of a secret gives
/// back exactly the original bytes.
pub proof fn lemma_codec_round_trip(data: Seq<u8>, enc: Seq<char>, out: Seq<u8>)
    requires
        encodes(data, enc),
        decodes(enc, out),
    ensures
        out == data,
{
    let u = unpadded_len(enc);
    let pz = pad_zeros_of(enc.len() - u);
    vstd::arithmetic::power2::lemma2_to64();
    if u == 0 {
        assert(enc.take(0) =~= Seq::<char>::empty());
        assert(5 * u == 8 * data.len() + pz);
        assert(data.len() == 0);
        assert(out.len() == 0);
        assert(out =~= data);
    } else {
        assert(8 * data.len() == 5 * u - pz);
        lemma_fundamental_div_mod_converse(5 * u - pz, 8, data.len() as int, 0);
        assert(out.len() == data.len());
        lemma_pow2_pos(pz as nat);
        lemma_bytes_val_nonneg(data);
        let p = pow2(pz as nat) as int;
        assert(b32_val(enc.take(u)) == bytes_val(data) * p);
        vstd::arithmetic::div_mod::lemma_div_by_multiple(bytes_val(data), p);
        assert((bytes_val(data) * p) / p == bytes_val(data));
        assert((5 * u - pz) % 8 == 0);
        assert(pow2(((5 * u - pz) % 8) as nat) == 1);
        vstd::arithmetic::div_mod::lemma_div_basics(bytes_val(data));
        assert(bytes_val(out) == bytes_val(data) / 1int);
        assert(bytes_val(data) / 1int == bytes_val(data));
        lemma_bytes_val_injective(out, data);
    }
}

} // verus!

