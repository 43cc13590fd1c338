//! The 7-bit codec: packs 8-bit bytes into 7-bit "septets" (the MIDI data
//! byte range) and back.
//!
//! Both directions are carry-propagating rolling windows over one
//! little-endian bit stream. The contracts pin every output bit: a septet
//! sequence equals `encode7` of its source, an octet sequence equals
//! `decode7` of its source, and `lemma_decode_encode` states the round trip.

use vstd::prelude::*;

verus! {

use vstd::arithmetic::div_mod::lemma_fundamental_div_mod;
use vstd::arithmetic::div_mod::lemma_fundamental_div_mod_converse;

/// True iff bit `k` of the byte `x` is set.
pub open spec fn u8_bit(x: u8, k: u8) -> bool {
    (x >> k) & 1 == 1
}

/// True iff bit `k` of the 16-bit shift register `x` is set.
spec fn u16_bit(x: u16, k: u16) -> bool {
    (x >> k) & 1 == 1
}

/// Bit `p` of the little-endian bit stream of the octet sequence `s`;
/// positions past the end read as zero.
pub open spec fn octet_bit(s: Seq<u8>, p: int) -> bool {
    0 <= p < 8 * s.len() && u8_bit(s[p / 8], (p % 8) as u8)
}

/// Bit `p` of the bit stream carried by the septet sequence `s`: bit
/// `p % 7` of element `p / 7`, whose high bit never takes part.
pub open spec fn septet_bit(s: Seq<u8>, p: int) -> bool {
    0 <= p < 7 * s.len() && u8_bit(s[p / 7], (p % 7) as u8)
}

/// The byte whose bits, least significant first, are `b0 .. b7`.
pub open spec fn byte_from_bits(
    b0: bool,
    b1: bool,
    b2: bool,
    b3: bool,
    b4: bool,
    b5: bool,
    b6: bool,
    b7: bool,
) -> u8 {
    ((if b0 {
        1int
    } else {
        0int
    }) + (if b1 {
        2int
    } else {
        0int
    }) + (if b2 {
        4int
    } else {
        0int
    }) + (if b3 {
        8int
    } else {
        0int
    }) + (if b4 {
        16int
    } else {
        0int
    }) + (if b5 {
        32int
    } else {
        0int
    }) + (if b6 {
        64int
    } else {
        0int
    }) + (if b7 {
        128int
    } else {
        0int
    })) as u8
}

/// Number of septets that encoding `n` octets produces: `8n / 7` rounded up.
pub open spec fn encoded_len(n: int) -> int {
    (8 * n + 6) / 7
}

/// Number of octets that decoding `m` septets produces: `7m / 8` rounded
/// down; up to 7 trailing bits are encoder padding and are discarded.
pub open spec fn decoded_len(m: int) -> int {
    7 * m / 8
}

/// The septet sequence that encodes the octet sequence `s`: septet `j`
/// carries bits `7j .. 7j + 7` of the bit stream of `s`, zero-padded at the
/// end, and its high bit is clear.
pub open spec fn encode7(s: Seq<u8>) -> Seq<u8> {
    Seq::new(
        encoded_len(s.len() as int) as nat,
        |j: int|
            byte_from_bits(
                octet_bit(s, 7 * j),
                octet_bit(s, 7 * j + 1),
                octet_bit(s, 7 * j + 2),
                octet_bit(s, 7 * j + 3),
                octet_bit(s, 7 * j + 4),
                octet_bit(s, 7 * j + 5),
                octet_bit(s, 7 * j + 6),
                false,
            ),
    )
}

/// The octet sequence that the septet sequence `s` decodes to: octet `i`
/// carries bits `8i .. 8i + 8` of the septet bit stream.
pub open spec fn decode7(s: Seq<u8>) -> Seq<u8> {
    Seq::new(
        decoded_len(s.len() as int) as nat,
        |i: int|
            byte_from_bits(
                septet_bit(s, 8 * i),
                septet_bit(s, 8 * i + 1),
                septet_bit(s, 8 * i + 2),
                septet_bit(s, 8 * i + 3),
                septet_bit(s, 8 * i + 4),
                septet_bit(s, 8 * i + 5),
                septet_bit(s, 8 * i + 6),
                septet_bit(s, 8 * i + 7),
            ),
    )
}

proof fn lemma_inject(x: u16, y: u8, s: u16, k: u16)
    by (bit_vector)
    requires
        s <= 7,
        x < (1u16 << s),
        k < 15,
    ensures
        u16_bit(x | ((y as u16) << s), k) == if k < s {
            u16_bit(x, k)
        } else {
            k - s < 8 && u8_bit(y, (k - s) as u8)
        },
        (x | ((y as u16) << s)) < (1u16 << ((s + 8) as u16)),
{
}

proof fn lemma_low7(x: u16, k: u8)
    by (bit_vector)
    ensures
        u8_bit((x & 0x7F) as u8, k) == (k < 7 && u16_bit(x, k as u16)),
{
}

proof fn lemma_low8(x: u16, k: u8)
    by (bit_vector)
    ensures
        u8_bit((x & 0xFF) as u8, k) == (k < 8 && u16_bit(x, k as u16)),
{
}

proof fn lemma_mask7_u8(x: u8, k: u8)
    by (bit_vector)
    ensures
        u8_bit(x & 0x7F, k) == (k < 7 && u8_bit(x, k)),
        (x & 0x7F) < 128,
{
}

proof fn lemma_shr(x: u16, s: u16, k: u16)
    by (bit_vector)
    requires
        s <= 8,
        k + s < 16,
    ensures
        u16_bit(x >> s, k) == u16_bit(x, (k + s) as u16),
{
}

proof fn lemma_shr_bound(x: u16, s: u16, t: u16)
    by (bit_vector)
    requires
        s <= t,
        t <= 15,
        x < (1u16 << t),
    ensures
        (x >> s) < (1u16 << ((t - s) as u16)),
{
}

proof fn lemma_high_zero(x: u16, s: u16, k: u16)
    by (bit_vector)
    requires
        x < (1u16 << s),
        s <= k,
        k < 16,
    ensures
        !u16_bit(x, k),
{
}

proof fn lemma_byte_bits(x: u8)
    by (bit_vector)
    ensures
        x == byte_from_bits(
            u8_bit(x, 0),
            u8_bit(x, 1),
            u8_bit(x, 2),
            u8_bit(x, 3),
            u8_bit(x, 4),
            u8_bit(x, 5),
            u8_bit(x, 6),
            u8_bit(x, 7),
        ),
{
}

proof fn lemma_bits_of_byte(
    b0: bool,
    b1: bool,
    b2: bool,
    b3: bool,
    b4: bool,
    b5: bool,
    b6: bool,
    b7: bool,
    k: u8,
)
    by (bit_vector)
    requires
        k < 8,
    ensures
        u8_bit(byte_from_bits(b0, b1, b2, b3, b4, b5, b6, b7), k) == (if k == 0 {
            b0
        } else if k == 1 {
            b1
        } else if k == 2 {
            b2
        } else if k == 3 {
            b3
        } else if k == 4 {
            b4
        } else if k == 5 {
            b5
        } else if k == 6 {
            b6
        } else {
            b7
        }),
{
}

/// Bit `p` of the stream is bit `p % 8` of octet `p / 8`; stated through the
/// quotient and remainder so callers can name a position `8i + k` directly.
proof fn lemma_octet_bit_at(s: Seq<u8>, i: int, k: int)
    requires
        0 <= i < s.len(),
        0 <= k < 8,
    ensures
        octet_bit(s, 8 * i + k) == u8_bit(s[i], k as u8),
{
    lemma_fundamental_div_mod_converse(8 * i + k, 8, i, k);
}

/// Bit `p` of the septet stream is bit `p % 7` of septet `p / 7`.
proof fn lemma_septet_bit_at(s: Seq<u8>, j: int, k: int)
    requires
        0 <= j < s.len(),
        0 <= k < 7,
    ensures
        septet_bit(s, 7 * j + k) == u8_bit(s[j], k as u8),
{
    lemma_fundamental_div_mod_converse(7 * j + k, 7, j, k);
}

/// Encodes a sequence of bytes into a sequence of 7-bit values, appending
/// them to `dst`.
pub fn encode_7bit(src: &[u8], dst: &mut Vec<u8>)
    ensures
        final(dst)@ == old(dst)@ + encode7(src@),
{
    let ghost dst0 = dst@;
    let ghost n = src@.len() as int;

    // A 16-bit shift register where bytes become bits, and the count of
    // leftover bits it holds from previous iterations.
    let mut data: u16 = 0;
    let mut bits: u16 = 0;
    let mut i: usize = 0;
    proof {
        assert(0u16 < (1u16 << 0u16)) by (bit_vector);
    }
    while i < src.len()
        invariant
            n == src@.len(),
            i <= n,
            bits == i as int % 7,
            7 * (dst@.len() - dst0.len()) == 8 * i - bits,
            dst@.len() >= dst0.len(),
            forall|j: int| 0 <= j < dst0.len() ==> dst@[j] == dst0[j],
            forall|j: int|
                dst0.len() <= j < dst@.len() ==> dst@[j] == encode7(src@)[j - dst0.len()],
            data < (1u16 << bits),
            forall|k: u16|
                k < bits ==> u16_bit(data, k) == octet_bit(
                    src@,
                    8 * i - bits + k,
                ),
        decreases n - i,
    {
        let ghost out = dst@.len() - dst0.len();
        let ghost bits0 = bits;
        let ghost data0 = data;
        let v = src[i];

        // Add 8 input bits at the register's write position.
        data = data | ((v as u16) << bits);
        proof {
            assert forall|k: u16| k < bits0 + 8 implies u16_bit(data, k) == octet_bit(
                src@,
                7 * out + k,
            ) by {
                lemma_inject(data0, v, bits0, k);
                if bits0 <= k {
                    lemma_octet_bit_at(src@, i as int, k - bits0);
                }
            }
            lemma_inject(data0, v, bits0, 0);
        }

        // Yield 7 bits; one more leftover bit accrues.
        let septet = (data & 0x7F) as u8;
        proof {
            lemma_byte_bits(septet);
            assert forall|k: u8| k < 8 implies u8_bit(septet, k) == (k < 7 && octet_bit(
                src@,
                7 * out + k,
            )) by {
                lemma_low7(data, k);
            }
            assert(septet == encode7(src@)[out]);
        }
        dst.push(septet);
        proof {
            assert forall|k: u16| k < bits0 + 1 implies u16_bit(data >> 7, k) == octet_bit(
                src@,
                8 * (i + 1) - (bits0 + 1) + k,
            ) by {
                lemma_shr(data, 7, k);
            }
            lemma_shr_bound(data, 7, (bits0 + 8) as u16);
        }
        data = data >> 7;
        bits = bits + 1;

        // Every 7 iterations, 7 leftover bits have accrued; consume them to
        // yield one more septet.
        if bits == 7 {
            let ghost out1 = dst@.len() - dst0.len();
            let septet = (data & 0x7F) as u8;
            proof {
                lemma_byte_bits(septet);
                assert forall|k: u8| k < 8 implies u8_bit(septet, k) == (k < 7 && octet_bit(
                    src@,
                    7 * out1 + k,
                )) by {
                    lemma_low7(data, k);
                }
                assert(septet == encode7(src@)[out1]);
            }
            dst.push(septet);
            data = 0;
            bits = 0;
            proof {
                assert(0u16 < (1u16 << 0u16)) by (bit_vector);
            }
        }
        i = i + 1;
        proof {
            lemma_fundamental_div_mod(i as int, 7);
        }
    }

    // Yield the final leftover bits, if any, zero-padded on the high side.
    if bits > 0 {
        let ghost out = dst@.len() - dst0.len();
        let septet = (data & 0x7F) as u8;
        proof {
            lemma_byte_bits(septet);
            assert forall|k: u8| k < 8 implies u8_bit(septet, k) == (k < 7 && octet_bit(
                src@,
                7 * out + k,
            )) by {
                lemma_low7(data, k);
                if bits <= k && k < 7 {
                    lemma_high_zero(data, bits, k as u16);
                }
            }
            assert(septet == encode7(src@)[out]);
        }
        dst.push(septet);
        proof {
            lemma_fundamental_div_mod_converse(8 * n + 6, 7, out + 1, bits - 1);
        }
    } else {
        proof {
            if n > 0 {
                lemma_fundamental_div_mod_converse(
                    8 * n + 6,
                    7,
                    (dst@.len() - dst0.len()) as int,
                    6,
                );
            }
        }
    }
    proof {
        assert(dst@ =~= dst0 + encode7(src@));
    }
}

/// Decodes a sequence of 7-bit values into a sequence of bytes, appending
/// them to `dst`. Each input's high bit is ignored; trailing bits that do
/// not fill a byte are encoder padding and are discarded.
pub fn decode_7bit(src: &[u8], dst: &mut Vec<u8>)
    ensures
        final(dst)@ == old(dst)@ + decode7(src@),
{
    let ghost dst0 = dst@;
    let ghost m = src@.len() as int;

    // A 16-bit shift register where bits become bytes, and the count of
    // leftover bits it holds from previous iterations.
    let mut data: u16 = 0;
    let mut bits: u16 = 0;
    let mut j: usize = 0;
    proof {
        assert(0u16 < (1u16 << 0u16)) by (bit_vector);
    }
    while j < src.len()
        invariant
            m == src@.len(),
            j <= m,
            bits <= 7,
            7 * j == 8 * (dst@.len() - dst0.len()) + bits,
            dst@.len() >= dst0.len(),
            forall|q: int| 0 <= q < dst0.len() ==> dst@[q] == dst0[q],
            forall|q: int|
                dst0.len() <= q < dst@.len() ==> dst@[q] == decode7(src@)[q - dst0.len()],
            data < (1u16 << bits),
            forall|k: u16|
                k < bits ==> u16_bit(data, k) == septet_bit(
                    src@,
                    8 * (dst@.len() - dst0.len()) + k,
                ),
        decreases m - j,
    {
        let ghost out = dst@.len() - dst0.len();
        let ghost bits0 = bits;
        let ghost data0 = data;
        let v = src[j];

        // Isolate the 7 input bits.
        let low = v & 0x7F;
        proof {
            assert forall|k: u8| k < 7 implies u8_bit(low, k) == septet_bit(
                src@,
                7 * j + k,
            ) by {
                lemma_mask7_u8(v, k);
                lemma_septet_bit_at(src@, j as int, k as int);
            }
            lemma_mask7_u8(v, 0);
        }

        if bits == 0 {
            // Not enough bits for a byte yet: the 7 new bits become the
            // leftovers for the next iteration.
            data = low as u16;
            bits = 7;
            proof {
                assert forall|k: u16| k < 7 implies u16_bit(data, k) == septet_bit(
                    src@,
                    8 * out + k,
                ) by {
                    lemma_inject(0, low, 0, k);
                }
                assert(data < (1u16 << 7u16)) by (bit_vector)
                    requires
                        data < 128,
                ;
            }
        } else {
            // The leftovers are least significant, the 7 new bits most
            // significant: yield a byte.
            data = data | ((low as u16) << bits);
            proof {
                assert forall|k: u16| k < bits0 + 7 implies u16_bit(data, k) == septet_bit(
                    src@,
                    8 * out + k,
                ) by {
                    lemma_inject(data0, low, bits0, k);
                    if bits0 <= k {
                        // Position of this new bit in the septet stream.
                        assert(7 * j + (k - bits0) == 8 * out + k);
                    }
                }
                assert(data < (1u16 << ((bits0 + 7) as u16))) by (bit_vector)
                    requires
                        data == data0 | ((low as u16) << bits0),
                        data0 < (1u16 << bits0),
                        low < 128,
                        1 <= bits0 <= 7,
                ;
            }
            let octet = (data & 0xFF) as u8;
            proof {
                lemma_byte_bits(octet);
                assert forall|k: u8| k < 8 implies u8_bit(octet, k) == septet_bit(
                    src@,
                    8 * out + k,
                ) by {
                    lemma_low8(data, k);
                }
                assert(octet == decode7(src@)[out]);
            }
            dst.push(octet);
            proof {
                assert forall|k: u16| k < bits0 - 1 implies u16_bit(data >> 8, k) == septet_bit(
                    src@,
                    8 * (out + 1) + k,
                ) by {
                    lemma_shr(data, 8, k);
                }
                lemma_shr_bound(data, 8, (bits0 + 7) as u16);
                assert(8 * (out + 1) + (bits0 - 1) <= 7 * m);
            }
            data = data >> 8;
            bits = bits - 1;
        }
        j = j + 1;
    }
    proof {
        lemma_fundamental_div_mod_converse(
            7 * m,
            8,
            (dst@.len() - dst0.len()) as int,
            bits as int,
        );
        assert(dst@ =~= dst0 + decode7(src@));
    }
}

/// Any bit of the stream carried by an encoded sequence is the same bit of
/// the source's stream: encoding only regroups the bits seven at a time.
proof fn lemma_encode_stream_bit(s: Seq<u8>, p: int)
    requires
        0 <= p < 7 * encode7(s).len(),
    ensures
        septet_bit(encode7(s), p) == octet_bit(s, p),
{
    let e = encode7(s);
    lemma_fundamental_div_mod(p, 7);
    let j = p / 7;
    let r = p % 7;
    lemma_septet_bit_at(e, j, r);
    lemma_bits_of_byte(
        octet_bit(s, 7 * j),
        octet_bit(s, 7 * j + 1),
        octet_bit(s, 7 * j + 2),
        octet_bit(s, 7 * j + 3),
        octet_bit(s, 7 * j + 4),
        octet_bit(s, 7 * j + 5),
        octet_bit(s, 7 * j + 6),
        false,
        r as u8,
    );
}

/// Any bit of the stream of a decoded sequence is the same bit of the
/// source's septet stream: decoding only regroups the bits eight at a time.
proof fn lemma_decode_stream_bit(s: Seq<u8>, p: int)
    requires
        0 <= p < 8 * decode7(s).len(),
    ensures
        octet_bit(decode7(s), p) == septet_bit(s, p),
{
    let d = decode7(s);
    lemma_fundamental_div_mod(p, 8);
    let i = p / 8;
    let k = p % 8;
    lemma_octet_bit_at(d, i, k);
    lemma_bits_of_byte(
        septet_bit(s, 8 * i),
        septet_bit(s, 8 * i + 1),
        septet_bit(s, 8 * i + 2),
        septet_bit(s, 8 * i + 3),
        septet_bit(s, 8 * i + 4),
        septet_bit(s, 8 * i + 5),
        septet_bit(s, 8 * i + 6),
        septet_bit(s, 8 * i + 7),
        k as u8,
    );
}

/// The round trip: decoding an encoded octet sequence gives back exactly
/// that sequence, whatever it held.
pub proof fn lemma_decode_encode(s: Seq<u8>)
    ensures
        decode7(encode7(s)) == s,
{
    let n = s.len() as int;
    let e = encode7(s);
    lemma_fundamental_div_mod(8 * n + 6, 7);
    lemma_fundamental_div_mod_converse(7 * encoded_len(n), 8, n, 7 * encoded_len(n) - 8 * n);
    assert(decode7(e).len() == s.len());
    assert forall|i: int| 0 <= i < n implies decode7(e)[i] == s[i] by {
        lemma_encode_stream_bit(s, 8 * i);
        lemma_encode_stream_bit(s, 8 * i + 1);
        lemma_encode_stream_bit(s, 8 * i + 2);
        lemma_encode_stream_bit(s, 8 * i + 3);
        lemma_encode_stream_bit(s, 8 * i + 4);
        lemma_encode_stream_bit(s, 8 * i + 5);
        lemma_encode_stream_bit(s, 8 * i + 6);
        lemma_encode_stream_bit(s, 8 * i + 7);
        lemma_octet_bit_at(s, i, 0);
        lemma_octet_bit_at(s, i, 1);
        lemma_octet_bit_at(s, i, 2);
        lemma_octet_bit_at(s, i, 3);
        lemma_octet_bit_at(s, i, 4);
        lemma_octet_bit_at(s, i, 5);
        lemma_octet_bit_at(s, i, 6);
        lemma_octet_bit_at(s, i, 7);
        lemma_byte_bits(s[i]);
    }
    assert(decode7(encode7(s)) =~= s);
}

/// The reverse round trip: re-encoding a decoded septet sequence gives back
/// exactly that sequence, provided its length is a multiple of 8 (otherwise
/// its trailing bits are padding, which decoding discards) and no septet
/// uses its high bit.
pub proof fn lemma_encode_decode(s: Seq<u8>)
    requires
        s.len() % 8 == 0,
        forall|j: int| 0 <= j < s.len() ==> s[j] < 0x80,
    ensures
        encode7(decode7(s)) == s,
{
    let m = s.len() as int;
    let d = decode7(s);
    let t = m / 8;
    lemma_fundamental_div_mod(m, 8);
    assert(decoded_len(m) == 7 * t) by {
        lemma_fundamental_div_mod_converse(7 * m, 8, 7 * t, 0);
    }
    assert(encoded_len(7 * t) == m) by {
        lemma_fundamental_div_mod_converse(8 * (7 * t) + 6, 7, 8 * t, 6);
    }
    assert(encode7(d).len() == s.len());
    assert forall|j: int| 0 <= j < m implies encode7(d)[j] == s[j] by {
        lemma_decode_stream_bit(s, 7 * j);
        lemma_decode_stream_bit(s, 7 * j + 1);
        lemma_decode_stream_bit(s, 7 * j + 2);
        lemma_decode_stream_bit(s, 7 * j + 3);
        lemma_decode_stream_bit(s, 7 * j + 4);
        lemma_decode_stream_bit(s, 7 * j + 5);
        lemma_decode_stream_bit(s, 7 * j + 6);
        lemma_septet_bit_at(s, j, 0);
        lemma_septet_bit_at(s, j, 1);
        lemma_septet_bit_at(s, j, 2);
        lemma_septet_bit_at(s, j, 3);
        lemma_septet_bit_at(s, j, 4);
        lemma_septet_bit_at(s, j, 5);
        lemma_septet_bit_at(s, j, 6);
        lemma_byte_bits(s[j]);
        let x = s[j];
        assert(!u8_bit(x, 7)) by (bit_vector)
            requires
                x < 0x80,
        ;
    }
    assert(encode7(decode7(s)) =~= s);
}

} // verus!
