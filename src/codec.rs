//! MSB-first, row-major bit packing of glyph bitmaps.
use vstd::prelude::*;

verus! {

/// Bit `k` of a byte, counting from the most significant bit (`k` in `0..8`).
pub open spec fn byte_bit(b: u8, k: int) -> bool {
    (b >> ((7 - k) as u8)) & 1u8 == 1u8
}

/// Bit `j` of a packed stream: bit `j % 8` of byte `j / 8`.
pub open spec fn stream_bit(bytes: Seq<u8>, j: int) -> bool {
    byte_bit(bytes[j / 8], j % 8)
}

/// Number of bytes that hold `n` bits.
pub open spec fn packed_len(n: int) -> int {
    (n + 7) / 8
}

/// `bytes` holds `bits` most significant bit first, the tail of the last
/// byte padded with zero bits.
pub open spec fn is_packing_of(bytes: Seq<u8>, bits: Seq<bool>) -> bool {
    &&& bytes.len() == packed_len(bits.len() as int)
    &&& forall|j: int| 0 <= j < bits.len() ==> stream_bit(bytes, j) == bits[j]
    &&& forall|j: int| bits.len() <= j < 8 * bytes.len() ==> !stream_bit(bytes, j)
}

/// The first `n` bits of a packed stream.
pub open spec fn unpacked(bytes: Seq<u8>, n: int) -> Seq<bool> {
    Seq::new(n as nat, |j: int| stream_bit(bytes, j))
}

proof fn lemma_set_bit(b: u8, s: u8, t: u8)
    requires
        s < 8,
        t < 8,
    ensures
        ((b | (1u8 << s)) >> t) & 1u8 == 1u8 <==> (s == t || (b >> t) & 1u8 == 1u8),
{
    assert(((b | (1u8 << s)) >> t) & 1u8 == 1u8 <==> (s == t || (b >> t) & 1u8 == 1u8))
        by (bit_vector)
        requires
            s < 8,
            t < 8,
    ;
}

proof fn lemma_zero_bits(t: u8)
    ensures
        (0u8 >> t) & 1u8 != 1u8,
{
    assert((0u8 >> t) & 1u8 != 1u8) by (bit_vector);
}

/// Packs a row-major bit matrix into bytes, most significant bit first,
/// padding the final byte with zero bits.
pub fn pack_bits(bits: &Vec<bool>) -> (r: Vec<u8>)
    ensures
        is_packing_of(r@, bits@),
{
    let n = bits.len();
    let mut out: Vec<u8> = Vec::new();
    let mut cur: u8 = 0;
    let mut used: usize = 0;
    let mut i: usize = 0;
    proof {
        assert forall|q: int| 0 <= q < 8 implies !byte_bit(cur, q) by {
            lemma_zero_bits((7 - q) as u8);
        }
    }
    while i < n
        invariant
            n == bits@.len(),
            i <= n,
            used < 8,
            i == 8 * out@.len() + used,
            forall|j: int| 0 <= j < 8 * out@.len() ==> stream_bit(out@, j) == bits@[j],
            forall|q: int| 0 <= q < used ==> byte_bit(cur, q) == bits@[8 * out@.len() + q],
            forall|q: int| used <= q < 8 ==> !byte_bit(cur, q),
        decreases n - i,
    {
        let ghost prev = cur;
        if bits[i] {
            cur = cur | (1u8 << (7u8 - used as u8));
        }
        proof {
            assert forall|q: int| 0 <= q < 8 implies byte_bit(cur, q) == (byte_bit(prev, q) || (q
                == used && bits@[i as int])) by {
                if bits@[i as int] {
                    lemma_set_bit(prev, (7 - used) as u8, (7 - q) as u8);
                }
            }
        }
        used = used + 1;
        i = i + 1;
        if used == 8 {
            let ghost before = out@;
            out.push(cur);
            proof {
                assert forall|j: int| 0 <= j < 8 * out@.len() implies stream_bit(out@, j)
                    == bits@[j] by {
                    if j < 8 * before.len() {
                        assert(out@[j / 8] == before[j / 8]);
                    } else {
                        assert(j / 8 == before.len());
                        assert(out@[j / 8] == cur);
                    }
                }
            }
            cur = 0;
            used = 0;
            proof {
                assert forall|q: int| 0 <= q < 8 implies !byte_bit(cur, q) by {
                    lemma_zero_bits((7 - q) as u8);
                }
            }
        }
    }
    if used > 0 {
        let ghost before = out@;
        out.push(cur);
        proof {
            assert forall|j: int| 0 <= j < n implies stream_bit(out@, j) == bits@[j] by {
                if j < 8 * before.len() {
                    assert(out@[j / 8] == before[j / 8]);
                } else {
                    assert(j / 8 == before.len());
                }
            }
            assert forall|j: int| n <= j < 8 * out@.len() implies !stream_bit(out@, j) by {
                assert(j / 8 == before.len());
            }
        }
    }
    out
}

/// Reads the first `n` bits of a packed stream.
pub fn unpack_bits(bytes: &Vec<u8>, n: usize) -> (r: Vec<bool>)
    requires
        n <= 8 * bytes@.len(),
    ensures
        r@ == unpacked(bytes@, n as int),
{
    let mut out: Vec<bool> = Vec::new();
    let mut j: usize = 0;
    while j < n
        invariant
            j <= n <= 8 * bytes@.len(),
            out@ == unpacked(bytes@, j as int),
        decreases n - j,
    {
        let byte = bytes[j / 8];
        let shift = (7 - j % 8) as u8;
        out.push((byte >> shift) & 1u8 == 1u8);
        j = j + 1;
        assert(out@ =~= unpacked(bytes@, j as int));
    }
    out
}

/// Packing a bit matrix and unpacking it again gives the matrix back, and
/// every padding bit after it, up to the end of the last byte, is clear.
pub proof fn lemma_pack_round_trip(bits: Seq<bool>, bytes: Seq<u8>)
    requires
        is_packing_of(bytes, bits),
    ensures
        unpacked(bytes, bits.len() as int) == bits,
        unpacked(bytes, 8 * bytes.len() as int) == bits + Seq::new(
            (8 * bytes.len() - bits.len()) as nat,
            |k: int| false,
        ),
{
    assert(unpacked(bytes, bits.len() as int) =~= bits);
    assert(unpacked(bytes, 8 * bytes.len() as int) =~= bits + Seq::new(
        (8 * bytes.len() - bits.len()) as nat,
        |k: int| false,
    ));
}

} // verus!
