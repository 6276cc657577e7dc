use vstd::prelude::*;

verus! {

/// One bit step of the reflected CRC-32 used by PNG (polynomial `0xedb88320`).
pub open spec fn crc_shift(c: u32) -> u32 {
    if c & 1 == 1 {
        0xedb8_8320u32 ^ (c >> 1)
    } else {
        c >> 1
    }
}

/// `n` bit steps.
pub open spec fn crc_shift_n(c: u32, n: nat) -> u32
    decreases n,
{
    if n == 0 {
        c
    } else {
        crc_shift_n(crc_shift(c), (n - 1) as nat)
    }
}

/// The CRC register after feeding in `data`, starting from all ones.
pub open spec fn crc_register(data: Seq<u8>) -> u32
    decreases data.len(),
{
    if data.len() == 0 {
        0xffff_ffffu32
    } else {
        crc_shift_n(crc_register(data.drop_last()) ^ (data.last() as u32), 8)
    }
}

/// The 32-bit CRC of `data` as PNG defines it (ISO 3309 / ITU-T V.42): the
/// register started at all ones, fed bit by bit, and complemented at the end.
pub open spec fn crc32(data: Seq<u8>) -> u32 {
    crc_register(data) ^ 0xffff_ffffu32
}

/// Entry `n` of the byte-at-a-time CRC table: eight bit steps from `n`.
pub open spec fn crc_table_entry(n: u32) -> u32 {
    crc_shift_n(n, 8)
}

/// The four little-endian bytes of `x`.
pub open spec fn le_bytes(x: u32) -> Seq<u8> {
    seq![x as u8, (x >> 8) as u8, (x >> 16) as u8, (x >> 24) as u8]
}

/// Eight bit steps, written out.
spec fn crc_byte(c: u32) -> u32 {
    crc_shift(crc_shift(crc_shift(crc_shift(crc_shift(crc_shift(crc_shift(crc_shift(c))))))))
}

proof fn lemma_crc_byte(c: u32)
    ensures
        crc_shift_n(c, 8) == crc_byte(c),
{
    reveal_with_fuel(crc_shift_n, 9);
}

/// Eight bit steps on a register are the table entry of its low byte
/// combined with the register shifted right by eight.
proof fn lemma_crc_byte_split(x: u32)
    by (bit_vector)
    ensures
        crc_byte(x) == crc_byte(x & 0xff) ^ (x >> 8),
{
}


/// The table of the byte-at-a-time CRC: entry `n` is eight bit steps from `n`.
fn compute_crc_table() -> (table: [u32; 256])
    ensures
        forall|i: int| 0 <= i < 256 ==> #[trigger] table@[i] == crc_table_entry(i as u32),
        forall|a: u32, b: u32|
            a < 256 && b < 256 ==> #[trigger] table@[(a ^ b) as int] == table@[a as int]
                ^ table@[b as int],
{
    let mut n: u32 = 0;
    let mut output = [0u32; 256];
    while n < 256
        invariant
            n <= 256,
            forall|i: int| 0 <= i < n ==> #[trigger] output@[i] == crc_shift_n(i as u32, 8),
        decreases 256 - n,
    {
        let mut c = n;
        let mut k: u32 = 0;
        while k < 8
            invariant
                k <= 8,
                n < 256,
                crc_shift_n(n, 8) == crc_shift_n(c, (8 - k) as nat),
            decreases 8 - k,
        {
            if c & 1 == 1 {
                c = 0xedb8_8320 ^ (c >> 1);
            } else {
                c >>= 1;
            }
            k += 1;
        }
        output[n as usize] = c;
        n += 1;
    }
    proof {
        assert forall|a: u32, b: u32| a < 256 && b < 256 implies #[trigger] output@[(a ^ b) as int]
            == output@[a as int] ^ output@[b as int] by {
            assert(a ^ b < 256) by (bit_vector)
                requires
                    a < 256,
                    b < 256,
            ;
            crc_table_is_linear(a, b);
        }
    }
    output
}

///Calculates 32bit CRC
pub fn compute_crc(data: &[u8]) -> (crc: u32)
    ensures
        crc == crc32(data@),
{
    let mut c = u32::MAX;

    let table = compute_crc_table();
    let mut i: usize = 0;
    while i < data.len()
        invariant
            i <= data@.len(),
            c == crc_register(data@.take(i as int)),
            forall|j: int| 0 <= j < 256 ==> #[trigger] table@[j] == crc_shift_n(j as u32, 8),
        decreases data@.len() - i,
    {
        let b = data[i] as u32;
        let x = c ^ b;
        let idx = (x & 0xff) as usize;
        assert(x & 0xff < 256) by (bit_vector);
        assert(x >> 8 == c >> 8) by (bit_vector)
            requires
                x == c ^ b,
                b < 256,
        ;
        proof {
            lemma_crc_byte(x);
            lemma_crc_byte(x & 0xff);
            lemma_crc_byte_split(x);
            assert(data@.take(i + 1).drop_last() == data@.take(i as int));
        }
        c = table[idx] ^ (c >> 8);
        i += 1;
    }
    assert(data@.take(data@.len() as int) == data@);
    c ^ u32::MAX
}

/// The CRC table is linear over GF(2): the entry of `a ^ b` is the xor of the
/// entries of `a` and `b`.
pub proof fn crc_table_is_linear(a: u32, b: u32)
    ensures
        crc_table_entry(a ^ b) == crc_table_entry(a) ^ crc_table_entry(b),
{
    lemma_shift_n_linear(a, b, 8);
}

proof fn lemma_shift_n_linear(a: u32, b: u32, n: nat)
    ensures
        crc_shift_n(a ^ b, n) == crc_shift_n(a, n) ^ crc_shift_n(b, n),
    decreases n,
{
    if n > 0 {
        assert(crc_shift(a ^ b) == crc_shift(a) ^ crc_shift(b)) by (bit_vector);
        lemma_shift_n_linear(crc_shift(a), crc_shift(b), (n - 1) as nat);
    }
}

proof fn lemma_register_push(data: Seq<u8>, b: u8)
    ensures
        crc_register(data.push(b)) == crc_byte(crc_register(data) ^ (b as u32)),
{
    assert(data.push(b).drop_last() =~= data);
    lemma_crc_byte(crc_register(data) ^ (b as u32));
}

/// The CRC residue: a message followed by its own CRC, least significant
/// byte first, always has the CRC `0x2144df1c`.
pub proof fn crc_residue(data: Seq<u8>)
    ensures
        crc32(data + le_bytes(crc32(data))) == 0x2144_df1cu32,
{
    let r = crc_register(data);
    let c = crc32(data);
    let l = le_bytes(c);
    let d1 = data.push(l[0]);
    let d2 = d1.push(l[1]);
    let d3 = d2.push(l[2]);
    let d4 = d3.push(l[3]);
    assert(d4 =~= data + l);
    lemma_register_push(data, l[0]);
    lemma_register_push(d1, l[1]);
    lemma_register_push(d2, l[2]);
    lemma_register_push(d3, l[3]);
    let r1 = crc_register(d1);
    let r2 = crc_register(d2);
    let r3 = crc_register(d3);
    let r4 = crc_register(d4);
    assert(r1 == 0x2d02_ef8du32 ^ (r >> 8)) by (bit_vector)
        requires
            c == r ^ 0xffff_ffffu32,
            r1 == crc_byte(r ^ ((c as u8) as u32)),
    ;
    assert(r2 == 0xbe26_12ffu32 ^ (r >> 16)) by (bit_vector)
        requires
            c == r ^ 0xffff_ffffu32,
            r1 == 0x2d02_ef8du32 ^ (r >> 8),
            r2 == crc_byte(r1 ^ (((c >> 8) as u8) as u32)),
    ;
    assert(r3 == 0x00be_2612u32 ^ (r >> 24)) by (bit_vector)
        requires
            c == r ^ 0xffff_ffffu32,
            r2 == 0xbe26_12ffu32 ^ (r >> 16),
            r3 == crc_byte(r2 ^ (((c >> 16) as u8) as u32)),
    ;
    assert(r4 == 0xdebb_20e3u32) by (bit_vector)
        requires
            c == r ^ 0xffff_ffffu32,
            r3 == 0x00be_2612u32 ^ (r >> 24),
            r4 == crc_byte(r3 ^ (((c >> 24) as u8) as u32)),
    ;
    assert(0xdebb_20e3u32 ^ 0xffff_ffffu32 == 0x2144_df1cu32) by (bit_vector);
}
} // verus!
