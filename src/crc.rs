//! Reflected CRC-32 (ISO-HDLC polynomial), table driven, one byte at a time.
use vstd::prelude::*;

verus! {

/// The reflected ISO-HDLC generator polynomial.
pub const CRC32_POLY: u32 = 0xEDB8_8320;

/// One shift of the bitwise CRC register.
pub open spec fn crc_step(c: u32) -> u32 {
    if c & 1 == 1 {
        (c >> 1) ^ 0xEDB8_8320u32
    } else {
        c >> 1
    }
}

/// Entry `n` of the 256-entry lookup table: eight register shifts of `n`.
pub open spec fn crc_table_entry(n: u32) -> u32 {
    crc_step(crc_step(crc_step(crc_step(crc_step(crc_step(crc_step(crc_step(n))))))))
}

/// `k` shifts of the bitwise CRC register.
pub open spec fn crc_steps(c: u32, k: nat) -> u32
    decreases k,
{
    if k == 0 {
        c
    } else {
        crc_steps(crc_step(c), (k - 1) as nat)
    }
}

/// The register after feeding one byte.
pub open spec fn crc_update(c: u32, b: u8) -> u32 {
    (c >> 8) ^ crc_table_entry((c ^ (b as u32)) & 0xff)
}

/// The register after feeding every byte of `s`, starting from `init`.
pub open spec fn crc_fold(init: u32, s: Seq<u8>) -> u32
    decreases s.len(),
{
    if s.len() == 0 {
        init
    } else {
        crc_update(crc_fold(init, s.drop_last()), s.last())
    }
}

/// The CRC-32 checksum of `s`.
pub open spec fn crc32(s: Seq<u8>) -> u32 {
    !crc_fold(0xFFFF_FFFFu32, s)
}

/// Feeding one byte is injective in the register.
pub proof fn lemma_crc_update_injective_register(c1: u32, c2: u32, b: u32)
    by (bit_vector)
    requires
        ((c1 >> 8) ^ crc_table_entry((c1 ^ b) & 0xff)) == ((c2 >> 8) ^ crc_table_entry(
            (c2 ^ b) & 0xff,
        )),
    ensures
        c1 == c2,
{
}

/// Feeding one byte is injective in the byte.
pub proof fn lemma_crc_update_injective_byte(c: u32, b1: u32, b2: u32)
    by (bit_vector)
    requires
        b1 < 256,
        b2 < 256,
        ((c >> 8) ^ crc_table_entry((c ^ b1) & 0xff)) == ((c >> 8) ^ crc_table_entry(
            (c ^ b2) & 0xff,
        )),
    ensures
        b1 == b2,
{
}

/// The running registers of two inputs that first differ at `i` stay
/// different after any longer prefix.
proof fn lemma_fold_differs(s: Seq<u8>, t: Seq<u8>, i: int, n: int)
    requires
        s.len() == t.len(),
        0 <= i < n <= s.len(),
        s.subrange(0, i) == t.subrange(0, i),
        s[i] != t[i],
        forall|j: int| i < j < s.len() ==> s[j] == t[j],
    ensures
        crc_fold(0xFFFF_FFFFu32, s.subrange(0, n)) != crc_fold(0xFFFF_FFFFu32, t.subrange(0, n)),
    decreases n,
{
    let init = 0xFFFF_FFFFu32;
    let sn = s.subrange(0, n);
    let tn = t.subrange(0, n);
    assert(sn.drop_last() == s.subrange(0, n - 1));
    assert(tn.drop_last() == t.subrange(0, n - 1));
    if n == i + 1 {
        let c = crc_fold(init, s.subrange(0, i));
        if crc_update(c, s[i]) == crc_update(c, t[i]) {
            lemma_crc_update_injective_byte(c, s[i] as u32, t[i] as u32);
        }
    } else {
        lemma_fold_differs(s, t, i, n - 1);
        let c1 = crc_fold(init, s.subrange(0, n - 1));
        let c2 = crc_fold(init, t.subrange(0, n - 1));
        if crc_update(c1, s[n - 1]) == crc_update(c2, t[n - 1]) {
            lemma_crc_update_injective_register(c1, c2, s[n - 1] as u32);
        }
    }
}

/// Changing any single byte of the input changes its CRC-32.
pub proof fn lemma_crc32_detects_byte_change(s: Seq<u8>, i: int, x: u8)
    requires
        0 <= i < s.len(),
        x != s[i],
    ensures
        crc32(s.update(i, x)) != crc32(s),
{
    let t = s.update(i, x);
    assert(s.subrange(0, i) == t.subrange(0, i));
    assert(s.subrange(0, s.len() as int) == s);
    assert(t.subrange(0, t.len() as int) == t);
    lemma_fold_differs(s, t, i, s.len() as int);
    let a = crc_fold(0xFFFF_FFFFu32, s);
    let b = crc_fold(0xFFFF_FFFFu32, t);
    assert(a != b ==> !a != !b) by (bit_vector);
}

/// The CRC-32 of the empty sequence is zero.
pub proof fn lemma_crc32_empty()
    ensures
        crc32(Seq::<u8>::empty()) == 0,
{
    assert(!0xFFFF_FFFFu32 == 0u32) by (bit_vector);
}

fn crc_step_exec(c: u32) -> (r: u32)
    ensures
        r == crc_step(c),
{
    if c & 1 == 1 {
        (c >> 1) ^ CRC32_POLY
    } else {
        c >> 1
    }
}

fn crc_table_entry_exec(n: u32) -> (r: u32)
    ensures
        r == crc_table_entry(n),
{
    let mut c: u32 = n;
    let mut k: u32 = 0;
    while k < 8
        invariant
            k <= 8,
            crc_steps(c, (8 - k) as nat) == crc_steps(n, 8),
        decreases 8 - k,
    {
        c = crc_step_exec(c);
        k = k + 1;
    }
    assert(crc_steps(n, 8) == crc_table_entry(n)) by {
        reveal_with_fuel(crc_steps, 9);
    }
    c
}

/// The 256-entry lookup table of the reflected ISO-HDLC CRC-32.
pub fn crc32_table() -> (r: Vec<u32>)
    ensures
        r@.len() == 256,
        forall|i: int| 0 <= i < 256 ==> r@[i] == crc_table_entry(i as u32),
{
    let mut table: Vec<u32> = Vec::with_capacity(256);
    let mut n: u32 = 0;
    while n < 256
        invariant
            n <= 256,
            table@.len() == n,
            forall|i: int| 0 <= i < n ==> table@[i] == crc_table_entry(i as u32),
        decreases 256 - n,
    {
        let e = crc_table_entry_exec(n);
        table.push(e);
        n = n + 1;
    }
    table
}

/// The CRC-32 checksum of `data`.
pub fn compute_crc32(data: &[u8]) -> (r: u32)
    ensures
        r == crc32(data@),
{
    let table = crc32_table();
    let init: u32 = 0xFFFF_FFFF;
    let mut crc: u32 = init;
    let mut i: usize = 0;
    while i < data.len()
        invariant
            i <= data@.len(),
            table@.len() == 256,
            forall|j: int| 0 <= j < 256 ==> table@[j] == crc_table_entry(j as u32),
            crc == crc_fold(init, data@.subrange(0, i as int)),
        decreases data@.len() - i,
    {
        let b = data[i] as u32;
        let idx = (crc ^ b) & 0xff;
        assert(idx < 256) by (bit_vector)
            requires
                idx == (crc ^ b) & 0xff,
        ;
        crc = (crc >> 8) ^ table[idx as usize];
        assert(data@.subrange(0, i + 1).drop_last() == data@.subrange(0, i as int));
        i = i + 1;
    }
    assert(data@.subrange(0, data@.len() as int) == data@);
    !crc
}

} // verus!
