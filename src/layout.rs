//! The byte layout of a storage account, shared by every component that reads
//! or writes one, with the little-endian integer encoding it uses.
//!
//! A storage account is a fixed header followed by the payload region:
//! an 8-byte format tag, the segment index (1 byte), the owner key
//! (32 bytes), the creation time (8 bytes), the used length (4 bytes), the
//! active flag (1 byte), then `CHUNK_SIZE` payload bytes. Integers are
//! little-endian.
use vstd::prelude::*;

verus! {

/// Width of the format tag that opens every account.
pub const TAG_LEN: usize = 8;

/// Width of an owner key.
pub const KEY_LEN: usize = 32;

/// Offset of the segment index byte.
pub const INDEX_OFFSET: usize = TAG_LEN;

/// Offset of the owner key.
pub const AUTHORITY_OFFSET: usize = INDEX_OFFSET + 1;

/// Offset of the creation time (`i64`, 8 bytes).
pub const CREATED_AT_OFFSET: usize = AUTHORITY_OFFSET + KEY_LEN;

/// Offset of the used length (`u32`, 4 bytes).
pub const DATA_LENGTH_OFFSET: usize = CREATED_AT_OFFSET + 8;

/// Width of the used length field.
pub const DATA_LENGTH_LEN: usize = 4;

/// Offset of the active flag byte.
pub const IS_ACTIVE_OFFSET: usize = DATA_LENGTH_OFFSET + DATA_LENGTH_LEN;

/// Offset at which the payload region starts; also the header's size.
pub const DATA_OFFSET: usize = IS_ACTIVE_OFFSET + 1;

/// Payload capacity of a fixed-size segment.
pub const CHUNK_SIZE: usize = 30 * 1024;

/// Total size of a fixed-size segment's account.
pub const STORAGE_PDA_SIZE: usize = DATA_OFFSET + CHUNK_SIZE;

/// The format tag of a fixed-size segment's account.
pub open spec fn storage_pda_tag() -> Seq<u8> {
    seq![224u8, 128u8, 39u8, 34u8, 233u8, 157u8, 239u8, 124u8]
}

/// Appends the format tag of a fixed-size segment's account.
pub fn push_storage_pda_tag(out: &mut Vec<u8>)
    ensures
        final(out)@ == old(out)@ + storage_pda_tag(),
{
    out.push(224u8);
    out.push(128u8);
    out.push(39u8);
    out.push(34u8);
    out.push(233u8);
    out.push(157u8);
    out.push(239u8);
    out.push(124u8);
    assert(final(out)@ =~= old(out)@ + storage_pda_tag());
}

/// Whether `buf[at..at + 8]` holds the format tag of a fixed-size segment's account.
pub fn has_storage_pda_tag(buf: &Vec<u8>, at: usize) -> (r: bool)
    requires
        at + TAG_LEN <= buf.len(),
    ensures
        r == (buf@.subrange(at as int, at + TAG_LEN) == storage_pda_tag()),
{
    let ok = buf[at] == 224u8 && buf[at + 1] == 128u8 && buf[at + 2] == 39u8 && buf[at + 3] == 34u8
        && buf[at + 4] == 233u8 && buf[at + 5] == 157u8 && buf[at + 6] == 239u8 && buf[at + 7]
        == 124u8;
    assert(ok ==> buf@.subrange(at as int, at + TAG_LEN) =~= storage_pda_tag());
    assert(buf@.subrange(at as int, at + TAG_LEN) == storage_pda_tag() ==> ok) by {
        if buf@.subrange(at as int, at + TAG_LEN) == storage_pda_tag() {
            let t = buf@.subrange(at as int, at + TAG_LEN);
            assert(t[0] == 224u8 && t[1] == 128u8 && t[2] == 39u8 && t[3] == 34u8);
            assert(t[4] == 233u8 && t[5] == 157u8 && t[6] == 239u8 && t[7] == 124u8);
        }
    }
    ok
}

/// The byte that stands for a flag.
pub open spec fn flag_byte(b: bool) -> u8 {
    if b {
        1
    } else {
        0
    }
}

/// `n` zero bytes.
pub open spec fn zeros(n: nat) -> Seq<u8> {
    Seq::new(n, |i: int| 0u8)
}

/// A vector of `n` zero bytes.
pub fn zeroed(n: usize) -> (r: Vec<u8>)
    ensures
        r@ == zeros(n as nat),
{
    let mut r: Vec<u8> = Vec::with_capacity(n);
    let mut k: usize = 0;
    while k < n
        invariant
            k <= n,
            r@ == zeros(k as nat),
        decreases n - k,
    {
        r.push(0u8);
        k = k + 1;
        assert(r@ =~= zeros(k as nat));
    }
    r
}

/// Appends every byte of `src`.
pub fn push_all(out: &mut Vec<u8>, src: &Vec<u8>)
    ensures
        final(out)@ == old(out)@ + src@,
{
    let mut k: usize = 0;
    while k < src.len()
        invariant
            k <= src.len(),
            out@ == old(out)@ + src@.subrange(0, k as int),
        decreases src.len() - k,
    {
        out.push(src[k]);
        k = k + 1;
        assert(out@ =~= old(out)@ + src@.subrange(0, k as int));
    }
    assert(src@.subrange(0, src.len() as int) =~= src@);
}

/// Overwrites `buf[at..at + len]` with `src[from..from + len]`.
pub fn copy_into(buf: &mut Vec<u8>, at: usize, src: &Vec<u8>, from: usize, len: usize)
    requires
        at + len <= old(buf).len(),
        from + len <= src.len(),
    ensures
        final(buf)@ == old(buf)@.subrange(0, at as int) + src@.subrange(from as int, from + len)
            + old(buf)@.subrange(at + len, old(buf)@.len() as int),
{
    let mut k: usize = 0;
    while k < len
        invariant
            k <= len,
            at + len <= buf.len(),
            from + len <= src.len(),
            buf.len() == old(buf).len(),
            buf@ == old(buf)@.subrange(0, at as int) + src@.subrange(from as int, from + k)
                + old(buf)@.subrange(at + k, old(buf)@.len() as int),
        decreases len - k,
    {
        buf.set(at + k, src[from + k]);
        k = k + 1;
        assert(buf@ =~= old(buf)@.subrange(0, at as int) + src@.subrange(from as int, from + k)
            + old(buf)@.subrange(at + k, old(buf)@.len() as int));
    }
}

/// Sets every byte of `buf[at..]` to zero.
pub fn zero_from(buf: &mut Vec<u8>, at: usize)
    requires
        at <= old(buf).len(),
    ensures
        final(buf)@ == old(buf)@.subrange(0, at as int) + zeros((old(buf).len() - at) as nat),
{
    let mut k: usize = at;
    while k < buf.len()
        invariant
            at <= k <= buf.len(),
            buf.len() == old(buf).len(),
            buf@ == old(buf)@.subrange(0, at as int) + zeros((k - at) as nat) + old(buf)@.subrange(
                k as int,
                old(buf)@.len() as int,
            ),
        decreases buf.len() - k,
    {
        buf.set(k, 0u8);
        k = k + 1;
        assert(buf@ =~= old(buf)@.subrange(0, at as int) + zeros((k - at) as nat)
            + old(buf)@.subrange(k as int, old(buf)@.len() as int));
    }
    assert(buf@ =~= old(buf)@.subrange(0, at as int) + zeros((old(buf).len() - at) as nat));
}

/// The value of a little-endian byte string.
pub open spec fn le_value(s: Seq<u8>) -> nat
    decreases s.len(),
{
    if s.len() == 0 {
        0
    } else {
        s[0] as nat + 256 * le_value(s.subrange(1, s.len() as int))
    }
}

/// The `n` low bytes of `v`, least significant first.
pub open spec fn le_bytes(v: nat, n: nat) -> Seq<u8>
    decreases n,
{
    if n == 0 {
        Seq::empty()
    } else {
        seq![(v % 256) as u8] + le_bytes(v / 256, (n - 1) as nat)
    }
}

/// `256` raised to `n`.
pub open spec fn pow256(n: nat) -> nat
    decreases n,
{
    if n == 0 {
        1
    } else {
        256 * pow256((n - 1) as nat)
    }
}

pub proof fn lemma_le_bytes_len(v: nat, n: nat)
    ensures
        le_bytes(v, n).len() == n,
    decreases n,
{
    if n > 0 {
        lemma_le_bytes_len(v / 256, (n - 1) as nat);
    }
}

/// Decoding the `n`-byte encoding of a value below `256^n` gives the value back.
pub proof fn lemma_le_round_trip(v: nat, n: nat)
    requires
        v < pow256(n),
    ensures
        le_value(le_bytes(v, n)) == v,
    decreases n,
{
    if n > 0 {
        let m = (n - 1) as nat;
        let rest = le_bytes(v / 256, m);
        assert(v / 256 < pow256(m)) by (nonlinear_arith)
            requires
                v < 256 * pow256(m),
        ;
        lemma_le_round_trip(v / 256, m);
        let s = le_bytes(v, n);
        assert(s.subrange(1, s.len() as int) =~= rest);
        assert(v == v % 256 + 256 * (v / 256)) by (nonlinear_arith);
    }
}

/// Every value of an `n`-byte string is below `256^n`.
pub proof fn lemma_le_value_bound(s: Seq<u8>)
    ensures
        le_value(s) < pow256(s.len()),
    decreases s.len(),
{
    if s.len() > 0 {
        let t = s.subrange(1, s.len() as int);
        lemma_le_value_bound(t);
        let a = s[0] as nat;
        let b = le_value(t);
        let p = pow256(t.len());
        assert(a + 256 * b < 256 * p) by (nonlinear_arith)
            requires
                a < 256,
                b < p,
        ;
    }
}

/// Encoding the value of an `n`-byte string in `n` bytes gives the string back.
pub proof fn lemma_le_bytes_of_value(s: Seq<u8>)
    ensures
        le_bytes(le_value(s), s.len()) == s,
    decreases s.len(),
{
    if s.len() > 0 {
        let t = s.subrange(1, s.len() as int);
        lemma_le_bytes_of_value(t);
        let v = le_value(s);
        assert(v % 256 == s[0] as nat && v / 256 == le_value(t)) by (nonlinear_arith)
            requires
                v == s[0] as nat + 256 * le_value(t),
                s[0] < 256,
        ;
        assert(le_bytes(v, s.len()) =~= s);
    }
}

/// Appends the `n` low bytes of `v`, least significant first.
pub fn push_le(out: &mut Vec<u8>, v: u64, n: usize)
    requires
        n <= 8,
    ensures
        final(out)@ == old(out)@ + le_bytes(v as nat, n as nat),
{
    let mut cur: u64 = v;
    let mut k: usize = 0;
    while k < n
        invariant
            k <= n,
            out@ + le_bytes(cur as nat, (n - k) as nat) == old(out)@ + le_bytes(v as nat, n as nat),
        decreases n - k,
    {
        let ghost before = out@;
        out.push((cur % 256) as u8);
        assert(le_bytes(cur as nat, (n - k) as nat) == seq![(cur % 256) as u8] + le_bytes(
            (cur / 256) as nat,
            (n - k - 1) as nat,
        ));
        assert(before + le_bytes(cur as nat, (n - k) as nat) =~= out@ + le_bytes(
            (cur / 256) as nat,
            (n - k - 1) as nat,
        ));
        cur = cur / 256;
        k = k + 1;
    }
    assert(le_bytes(cur as nat, 0) =~= Seq::<u8>::empty());
    assert(out@ =~= out@ + le_bytes(cur as nat, 0));
}

/// Writes the `n` low bytes of `v` over `buf[at..at + n]`.
pub fn put_le(buf: &mut Vec<u8>, at: usize, v: u64, n: usize)
    requires
        n <= 8,
        at + n <= old(buf).len(),
    ensures
        final(buf)@ == old(buf)@.subrange(0, at as int) + le_bytes(v as nat, n as nat)
            + old(buf)@.subrange(at + n, old(buf)@.len() as int),
{
    let mut cur: u64 = v;
    let mut k: usize = 0;
    while k < n
        invariant
            k <= n,
            at + n <= buf.len(),
            buf.len() == old(buf).len(),
            buf@.subrange(0, (at + k) as int) + le_bytes(cur as nat, (n - k) as nat)
                + buf@.subrange(at + n, buf@.len() as int) == old(buf)@.subrange(0, at as int)
                + le_bytes(v as nat, n as nat) + old(buf)@.subrange(at + n, old(buf)@.len() as int),
            buf@.subrange(at + k, at + n) == old(buf)@.subrange(at + k, at + n),
        decreases n - k,
    {
        let ghost before = buf@;
        buf.set(at + k, (cur % 256) as u8);
        assert(le_bytes(cur as nat, (n - k) as nat) == seq![(cur % 256) as u8] + le_bytes(
            (cur / 256) as nat,
            (n - k - 1) as nat,
        ));
        assert(buf@.subrange(0, (at + k + 1) as int) =~= before.subrange(0, (at + k) as int)
            + seq![(cur % 256) as u8]);
        assert(buf@.subrange(at + n, buf@.len() as int) =~= before.subrange(
            at + n,
            before.len() as int,
        ));
        assert(buf@.subrange(at + k + 1, at + n) =~= before.subrange(at + k + 1, at + n));
        assert(before.subrange(at + k + 1, at + n) =~= old(buf)@.subrange(at + k + 1, at + n))
            by {
            assert(before.subrange(at + k + 1, at + n) =~= before.subrange(at + k, at + n).subrange(
                1,
                (n - k) as int,
            ));
            assert(old(buf)@.subrange(at + k + 1, at + n) =~= old(buf)@.subrange(
                at + k,
                at + n,
            ).subrange(1, (n - k) as int));
        }
        cur = cur / 256;
        k = k + 1;
    }
    assert(le_bytes(cur as nat, 0) =~= Seq::<u8>::empty());
    assert(buf@ =~= buf@.subrange(0, (at + n) as int) + le_bytes(cur as nat, 0) + buf@.subrange(
        at + n,
        buf@.len() as int,
    ));
}

/// The value of the `n` bytes `buf[at..at + n]`, read least significant first.
pub fn get_le(buf: &Vec<u8>, at: usize, n: usize) -> (r: u64)
    requires
        n <= 8,
        at + n <= buf.len(),
    ensures
        r as nat == le_value(buf@.subrange(at as int, at + n)),
{
    let ghost s = buf@.subrange(at as int, at + n);
    let mut acc: u64 = 0;
    let mut k: usize = n;
    proof {
        lemma_pow256_8();
    }
    while k > 0
        invariant
            k <= n <= 8,
            at + n <= buf.len(),
            s == buf@.subrange(at as int, at + n),
            acc as nat == le_value(s.subrange(k as int, n as int)),
            acc < pow256((n - k) as nat),
            pow256(8) == 0x1_0000_0000_0000_0000nat,
        decreases k,
    {
        let ghost t = s.subrange(k as int, n as int);
        let ghost u = s.subrange(k - 1, n as int);
        proof {
            lemma_pow256_mono((n - k) as nat, 7);
            assert(u.subrange(1, u.len() as int) =~= t);
            lemma_le_value_bound(u);
            lemma_pow256_mono((n - k + 1) as nat, 8);
            assert(u.len() == (n - k + 1));
        }
        let b = buf[at + k - 1];
        assert(b == u[0]);
        assert(acc * 256 + b < 0x1_0000_0000_0000_0000nat) by (nonlinear_arith)
            requires
                b < 256,
                acc < pow256((n - k) as nat),
                pow256((n - k) as nat) <= pow256(7),
                pow256(8) == 256 * pow256(7),
                pow256(8) == 0x1_0000_0000_0000_0000nat,
        ;
        acc = acc * 256 + b as u64;
        k = k - 1;
    }
    assert(s.subrange(0, n as int) =~= s);
    acc
}

/// The powers of 256 that the account's integer fields use.
pub proof fn lemma_pow256_small()
    ensures
        pow256(8) == 0x1_0000_0000_0000_0000nat,
        pow256(4) == 0x1_0000_0000nat,
{
    lemma_pow256_8();
}

proof fn lemma_pow256_8()
    ensures
        pow256(8) == 0x1_0000_0000_0000_0000nat,
        pow256(4) == 0x1_0000_0000nat,
        pow256(1) == 256,
{
    reveal_with_fuel(pow256, 9);
}

proof fn lemma_pow256_mono(a: nat, b: nat)
    requires
        a <= b,
    ensures
        pow256(a) <= pow256(b),
    decreases b,
{
    if a < b {
        lemma_pow256_mono(a, (b - 1) as nat);
    }
}

} // verus!
