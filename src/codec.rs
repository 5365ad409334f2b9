//! Byte layouts: little-endian integers and the framing of one stored record.
use vstd::prelude::*;

verus! {

/// `256^k`.
pub open spec fn pow256(k: nat) -> nat
    decreases k,
{
    if k == 0 {
        1
    } else {
        256 * pow256((k - 1) as nat)
    }
}

/// The `k` low bytes of `n`, least significant first.
pub open spec fn le_bytes(n: nat, k: nat) -> Seq<u8>
    decreases k,
{
    if k == 0 {
        Seq::empty()
    } else {
        seq![(n % 256) as u8] + le_bytes(n / 256, (k - 1) as nat)
    }
}

/// The number that the bytes `s` spell, least significant first.
pub open spec fn le_value(s: Seq<u8>) -> nat
    decreases s.len(),
{
    if s.len() == 0 {
        0
    } else {
        s[0] as nat + 256 * le_value(s.drop_first())
    }
}

/// The eight-byte little-endian form of `n`.
pub open spec fn u64_bytes(n: u64) -> Seq<u8> {
    le_bytes(n as nat, 8)
}

/// The integer held by the eight bytes of `b` that start at `at`.
pub open spec fn u64_at(b: Seq<u8>, at: int) -> u64 {
    le_value(b.subrange(at, at + 8)) as u64
}

/// Tag byte of an absent payload.
pub const TAG_NONE: u8 = 0;

/// Tag byte of a present payload.
pub const TAG_SOME: u8 = 1;

/// The stored form of a frame: its time, a tag byte, and the payload bytes.
pub open spec fn frame_bytes(time: u64, tick: Option<Seq<u8>>) -> Seq<u8> {
    match tick {
        None => u64_bytes(time) + seq![TAG_NONE],
        Some(p) => u64_bytes(time) + seq![TAG_SOME] + p,
    }
}

/// The frame that `b` holds, if `b` is a well-formed stored frame.
pub open spec fn parse_frame(b: Seq<u8>) -> Option<(u64, Option<Seq<u8>>)> {
    if b.len() < 9 {
        None
    } else if b[8] == TAG_NONE && b.len() == 9 {
        Some((u64_at(b, 0), None))
    } else if b[8] == TAG_SOME {
        Some((u64_at(b, 0), Some(b.subrange(9, b.len() as int))))
    } else {
        None
    }
}

pub proof fn lemma_le_bytes_len(n: nat, k: nat)
    ensures
        le_bytes(n, k).len() == k,
    decreases k,
{
    if k > 0 {
        lemma_le_bytes_len(n / 256, (k - 1) as nat);
    }
}

pub proof fn lemma_le_value_bound(s: Seq<u8>)
    ensures
        le_value(s) < pow256(s.len()),
    decreases s.len(),
{
    if s.len() > 0 {
        lemma_le_value_bound(s.drop_first());
        let r = le_value(s.drop_first());
        let p = pow256((s.len() - 1) as nat);
        assert(s[0] as nat + 256 * r < 256 * p) by (nonlinear_arith)
            requires
                r < p,
                s[0] < 256,
        ;
    }
}

/// Reading back the `k` low bytes of `n` gives `n`, when `n` fits in them.
pub proof fn lemma_le_round_trip(n: nat, k: nat)
    requires
        n < pow256(k),
    ensures
        le_value(le_bytes(n, k)) == n,
    decreases k,
{
    if k > 0 {
        let s = le_bytes(n, k);
        assert(s.drop_first() =~= le_bytes(n / 256, (k - 1) as nat));
        assert(n / 256 < pow256((k - 1) as nat)) by (nonlinear_arith)
            requires
                n < 256 * pow256((k - 1) as nat),
        ;
        lemma_le_round_trip(n / 256, (k - 1) as nat);
        assert(n == n % 256 + 256 * (n / 256)) by (nonlinear_arith);
    }
}

pub proof fn lemma_pow256_8()
    ensures
        pow256(8) == 0x1_0000_0000_0000_0000,
{
    reveal_with_fuel(pow256, 9);
}

/// The integer read from the eight-byte form of `n` is `n`.
pub proof fn lemma_u64_round_trip(n: u64)
    ensures
        u64_bytes(n).len() == 8,
        le_value(u64_bytes(n)) == n,
{
    lemma_le_bytes_len(n as nat, 8);
    lemma_pow256_8();
    lemma_le_round_trip(n as nat, 8);
}

/// Reads the eight bytes of `b` that start at `at` back from the form
/// `u64_bytes` gives.
pub proof fn lemma_u64_at(b: Seq<u8>, at: int, n: u64)
    requires
        0 <= at,
        at + 8 <= b.len(),
        b.subrange(at, at + 8) == u64_bytes(n),
    ensures
        u64_at(b, at) == n,
{
    lemma_u64_round_trip(n);
}

/// Appends the eight-byte little-endian form of `n` to `out`.
pub fn push_u64(out: &mut Vec<u8>, n: u64)
    ensures
        final(out)@ == old(out)@ + u64_bytes(n),
{
    let ghost start = out@;
    let mut x: u64 = n;
    let mut i: usize = 0;
    while i < 8
        invariant
            i <= 8,
            out@ + le_bytes(x as nat, (8 - i) as nat) == start + u64_bytes(n),
        decreases 8 - i,
    {
        let ghost before = out@;
        out.push((x % 256) as u8);
        assert(le_bytes(x as nat, (8 - i) as nat) =~= seq![(x % 256) as u8] + le_bytes(
            (x / 256) as nat,
            (8 - i - 1) as nat,
        ));
        assert(out@ + le_bytes((x / 256) as nat, (8 - i - 1) as nat) =~= before + le_bytes(
            x as nat,
            (8 - i) as nat,
        ));
        x = x / 256;
        i = i + 1;
    }
    assert(out@ =~= start + u64_bytes(n));
}

/// Reads the eight-byte little-endian integer that starts at `at`.
pub fn read_u64(b: &[u8], at: usize) -> (r: u64)
    requires
        at + 8 <= b@.len(),
    ensures
        r == u64_at(b@, at as int),
{
    let ghost s = b@.subrange(at as int, at + 8);
    let len = b.len();
    let mut v: u64 = 0;
    let mut i: usize = 8;
    while i > 0
        invariant
            i <= 8,
            at + 8 <= b@.len(),
            len == b@.len(),
            s == b@.subrange(at as int, at + 8),
            v as nat == le_value(s.subrange(i as int, 8)),
        decreases i,
    {
        let ghost tail = s.subrange(i as int, 8);
        proof {
            lemma_le_value_bound(tail);
            lemma_pow256_8();
            let p = pow256((8 - i) as nat);
            assert(pow256((8 - i + 1) as nat) == 256 * p);
            assert(pow256((8 - i + 1) as nat) <= pow256(8)) by {
                lemma_pow256_mono((8 - i + 1) as nat, 8);
            }
        }
        let byte = b[at + (i - 1)];
        assert(v * 256 + byte < 0x1_0000_0000_0000_0000) by (nonlinear_arith)
            requires
                v < pow256((8 - i) as nat),
                256 * pow256((8 - i) as nat) <= 0x1_0000_0000_0000_0000,
                byte < 256,
        ;
        let ghost next = s.subrange(i - 1, 8);
        assert(next.drop_first() =~= tail);
        v = byte as u64 + 256 * v;
        i = i - 1;
    }
    assert(s.subrange(0, 8) =~= s);
    proof {
        lemma_le_value_bound(s);
        lemma_pow256_8();
    }
    v
}

/// Reading the stored form of a frame gives back its time and payload.
pub proof fn lemma_frame_round_trip(time: u64, tick: Option<Seq<u8>>)
    ensures
        parse_frame(frame_bytes(time, tick)) == Some((time, tick)),
{
    let b = frame_bytes(time, tick);
    lemma_u64_round_trip(time);
    assert(b.subrange(0, 8) =~= u64_bytes(time));
    lemma_u64_at(b, 0, time);
    match tick {
        None => {},
        Some(p) => {
            assert(b.subrange(9, b.len() as int) =~= p);
        },
    }
}

pub proof fn lemma_pow256_mono(a: nat, b: nat)
    requires
        a <= b,
    ensures
        pow256(a) <= pow256(b),
    decreases b,
{
    if a < b {
        lemma_pow256_mono(a, (b - 1) as nat);
    }
}

} // verus!
