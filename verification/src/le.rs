use vstd::prelude::*;

verus! {

/// `256` raised to `n`.
pub open spec fn pow256(n: nat) -> nat
    decreases n,
{
    if n == 0 {
        1
    } else {
        256 * pow256((n - 1) as nat)
    }
}

/// The unsigned number whose little-endian bytes are `s`.
pub open spec fn le_value(s: Seq<u8>) -> nat
    decreases s.len(),
{
    if s.len() == 0 {
        0
    } else {
        s[0] as nat + 256 * le_value(s.drop_first())
    }
}

/// The two's-complement number whose little-endian bytes are `s`.
pub open spec fn le_signed(s: Seq<u8>) -> int {
    if s.len() > 0 && s.last() >= 128 {
        le_value(s) - pow256(s.len())
    } else {
        le_value(s) as int
    }
}

/// The `n` lowest little-endian bytes of `x`.
pub open spec fn le_bytes(x: nat, n: nat) -> Seq<u8>
    decreases n,
{
    if n == 0 {
        Seq::empty()
    } else {
        seq![(x % 256) as u8] + le_bytes(x / 256, (n - 1) as nat)
    }
}

pub proof fn lemma_pow256_values()
    ensures
        pow256(1) == 0x100,
        pow256(4) == 0x1_0000_0000,
        pow256(8) == 0x1_0000_0000_0000_0000,
        pow256(15) == 0x1_0000_0000_0000_0000_0000_0000_0000_00,
        pow256(16) == 0x1_0000_0000_0000_0000_0000_0000_0000_0000,
{
    reveal_with_fuel(pow256, 17);
}

pub proof fn lemma_pow256_mono(a: nat, b: nat)
    requires
        a <= b,
    ensures
        pow256(a) <= pow256(b),
        pow256(a) >= 1,
    decreases b,
{
    if b > a {
        lemma_pow256_mono(a, (b - 1) as nat);
    } else if a > 0 {
        lemma_pow256_mono((a - 1) as nat, (a - 1) as nat);
    }
}

pub proof fn lemma_le_value_bound(s: Seq<u8>)
    ensures
        le_value(s) < pow256(s.len()),
    decreases s.len(),
{
    if s.len() > 0 {
        lemma_le_value_bound(s.drop_first());
    }
}

/// Peeling off the byte at `i` of the suffix that starts there.
pub proof fn lemma_le_value_suffix(s: Seq<u8>, i: int)
    requires
        0 <= i < s.len(),
    ensures
        le_value(s.subrange(i, s.len() as int)) == s[i] as nat + 256 * le_value(
            s.subrange(i + 1, s.len() as int),
        ),
{
    let t = s.subrange(i, s.len() as int);
    assert(t.drop_first() =~= s.subrange(i + 1, s.len() as int));
}

pub proof fn lemma_le_bytes_len(x: nat, n: nat)
    ensures
        le_bytes(x, n).len() == n,
    decreases n,
{
    if n > 0 {
        lemma_le_bytes_len(x / 256, (n - 1) as nat);
    }
}

/// Reading back the bytes that `le_bytes` wrote gives the number.
pub proof fn lemma_le_roundtrip(x: nat, n: nat)
    requires
        x < pow256(n),
    ensures
        le_value(le_bytes(x, n)) == x,
        le_bytes(x, n).len() == n,
    decreases n,
{
    lemma_le_bytes_len(x, n);
    if n > 0 {
        let q = x / 256;
        assert(q < pow256((n - 1) as nat)) by (nonlinear_arith)
            requires
                x < 256 * pow256((n - 1) as nat),
                q == x / 256,
        ;
        lemma_le_roundtrip(q, (n - 1) as nat);
        let s = le_bytes(x, n);
        assert(s.drop_first() =~= le_bytes(q, (n - 1) as nat));
        assert(x == (x % 256) + 256 * q) by (nonlinear_arith)
            requires
                q == x / 256,
        ;
    }
}

/// Writing the number that a byte string stands for gives the same bytes.
pub proof fn lemma_le_bytes_of_value(s: Seq<u8>)
    ensures
        le_bytes(le_value(s), s.len()) == s,
    decreases s.len(),
{
    if s.len() > 0 {
        let v = le_value(s);
        let r = le_value(s.drop_first());
        assert(v % 256 == s[0] as nat && v / 256 == r) by (nonlinear_arith)
            requires
                v == s[0] as nat + 256 * r,
                s[0] < 256,
        ;
        lemma_le_bytes_of_value(s.drop_first());
        assert(le_bytes(v, s.len()) =~= s);
    }
}

/// Reads the unsigned little-endian number of `width` bytes at `start`.
pub fn read_le(data: &[u8], start: usize, width: usize) -> (v: u128)
    requires
        width <= 16,
        start + width <= data@.len(),
    ensures
        v as nat == le_value(data@.subrange(start as int, start + width)),
{
    let ghost s = data@.subrange(start as int, start + width);
    let n = data.len();
    let mut acc: u128 = 0;
    let mut i: usize = width;
    proof {
        assert(s.subrange(width as int, width as int) =~= Seq::<u8>::empty());
        lemma_pow256_values();
    }
    while i > 0
        invariant
            i <= width <= 16,
            start + width <= data@.len(),
            n == data@.len(),
            s == data@.subrange(start as int, start + width),
            acc as nat == le_value(s.subrange(i as int, width as int)),
            pow256(16) == 0x1_0000_0000_0000_0000_0000_0000_0000_0000,
        decreases i,
    {
        i = i - 1;
        let b = data[start + i];
        proof {
            lemma_le_value_suffix(s, i as int);
            lemma_le_value_bound(s.subrange(i as int, width as int));
            lemma_pow256_mono((width - i) as nat, 16);
            assert(s[i as int] == b);
        }
        acc = acc * 256 + b as u128;
    }
    assert(s.subrange(0, width as int) =~= s);
    acc
}

pub fn read_u32_le(data: &[u8], start: usize) -> (v: u32)
    requires
        start + 4 <= data@.len(),
    ensures
        v as nat == le_value(data@.subrange(start as int, start + 4)),
{
    let x = read_le(data, start, 4);
    proof {
        lemma_le_value_bound(data@.subrange(start as int, start + 4));
        lemma_pow256_values();
    }
    x as u32
}

pub fn read_u64_le(data: &[u8], start: usize) -> (v: u64)
    requires
        start + 8 <= data@.len(),
    ensures
        v as nat == le_value(data@.subrange(start as int, start + 8)),
{
    let x = read_le(data, start, 8);
    proof {
        lemma_le_value_bound(data@.subrange(start as int, start + 8));
        lemma_pow256_values();
    }
    x as u64
}

pub fn read_i128_le(data: &[u8], start: usize) -> (v: i128)
    requires
        start + 16 <= data@.len(),
    ensures
        v as int == le_signed(data@.subrange(start as int, start + 16)),
{
    let ghost s = data@.subrange(start as int, start + 16);
    let x = read_le(data, start, 16);
    proof {
        lemma_pow256_values();
        lemma_le_value_bound(s);
        lemma_le_value_bound(s.subrange(0, 15));
        // the top byte decides the sign
        assert(s.last() == s[15]);
        lemma_le_top_byte(s);
    }
    if x < 0x8000_0000_0000_0000_0000_0000_0000_0000u128 {
        x as i128
    } else {
        let low = (x - 0x8000_0000_0000_0000_0000_0000_0000_0000u128) as i128;
        low - 0x7fff_ffff_ffff_ffff_ffff_ffff_ffff_ffffi128 - 1
    }
}

/// The `n` little-endian two's-complement bytes of `x`.
pub open spec fn le_bytes_signed(x: int, n: nat) -> Seq<u8> {
    le_bytes(
        (if x < 0 {
            x + pow256(n)
        } else {
            x
        }) as nat,
        n,
    )
}

/// Reading back the sixteen two's-complement bytes of an `i128` gives the number.
pub proof fn lemma_le_signed_roundtrip(x: i128)
    ensures
        le_bytes_signed(x as int, 16).len() == 16,
        le_signed(le_bytes_signed(x as int, 16)) == x,
{
    lemma_pow256_values();
    let v: nat = (if x < 0 {
        x + pow256(16)
    } else {
        x as int
    }) as nat;
    lemma_le_roundtrip(v, 16);
    let s = le_bytes(v, 16);
    lemma_le_top_byte(s);
    assert(s.last() == s[15]);
}

/// A 16-byte value is at least `2^127` exactly when its top byte is at least 128.
proof fn lemma_le_top_byte(s: Seq<u8>)
    requires
        s.len() == 16,
    ensures
        (le_value(s) >= 0x8000_0000_0000_0000_0000_0000_0000_0000) <==> (s[15] >= 128),
{
    lemma_le_split(s, 15);
    lemma_le_value_bound(s.subrange(0, 15));
    lemma_pow256_values();
    let t = s.subrange(15, 16);
    assert(t.drop_first() =~= Seq::<u8>::empty());
    assert(le_value(t.drop_first()) == 0);
    assert(t[0] == s[15]);
    assert(le_value(t) == s[15] as nat);
    let low = le_value(s.subrange(0, 15));
    let top = s[15] as nat;
    assert(le_value(s) == low + pow256(15) * top);
    assert((low + 0x1_0000_0000_0000_0000_0000_0000_0000_00 * top >= 0x8000_0000_0000_0000_0000_0000_0000_0000) <==> (top >= 128)) by (nonlinear_arith)
        requires
            low < 0x1_0000_0000_0000_0000_0000_0000_0000_00,
    ;
}

/// The value of a byte string is the value of its first `k` bytes plus `256^k` times the value of the rest.
pub proof fn lemma_le_split(s: Seq<u8>, k: int)
    requires
        0 <= k <= s.len(),
    ensures
        le_value(s) == le_value(s.subrange(0, k)) + pow256(k as nat) * le_value(
            s.subrange(k, s.len() as int),
        ),
    decreases k,
{
    if k == 0 {
        assert(s.subrange(0, s.len() as int) =~= s);
        assert(le_value(s.subrange(0, 0)) == 0);
        assert(pow256(0) == 1);
        assert(pow256(0) * le_value(s) == le_value(s));
    } else {
        let d = s.drop_first();
        lemma_le_split(d, k - 1);
        assert(d.subrange(0, k - 1) =~= s.subrange(0, k).drop_first());
        assert(d.subrange(k - 1, d.len() as int) =~= s.subrange(k, s.len() as int));
        let a = le_value(d.subrange(0, k - 1));
        let b = le_value(s.subrange(k, s.len() as int));
        let p = pow256((k - 1) as nat);
        let h = s.subrange(0, k);
        assert(le_value(h) == h[0] as nat + 256 * le_value(h.drop_first()));
        assert(h[0] == s[0]);
        assert(le_value(s) == s[0] as nat + 256 * le_value(d));
        assert(le_value(d) == a + p * b);
        assert(pow256(k as nat) == 256 * p);
        assert(256 * (a + p * b) == 256 * a + (256 * p) * b) by (nonlinear_arith);
        assert(le_value(h) == s[0] as nat + 256 * a);
        assert(le_value(s) == le_value(h) + (256 * p) * b);
        assert(pow256(k as nat) * b == (256 * p) * b);
    }
}

/// Appends the `width` lowest little-endian bytes of `x`.
pub fn push_le(out: &mut Vec<u8>, x: u64, width: usize)
    requires
        width <= 8,
        x < pow256(width as nat),
    ensures
        final(out)@ == old(out)@ + le_bytes(x as nat, width as nat),
{
    let ghost start = old(out)@;
    let mut rest: u64 = x;
    let mut i: usize = 0;
    while i < width
        invariant
            i <= width <= 8,
            start + le_bytes(x as nat, width as nat) == out@ + le_bytes(
                rest as nat,
                (width - i) as nat,
            ),
        decreases width - i,
    {
        let ghost r = rest;
        let ghost prev = out@;
        out.push((rest % 256) as u8);
        rest = rest / 256;
        proof {
            let n = (width - i) as nat;
            assert(le_bytes(r as nat, n) == seq![(r as nat % 256) as u8] + le_bytes(
                rest as nat,
                (n - 1) as nat,
            ));
            assert(out@ + le_bytes(rest as nat, (n - 1) as nat) =~= prev + le_bytes(
                r as nat,
                n,
            ));
        }
        i = i + 1;
    }
    assert(out@ + le_bytes(rest as nat, 0) =~= out@);
}

}
