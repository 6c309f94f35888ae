use vstd::prelude::*;

verus! {

/// The current value of a question, or the value of one of its options.
#[derive(Clone, Copy, Debug, PartialEq, Eq, Structural)]
pub enum Value {
    U8(u8),
    U16(u16),
    U32(u32),
    U64(u64),
    Bool(bool),
    /// A value of another IFR type (time, date, string, reference, ...),
    /// which the engine only carries: its IFR type code, then its 22 raw
    /// bytes read little-endian as the first 16 and the last 6.
    Other(u8, u128, u64),
}

/// The `n` low bytes of `x`, least significant first.
pub open spec fn le_bytes(x: nat, n: nat) -> Seq<u8>
    decreases n,
{
    if n == 0 {
        Seq::empty()
    } else {
        seq![(x % 256) as u8] + le_bytes(x / 256, (n - 1) as nat)
    }
}

/// Bytes a value occupies in an ordered-list buffer: its native (little-endian)
/// encoding for the integer kinds, nothing for the others.
pub open spec fn encoding(v: Value) -> Seq<u8> {
    match v {
        Value::U8(x) => le_bytes(x as nat, 1),
        Value::U16(x) => le_bytes(x as nat, 2),
        Value::U32(x) => le_bytes(x as nat, 4),
        Value::U64(x) => le_bytes(x as nat, 8),
        _ => Seq::empty(),
    }
}

pub proof fn lemma_le_bytes_len(x: nat, n: nat)
    ensures
        le_bytes(x, n).len() == n,
    decreases n,
{
    if n > 0 {
        lemma_le_bytes_len(x / 256, (n - 1) as nat);
    }
}

/// Two numbers below `256^n` with the same `n` low bytes are equal.
pub proof fn lemma_le_bytes_injective(x: nat, y: nat, n: nat)
    requires
        le_bytes(x, n) == le_bytes(y, n),
        x < pow256(n),
        y < pow256(n),
    ensures
        x == y,
    decreases n,
{
    if n > 0 {
        let (a, b) = (le_bytes(x, n), le_bytes(y, n));
        assert(a[0] == b[0]);
        assert(le_bytes(x / 256, (n - 1) as nat) == a.drop_first());
        assert(le_bytes(y / 256, (n - 1) as nat) == b.drop_first());
        assert(x / 256 < pow256((n - 1) as nat)) by (nonlinear_arith)
            requires x < pow256(n), pow256(n) == 256 * pow256((n - 1) as nat);
        assert(y / 256 < pow256((n - 1) as nat)) by (nonlinear_arith)
            requires y < pow256(n), pow256(n) == 256 * pow256((n - 1) as nat);
        lemma_le_bytes_injective(x / 256, y / 256, (n - 1) as nat);
    }
}

pub open spec fn pow256(n: nat) -> nat
    decreases n,
{
    if n == 0 { 1 } else { 256 * pow256((n - 1) as nat) }
}

pub proof fn lemma_encoding_len(v: Value)
    ensures
        encoding(v).len() == width(v),
{
    match v {
        Value::U8(x) => lemma_le_bytes_len(x as nat, 1),
        Value::U16(x) => lemma_le_bytes_len(x as nat, 2),
        Value::U32(x) => lemma_le_bytes_len(x as nat, 4),
        Value::U64(x) => lemma_le_bytes_len(x as nat, 8),
        _ => {},
    }
}

/// Number of bytes a value occupies in an ordered-list buffer.
pub open spec fn width(v: Value) -> nat {
    match v {
        Value::U8(_) => 1,
        Value::U16(_) => 2,
        Value::U32(_) => 4,
        Value::U64(_) => 8,
        _ => 0,
    }
}

/// Two values of the same kind with the same encoding are equal.
pub proof fn lemma_encoding_injective(v: Value, w: Value)
    requires
        width(v) > 0,
        width(v) == width(w),
        v is U8 <==> w is U8,
        v is U16 <==> w is U16,
        v is U32 <==> w is U32,
        encoding(v) == encoding(w),
    ensures
        v == w,
{
    assert(pow256(0) == 1);
    assert(pow256(1) == 256);
    assert(pow256(2) == 0x1_0000);
    assert(pow256(3) == 0x100_0000);
    assert(pow256(4) == 0x1_0000_0000);
    assert(pow256(5) == 0x100_0000_0000);
    assert(pow256(6) == 0x1_0000_0000_0000);
    assert(pow256(7) == 0x100_0000_0000_0000);
    assert(pow256(8) == 0x1_0000_0000_0000_0000);
    match (v, w) {
        (Value::U8(x), Value::U8(y)) => lemma_le_bytes_injective(x as nat, y as nat, 1),
        (Value::U16(x), Value::U16(y)) => lemma_le_bytes_injective(x as nat, y as nat, 2),
        (Value::U32(x), Value::U32(y)) => lemma_le_bytes_injective(x as nat, y as nat, 4),
        (Value::U64(x), Value::U64(y)) => lemma_le_bytes_injective(x as nat, y as nat, 8),
        _ => {},
    }
}

/// The `n` low bytes of `x`, least significant first.
fn le_bytes_of(x: u64, n: usize) -> (r: Vec<u8>)
    ensures
        r@ == le_bytes(x as nat, n as nat),
{
    let mut out: Vec<u8> = Vec::new();
    let mut y: u64 = x;
    let mut k: usize = 0;
    while k < n
        invariant
            k <= n,
            out@ + le_bytes(y as nat, (n - k) as nat) == le_bytes(x as nat, n as nat),
        decreases n - k,
    {
        let ghost rest = le_bytes((y / 256) as nat, (n - k - 1) as nat);
        let ghost prev = out@;
        assert(le_bytes(y as nat, (n - k) as nat) == seq![(y % 256) as u8] + rest);
        out.push((y % 256) as u8);
        assert(out@ + rest =~= prev + (seq![(y % 256) as u8] + rest));
        y = y / 256;
        k = k + 1;
    }
    assert(le_bytes(y as nat, 0) == Seq::<u8>::empty());
    assert(out@ + Seq::<u8>::empty() =~= out@);
    out
}

/// The bytes `v` occupies in an ordered-list buffer.
pub fn encode(v: Value) -> (r: Vec<u8>)
    ensures
        r@ == encoding(v),
{
    match v {
        Value::U8(x) => le_bytes_of(x as u64, 1),
        Value::U16(x) => le_bytes_of(x as u64, 2),
        Value::U32(x) => le_bytes_of(x as u64, 4),
        Value::U64(x) => le_bytes_of(x, 8),
        _ => Vec::new(),
    }
}

} // verus!
