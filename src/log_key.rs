//! Change-log keys: account, collection and change id, encoded big-endian
//! so that comparing the bytes compares the keys.

use vstd::prelude::*;
use vstd::arithmetic::div_mod::lemma_mod_breakdown;

verus! {

/// Length of an encoded change-log key.
pub const LOG_KEY_LEN: usize = 13;

/// `256` raised to `n`.
pub open spec fn pow256(n: nat) -> nat
    decreases n,
{
    if n == 0 {
        1
    } else {
        256 * pow256((n - 1) as nat)
    }
}

/// The `n` low-order bytes of `x`, most significant first.
pub open spec fn be_bytes(x: nat, n: nat) -> Seq<u8>
    decreases n,
{
    if n == 0 {
        seq![]
    } else {
        be_bytes(x / 256, (n - 1) as nat).push((x % 256) as u8)
    }
}

/// The number that the bytes `s` spell, most significant first.
pub open spec fn be_value(s: Seq<u8>) -> nat
    decreases s.len(),
{
    if s.len() == 0 {
        0
    } else {
        be_value(s.drop_last()) * 256 + s.last() as nat
    }
}

/// Lexicographic order on byte strings: `a` sorts strictly before `b`.
pub open spec fn bytes_lt(a: Seq<u8>, b: Seq<u8>) -> bool
    decreases a.len(),
{
    if a.len() == 0 {
        b.len() > 0
    } else if b.len() == 0 {
        false
    } else if a[0] != b[0] {
        a[0] < b[0]
    } else {
        bytes_lt(a.drop_first(), b.drop_first())
    }
}

/// Key of one change-log record.
#[derive(Clone, Copy, PartialEq, Eq, Structural, Debug)]
pub struct LogKey {
    pub account_id: u32,
    pub collection: u8,
    pub change_id: u64,
}

impl LogKey {
    /// The encoded key: account id in four bytes, the collection, the change
    /// id in eight bytes, each big-endian.
    pub open spec fn encoding(self) -> Seq<u8> {
        be_bytes(self.account_id as nat, 4) + seq![self.collection] + be_bytes(
            self.change_id as nat,
            8,
        )
    }

    /// Tuple order on `(account_id, collection, change_id)`: `self` comes first.
    pub open spec fn precedes(self, other: LogKey) -> bool {
        ||| self.account_id < other.account_id
        ||| self.account_id == other.account_id && self.collection < other.collection
        ||| self.account_id == other.account_id && self.collection == other.collection
            && self.change_id < other.change_id
    }

    /// The key that the bytes of an encoded key spell.
    pub open spec fn decoding(bytes: Seq<u8>) -> LogKey {
        LogKey {
            account_id: be_value(bytes.subrange(0, 4)) as u32,
            collection: bytes[4],
            change_id: be_value(bytes.subrange(5, 13)) as u64,
        }
    }

    /// Decodes an encoded key; bytes of any other length than an encoded
    /// key's give nothing.
    pub fn deserialize(bytes: &[u8]) -> (r: Option<LogKey>)
        ensures
            r == (if bytes@.len() == LOG_KEY_LEN {
                Option::Some(Self::decoding(bytes@))
            } else {
                Option::None
            }),
    {
        if bytes.len() != LOG_KEY_LEN {
            return Option::None;
        }
        let account_id = read_be(bytes, 0, 4);
        let change_id = read_be(bytes, 5, 8);
        proof {
            lemma_pow256_values();
        }
        Option::Some(
            LogKey { account_id: account_id as u32, collection: bytes[4], change_id: change_id },
        )
    }

    /// Encodes the key.
    pub fn serialize(&self) -> (r: Vec<u8>)
        ensures
            r@ == self.encoding(),
            r@.len() == LOG_KEY_LEN,
    {
        let mut out: Vec<u8> = Vec::with_capacity(LOG_KEY_LEN);
        push_be(&mut out, self.account_id as u64, 4);
        out.push(self.collection);
        push_be(&mut out, self.change_id, 8);
        proof {
            lemma_be_bytes_len(self.account_id as nat, 4);
            lemma_be_bytes_len(self.change_id as nat, 8);
            assert(out@ =~= self.encoding());
        }
        out
    }
}

/// Appends the `n` low-order bytes of `x`, most significant first.
fn push_be(out: &mut Vec<u8>, x: u64, n: usize)
    requires
        n <= 8,
    ensures
        final(out)@ == old(out)@ + be_bytes(x as nat, n as nat),
    decreases n,
{
    if n > 0 {
        push_be(out, x / 256, n - 1);
        out.push((x % 256) as u8);
        assert(final(out)@ =~= old(out)@ + be_bytes(x as nat, n as nat));
    } else {
        assert(final(out)@ =~= old(out)@ + be_bytes(x as nat, n as nat));
    }
}

/// The number spelt by the `n` bytes of `bytes` from `start` on.
fn read_be(bytes: &[u8], start: usize, n: usize) -> (r: u64)
    requires
        n <= 8,
        start + n <= bytes@.len(),
    ensures
        r == be_value(bytes@.subrange(start as int, start + n)),
        r < pow256(n as nat),
{
    let len = bytes.len();
    let mut acc: u64 = 0;
    let mut i: usize = 0;
    while i < n
        invariant
            i <= n <= 8,
            len == bytes@.len(),
            start + n <= bytes@.len(),
            acc == be_value(bytes@.subrange(start as int, start + i)),
            acc < pow256(i as nat),
        decreases n - i,
    {
        let ghost s = bytes@.subrange(start as int, start + i + 1);
        proof {
            assert(s.drop_last() =~= bytes@.subrange(start as int, start + i));
            lemma_pow256_monotone((i + 1) as nat, 8);
            lemma_pow256_values();
            let b = bytes@[start + i] as nat;
            assert(acc * 256 + b < 256 * pow256(i as nat)) by (nonlinear_arith)
                requires
                    acc < pow256(i as nat),
                    b < 256,
            ;
        }
        acc = acc * 256 + bytes[start + i] as u64;
        i += 1;
    }
    acc
}

proof fn lemma_pow256_monotone(m: nat, n: nat)
    requires
        m <= n,
    ensures
        pow256(m) <= pow256(n),
    decreases n,
{
    if m < n {
        lemma_pow256_monotone(m, (n - 1) as nat);
        lemma_pow256_positive((n - 1) as nat);
    }
}

/// Decoding an encoded key gives the key back.
pub proof fn lemma_log_key_round_trip(k: LogKey)
    ensures
        LogKey::decoding(k.encoding()) == k,
        k.encoding().len() == LOG_KEY_LEN,
{
    let a = be_bytes(k.account_id as nat, 4);
    let h = be_bytes(k.change_id as nat, 8);
    lemma_be_bytes_len(k.account_id as nat, 4);
    lemma_be_bytes_len(k.change_id as nat, 8);
    lemma_be_value_of_bytes(k.account_id as nat, 4);
    lemma_be_value_of_bytes(k.change_id as nat, 8);
    lemma_pow256_values();
    let e = k.encoding();
    assert(e.subrange(0, 4) =~= a);
    assert(e.subrange(5, 13) =~= h);
    assert(e[4] == k.collection);
}

proof fn lemma_be_bytes_len(x: nat, n: nat)
    ensures
        be_bytes(x, n).len() == n,
    decreases n,
{
    if n > 0 {
        lemma_be_bytes_len(x / 256, (n - 1) as nat);
    }
}

proof fn lemma_pow256_positive(n: nat)
    ensures
        pow256(n) > 0,
    decreases n,
{
    if n > 0 {
        lemma_pow256_positive((n - 1) as nat);
    }
}

proof fn lemma_be_value_of_bytes(x: nat, n: nat)
    ensures
        be_value(be_bytes(x, n)) == x % pow256(n),
    decreases n,
{
    if n > 0 {
        let p = pow256((n - 1) as nat);
        lemma_be_value_of_bytes(x / 256, (n - 1) as nat);
        lemma_pow256_positive((n - 1) as nat);
        let s = be_bytes(x, n);
        assert(s.drop_last() =~= be_bytes(x / 256, (n - 1) as nat));
        lemma_mod_breakdown(x as int, 256, p as int);
        assert(256 * ((x / 256) % p) == ((x / 256) % p) * 256) by (nonlinear_arith);
    }
}

proof fn lemma_be_value_bound(s: Seq<u8>)
    ensures
        be_value(s) < pow256(s.len()),
    decreases s.len(),
{
    if s.len() > 0 {
        lemma_be_value_bound(s.drop_last());
        let v = be_value(s.drop_last());
        let p = pow256((s.len() - 1) as nat);
        let l = s.last() as nat;
        assert(v * 256 + l < 256 * p) by (nonlinear_arith)
            requires
                v < p,
                l < 256,
        ;
    }
}

proof fn lemma_be_value_concat(a: Seq<u8>, b: Seq<u8>)
    ensures
        be_value(a + b) == be_value(a) * pow256(b.len()) + be_value(b),
    decreases b.len(),
{
    if b.len() == 0 {
        assert(a + b =~= a);
        assert(be_value(b) == 0);
        assert(pow256(0) == 1);
    } else {
        lemma_be_value_concat(a, b.drop_last());
        assert((a + b).drop_last() =~= a + b.drop_last());
        let va = be_value(a);
        let p = pow256((b.len() - 1) as nat);
        let vb = be_value(b.drop_last());
        assert((a + b).last() == b.last());
        assert(pow256(b.len()) == 256 * p);
        assert((va * p + vb) * 256 == va * (256 * p) + vb * 256) by (nonlinear_arith);
        assert(be_value(a + b) == be_value(a + b.drop_last()) * 256 + b.last() as nat);
        assert(be_value(b) == vb * 256 + b.last() as nat);
    }
}

proof fn lemma_be_value_single(x: u8)
    ensures
        be_value(seq![x]) == x as nat,
{
    let s = seq![x];
    assert(s.drop_last() =~= Seq::<u8>::empty());
    assert(be_value(Seq::<u8>::empty()) == 0);
}

/// For byte strings of one length, lexicographic order is the order of the
/// numbers they spell.
proof fn lemma_bytes_lt_iff_value_lt(a: Seq<u8>, b: Seq<u8>)
    requires
        a.len() == b.len(),
    ensures
        bytes_lt(a, b) <==> be_value(a) < be_value(b),
    decreases a.len(),
{
    if a.len() > 0 {
        let n = (a.len() - 1) as nat;
        let p = pow256(n);
        let ra = a.drop_first();
        let rb = b.drop_first();
        assert(a =~= seq![a[0]] + ra);
        assert(b =~= seq![b[0]] + rb);
        lemma_be_value_concat(seq![a[0]], ra);
        lemma_be_value_concat(seq![b[0]], rb);
        lemma_be_value_single(a[0]);
        lemma_be_value_single(b[0]);
        lemma_be_value_bound(ra);
        lemma_be_value_bound(rb);
        lemma_bytes_lt_iff_value_lt(ra, rb);
        lemma_mixed_radix(a[0] as nat, be_value(ra), b[0] as nat, be_value(rb), p);
    }
}

/// Two-digit numbers in radix `r` compare as their digit pairs do.
proof fn lemma_mixed_radix(h1: nat, l1: nat, h2: nat, l2: nat, r: nat)
    requires
        l1 < r,
        l2 < r,
    ensures
        h1 * r + l1 < h2 * r + l2 <==> (h1 < h2 || (h1 == h2 && l1 < l2)),
        h1 * r + l1 == h2 * r + l2 <==> (h1 == h2 && l1 == l2),
{
    if h1 < h2 {
        assert(h1 * r + l1 < h2 * r + l2) by (nonlinear_arith)
            requires
                h1 < h2,
                l1 < r,
        ;
    } else if h1 > h2 {
        assert(h2 * r + l2 < h1 * r + l1) by (nonlinear_arith)
            requires
                h2 < h1,
                l2 < r,
        ;
    }
}

proof fn lemma_pow256_values()
    ensures
        pow256(1) == 256,
        pow256(4) == 0x1_0000_0000,
        pow256(8) == 0x1_0000_0000_0000_0000,
{
    reveal_with_fuel(pow256, 9);
}

/// The number spelt by an encoded key.
proof fn lemma_encoding_value(k: LogKey)
    ensures
        k.encoding().len() == LOG_KEY_LEN,
        be_value(k.encoding()) == ((k.account_id as nat) * 256 + k.collection as nat) * pow256(8)
            + k.change_id as nat,
{
    let a = be_bytes(k.account_id as nat, 4);
    let c = seq![k.collection];
    let h = be_bytes(k.change_id as nat, 8);
    lemma_be_bytes_len(k.account_id as nat, 4);
    lemma_be_bytes_len(k.change_id as nat, 8);
    lemma_be_value_of_bytes(k.account_id as nat, 4);
    lemma_be_value_of_bytes(k.change_id as nat, 8);
    lemma_pow256_values();
    lemma_be_value_single(k.collection);
    lemma_be_value_concat(a, c);
    lemma_be_value_concat(a + c, h);
    let av = k.account_id as nat;
    assert(av % 0x1_0000_0000 == av);
    assert(be_value(a + c) == av * 256 + k.collection as nat);
    assert(be_value(h) == k.change_id as nat);
    assert(k.encoding() == (a + c) + h);
}

/// Comparing two encoded keys byte by byte gives the tuple order of
/// `(account_id, collection, change_id)`, and two keys encode alike exactly
/// when they are equal.
pub proof fn lemma_log_key_order(k1: LogKey, k2: LogKey)
    ensures
        bytes_lt(k1.encoding(), k2.encoding()) <==> k1.precedes(k2),
        k1.encoding() == k2.encoding() <==> k1 == k2,
{
    lemma_encoding_value(k1);
    lemma_encoding_value(k2);
    lemma_bytes_lt_iff_value_lt(k1.encoding(), k2.encoding());
    let p = pow256(8);
    lemma_pow256_values();
    lemma_mixed_radix(k1.account_id as nat, k1.collection as nat, k2.account_id as nat, k2.collection as nat, 256);
    lemma_mixed_radix(
        (k1.account_id as nat) * 256 + k1.collection as nat,
        k1.change_id as nat,
        (k2.account_id as nat) * 256 + k2.collection as nat,
        k2.change_id as nat,
        p,
    );
}

} // verus!
