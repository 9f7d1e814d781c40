//! Little-endian byte packing for scalars, signatures and instructions.

use vstd::prelude::*;

verus! {

/// The value of a byte string read as a little-endian number.
pub open spec fn bytes_le_val(s: Seq<u8>) -> int
    decreases s.len(),
{
    if s.len() == 0 {
        0
    } else {
        s[0] + 256 * bytes_le_val(s.subrange(1, s.len() as int))
    }
}

/// `256^k`.
pub open spec fn pow256(k: nat) -> int
    decreases k,
{
    if k == 0 {
        1
    } else {
        256 * pow256((k - 1) as nat)
    }
}

/// Powers of 256 are positive.
pub proof fn lemma_pow256_pos(k: nat)
    ensures
        pow256(k) >= 1,
    decreases k,
{
    if k > 0 {
        lemma_pow256_pos((k - 1) as nat);
    }
}

/// Powers of 256 do not decrease.
pub proof fn lemma_pow256_increases(i: nat, j: nat)
    requires
        i <= j,
    ensures
        pow256(i) <= pow256(j),
    decreases j,
{
    if i < j {
        lemma_pow256_increases(i, (j - 1) as nat);
        lemma_pow256_pos((j - 1) as nat);
    }
}

/// The little-endian byte string of `v` in `width` bytes, low byte
/// first.
pub open spec fn le_bytes(v: int, width: nat) -> Seq<u8>
    decreases width,
{
    if width == 0 {
        Seq::empty()
    } else {
        seq![(v % 256) as u8] + le_bytes(v / 256, (width - 1) as nat)
    }
}

/// The eight little-endian bytes of a 64-bit value.
pub open spec fn le_bytes_8(v: u64) -> Seq<u8> {
    le_bytes(v as int, 8nat)
}

/// Appending a byte adds its value at the next power of the radix.
pub proof fn lemma_bytes_le_val_push(s: Seq<u8>, b: u8)
    ensures
        bytes_le_val(s.push(b)) == bytes_le_val(s) + pow256(s.len()) * b,
    decreases s.len(),
{
    if s.len() == 0 {
        let t = s.push(b);
        assert(t.subrange(1, 1) =~= Seq::<u8>::empty());
        assert(bytes_le_val(t) == t[0] + 256 * bytes_le_val(t.subrange(1, 1)));
        assert(t[0] == b);
        assert(pow256(0nat) == 1);
    } else {
        let t = s.push(b);
        assert(bytes_le_val(t) == t[0] + 256 * bytes_le_val(t.subrange(1, t.len() as int)));
        assert(bytes_le_val(s) == s[0] + 256 * bytes_le_val(s.subrange(1, s.len() as int)));
        assert(t.subrange(1, t.len() as int) =~= s.subrange(1, s.len() as int).push(b));
        lemma_bytes_le_val_push(s.subrange(1, s.len() as int), b);
        assert(t[0] == s[0]);
        assert(pow256(s.len()) == 256 * pow256((s.len() - 1) as nat));
        assert(256 * (bytes_le_val(s.subrange(1, s.len() as int)) + pow256((s.len() - 1) as nat)
            * b) == 256 * bytes_le_val(s.subrange(1, s.len() as int)) + 256 * (pow256(
            (s.len() - 1) as nat,
        ) * b)) by (nonlinear_arith);
        assert(256 * (pow256((s.len() - 1) as nat) * b) == (256 * pow256((s.len() - 1) as nat))
            * b) by (nonlinear_arith);
    }
}

/// A byte string's value is below the power of the radix at its length.
pub proof fn lemma_bytes_le_val_bound(s: Seq<u8>)
    ensures
        0 <= bytes_le_val(s) < pow256(s.len()),
    decreases s.len(),
{
    if s.len() == 0 {
    } else {
        let tail = s.subrange(1, s.len() as int);
        lemma_bytes_le_val_bound(tail);
        assert(256 * bytes_le_val(tail) <= 256 * (pow256((s.len() - 1) as nat) - 1))
            by (nonlinear_arith)
            requires
                bytes_le_val(tail) <= pow256((s.len() - 1) as nat) - 1,
        ;
        assert(256 * bytes_le_val(tail) >= 0) by (nonlinear_arith)
            requires
                bytes_le_val(tail) >= 0,
        ;
    }
}

/// The value of a byte string splits at any cut.
pub proof fn lemma_bytes_le_val_split(s: Seq<u8>, k: int)
    requires
        0 <= k <= s.len(),
    ensures
        bytes_le_val(s) == bytes_le_val(s.subrange(0, k)) + pow256(k as nat) * bytes_le_val(
            s.subrange(k, s.len() as int),
        ),
    decreases k,
{
    if k == 0 {
        assert(s.subrange(0, 0) =~= Seq::<u8>::empty());
        assert(s.subrange(0, s.len() as int) =~= s);
    } else {
        let tail = s.subrange(1, s.len() as int);
        lemma_bytes_le_val_split(tail, k - 1);
        assert(tail.subrange(0, k - 1) =~= s.subrange(0, k).subrange(1, k));
        assert(tail.subrange(k - 1, tail.len() as int) =~= s.subrange(k, s.len() as int));
        let head = s.subrange(0, k);
        let low = bytes_le_val(tail.subrange(0, k - 1));
        let high = bytes_le_val(s.subrange(k, s.len() as int));
        assert(bytes_le_val(head) == s[0] + 256 * low);
        assert(256 * (low + pow256((k - 1) as nat) * high) == 256 * low + (256 * pow256(
            (k - 1) as nat,
        )) * high) by (nonlinear_arith);
    }
}

/// A byte string has value zero exactly when every byte is zero.
pub proof fn lemma_bytes_le_val_zero(s: Seq<u8>)
    ensures
        (bytes_le_val(s) == 0) <==> (forall|i: int| 0 <= i < s.len() ==> s[i] == 0),
    decreases s.len(),
{
    if s.len() > 0 {
        let tail = s.subrange(1, s.len() as int);
        lemma_bytes_le_val_zero(tail);
        lemma_bytes_le_val_bound(tail);
        assert(256 * bytes_le_val(tail) >= 0 && (bytes_le_val(tail) > 0 ==> 256 * bytes_le_val(
            tail,
        ) > 0)) by (nonlinear_arith)
            requires
                bytes_le_val(tail) >= 0,
        ;
        if bytes_le_val(s) == 0 {
            assert(forall|i: int| 0 <= i < tail.len() ==> tail[i] == 0);
            assert forall|i: int| 0 <= i < s.len() implies s[i] == 0 by {
                if i > 0 {
                    assert(tail[i - 1] == 0);
                }
            }
        } else {
            if forall|i: int| 0 <= i < s.len() ==> s[i] == 0 {
                assert(s[0] == 0);
                assert forall|i: int| 0 <= i < tail.len() implies tail[i] == 0 by {
                    assert(s[i + 1] == 0);
                }
            }
        }
    }
}

/// Appends `width` little-endian bytes holding `v` to `out`.
pub fn append_le_bytes(out: &mut Vec<u8>, v: u64, width: usize)
    requires
        (v as int) < pow256(width as nat),
    ensures
        final(out)@.len() == old(out)@.len() + width,
        final(out)@.subrange(0, old(out)@.len() as int) == old(out)@,
        bytes_le_val(final(out)@.subrange(old(out)@.len() as int, final(out)@.len() as int))
            == v as int,
        final(out)@.subrange(old(out)@.len() as int, final(out)@.len() as int) == le_bytes(
            v as int,
            width as nat,
        ),
{
    let ghost base = out@.len() as int;
    let mut w: u64 = v;
    let mut k: usize = 0;
    while k < width
        invariant
            k <= width,
            out@.len() == base + k,
            base >= 0,
            out@.subrange(0, base) == old(out)@,
            (w as int) < pow256((width - k) as nat),
            bytes_le_val(out@.subrange(base, out@.len() as int)) + pow256(k as nat) * (w as int)
                == v as int,
            le_bytes(v as int, width as nat) == out@.subrange(base, out@.len() as int) + le_bytes(
                w as int,
                (width - k) as nat,
            ),
        decreases width - k,
    {
        let b = (w % 256) as u8;
        let ghost chunk = out@.subrange(base, out@.len() as int);
        let ghost w0: int = w as int;
        out.push(b);
        w = w / 256;
        proof {
            assert(out@.subrange(0, base) =~= old(out)@);
            assert(out@.subrange(base, out@.len() as int) =~= chunk.push(b));
            lemma_bytes_le_val_push(chunk, b);
            vstd::arithmetic::div_mod::lemma_fundamental_div_mod(w0, 256);
            assert(chunk.len() == k);
            assert(pow256((k + 1) as nat) == 256 * pow256(k as nat));
            assert(pow256(k as nat) * w0 == pow256(k as nat) * (b as int) + pow256((k + 1) as nat)
                * (w as int)) by (nonlinear_arith)
                requires
                    pow256((k + 1) as nat) == 256 * pow256(k as nat),
                    w0 == 256 * (w as int) + b as int,
            ;
            assert(pow256((width - k) as nat) == 256 * pow256((width - k - 1) as nat));
            vstd::arithmetic::div_mod::lemma_multiply_divide_lt(
                w0,
                256,
                pow256((width - k - 1) as nat),
            );
            assert(le_bytes(w0, (width - k) as nat) == seq![b] + le_bytes(
                w as int,
                (width - k - 1) as nat,
            ));
            assert(chunk + le_bytes(w0, (width - k) as nat) =~= chunk.push(b) + le_bytes(
                w as int,
                (width - k - 1) as nat,
            ));
        }
        k = k + 1;
    }
    proof {
        assert(pow256(0nat) == 1);
        assert(pow256((width - k) as nat) == 1);
        assert(w == 0);
        assert(pow256(k as nat) * (w as int) == 0) by (nonlinear_arith)
            requires
                w == 0,
        ;
        assert(bytes_le_val(out@.subrange(base, out@.len() as int)) == v as int);
        assert(out@.subrange(base, out@.len() as int) + le_bytes(w as int, 0nat) =~= out@.subrange(
            base,
            out@.len() as int,
        ));
    }
}

/// Reads `width <= 8` little-endian bytes starting at `start`.
pub fn read_le_bytes(bytes: &Vec<u8>, start: usize, width: usize) -> (v: u64)
    requires
        start + width <= bytes@.len(),
        width <= 8,
    ensures
        v as int == bytes_le_val(bytes@.subrange(start as int, (start + width) as int)),
        (v as int) < pow256(width as nat),
{
    let n = bytes.len();
    let mut acc: u64 = 0;
    let mut k: usize = width;
    proof {
        assert(bytes@.subrange((start + width) as int, (start + width) as int)
            =~= Seq::<u8>::empty());
    }
    while k > 0
        invariant
            k <= width,
            width <= 8,
            n == bytes@.len(),
            start + width <= n,
            acc as int == bytes_le_val(bytes@.subrange((start + k) as int, (start + width) as int)),
            (acc as int) < pow256((width - k) as nat),
        decreases k,
    {
        k = k - 1;
        proof {
            lemma_pow256_increases((width - k - 1) as nat, 7nat);
            assert(pow256(7nat) == 0x100000000000000) by {
                assert(pow256(0nat) == 1);
                assert(pow256(1nat) == 256);
                assert(pow256(2nat) == 0x10000);
                assert(pow256(3nat) == 0x1000000);
                assert(pow256(4nat) == 0x100000000);
                assert(pow256(5nat) == 0x10000000000);
                assert(pow256(6nat) == 0x1000000000000);
            }
        }
        let b = bytes[start + k];
        let next = acc * 256 + (b as u64);
        proof {
            let lo = (start + k) as int;
            let hi = (start + width) as int;
            let piece = bytes@.subrange(lo, hi);
            assert(piece[0] == bytes@[lo]);
            assert(piece.subrange(1, piece.len() as int) =~= bytes@.subrange(lo + 1, hi));
            assert(acc as int * 256 == 256 * acc as int) by (nonlinear_arith);
            assert(256 * acc as int + b <= 256 * (pow256((width - k - 1) as nat) - 1) + 255)
                by (nonlinear_arith)
                requires
                    acc as int <= pow256((width - k - 1) as nat) - 1,
                    b <= 255,
            ;
        }
        acc = next;
    }
    proof {
        assert(bytes@.subrange(start as int, (start + width) as int) == bytes@.subrange(
            (start + 0) as int,
            (start + width) as int,
        ));
    }
    acc
}

} // verus!
