//! Byte-buffer primitives shared by the recognizers: locating the first CRLF
//! pair and reading big-endian unsigned integers of bounded width.

use vstd::prelude::*;

verus! {

/// True when a CR LF pair sits at index `i` of `v`.
pub open spec fn crlf_at(v: Seq<u8>, i: int) -> bool {
    &&& 0 <= i
    &&& i + 1 < v.len()
    &&& v[i] == 13u8
    &&& v[i + 1] == 10u8
}

/// Index of the first CR LF pair in `v`, if any.
pub open spec fn first_crlf(v: Seq<u8>) -> Option<int>
    decreases v.len(),
{
    if v.len() < 2 {
        None
    } else if v[0] == 13u8 && v[1] == 10u8 {
        Some(0int)
    } else {
        match first_crlf(v.skip(1)) {
            Some(i) => Some(i + 1),
            None => None,
        }
    }
}

/// `first_crlf` returns exactly the least index carrying a CRLF pair.
pub proof fn lemma_first_crlf_spec(v: Seq<u8>)
    ensures
        match first_crlf(v) {
            Some(i) => crlf_at(v, i) && (forall|j: int| 0 <= j < i ==> !crlf_at(v, j)),
            None => forall|j: int| !crlf_at(v, j),
        },
    decreases v.len(),
{
    if v.len() < 2 {
    } else if v[0] == 13u8 && v[1] == 10u8 {
    } else {
        let t = v.skip(1);
        lemma_first_crlf_spec(t);
        assert forall|j: int| 0 <= j && j + 1 < v.len() - 1 implies crlf_at(v, j + 1) == crlf_at(
            t,
            j,
        ) by {
            assert(t[j] == v[j + 1]);
            assert(j + 1 < t.len() ==> t[j + 1] == v[j + 2]);
        }
        match first_crlf(t) {
            Some(i) => {
                assert(crlf_at(t, i));
                assert(crlf_at(v, i + 1));
                assert forall|j: int| 0 <= j < i + 1 implies !crlf_at(v, j) by {
                    if j == 0 {
                    } else {
                        assert(!crlf_at(t, j - 1));
                    }
                }
            },
            None => {
                assert forall|j: int| !crlf_at(v, j) by {
                    if j == 0 {
                    } else if 0 <= j && j + 1 < v.len() {
                        assert(!crlf_at(t, j - 1));
                    }
                }
            },
        }
    }
}

/// The first CRLF does not move when more bytes are appended after it.
pub proof fn lemma_first_crlf_extend(v: Seq<u8>, ext: Seq<u8>)
    requires
        first_crlf(v) is Some,
    ensures
        first_crlf(v + ext) == first_crlf(v),
    decreases v.len(),
{
    assert(v.len() >= 2);
    let w = v + ext;
    assert(w[0] == v[0] && w[1] == v[1]);
    if v[0] == 13u8 && v[1] == 10u8 {
    } else {
        assert(v.skip(1) + ext =~= w.skip(1));
        lemma_first_crlf_extend(v.skip(1), ext);
    }
}

/// Returns the index of the first CRLF pair in `v`, scanning from the front.
pub fn next_crlf(v: &[u8]) -> (r: Option<usize>)
    ensures
        match r {
            Some(i) => first_crlf(v@) == Some(i as int),
            None => first_crlf(v@) is None,
        },
{
    let n = v.len();
    if n < 2 {
        proof {
            lemma_first_crlf_spec(v@);
        }
        return None;
    }
    let mut i: usize = 0;
    while i + 1 < n
        invariant
            n == v@.len(),
            i + 1 <= n,
            forall|j: int| 0 <= j < i ==> !crlf_at(v@, j),
        decreases n - i,
    {
        if v[i] == 13u8 && v[i + 1] == 10u8 {
            proof {
                lemma_first_crlf_spec(v@);
                assert(crlf_at(v@, i as int));
                match first_crlf(v@) {
                    Some(k) => {
                        if k < i as int {
                            assert(false);
                        } else if k > i as int {
                            assert(!crlf_at(v@, i as int));
                        }
                    },
                    None => {
                        assert(!crlf_at(v@, i as int));
                    },
                }
            }
            return Some(i);
        }
        i += 1;
    }
    proof {
        lemma_first_crlf_spec(v@);
        if first_crlf(v@) is Some {
            let k = first_crlf(v@)->Some_0;
            assert(crlf_at(v@, k));
            assert(k < i as int);
        }
    }
    None
}

/// Value of `v` read as a big-endian unsigned integer.
pub open spec fn be_value(v: Seq<u8>) -> nat
    decreases v.len(),
{
    if v.len() == 0 {
        0
    } else {
        be_value(v.drop_last()) * 256 + v.last() as nat
    }
}

/// 256 to the power `k`: one more than the largest value of `k` big-endian bytes.
pub open spec fn pow256(k: nat) -> nat
    decreases k,
{
    if k == 0 {
        1
    } else {
        256 * pow256((k - 1) as nat)
    }
}

/// `pow256` grows with its exponent.
pub proof fn lemma_pow256_le(a: nat, b: nat)
    requires
        a <= b,
    ensures
        pow256(a) <= pow256(b),
    decreases b,
{
    if a < b {
        lemma_pow256_le(a, (b - 1) as nat);
        assert(pow256(b) == 256 * pow256((b - 1) as nat));
        assert(pow256((b - 1) as nat) <= 256 * pow256((b - 1) as nat)) by (nonlinear_arith)
            requires
                pow256((b - 1) as nat) >= 0,
        ;
    }
}

/// Appending one byte shifts the big-endian value up by one place.
pub proof fn lemma_be_value_push(v: Seq<u8>, b: u8)
    ensures
        be_value(v.push(b)) == be_value(v) * 256 + b,
{
    assert(v.push(b).drop_last() =~= v);
    assert(v.push(b).last() == b);
}

/// The first eight powers of 256, spelled out for the solver.
pub proof fn lemma_pow256_values()
    ensures
        pow256(1) == 0x100,
        pow256(2) == 0x10000,
        pow256(3) == 0x1000000,
        pow256(8) == 0x10000000000000000,
{
    assert(pow256(0) == 1);
    assert(pow256(1) == 0x100);
    assert(pow256(2) == 0x10000);
    assert(pow256(3) == 0x1000000);
    assert(pow256(4) == 0x100000000);
    assert(pow256(5) == 0x10000000000);
    assert(pow256(6) == 0x1000000000000);
    assert(pow256(7) == 0x100000000000000);
    assert(pow256(8) == 0x10000000000000000);
}

/// Reads `v` as a big-endian unsigned integer. Prefixes wider than eight
/// bytes, or values above the native word, are rejected: the format never
/// produces them and their value could not be represented.
pub fn parse_usize(v: &[u8]) -> (r: Option<usize>)
    ensures
        match r {
            Some(n) => v@.len() <= 8 && n == be_value(v@),
            None => v@.len() > 8 || be_value(v@) > usize::MAX,
        },
{
    let n = v.len();
    if n > 8 {
        return None;
    }
    let mut acc: u64 = 0;
    let mut i: usize = 0;
    proof {
        assert(v@.take(0) =~= Seq::<u8>::empty());
    }
    while i < n
        invariant
            n == v@.len() <= 8,
            i <= n,
            acc == be_value(v@.take(i as int)),
            acc < pow256(i as nat),
        decreases n - i,
    {
        let b = v[i];
        proof {
            lemma_pow256_values();
            lemma_pow256_le((i + 1) as nat, 8);
            assert(acc * 256 + b < pow256((i + 1) as nat)) by (nonlinear_arith)
                requires
                    acc < pow256(i as nat),
                    b < 256,
                    pow256((i + 1) as nat) == 256 * pow256(i as nat),
            ;
            assert(v@.take(i as int).push(v@[i as int]) =~= v@.take(i + 1));
            lemma_be_value_push(v@.take(i as int), v@[i as int]);
        }
        acc = acc * 256 + (b as u64);
        i += 1;
    }
    proof {
        assert(v@.take(n as int) =~= v@);
    }
    if acc <= usize::MAX as u64 {
        Some(acc as usize)
    } else {
        None
    }
}

/// Big-endian 16-bit value at index `i`.
pub open spec fn u16_at(v: Seq<u8>, i: int) -> int {
    v[i] * 256 + v[i + 1]
}

/// Big-endian 24-bit value at index `i`.
pub open spec fn u24_at(v: Seq<u8>, i: int) -> int {
    v[i] * 65536 + v[i + 1] * 256 + v[i + 2]
}

/// Big-endian 32-bit value at index `i`.
pub open spec fn u32_at(v: Seq<u8>, i: int) -> int {
    v[i] * 16777216 + v[i + 1] * 65536 + v[i + 2] * 256 + v[i + 3]
}

/// Reads a big-endian 16-bit field.
pub fn read_u16(v: &[u8], i: usize) -> (r: u16)
    requires
        i + 1 < v@.len(),
    ensures
        r as int == u16_at(v@, i as int),
{
    (v[i] as u16) * 256 + (v[i + 1] as u16)
}

/// Reads a big-endian 32-bit field.
pub fn read_u32(v: &[u8], i: usize) -> (r: u32)
    requires
        i + 3 < v@.len(),
    ensures
        r as int == u32_at(v@, i as int),
{
    (v[i] as u32) * 16777216 + (v[i + 1] as u32) * 65536 + (v[i + 2] as u32) * 256 + (v[i
        + 3] as u32)
}

/// Appends `data` to `buffer`; nothing already held is dropped.
pub fn append_bytes(buffer: &mut Vec<u8>, data: &[u8])
    ensures
        final(buffer)@ == old(buffer)@ + data@,
{
    let n = data.len();
    let mut i: usize = 0;
    proof {
        assert(buffer@ =~= buffer@ + data@.take(0));
    }
    while i < n
        invariant
            i <= n == data@.len(),
            buffer@ == old(buffer)@ + data@.take(i as int),
        decreases n - i,
    {
        buffer.push(data[i]);
        i += 1;
        proof {
            assert(old(buffer)@ + data@.take(i as int - 1) + seq![data@[i as int - 1]] =~= old(
                buffer,
            )@ + data@.take(i as int));
        }
    }
    proof {
        assert(data@.take(n as int) =~= data@);
    }
}

/// True when `a` and `b` hold the same bytes.
pub fn bytes_eq(a: &[u8], b: &[u8]) -> (r: bool)
    ensures
        r == (a@ == b@),
{
    if a.len() != b.len() {
        proof {
            assert(a@.len() != b@.len());
        }
        return false;
    }
    let n = a.len();
    let mut i: usize = 0;
    while i < n
        invariant
            n == a@.len() == b@.len(),
            i <= n,
            forall|j: int| 0 <= j < i ==> a@[j] == b@[j],
        decreases n - i,
    {
        if a[i] != b[i] {
            return false;
        }
        i += 1;
    }
    proof {
        assert(a@ =~= b@);
    }
    true
}

} // verus!
