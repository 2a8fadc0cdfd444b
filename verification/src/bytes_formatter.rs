//! Renders byte buffers as the classic sixteen-column hex dump used for
//! diagnostics: per row, the hex text of each byte and its printable-ASCII
//! text. Printing and colouring are presentation, left with the caller; this
//! module only computes the row texts, exactly.

use vstd::prelude::*;

verus! {

/// The lower-case hex digit of a value below sixteen, as an ASCII byte.
pub open spec fn hex_digit(d: int) -> u8 {
    if d < 10 {
        (48 + d) as u8
    } else {
        (87 + d) as u8
    }
}

/// The hex text of a byte run: two digits and a space for each byte.
pub open spec fn hex_bytes(s: Seq<u8>) -> Seq<u8>
    decreases s.len(),
{
    if s.len() == 0 {
        Seq::empty()
    } else {
        seq![hex_digit(s[0] as int / 16), hex_digit(s[0] as int % 16), 32u8] + hex_bytes(
            s.drop_first(),
        )
    }
}

/// A printable byte stands for itself; everything else prints as a dot.
pub open spec fn ascii_byte(b: u8) -> u8 {
    if 33 <= b <= 126 {
        b
    } else {
        46u8
    }
}

/// The printable-ASCII text of a byte run.
pub open spec fn ascii_bytes(s: Seq<u8>) -> Seq<u8> {
    s.map_values(|b: u8| ascii_byte(b))
}

/// Appending a byte appends its two digits and a space.
pub proof fn lemma_hex_bytes_snoc(s: Seq<u8>, b: u8)
    ensures
        hex_bytes(s.push(b)) == hex_bytes(s) + seq![
            hex_digit(b as int / 16),
            hex_digit(b as int % 16),
            32u8,
        ],
    decreases s.len(),
{
    if s.len() == 0 {
        assert(s.push(b).drop_first() =~= s);
        assert(s.push(b)[0] == b);
        assert(hex_bytes(s) == Seq::<u8>::empty());
        assert(hex_bytes(s.push(b)) =~= hex_bytes(s) + seq![
            hex_digit(b as int / 16),
            hex_digit(b as int % 16),
            32u8,
        ]);
    } else {
        assert(s.push(b).drop_first() =~= s.drop_first().push(b));
        assert(s.push(b)[0] == s[0]);
        lemma_hex_bytes_snoc(s.drop_first(), b);
        assert(hex_bytes(s.push(b)) =~= hex_bytes(s) + seq![
            hex_digit(b as int / 16),
            hex_digit(b as int % 16),
            32u8,
        ]);
    }
}

/// Where row `r` of a dump over `n` bytes ends.
pub open spec fn row_end(n: int, r: int) -> int {
    if 16 * r + 16 <= n {
        16 * r + 16
    } else {
        n
    }
}

/// The bytes shown on row `r` of a dump over the first `n` bytes of `s`.
pub open spec fn row_chunk(s: Seq<u8>, n: int, r: int) -> Seq<u8> {
    s.subrange(16 * r, row_end(n, r))
}

/// One rendered dump row: the hex text and the printable-ASCII text.
pub struct DumpRow {
    pub hex: Vec<u8>,
    pub ascii: Vec<u8>,
}

/// Renders byte buffers as sixteen-column dump rows.
pub struct BytesFormatter;

impl BytesFormatter {
    /// A formatter; it holds no state.
    pub fn new() -> Self {
        Self {  }
    }

    /// Renders the first `n` buffered bytes as dump rows of sixteen bytes
    /// each: row `r` holds exactly the hex and ASCII texts of its chunk.
    pub fn render_rows(&self, bytes: &[u8], n: usize) -> (rows: Vec<DumpRow>)
        requires
            n <= bytes@.len(),
            n + 16 <= usize::MAX,
        ensures
            rows@.len() == (n + 15) / 16,
            forall|r: int|
                0 <= r < rows@.len() ==> (#[trigger] rows@[r]).hex@ == hex_bytes(
                    row_chunk(bytes@, n as int, r),
                ) && rows@[r].ascii@ == ascii_bytes(row_chunk(bytes@, n as int, r)),
    {
        let mut rows: Vec<DumpRow> = Vec::new();
        let mut start: usize = 0;
        while start < n
            invariant
                n <= bytes@.len(),
                n + 16 <= usize::MAX,
                start == 16 * rows@.len(),
                start <= n + 15,
                rows@.len() > 0 ==> start - 16 < n,
                forall|r: int|
                    0 <= r < rows@.len() ==> (#[trigger] rows@[r]).hex@ == hex_bytes(
                        row_chunk(bytes@, n as int, r),
                    ) && rows@[r].ascii@ == ascii_bytes(row_chunk(bytes@, n as int, r)),
            decreases n + 16 - start,
        {
            let end = if start + 16 <= n {
                start + 16
            } else {
                n
            };
            let mut hex: Vec<u8> = Vec::new();
            let mut ascii: Vec<u8> = Vec::new();
            let mut i = start;
            proof {
                assert(bytes@.subrange(start as int, start as int) =~= Seq::<u8>::empty());
                assert(hex@ =~= hex_bytes(bytes@.subrange(start as int, start as int)));
                assert(ascii@ =~= ascii_bytes(bytes@.subrange(start as int, start as int)));
            }
            while i < end
                invariant
                    start <= i <= end <= n <= bytes@.len(),
                    hex@ == hex_bytes(bytes@.subrange(start as int, i as int)),
                    ascii@ == ascii_bytes(bytes@.subrange(start as int, i as int)),
                decreases end - i,
            {
                let byt = bytes[i];
                let hi = byt / 16;
                let lo = byt % 16;
                hex.push(
                    if hi < 10 {
                        48 + hi
                    } else {
                        87 + hi
                    },
                );
                hex.push(
                    if lo < 10 {
                        48 + lo
                    } else {
                        87 + lo
                    },
                );
                hex.push(32);
                ascii.push(
                    if 33 <= byt && byt <= 126 {
                        byt
                    } else {
                        46
                    },
                );
                proof {
                    let chunk = bytes@.subrange(start as int, i as int);
                    lemma_hex_bytes_snoc(chunk, byt);
                    assert(chunk.push(byt) =~= bytes@.subrange(start as int, i as int + 1));
                    assert(hex@ =~= hex_bytes(bytes@.subrange(start as int, i as int + 1)));
                    assert(ascii@ =~= ascii_bytes(bytes@.subrange(start as int, i as int + 1)));
                }
                i += 1;
            }
            let ghost k = rows@.len();
            rows.push(DumpRow { hex, ascii });
            proof {
                assert(row_end(n as int, k as int) == end as int);
                assert(row_chunk(bytes@, n as int, k as int) =~= bytes@.subrange(
                    start as int,
                    end as int,
                ));
            }
            start = start + 16;
        }
        proof {
            let k = rows@.len() as int;
            assert(16 * k >= n);
            if k > 0 {
                assert(16 * k - 16 < n);
            }
            assert(rows@.len() == (n + 15) / 16);
        }
        rows
    }
}

} // verus!
