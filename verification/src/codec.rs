//! The TLS binary vector codec: length-prefixed variable-size arrays of
//! fixed-width elements. The width of the length prefix is a format-level
//! constant derived from the maximum length allowed in that context, never
//! from the data itself.

use vstd::prelude::*;
use vstd::arithmetic::div_mod::lemma_fundamental_div_mod;
use crate::bytes::{
    be_value, lemma_be_value_push, lemma_pow256_le, lemma_pow256_values, parse_usize, pow256,
};
use crate::types::{ParseError, TLSCipherSuite, TLSCompressionMethod};

verus! {

/// A fixed-width scalar type that can live inside a TLS vector.
pub trait TLSWrappableType: Sized {
    /// Fixed wire width, in bytes, of every value of the type.
    spec fn spec_width() -> nat;

    /// The canonical wire bytes of this value.
    spec fn wire_bytes(&self) -> Seq<u8>;

    /// The value a full-width wire chunk decodes to.
    spec fn spec_of_bytes(data: Seq<u8>) -> Self;

    /// Every value occupies at least one wire byte.
    proof fn lemma_width_positive()
        ensures
            Self::spec_width() >= 1,
    ;

    /// An encoding has the fixed width and decodes back to the value itself.
    proof fn lemma_wire_shape(&self)
        ensures
            self.wire_bytes().len() == Self::spec_width(),
            Self::spec_of_bytes(self.wire_bytes()) == *self,
    ;

    /// The fixed wire width.
    fn len() -> (n: usize)
        ensures
            n as nat == Self::spec_width(),
    ;

    /// Decodes one element from a full-width chunk.
    fn from_bytes(data: &[u8]) -> (r: Self)
        requires
            data@.len() == Self::spec_width(),
        ensures
            r == Self::spec_of_bytes(data@),
    ;

    /// Encodes one element to its wire bytes.
    fn to_bytes(&self) -> (r: Vec<u8>)
        ensures
            r@ == self.wire_bytes(),
    ;
}

impl TLSWrappableType for u8 {
    open spec fn spec_width() -> nat {
        1
    }

    open spec fn wire_bytes(&self) -> Seq<u8> {
        seq![*self]
    }

    open spec fn spec_of_bytes(data: Seq<u8>) -> u8 {
        data[0]
    }

    proof fn lemma_width_positive() {
    }

    proof fn lemma_wire_shape(&self) {
    }

    fn len() -> (n: usize) {
        1
    }

    fn from_bytes(data: &[u8]) -> (r: u8) {
        data[0]
    }

    fn to_bytes(&self) -> (r: Vec<u8>) {
        let mut v: Vec<u8> = Vec::new();
        v.push(*self);
        proof {
            assert(v@ =~= seq![*self]);
        }
        v
    }
}

impl TLSWrappableType for TLSCipherSuite {
    open spec fn spec_width() -> nat {
        2
    }

    open spec fn wire_bytes(&self) -> Seq<u8> {
        seq![(self.code / 256) as u8, (self.code % 256) as u8]
    }

    open spec fn spec_of_bytes(data: Seq<u8>) -> TLSCipherSuite {
        TLSCipherSuite { code: (data[0] as int * 256 + data[1] as int) as u16 }
    }

    proof fn lemma_width_positive() {
    }

    proof fn lemma_wire_shape(&self) {
        lemma_fundamental_div_mod(self.code as int, 256);
    }

    fn len() -> (n: usize) {
        2
    }

    fn from_bytes(data: &[u8]) -> (r: TLSCipherSuite) {
        let code = (data[0] as u16) * 256 + (data[1] as u16);
        TLSCipherSuite { code }
    }

    fn to_bytes(&self) -> (r: Vec<u8>) {
        let mut v: Vec<u8> = Vec::new();
        v.push((self.code / 256) as u8);
        v.push((self.code % 256) as u8);
        proof {
            assert(v@ =~= self.wire_bytes());
        }
        v
    }
}

impl TLSWrappableType for TLSCompressionMethod {
    open spec fn spec_width() -> nat {
        1
    }

    open spec fn wire_bytes(&self) -> Seq<u8> {
        match self {
            TLSCompressionMethod::Null => seq![0u8],
            TLSCompressionMethod::Unknown => seq![255u8],
        }
    }

    open spec fn spec_of_bytes(data: Seq<u8>) -> TLSCompressionMethod {
        if data[0] == 0u8 {
            TLSCompressionMethod::Null
        } else {
            TLSCompressionMethod::Unknown
        }
    }

    proof fn lemma_width_positive() {
    }

    proof fn lemma_wire_shape(&self) {
    }

    fn len() -> (n: usize) {
        1
    }

    fn from_bytes(data: &[u8]) -> (r: TLSCompressionMethod) {
        if data[0] == 0 {
            TLSCompressionMethod::Null
        } else {
            TLSCompressionMethod::Unknown
        }
    }

    fn to_bytes(&self) -> (r: Vec<u8>) {
        let mut v: Vec<u8> = Vec::new();
        match self {
            TLSCompressionMethod::Null => v.push(0u8),
            TLSCompressionMethod::Unknown => v.push(255u8),
        }
        proof {
            assert(v@ =~= self.wire_bytes());
        }
        v
    }
}

/// Number of bytes of the length prefix in a context whose maximum length is
/// `max_len`: the least width whose range covers `max_len`.
pub open spec fn prefix_len(max_len: nat) -> nat
    decreases max_len,
{
    if max_len == 0 {
        0
    } else {
        1 + prefix_len(max_len / 256)
    }
}

/// The prefix width really covers `max_len`.
pub proof fn lemma_prefix_len_covers(max_len: nat)
    ensures
        max_len < pow256(prefix_len(max_len)),
    decreases max_len,
{
    if max_len == 0 {
    } else {
        lemma_prefix_len_covers(max_len / 256);
        lemma_fundamental_div_mod(max_len as int, 256);
        assert(max_len < 256 * pow256(prefix_len(max_len / 256))) by (nonlinear_arith)
            requires
                max_len / 256 < pow256(prefix_len(max_len / 256)),
                max_len == 256 * (max_len / 256) + max_len % 256,
                max_len % 256 < 256,
        ;
    }
}

/// The prefix widths of the contexts the TLS ClientHello uses.
pub proof fn lemma_prefix_len_small()
    ensures
        prefix_len(32) == 1,
        prefix_len(255) == 1,
        prefix_len(65535) == 2,
{
    assert(prefix_len(0) == 0);
    assert(prefix_len(32) == 1);
    assert(prefix_len(255) == 1);
    assert(prefix_len(65535) == 2);
}

/// `pow256` never returns zero.
pub proof fn lemma_pow256_positive(k: nat)
    ensures
        pow256(k) >= 1,
    decreases k,
{
    if k > 0 {
        lemma_pow256_positive((k - 1) as nat);
    }
}

/// Computes the length-prefix width for a context bounded by `max_len`.
pub fn length_prefix_width(max_len: usize) -> (r: usize)
    ensures
        r as nat == prefix_len(max_len as nat),
        r <= 8,
{
    let mut m = max_len;
    let mut k: usize = 0;
    proof {
        lemma_pow256_values();
        assert((m as nat) < pow256((8 - k) as nat));
    }
    while m > 0
        invariant
            prefix_len(max_len as nat) == k as nat + prefix_len(m as nat),
            (m as nat) < pow256((8 - k) as nat),
            k <= 8,
        decreases m,
    {
        proof {
            if k == 8 {
                assert((m as nat) < pow256(0));
                assert(false);
            }
            lemma_pow256_positive((7 - k) as nat);
            assert(m as nat / 256 < pow256((7 - k) as nat)) by (nonlinear_arith)
                requires
                    (m as nat) < 256 * pow256((7 - k) as nat),
                    pow256((7 - k) as nat) >= 1,
            ;
        }
        m = m / 256;
        k = k + 1;
    }
    k
}

/// Big-endian encoding of `value` into exactly `width` bytes.
pub open spec fn be_bytes_of(value: nat, width: nat) -> Seq<u8>
    decreases width,
{
    if width == 0 {
        Seq::empty()
    } else {
        be_bytes_of(value / 256, (width - 1) as nat).push((value % 256) as u8)
    }
}

/// The encoding occupies exactly `width` bytes.
pub proof fn lemma_be_bytes_of_len(value: nat, width: nat)
    ensures
        be_bytes_of(value, width).len() == width,
    decreases width,
{
    if width > 0 {
        lemma_be_bytes_of_len(value / 256, (width - 1) as nat);
    }
}

/// Reading back a `width`-byte encoding of a value in range recovers it.
pub proof fn lemma_be_round_trip(value: nat, width: nat)
    requires
        value < pow256(width),
    ensures
        be_value(be_bytes_of(value, width)) == value,
    decreases width,
{
    if width == 0 {
    } else {
        lemma_pow256_positive((width - 1) as nat);
        assert(value / 256 < pow256((width - 1) as nat)) by (nonlinear_arith)
            requires
                value < 256 * pow256((width - 1) as nat),
                pow256((width - 1) as nat) >= 1,
        ;
        lemma_be_round_trip(value / 256, (width - 1) as nat);
        lemma_be_value_push(be_bytes_of(value / 256, (width - 1) as nat), (value % 256) as u8);
        lemma_fundamental_div_mod(value as int, 256);
    }
}

/// Concatenated wire bytes of a sequence of elements, in order.
pub open spec fn elements_bytes<T: TLSWrappableType>(s: Seq<T>) -> Seq<u8>
    decreases s.len(),
{
    if s.len() == 0 {
        Seq::empty()
    } else {
        s[0].wire_bytes() + elements_bytes(s.drop_first())
    }
}

/// The encoded elements occupy their count times the element width.
pub proof fn lemma_elements_bytes_len<T: TLSWrappableType>(s: Seq<T>)
    ensures
        elements_bytes(s).len() == s.len() * T::spec_width(),
    decreases s.len(),
{
    if s.len() == 0 {
    } else {
        s[0].lemma_wire_shape();
        lemma_elements_bytes_len::<T>(s.drop_first());
        assert(T::spec_width() + (s.len() - 1) * T::spec_width() == s.len() * T::spec_width())
            by (nonlinear_arith);
    }
}

/// Appending an element appends its wire bytes.
pub proof fn lemma_elements_bytes_snoc<T: TLSWrappableType>(s: Seq<T>, x: T)
    ensures
        elements_bytes(s.push(x)) == elements_bytes(s) + x.wire_bytes(),
    decreases s.len(),
{
    if s.len() == 0 {
        assert(s.push(x).drop_first() =~= Seq::<T>::empty());
        assert(s.push(x)[0] == x);
        assert(elements_bytes(s.push(x)) == x.wire_bytes() + elements_bytes(
            Seq::<T>::empty(),
        ));
        assert(elements_bytes(s.push(x)) =~= elements_bytes(s) + x.wire_bytes());
    } else {
        assert(s.push(x).drop_first() =~= s.drop_first().push(x));
        assert(s.push(x)[0] == s[0]);
        lemma_elements_bytes_snoc(s.drop_first(), x);
        assert(elements_bytes(s.push(x)) == s[0].wire_bytes() + (elements_bytes(s.drop_first())
            + x.wire_bytes()));
        assert(elements_bytes(s.push(x)) =~= elements_bytes(s) + x.wire_bytes());
    }
}

/// Splits a packed byte run into its fixed-width elements, front to back.
pub open spec fn elements_of_bytes<T: TLSWrappableType>(d: Seq<u8>) -> Seq<T>
    decreases d.len(),
{
    if T::spec_width() == 0 || d.len() < T::spec_width() {
        Seq::empty()
    } else {
        seq![T::spec_of_bytes(d.take(T::spec_width() as int))] + elements_of_bytes::<T>(
            d.skip(T::spec_width() as int),
        )
    }
}

/// Appending one full-width chunk appends one decoded element.
pub proof fn lemma_elements_of_bytes_snoc<T: TLSWrappableType>(d: Seq<u8>, c: Seq<u8>)
    requires
        d.len() % T::spec_width() == 0,
        c.len() == T::spec_width(),
    ensures
        elements_of_bytes::<T>(d + c) == elements_of_bytes::<T>(d).push(T::spec_of_bytes(c)),
    decreases d.len(),
{
    T::lemma_width_positive();
    let w = T::spec_width() as int;
    if d.len() == 0 {
        assert(d + c =~= c);
        assert(c.take(w) =~= c);
        assert(elements_of_bytes::<T>(c.skip(w)) =~= Seq::<T>::empty());
        assert(elements_of_bytes::<T>(d + c) =~= elements_of_bytes::<T>(d).push(
            T::spec_of_bytes(c),
        ));
    } else {
        if d.len() < T::spec_width() {
            vstd::arithmetic::div_mod::lemma_small_mod(d.len() as nat, T::spec_width());
            assert(false);
        }
        assert((d + c).take(w) =~= d.take(w));
        assert((d + c).skip(w) =~= d.skip(w) + c);
        assert((d.len() - w) % w == 0) by (nonlinear_arith)
            requires
                d.len() as int % w == 0,
                d.len() >= w,
                w >= 1,
        ;
        lemma_elements_of_bytes_snoc::<T>(d.skip(w), c);
        assert(elements_of_bytes::<T>(d + c) =~= elements_of_bytes::<T>(d).push(
            T::spec_of_bytes(c),
        ));
    }
}

/// Decoding the encoding of a sequence of elements gives the sequence back.
pub proof fn lemma_elements_inverse<T: TLSWrappableType>(s: Seq<T>)
    ensures
        elements_of_bytes::<T>(elements_bytes(s)) == s,
    decreases s.len(),
{
    T::lemma_width_positive();
    let w = T::spec_width() as int;
    if s.len() == 0 {
        assert(elements_of_bytes::<T>(elements_bytes(s)) =~= s);
    } else {
        s[0].lemma_wire_shape();
        lemma_elements_bytes_len::<T>(s.drop_first());
        let eb = elements_bytes(s);
        assert(eb.take(w) =~= s[0].wire_bytes());
        assert(eb.skip(w) =~= elements_bytes(s.drop_first()));
        lemma_elements_inverse::<T>(s.drop_first());
        assert(elements_of_bytes::<T>(elements_bytes(s)) =~= s);
    }
}

/// Whether `data` opens with a well-formed vector in a context bounded by
/// `max_len`: the prefix is present, its value is representable, the declared
/// run of element bytes is present and is a whole number of elements.
pub open spec fn vector_decodable<T: TLSWrappableType>(data: Seq<u8>, max_len: nat) -> bool {
    let p = prefix_len(max_len) as int;
    &&& data.len() >= p
    &&& be_value(data.take(p)) <= usize::MAX as nat
    &&& p + be_value(data.take(p)) <= data.len()
    &&& be_value(data.take(p)) % T::spec_width() == 0
}

/// The declared byte length at the head of `data`.
pub open spec fn decoded_length(data: Seq<u8>, max_len: nat) -> nat {
    be_value(data.take(prefix_len(max_len) as int))
}

/// The elements packed behind the length prefix.
pub open spec fn decoded_elements<T: TLSWrappableType>(data: Seq<u8>, max_len: nat) -> Seq<T> {
    let p = prefix_len(max_len) as int;
    elements_of_bytes::<T>(data.subrange(p, p + decoded_length(data, max_len) as int))
}

/// Canonical encoding of `elems` in a context bounded by `max_len`.
pub open spec fn spec_encode<T: TLSWrappableType>(elems: Seq<T>, max_len: nat) -> Seq<u8> {
    be_bytes_of(elems.len() * T::spec_width(), prefix_len(max_len)) + elements_bytes(elems)
}

/// A decoded TLS variable-length array: the byte length its prefix declared,
/// and the fixed-width elements packed behind it.
pub struct TLSVector<T: TLSWrappableType> {
    pub length: usize,
    pub data: Vec<T>,
}

impl<T: TLSWrappableType> TLSVector<T> {
    /// The declared byte length accounts exactly for the elements held.
    pub open spec fn wf(&self) -> bool {
        self.length as nat == self.data@.len() * T::spec_width()
    }

    /// Decodes a vector from the head of `data`; the prefix width comes from
    /// `max_len`, the context's format-level maximum, never from the data.
    pub fn from_bytes(data: &[u8], max_len: usize) -> (r: Result<Self, ParseError>)
        ensures
            match r {
                Ok(v) => {
                    &&& vector_decodable::<T>(data@, max_len as nat)
                    &&& v.length as nat == decoded_length(data@, max_len as nat)
                    &&& v.data@ == decoded_elements::<T>(data@, max_len as nat)
                    &&& v.wf()
                },
                Err(e) => {
                    &&& !vector_decodable::<T>(data@, max_len as nat)
                    &&& e == ParseError
                },
            },
    {
        let ghost gmax = max_len as nat;
        let p = length_prefix_width(max_len);
        if data.len() < p {
            return Err(ParseError);
        }
        let prefix = &data[0..p];
        proof {
            assert(prefix@ =~= data@.take(p as int));
        }
        let length = match parse_usize(prefix) {
            Some(l) => l,
            None => {
                return Err(ParseError);
            },
        };
        let w = T::len();
        proof {
            T::lemma_width_positive();
        }
        if length % w != 0 {
            return Err(ParseError);
        }
        if data.len() - p < length {
            return Err(ParseError);
        }
        let count = length / w;
        proof {
            lemma_fundamental_div_mod(length as int, w as int);
            assert(length as int == w as int * (length as int / w as int));
            assert(count as int == length as int / w as int);
            assert(length as int == count as int * w as int) by (nonlinear_arith)
                requires
                    length as int == w as int * (count as int),
            ;
        }
        let mut elems: Vec<T> = Vec::new();
        let mut k: usize = 0;
        proof {
            assert(data@.subrange(p as int, p as int) =~= Seq::<u8>::empty());
            assert(elems@ =~= elements_of_bytes::<T>(data@.subrange(p as int, p as int)));
        }
        while k < count
            invariant
                k <= count,
                w as nat == T::spec_width(),
                w >= 1,
                length == count * w,
                p + length <= data@.len(),
                data@.len() <= usize::MAX,
                elems@.len() == k,
                elems@ == elements_of_bytes::<T>(
                    data@.subrange(p as int, p as int + k as int * w as int),
                ),
            decreases count - k,
        {
            proof {
                assert(k as int * w as int + w as int <= count as int * w as int) by (
                nonlinear_arith)
                    requires
                        k as int + 1 <= count as int,
                        w as int >= 1,
                ;
                assert(k as int * w as int >= 0) by (nonlinear_arith)
                    requires
                        k as int >= 0,
                        w as int >= 1,
                ;
            }
            let off = p + k * w;
            let chunk = &data[off..off + w];
            let e = T::from_bytes(chunk);
            proof {
                let d0 = data@.subrange(p as int, off as int);
                assert(d0.len() % T::spec_width() == 0) by (nonlinear_arith)
                    requires
                        d0.len() == k as int * w as int,
                        w as int >= 1,
                        w as nat == T::spec_width(),
                ;
                lemma_elements_of_bytes_snoc::<T>(d0, chunk@);
                assert(data@.subrange(p as int, off as int + w as int) =~= d0 + chunk@);
            }
            elems.push(e);
            k += 1;
            proof {
                assert(p as int + k as int * w as int == p as int + (k as int - 1) * w as int
                    + w as int) by (nonlinear_arith);
            }
        }
        proof {
            assert(p as int + count as int * w as int == p as int + length as int);
        }
        Ok(TLSVector { length, data: elems })
    }

    /// The byte length the vector's prefix declared.
    pub fn len(&self) -> (r: usize)
        ensures
            r == self.length,
    {
        self.length
    }

    /// The element at index `i`.
    pub fn get(&self, i: usize) -> (r: &T)
        requires
            i < self.data@.len(),
        ensures
            *r == self.data@[i as int],
    {
        &self.data[i]
    }

    /// Encodes the vector: length prefix sized by `max_len`, then the packed
    /// element bytes. Requires the declared length to fit the context.
    pub fn encode(&self, max_len: usize) -> (r: Vec<u8>)
        requires
            self.wf(),
            self.length <= max_len,
        ensures
            r@ == spec_encode::<T>(self.data@, max_len as nat),
    {
        let p = length_prefix_width(max_len);
        proof {
            lemma_prefix_len_covers(max_len as nat);
            lemma_pow256_le(prefix_len(max_len as nat), 8);
        }
        let mut out = be_bytes_exec(self.length, p);
        let n = self.data.len();
        let mut i: usize = 0;
        proof {
            assert(self.data@.take(0) =~= Seq::<T>::empty());
            assert(out@ =~= out@ + elements_bytes::<T>(self.data@.take(0)));
        }
        while i < n
            invariant
                i <= n,
                n == self.data@.len(),
                (self.length as nat) < pow256(prefix_len(max_len as nat)),
                out@ == be_bytes_of(self.length as nat, prefix_len(max_len as nat))
                    + elements_bytes::<T>(self.data@.take(i as int)),
            decreases n - i,
        {
            let mut eb = self.data[i].to_bytes();
            proof {
                lemma_elements_bytes_snoc::<T>(self.data@.take(i as int), self.data@[i as int]);
                assert(self.data@.take(i as int).push(self.data@[i as int]) =~= self.data@.take(
                    i as int + 1,
                ));
            }
            out.append(&mut eb);
            i += 1;
            proof {
                assert(out@ =~= be_bytes_of(self.length as nat, prefix_len(max_len as nat))
                    + elements_bytes::<T>(self.data@.take(i as int)));
            }
        }
        proof {
            assert(self.data@.take(n as int) =~= self.data@);
        }
        out
    }
}

/// Writes `value` as `width` big-endian bytes.
fn be_bytes_exec(value: usize, width: usize) -> (r: Vec<u8>)
    ensures
        r@ == be_bytes_of(value as nat, width as nat),
    decreases width,
{
    if width == 0 {
        let v: Vec<u8> = Vec::new();
        proof {
            assert(v@ =~= be_bytes_of(value as nat, 0));
        }
        v
    } else {
        let mut r = be_bytes_exec(value / 256, width - 1);
        r.push((value % 256) as u8);
        r
    }
}

/// Round-trip law of the vector codec: a sequence of elements whose packed
/// byte length fits the context decodes, from its own encoding, back to
/// itself, with the declared length it was encoded with.
pub proof fn lemma_vector_round_trip<T: TLSWrappableType>(elems: Seq<T>, max_len: nat)
    requires
        elems.len() * T::spec_width() <= max_len,
        max_len <= usize::MAX as nat,
    ensures
        vector_decodable::<T>(spec_encode::<T>(elems, max_len), max_len),
        decoded_length(spec_encode::<T>(elems, max_len), max_len) == elems.len()
            * T::spec_width(),
        decoded_elements::<T>(spec_encode::<T>(elems, max_len), max_len) == elems,
{
    T::lemma_width_positive();
    let p = prefix_len(max_len) as int;
    let bl = elems.len() * T::spec_width();
    let enc = spec_encode::<T>(elems, max_len);
    lemma_prefix_len_covers(max_len);
    lemma_be_bytes_of_len(bl, prefix_len(max_len));
    lemma_elements_bytes_len::<T>(elems);
    assert(enc.take(p) =~= be_bytes_of(bl, prefix_len(max_len)));
    lemma_be_round_trip(bl, prefix_len(max_len));
    assert(be_value(enc.take(p)) == bl);
    assert(bl % T::spec_width() == 0) by (nonlinear_arith)
        requires
            bl == elems.len() * T::spec_width(),
            T::spec_width() >= 1,
    ;
    assert(enc.subrange(p, p + bl as int) =~= elements_bytes(elems));
    lemma_elements_inverse::<T>(elems);
}

} // verus!
