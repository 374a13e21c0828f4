//! The digest accumulator that turns a build step's configuration into a
//! stable cache key. Fields are appended in call order and never reordered
//! or removed, so the accumulated stream is a function of the fields alone;
//! callers that iterate an unordered mapping must feed its keys in a fixed
//! order (the manifest model keeps its entries sorted for this reason).

use vstd::prelude::*;

verus! {

/// The value of one named digest field.
#[derive(Debug)]
pub enum FieldValue {
    Text(String),
    Flag(bool),
    List(Vec<String>),
}

/// Mathematical view of a field value.
pub enum FieldValueV {
    Text(Seq<char>),
    Flag(bool),
    List(Seq<Seq<char>>),
}

impl View for FieldValue {
    type V = FieldValueV;

    open spec fn view(&self) -> FieldValueV {
        match self {
            FieldValue::Text(s) => FieldValueV::Text(s@),
            FieldValue::Flag(b) => FieldValueV::Flag(*b),
            FieldValue::List(l) => FieldValueV::List(l.deep_view()),
        }
    }
}

/// One named fact mixed into a step's cache key.
#[derive(Debug)]
pub struct DigestField {
    pub key: String,
    pub value: FieldValue,
}

/// Mathematical view of one digest field.
pub struct FieldV {
    pub key: Seq<char>,
    pub value: FieldValueV,
}

impl View for DigestField {
    type V = FieldV;

    open spec fn view(&self) -> FieldV {
        FieldV { key: self.key@, value: self.value@ }
    }
}

/// An append-only, order-stable accumulator of named fields. Its view is
/// the exact sequence of fields appended so far.
#[derive(Debug)]
pub struct Digest {
    fields: Vec<DigestField>,
}

impl View for Digest {
    type V = Seq<FieldV>;

    closed spec fn view(&self) -> Seq<FieldV> {
        self.fields@.map(|i: int, f: DigestField| f@)
    }
}

impl Digest {
    /// A fresh accumulator with no fields.
    pub fn new() -> (r: Digest)
        ensures
            r@ == Seq::<FieldV>::empty(),
    {
        let r = Digest { fields: Vec::new() };
        proof {
            assert(r@ =~= Seq::<FieldV>::empty());
        }
        r
    }

    /// Appends one text field.
    pub fn field(&mut self, key: &str, value: &str)
        ensures
            final(self)@ == old(self)@.push(FieldV { key: key@, value: FieldValueV::Text(value@) }),
    {
        self.fields.push(DigestField { key: key.to_owned(), value: FieldValue::Text(value.to_owned()) });
        proof {
            assert(self@ =~= old(self)@.push(
                FieldV { key: key@, value: FieldValueV::Text(value@) },
            ));
        }
    }

    /// Appends one boolean field.
    pub fn field_bool(&mut self, key: &str, value: bool)
        ensures
            final(self)@ == old(self)@.push(FieldV { key: key@, value: FieldValueV::Flag(value) }),
    {
        self.fields.push(DigestField { key: key.to_owned(), value: FieldValue::Flag(value) });
        proof {
            assert(self@ =~= old(self)@.push(FieldV { key: key@, value: FieldValueV::Flag(value) }));
        }
    }

    /// Appends one ordered-sequence field.
    pub fn field_list(&mut self, key: &str, values: &Vec<String>)
        ensures
            final(self)@ == old(self)@.push(
                FieldV { key: key@, value: FieldValueV::List(values.deep_view()) },
            ),
    {
        let copied = crate::strutil::clone_strings(values);
        proof {
            assert(copied.deep_view() =~= values.deep_view());
        }
        self.fields.push(DigestField { key: key.to_owned(), value: FieldValue::List(copied) });
        proof {
            assert(self@ =~= old(self)@.push(
                FieldV { key: key@, value: FieldValueV::List(values.deep_view()) },
            ));
        }
    }

    /// Serializes the accumulated fields; the byte stream is a function of
    /// the field sequence alone.
    pub fn to_bytes(&self) -> (r: Vec<u8>)
        ensures
            r@ == enc_fields(self@),
    {
        let mut buf: Vec<u8> = Vec::new();
        let mut i: usize = 0;
        proof {
            assert(buf@ =~= Seq::<u8>::empty() + enc_fields(self@.take(0)));
            assert(enc_fields(self@.take(0)) =~= Seq::<u8>::empty());
        }
        while i < self.fields.len()
            invariant
                i <= self.fields.len(),
                self@.len() == self.fields@.len(),
                forall|j: int| 0 <= j < self.fields@.len() ==> self@[j] == self.fields@[j]@,
                buf@ == enc_fields(self@.take(i as int)),
            decreases self.fields.len() - i,
        {
            let f = &self.fields[i];
            push_str_bytes(&mut buf, f.key.as_str());
            match &f.value {
                FieldValue::Text(s) => {
                    buf.push(1u8);
                    push_str_bytes(&mut buf, s.as_str());
                },
                FieldValue::Flag(b) => {
                    buf.push(2u8);
                    buf.push(if *b { 1u8 } else { 0u8 });
                },
                FieldValue::List(l) => {
                    buf.push(3u8);
                    push_le_bytes(&mut buf, l.len() as u64, 8);
                    let mut k: usize = 0;
                    proof {
                        assert(enc_str_list(l.deep_view().take(0)) =~= Seq::<u8>::empty());
                    }
                    while k < l.len()
                        invariant
                            k <= l.len(),
                            l.deep_view().len() == l@.len(),
                            forall|j: int| 0 <= j < l@.len() ==> l.deep_view()[j] == l@[j]@,
                            buf@ == enc_fields(self@.take(i as int)) + enc_str(self@[i as int].key)
                                + seq![3u8] + le_bytes(l.deep_view().len() as nat, 8)
                                + enc_str_list(l.deep_view().take(k as int)),
                            self@[i as int].value == FieldValueV::List(l.deep_view()),
                            i < self@.len(),
                        decreases l.len() - k,
                    {
                        push_str_bytes(&mut buf, l[k].as_str());
                        proof {
                            assert(l.deep_view().take(k + 1).drop_last() =~= l.deep_view().take(
                                k as int,
                            ));
                            assert(l.deep_view().take(k + 1).last() == l.deep_view()[k as int]);
                            assert(buf@ =~= enc_fields(self@.take(i as int)) + enc_str(
                                self@[i as int].key,
                            ) + seq![3u8] + le_bytes(l.deep_view().len() as nat, 8) + enc_str_list(
                                l.deep_view().take(k + 1),
                            ));
                        }
                        k = k + 1;
                    }
                    proof {
                        assert(l.deep_view().take(l@.len() as int) =~= l.deep_view());
                    }
                },
            }
            proof {
                assert(self@.take(i + 1).drop_last() =~= self@.take(i as int));
                assert(self@.take(i + 1).last() == self@[i as int]);
                assert(buf@ =~= enc_fields(self@.take(i + 1)));
            }
            i = i + 1;
        }
        proof {
            assert(self@.take(self@.len() as int) =~= self@);
        }
        buf
    }

    /// The 32-byte cache key of the accumulated fields.
    pub fn cache_key(&self) -> (r: Vec<u8>)
        ensures
            r@ == sha256_of(enc_fields(self@)),
            r@.len() == 32,
    {
        let bytes = self.to_bytes();
        sha256(&bytes)
    }
}

/// The little-endian bytes of `n`, `k` bytes wide.
pub open spec fn le_bytes(n: nat, k: nat) -> Seq<u8>
    decreases k,
{
    if k == 0 {
        Seq::empty()
    } else {
        seq![(n % 256) as u8] + le_bytes(n / 256, (k - 1) as nat)
    }
}

/// Appends the `k` little-endian bytes of `n`.
pub fn push_le_bytes(buf: &mut Vec<u8>, n: u64, k: usize)
    ensures
        final(buf)@ == old(buf)@ + le_bytes(n as nat, k as nat),
{
    let mut cur: u64 = n;
    let mut i: usize = 0;
    while i < k
        invariant
            i <= k,
            old(buf)@ + le_bytes(n as nat, k as nat) == buf@ + le_bytes(
                cur as nat,
                (k - i) as nat,
            ),
        decreases k - i,
    {
        let b = (cur % 256) as u8;
        proof {
            assert(le_bytes(cur as nat, (k - i) as nat) =~= seq![(cur as nat % 256) as u8]
                + le_bytes(cur as nat / 256, (k - i - 1) as nat));
        }
        buf.push(b);
        proof {
            assert(old(buf)@ + le_bytes(n as nat, k as nat) =~= buf@ + le_bytes(
                cur as nat / 256,
                (k - i - 1) as nat,
            ));
        }
        cur = cur / 256;
        i = i + 1;
    }
    proof {
        assert(le_bytes(cur as nat, 0) =~= Seq::<u8>::empty());
        assert(final(buf)@ =~= old(buf)@ + le_bytes(n as nat, k as nat));
    }
}

/// The 4-byte encoding of one character: its scalar value, little endian.
pub open spec fn enc_char(c: char) -> Seq<u8> {
    le_bytes(c as u32 as nat, 4)
}

/// The encoding of the characters of a string, in order.
pub open spec fn enc_chars(s: Seq<char>) -> Seq<u8>
    decreases s.len(),
{
    if s.len() == 0 {
        Seq::empty()
    } else {
        enc_chars(s.drop_last()) + enc_char(s.last())
    }
}

/// The encoding of a string: its length, then its characters.
pub open spec fn enc_str(s: Seq<char>) -> Seq<u8> {
    le_bytes(s.len(), 8) + enc_chars(s)
}

/// The encoding of a list of strings, in order.
pub open spec fn enc_str_list(l: Seq<Seq<char>>) -> Seq<u8>
    decreases l.len(),
{
    if l.len() == 0 {
        Seq::empty()
    } else {
        enc_str_list(l.drop_last()) + enc_str(l.last())
    }
}

/// The encoding of one field value, tagged by kind.
pub open spec fn enc_value(v: FieldValueV) -> Seq<u8> {
    match v {
        FieldValueV::Text(s) => seq![1u8] + enc_str(s),
        FieldValueV::Flag(b) => seq![2u8, if b { 1u8 } else { 0u8 }],
        FieldValueV::List(l) => seq![3u8] + le_bytes(l.len(), 8) + enc_str_list(l),
    }
}

/// The encoding of one field: its key, then its value.
pub open spec fn enc_field(f: FieldV) -> Seq<u8> {
    enc_str(f.key) + enc_value(f.value)
}

/// The encoding of a field sequence, in order.
pub open spec fn enc_fields(fs: Seq<FieldV>) -> Seq<u8>
    decreases fs.len(),
{
    if fs.len() == 0 {
        Seq::empty()
    } else {
        enc_fields(fs.drop_last()) + enc_field(fs.last())
    }
}

/// Appends the encoding of one string.
pub fn push_str_bytes(buf: &mut Vec<u8>, s: &str)
    ensures
        final(buf)@ == old(buf)@ + enc_str(s@),
{
    let n: usize = s.unicode_len();
    push_le_bytes(buf, n as u64, 8);
    let mut i: usize = 0;
    proof {
        assert(enc_chars(s@.take(0)) =~= Seq::<u8>::empty());
    }
    while i < n
        invariant
            i <= n,
            n == s@.len(),
            buf@ == old(buf)@ + le_bytes(s@.len(), 8) + enc_chars(s@.take(i as int)),
        decreases n - i,
    {
        let c = s.get_char(i);
        push_le_bytes(buf, c as u32 as u64, 4);
        proof {
            assert(s@.take(i + 1).drop_last() =~= s@.take(i as int));
            assert(s@.take(i + 1).last() == s@[i as int]);
            assert(buf@ =~= old(buf)@ + le_bytes(s@.len(), 8) + enc_chars(s@.take(i + 1)));
        }
        i = i + 1;
    }
    proof {
        assert(s@.take(s@.len() as int) =~= s@);
        assert(final(buf)@ =~= old(buf)@ + enc_str(s@));
    }
}

/// 256 to the `k`th power: the number of values `k` bytes can carry.
pub open spec fn pow256(k: nat) -> nat
    decreases k,
{
    if k == 0 {
        1
    } else {
        256 * pow256((k - 1) as nat)
    }
}

proof fn lemma_le_bytes_len(n: nat, k: nat)
    ensures
        le_bytes(n, k).len() == k,
    decreases k,
{
    if k > 0 {
        lemma_le_bytes_len(n / 256, (k - 1) as nat);
    }
}

proof fn lemma_le_bytes_injective(a: nat, b: nat, k: nat)
    requires
        a < pow256(k),
        b < pow256(k),
        le_bytes(a, k) == le_bytes(b, k),
    ensures
        a == b,
    decreases k,
{
    if k > 0 {
        let k1 = (k - 1) as nat;
        assert(le_bytes(a, k)[0] == (a % 256) as u8);
        assert(le_bytes(b, k)[0] == (b % 256) as u8);
        assert(a % 256 == b % 256);
        assert(le_bytes(a, k).skip(1) =~= le_bytes(a / 256, k1));
        assert(le_bytes(b, k).skip(1) =~= le_bytes(b / 256, k1));
        assert(a / 256 < pow256(k1)) by (nonlinear_arith)
            requires
                a < 256 * pow256(k1),
        ;
        assert(b / 256 < pow256(k1)) by (nonlinear_arith)
            requires
                b < 256 * pow256(k1),
        ;
        lemma_le_bytes_injective(a / 256, b / 256, k1);
        assert(a == 256 * (a / 256) + a % 256) by (nonlinear_arith);
        assert(b == 256 * (b / 256) + b % 256) by (nonlinear_arith);
    }
}

proof fn lemma_pow256_4()
    ensures
        pow256(4) == 0x100000000,
{
    assert(pow256(0) == 1);
    assert(pow256(1) == 256);
    assert(pow256(2) == 0x10000);
    assert(pow256(3) == 0x1000000);
}

proof fn lemma_enc_char_injective(c1: char, c2: char)
    requires
        enc_char(c1) == enc_char(c2),
    ensures
        c1 == c2,
{
    lemma_pow256_4();
    lemma_le_bytes_injective(c1 as u32 as nat, c2 as u32 as nat, 4);
    vstd::utf8::char_u32_cast(c1, c1 as u32);
    vstd::utf8::char_u32_cast(c2, c2 as u32);
}

proof fn lemma_enc_chars_len(s: Seq<char>)
    ensures
        enc_chars(s).len() == 4 * s.len(),
    decreases s.len(),
{
    if s.len() > 0 {
        lemma_enc_chars_len(s.drop_last());
        lemma_le_bytes_len(s.last() as u32 as nat, 4);
    }
}

/// Two sequences equal in length with one concatenation split at the same
/// point are equal part by part.
pub proof fn lemma_concat_parts<A>(x1: Seq<A>, y1: Seq<A>, x2: Seq<A>, y2: Seq<A>)
    requires
        x1.len() == x2.len(),
        x1 + y1 == x2 + y2,
    ensures
        x1 == x2,
        y1 == y2,
{
    assert forall|i: int| 0 <= i < x1.len() implies x1[i] == x2[i] by {
        assert((x1 + y1)[i] == x1[i]);
        assert((x2 + y2)[i] == x2[i]);
    }
    assert(x1 =~= x2);
    assert((x1 + y1).len() == x1.len() + y1.len());
    assert((x2 + y2).len() == x2.len() + y2.len());
    assert(y1.len() == y2.len());
    assert forall|i: int| 0 <= i < y1.len() implies y1[i] == y2[i] by {
        assert((x1 + y1)[x1.len() + i] == y1[i]);
        assert((x2 + y2)[x2.len() + i] == y2[i]);
    }
    assert(y1 =~= y2);
}

proof fn lemma_enc_chars_injective(s1: Seq<char>, s2: Seq<char>)
    requires
        s1.len() == s2.len(),
        enc_chars(s1) == enc_chars(s2),
    ensures
        s1 == s2,
    decreases s1.len(),
{
    if s1.len() > 0 {
        lemma_enc_chars_len(s1.drop_last());
        lemma_enc_chars_len(s2.drop_last());
        lemma_concat_parts(enc_chars(s1.drop_last()), enc_char(s1.last()), enc_chars(
            s2.drop_last(),
        ), enc_char(s2.last()));
        lemma_enc_char_injective(s1.last(), s2.last());
        lemma_enc_chars_injective(s1.drop_last(), s2.drop_last());
        assert forall|i: int| 0 <= i < s1.len() implies s1[i] == s2[i] by {
            if i < s1.len() - 1 {
                assert(s1.drop_last()[i] == s1[i]);
                assert(s2.drop_last()[i] == s2[i]);
            }
        }
        assert(s1 =~= s2);
    } else {
        assert(s1 =~= s2);
    }
}

/// Whether a string is short enough for its length prefix.
pub open spec fn str_bounded(s: Seq<char>) -> bool {
    s.len() < pow256(8)
}

/// Whether a field value is within the encoding's length prefixes.
pub open spec fn value_bounded(v: FieldValueV) -> bool {
    match v {
        FieldValueV::Text(s) => str_bounded(s),
        FieldValueV::Flag(_) => true,
        FieldValueV::List(l) => l.len() < pow256(8) && forall|i: int|
            0 <= i < l.len() ==> str_bounded(#[trigger] l[i]),
    }
}

/// Whether every field of a sequence is within the length prefixes; true
/// of anything an executable accumulator can hold.
pub open spec fn fields_bounded(fs: Seq<FieldV>) -> bool {
    forall|i: int|
        0 <= i < fs.len() ==> str_bounded(#[trigger] fs[i].key) && value_bounded(fs[i].value)
}

proof fn lemma_enc_str_len(s: Seq<char>)
    ensures
        enc_str(s).len() == 8 + 4 * s.len(),
{
    lemma_le_bytes_len(s.len(), 8);
    lemma_enc_chars_len(s);
}

/// A string's encoding determines the string and whatever follows it.
proof fn lemma_enc_str_prefix(s1: Seq<char>, s2: Seq<char>, r1: Seq<u8>, r2: Seq<u8>)
    requires
        str_bounded(s1),
        str_bounded(s2),
        enc_str(s1) + r1 == enc_str(s2) + r2,
    ensures
        s1 == s2,
        r1 == r2,
{
    lemma_le_bytes_len(s1.len(), 8);
    lemma_le_bytes_len(s2.len(), 8);
    assert(enc_str(s1) + r1 =~= le_bytes(s1.len(), 8) + (enc_chars(s1) + r1));
    assert(enc_str(s2) + r2 =~= le_bytes(s2.len(), 8) + (enc_chars(s2) + r2));
    lemma_concat_parts(le_bytes(s1.len(), 8), enc_chars(s1) + r1, le_bytes(s2.len(), 8),
        enc_chars(s2) + r2);
    lemma_le_bytes_injective(s1.len(), s2.len(), 8);
    lemma_enc_chars_len(s1);
    lemma_enc_chars_len(s2);
    lemma_concat_parts(enc_chars(s1), r1, enc_chars(s2), r2);
    lemma_enc_chars_injective(s1, s2);
}

proof fn lemma_enc_str_list_front(l: Seq<Seq<char>>)
    requires
        l.len() > 0,
    ensures
        enc_str_list(l) == enc_str(l[0]) + enc_str_list(l.skip(1)),
    decreases l.len(),
{
    if l.len() == 1 {
        assert(l.drop_last() =~= Seq::<Seq<char>>::empty());
        assert(l.skip(1) =~= Seq::<Seq<char>>::empty());
        assert(enc_str_list(l) =~= enc_str(l[0]) + enc_str_list(l.skip(1)));
    } else {
        let d = l.drop_last();
        lemma_enc_str_list_front(d);
        assert(d[0] == l[0]);
        assert(d.skip(1) =~= l.skip(1).drop_last());
        assert(l.skip(1).last() == l.last());
        assert(enc_str_list(l.skip(1)) == enc_str_list(l.skip(1).drop_last()) + enc_str(l.last()));
        assert(enc_str_list(l) =~= enc_str(l[0]) + enc_str_list(l.skip(1)));
    }
}

proof fn lemma_enc_str_list_prefix(l1: Seq<Seq<char>>, l2: Seq<Seq<char>>, r1: Seq<u8>, r2: Seq<
    u8,
>)
    requires
        l1.len() == l2.len(),
        forall|i: int| 0 <= i < l1.len() ==> str_bounded(#[trigger] l1[i]),
        forall|i: int| 0 <= i < l2.len() ==> str_bounded(#[trigger] l2[i]),
        enc_str_list(l1) + r1 == enc_str_list(l2) + r2,
    ensures
        l1 == l2,
        r1 == r2,
    decreases l1.len(),
{
    if l1.len() == 0 {
        assert(l1 =~= l2);
        assert(enc_str_list(l1) =~= Seq::<u8>::empty());
        assert(enc_str_list(l2) =~= Seq::<u8>::empty());
        assert(r1 =~= enc_str_list(l1) + r1);
        assert(r2 =~= enc_str_list(l2) + r2);
    } else {
        lemma_enc_str_list_front(l1);
        lemma_enc_str_list_front(l2);
        assert(enc_str(l1[0]) + (enc_str_list(l1.skip(1)) + r1) =~= enc_str_list(l1) + r1);
        assert(enc_str(l2[0]) + (enc_str_list(l2.skip(1)) + r2) =~= enc_str_list(l2) + r2);
        lemma_enc_str_prefix(l1[0], l2[0], enc_str_list(l1.skip(1)) + r1, enc_str_list(l2.skip(1))
            + r2);
        assert forall|i: int| 0 <= i < l1.skip(1).len() implies str_bounded(
            #[trigger] l1.skip(1)[i],
        ) && str_bounded(l2.skip(1)[i]) by {
            assert(l1.skip(1)[i] == l1[i + 1]);
            assert(l2.skip(1)[i] == l2[i + 1]);
        }
        lemma_enc_str_list_prefix(l1.skip(1), l2.skip(1), r1, r2);
        assert forall|i: int| 0 <= i < l1.len() implies l1[i] == l2[i] by {
            if i >= 1 {
                assert(l1.skip(1)[i - 1] == l1[i]);
                assert(l2.skip(1)[i - 1] == l2[i]);
            }
        }
        assert(l1 =~= l2);
    }
}

/// A field value's encoding determines the value and whatever follows it.
proof fn lemma_enc_value_prefix(v1: FieldValueV, v2: FieldValueV, r1: Seq<u8>, r2: Seq<u8>)
    requires
        value_bounded(v1),
        value_bounded(v2),
        enc_value(v1) + r1 == enc_value(v2) + r2,
    ensures
        v1 == v2,
        r1 == r2,
{
    let t1 = enc_value(v1) + r1;
    assert(t1[0] == enc_value(v1)[0]);
    assert(t1[0] == enc_value(v2)[0]);
    match (v1, v2) {
        (FieldValueV::Text(s1), FieldValueV::Text(s2)) => {
            assert(enc_value(v1) + r1 =~= seq![1u8] + (enc_str(s1) + r1));
            assert(enc_value(v2) + r2 =~= seq![1u8] + (enc_str(s2) + r2));
            lemma_concat_parts(seq![1u8], enc_str(s1) + r1, seq![1u8], enc_str(s2) + r2);
            lemma_enc_str_prefix(s1, s2, r1, r2);
        },
        (FieldValueV::Flag(b1), FieldValueV::Flag(b2)) => {
            let h1 = seq![2u8, if b1 { 1u8 } else { 0u8 }];
            let h2 = seq![2u8, if b2 { 1u8 } else { 0u8 }];
            assert(t1[1] == h1[1]);
            assert(t1[1] == h2[1]);
            assert(b1 == b2);
            lemma_concat_parts(h1, r1, h2, r2);
        },
        (FieldValueV::List(l1), FieldValueV::List(l2)) => {
            lemma_le_bytes_len(l1.len(), 8);
            lemma_le_bytes_len(l2.len(), 8);
            assert(enc_value(v1) + r1 =~= seq![3u8] + (le_bytes(l1.len(), 8) + (enc_str_list(l1)
                + r1)));
            assert(enc_value(v2) + r2 =~= seq![3u8] + (le_bytes(l2.len(), 8) + (enc_str_list(l2)
                + r2)));
            lemma_concat_parts(seq![3u8], le_bytes(l1.len(), 8) + (enc_str_list(l1) + r1), seq![
                3u8,
            ], le_bytes(l2.len(), 8) + (enc_str_list(l2) + r2));
            lemma_concat_parts(le_bytes(l1.len(), 8), enc_str_list(l1) + r1, le_bytes(l2.len(), 8),
                enc_str_list(l2) + r2);
            lemma_le_bytes_injective(l1.len(), l2.len(), 8);
            lemma_enc_str_list_prefix(l1, l2, r1, r2);
        },
        _ => {
            assert(false);
        },
    }
}

proof fn lemma_enc_fields_front(fs: Seq<FieldV>)
    requires
        fs.len() > 0,
    ensures
        enc_fields(fs) == enc_field(fs[0]) + enc_fields(fs.skip(1)),
    decreases fs.len(),
{
    if fs.len() == 1 {
        assert(fs.drop_last() =~= Seq::<FieldV>::empty());
        assert(fs.skip(1) =~= Seq::<FieldV>::empty());
        assert(enc_fields(fs) =~= enc_field(fs[0]) + enc_fields(fs.skip(1)));
    } else {
        let d = fs.drop_last();
        lemma_enc_fields_front(d);
        assert(d[0] == fs[0]);
        assert(d.skip(1) =~= fs.skip(1).drop_last());
        assert(fs.skip(1).last() == fs.last());
        assert(enc_fields(fs.skip(1)) == enc_fields(fs.skip(1).drop_last()) + enc_field(
            fs.last(),
        ));
        assert(enc_fields(fs) =~= enc_field(fs[0]) + enc_fields(fs.skip(1)));
    }
}

proof fn lemma_enc_field_prefix(f1: FieldV, f2: FieldV, r1: Seq<u8>, r2: Seq<u8>)
    requires
        str_bounded(f1.key),
        str_bounded(f2.key),
        value_bounded(f1.value),
        value_bounded(f2.value),
        enc_field(f1) + r1 == enc_field(f2) + r2,
    ensures
        f1 == f2,
        r1 == r2,
{
    assert(enc_field(f1) + r1 =~= enc_str(f1.key) + (enc_value(f1.value) + r1));
    assert(enc_field(f2) + r2 =~= enc_str(f2.key) + (enc_value(f2.value) + r2));
    lemma_enc_str_prefix(f1.key, f2.key, enc_value(f1.value) + r1, enc_value(f2.value) + r2);
    lemma_enc_value_prefix(f1.value, f2.value, r1, r2);
}

/// The serialized byte stream determines the field sequence: two field
/// sequences that encode to the same bytes are the same, so changing any
/// key, flag, list entry or leaf value changes the stream the cache key is
/// computed from.
pub proof fn lemma_enc_fields_injective(f1: Seq<FieldV>, f2: Seq<FieldV>)
    requires
        fields_bounded(f1),
        fields_bounded(f2),
        enc_fields(f1) == enc_fields(f2),
    ensures
        f1 == f2,
    decreases f1.len(),
{
    if f1.len() == 0 || f2.len() == 0 {
        if f1.len() > 0 {
            lemma_enc_fields_front(f1);
            lemma_enc_str_len(f1[0].key);
            assert(enc_fields(f1).len() > 0);
            assert(enc_fields(f2) =~= Seq::<u8>::empty());
        }
        if f2.len() > 0 {
            lemma_enc_fields_front(f2);
            lemma_enc_str_len(f2[0].key);
            assert(enc_fields(f2).len() > 0);
            assert(enc_fields(f1) =~= Seq::<u8>::empty());
        }
        assert(f1 =~= f2);
    } else {
        lemma_enc_fields_front(f1);
        lemma_enc_fields_front(f2);
        assert(enc_field(f1[0]) + enc_fields(f1.skip(1)) == enc_field(f2[0]) + enc_fields(
            f2.skip(1),
        ));
        lemma_enc_field_prefix(f1[0], f2[0], enc_fields(f1.skip(1)), enc_fields(f2.skip(1)));
        assert forall|i: int| 0 <= i < f1.skip(1).len() implies str_bounded(
            #[trigger] f1.skip(1)[i].key,
        ) && value_bounded(f1.skip(1)[i].value) by {
            assert(f1.skip(1)[i] == f1[i + 1]);
        }
        assert forall|i: int| 0 <= i < f2.skip(1).len() implies str_bounded(
            #[trigger] f2.skip(1)[i].key,
        ) && value_bounded(f2.skip(1)[i].value) by {
            assert(f2.skip(1)[i] == f2[i + 1]);
        }
        lemma_enc_fields_injective(f1.skip(1), f2.skip(1));
        assert forall|i: int| 0 <= i < f1.len() implies f1[i] == f2[i] by {
            if i >= 1 {
                assert(f1.skip(1)[i - 1] == f1[i]);
                assert(f2.skip(1)[i - 1] == f2[i]);
            }
        }
        assert(f1 =~= f2);
    }
}

/// The SHA-256 digest of a byte stream; it depends on the bytes alone.
pub uninterp spec fn sha256_of(b: Seq<u8>) -> Seq<u8>;

/// Relies on sha2::Sha256 (through the digest crate's Digest trait): the
/// digest is a pure function of the input bytes and is 32 bytes long.
#[verifier::external_body]
fn sha256(b: &Vec<u8>) -> (r: Vec<u8>)
    ensures
        r@ == sha256_of(b@),
        r@.len() == 32,
{
    <sha2::Sha256 as sha2::Digest>::digest(b.as_slice()).to_vec()
}

} // verus!
