//! The message: an ordered collection of fields keyed by field number,
//! with unique keys below 32, a presence bitmap, and whole-message
//! serialization.

use vstd::prelude::*;
use crate::errors::{AddStrError, EncodeError};
use crate::line::{join_sp, join_tokens, split_tokens, split_ws};
use crate::numparse::{all_digits, digits_value, parse_u32_digits};
use crate::value::{
    spec_encode, spec_parse_value, u32_le_bytes, vm_encodable, vm_wf, DataValue, ValueModel,
};

verus! {

/// The field numbers of a message model, in order.
pub open spec fn model_keys(m: Seq<(u32, ValueModel)>) -> Seq<u32> {
    m.map_values(|e: (u32, ValueModel)| e.0)
}

/// The invariant of a message model: field numbers strictly ascending
/// and below 32, and every value well formed.
pub open spec fn model_wf(m: Seq<(u32, ValueModel)>) -> bool {
    &&& forall|i: int, j: int| 0 <= i < j < m.len() ==> m[i].0 < m[j].0
    &&& forall|i: int| 0 <= i < m.len() ==> (#[trigger] m[i]).0 < 32
    &&& forall|i: int| 0 <= i < m.len() ==> vm_wf((#[trigger] m[i]).1)
}

/// Inserts a field into a model, before the first larger field number.
pub open spec fn insert_entry(m: Seq<(u32, ValueModel)>, n: u32, v: ValueModel) -> Seq<
    (u32, ValueModel),
>
    decreases m.len(),
{
    if m.len() == 0 {
        seq![(n, v)]
    } else if n < m[0].0 {
        seq![(n, v)] + m
    } else {
        seq![m[0]] + insert_entry(m.drop_first(), n, v)
    }
}

/// The presence bitmap of a key sequence: bit `k` set for each key `k`.
pub open spec fn spec_bitmap(keys: Seq<u32>) -> u32
    recommends
        forall|i: int| 0 <= i < keys.len() ==> keys[i] < 32,
    decreases keys.len(),
{
    if keys.len() == 0 {
        0u32
    } else {
        spec_bitmap(keys.drop_last()) | (1u32 << keys.last())
    }
}

/// The concatenated wire bytes of a model's values, in model order.
pub open spec fn encode_entries(m: Seq<(u32, ValueModel)>) -> Seq<u8>
    decreases m.len(),
{
    if m.len() == 0 {
        Seq::empty()
    } else {
        encode_entries(m.drop_last()) + spec_encode(m.last().1)
    }
}

/// The sum of the encoded lengths of a model's values.
pub open spec fn total_encoded_len(m: Seq<(u32, ValueModel)>) -> nat
    decreases m.len(),
{
    if m.len() == 0 {
        0
    } else {
        total_encoded_len(m.drop_last()) + spec_encode(m.last().1).len()
    }
}

/// Whether every value of a model fits the wire format.
pub open spec fn all_encodable(m: Seq<(u32, ValueModel)>) -> bool {
    forall|i: int| 0 <= i < m.len() ==> vm_encodable((#[trigger] m[i]).1)
}

/// The whole wire message: the presence bitmap, little-endian, then the
/// encoded values in ascending field-number order.
pub open spec fn spec_serialize(m: Seq<(u32, ValueModel)>) -> Seq<u8> {
    u32_le_bytes(spec_bitmap(model_keys(m))) + encode_entries(m)
}

/// Concatenated encodings are as long as the sum of the parts.
proof fn lemma_encode_entries_len(m: Seq<(u32, ValueModel)>)
    ensures
        encode_entries(m).len() == total_encoded_len(m),
    decreases m.len(),
{
    if m.len() > 0 {
        lemma_encode_entries_len(m.drop_last());
    }
}

/// What one input line does to a message with the given keys: the field
/// it denotes, or the error that rejects it. Errors are reported in this
/// order: too few tokens, an unusable field-number token, a field number
/// not below 32, a duplicate field number, then the value errors.
pub open spec fn spec_parse_line(keys: Seq<u32>, s: Seq<char>) -> Result<
    (u32, ValueModel),
    AddStrError,
> {
    let ts = split_ws(s);
    if ts.len() < 3 {
        Err(AddStrError::MalformedLine)
    } else if !(ts[0].len() > 0 && all_digits(ts[0]) && digits_value(ts[0]) <= u32::MAX) {
        Err(AddStrError::NumberParseFailure)
    } else {
        let n = digits_value(ts[0]) as u32;
        if n >= 32 {
            Err(AddStrError::FieldNumberTooLarge(n))
        } else if keys.contains(n) {
            Err(AddStrError::DuplicateFieldNumber(n))
        } else {
            match spec_parse_value(ts[1], join_sp(ts.skip(2))) {
                Ok(vm) => Ok((n, vm)),
                Err(e) => Err(e),
            }
        }
    }
}

/// An ordered collection of typed fields keyed by unique field numbers
/// below 32. Built by inserting one parsed line at a time; consumed by
/// serialization.
#[derive(Debug)]
pub struct Message {
    entries: Vec<(u32, DataValue)>,
}

/// Inserting a field line by line into a message.
pub trait AddStr {
    /// Parses one input line, `<field-number> <type-tag> <value-text...>`,
    /// and inserts the field it describes.
    fn add_str(&mut self, data: &str) -> Result<(), AddStrError>;
}

impl Message {
    /// The fields of this message as plain values, ascending by field number.
    pub closed spec fn model(&self) -> Seq<(u32, ValueModel)> {
        self.entries@.map_values(|e: (u32, DataValue)| (e.0, e.1@))
    }

    /// The field numbers present, in ascending order.
    pub open spec fn spec_keys(&self) -> Seq<u32> {
        model_keys(self.model())
    }

    #[verifier::type_invariant]
    spec fn inv(&self) -> bool {
        model_wf(self.model())
    }

    /// An empty message.
    pub fn new() -> (m: Message)
        ensures
            m.model() == Seq::<(u32, ValueModel)>::empty(),
    {
        let m = Message { entries: Vec::new() };
        proof {
            assert(m.model() =~= Seq::<(u32, ValueModel)>::empty());
        }
        m
    }

    /// How many fields are present.
    pub fn len(&self) -> (n: usize)
        ensures
            n == self.model().len(),
    {
        self.entries.len()
    }

    /// The value stored under `number`, if any.
    pub fn get(&self, number: u32) -> (r: Option<&DataValue>)
        ensures
            match r {
                Some(v) => exists|i: int|
                    0 <= i < self.model().len() && #[trigger] self.model()[i] == (number, v@),
                None => !self.spec_keys().contains(number),
            },
    {
        let len = self.entries.len();
        let mut i: usize = 0;
        while i < len
            invariant
                0 <= i <= len,
                len == self.entries@.len(),
                forall|k: int| 0 <= k < i ==> (#[trigger] self.entries@[k]).0 != number,
            decreases len - i,
        {
            if self.entries[i].0 == number {
                let v = &self.entries[i].1;
                proof {
                    assert(self.model()[i as int] == (number, v@));
                }
                return Some(v);
            }
            i = i + 1;
        }
        proof {
            assert forall|k: int| 0 <= k < self.spec_keys().len() implies self.spec_keys()[k]
                != number by {
                assert(self.spec_keys()[k] == self.entries@[k].0);
            }
        }
        None
    }

    /// Encodes the whole message: four bitmap bytes, little-endian, then
    /// each field's value bytes in ascending field-number order. Fails
    /// with `PayloadTooLarge` if any payload overruns its length prefix.
    pub fn serialize(&self) -> (r: Result<Vec<u8>, EncodeError>)
        ensures
            match r {
                Ok(b) => {
                    &&& all_encodable(self.model())
                    &&& b@ == spec_serialize(self.model())
                    &&& b@.len() == 4 + total_encoded_len(self.model())
                },
                Err(e) => e == EncodeError::PayloadTooLarge && !all_encodable(self.model()),
            },
    {
        proof {
            use_type_invariant(&*self);
        }
        let bm = build_bitmap(self);
        let mut buf: Vec<u8> = Vec::new();
        buf.push((bm % 256) as u8);
        buf.push(((bm / 256) % 256) as u8);
        buf.push(((bm / 65536) % 256) as u8);
        buf.push(((bm / 16777216) % 256) as u8);
        proof {
            assert(buf@ =~= u32_le_bytes(spec_bitmap(model_keys(self.model()))));
        }
        let ghost head = buf@;
        let len = self.entries.len();
        let mut i: usize = 0;
        while i < len
            invariant
                0 <= i <= len,
                len == self.entries@.len(),
                model_wf(self.model()),
                head == u32_le_bytes(spec_bitmap(model_keys(self.model()))),
                all_encodable(self.model().subrange(0, i as int)),
                buf@ == head + encode_entries(self.model().subrange(0, i as int)),
            decreases len - i,
        {
            let ghost pre = self.model().subrange(0, i as int);
            let ghost now = self.model().subrange(0, i + 1);
            let val = &self.entries[i].1;
            proof {
                assert(self.model()[i as int] == (self.entries@[i as int].0, val@));
            }
            match val.to_bytes() {
                Ok(mut vb) => {
                    buf.append(&mut vb);
                    proof {
                        assert(now.drop_last() =~= pre);
                        assert(now.last() == self.model()[i as int]);
                    }
                },
                Err(e) => {
                    return Err(e);
                },
            }
            i = i + 1;
        }
        proof {
            assert(self.model().subrange(0, len as int) =~= self.model());
            lemma_encode_entries_len(self.model());
        }
        Ok(buf)
    }
}

/// The presence bitmap of a message: for every field number `n` present,
/// bit `n` is set, bit 0 being least significant.
pub fn build_bitmap(message: &Message) -> (r: u32)
    ensures
        r == spec_bitmap(message.spec_keys()),
{
    proof {
        use_type_invariant(message);
    }
    let len = message.entries.len();
    let mut r: u32 = 0;
    let mut i: usize = 0;
    while i < len
        invariant
            0 <= i <= len,
            len == message.entries@.len(),
            model_wf(message.model()),
            r == spec_bitmap(message.spec_keys().subrange(0, i as int)),
        decreases len - i,
    {
        let k = message.entries[i].0;
        proof {
            assert(message.spec_keys()[i as int] == k);
            assert(k < 32);
            assert(message.spec_keys().subrange(0, i + 1).drop_last() =~= message.spec_keys()
                .subrange(0, i as int));
            assert(message.spec_keys().subrange(0, i + 1).last() == k);
        }
        r = r | (1u32 << k);
        i = i + 1;
    }
    proof {
        assert(message.spec_keys().subrange(0, len as int) =~= message.spec_keys());
    }
    r
}

/// Inserting a field adds exactly its own number to the keys.
proof fn lemma_insert_entry_contains(m: Seq<(u32, ValueModel)>, n: u32, v: ValueModel, j: u32)
    ensures
        model_keys(insert_entry(m, n, v)).contains(j) <==> (j == n || model_keys(m).contains(j)),
    decreases m.len(),
{
    let r = insert_entry(m, n, v);
    let kr = model_keys(r);
    let km = model_keys(m);
    if m.len() == 0 {
        assert(kr.len() == 1 && kr[0] == n);
        if kr.contains(j) {
            let i = choose|i: int| 0 <= i < kr.len() && kr[i] == j;
            assert(i == 0);
        }
        if j == n {
            assert(kr[0] == j);
        }
    } else if n < m[0].0 {
        assert(kr.len() == km.len() + 1);
        assert(kr[0] == n);
        assert(forall|i: int| 0 <= i < km.len() ==> kr[i + 1] == km[i]);
        if kr.contains(j) {
            let i = choose|i: int| 0 <= i < kr.len() && kr[i] == j;
            if i > 0 {
                assert(km[i - 1] == j);
            }
        }
        if j == n {
            assert(kr[0] == j);
        }
        if km.contains(j) {
            let i = choose|i: int| 0 <= i < km.len() && km[i] == j;
            assert(kr[i + 1] == j);
        }
    } else {
        let t = m.drop_first();
        lemma_insert_entry_contains(t, n, v, j);
        let rt = insert_entry(t, n, v);
        let krt = model_keys(rt);
        let kt = model_keys(t);
        assert(kr.len() == krt.len() + 1);
        assert(kr[0] == m[0].0);
        assert(forall|i: int| 0 <= i < krt.len() ==> kr[i + 1] == krt[i]);
        assert(km[0] == m[0].0);
        assert(forall|i: int| 0 <= i < kt.len() ==> km[i + 1] == kt[i]);
        if kr.contains(j) {
            let i = choose|i: int| 0 <= i < kr.len() && kr[i] == j;
            if i == 0 {
                assert(km[0] == j);
            } else {
                assert(krt[i - 1] == j);
                assert(krt.contains(j));
                if kt.contains(j) {
                    let w = choose|w: int| 0 <= w < kt.len() && kt[w] == j;
                    assert(km[w + 1] == j);
                }
            }
        }
        if j == n {
            assert(krt.contains(j));
            let i = choose|i: int| 0 <= i < krt.len() && krt[i] == j;
            assert(kr[i + 1] == j);
        }
        if km.contains(j) {
            let i = choose|i: int| 0 <= i < km.len() && km[i] == j;
            if i == 0 {
                assert(kr[0] == j);
            } else {
                assert(kt[i - 1] == j);
                assert(kt.contains(j));
                assert(krt.contains(j));
                let w = choose|w: int| 0 <= w < krt.len() && krt[w] == j;
                assert(kr[w + 1] == j);
            }
        }
    }
}

/// Law: a key sequence's bitmap has bit `j` set exactly when `j` is a key.
pub proof fn lemma_bitmap_contains(keys: Seq<u32>, j: u32)
    requires
        forall|i: int| 0 <= i < keys.len() ==> keys[i] < 32,
        j < 32,
    ensures
        (spec_bitmap(keys) & (1u32 << j) != 0) <==> keys.contains(j),
    decreases keys.len(),
{
    if keys.len() == 0 {
        assert(0u32 & (1u32 << j) == 0) by (bit_vector);
    } else {
        let t = keys.drop_last();
        let k = keys.last();
        lemma_bitmap_contains(t, j);
        let a = spec_bitmap(t);
        assert(((a | (1u32 << k)) & (1u32 << j) != 0) <==> ((a & (1u32 << j) != 0) || j == k))
            by (bit_vector)
            requires
                j < 32,
                k < 32,
        ;
        assert(keys.contains(j) <==> (t.contains(j) || k == j)) by {
            if keys.contains(j) {
                let i = choose|i: int| 0 <= i < keys.len() && keys[i] == j;
                if i < keys.len() - 1 {
                    assert(t[i] == j);
                }
            }
            if t.contains(j) {
                let i = choose|i: int| 0 <= i < t.len() && t[i] == j;
                assert(keys[i] == j);
            }
            if k == j {
                assert(keys[keys.len() - 1] == j);
            }
        }
    }
}

/// Law: inserting a field with a fresh number `n` below 32 sets exactly
/// bit `n` of the presence bitmap — the bit was clear before, is set
/// afterwards, and every other bit is unchanged.
pub proof fn lemma_insert_sets_exact_bit(m: Seq<(u32, ValueModel)>, n: u32, v: ValueModel)
    requires
        model_wf(m),
        n < 32,
        !model_keys(m).contains(n),
    ensures
        spec_bitmap(model_keys(insert_entry(m, n, v))) & (1u32 << n) == (1u32 << n),
        spec_bitmap(model_keys(m)) & (1u32 << n) == 0,
        forall|j: u32|
            j < 32 && j != n ==> (spec_bitmap(model_keys(insert_entry(m, n, v))) & (1u32 << j)) == (
            spec_bitmap(model_keys(m)) & (1u32 << j)),
{
    let keys0 = model_keys(m);
    let keys1 = model_keys(insert_entry(m, n, v));
    assert forall|j: u32| keys1.contains(j) <==> (j == n || keys0.contains(j)) by {
        lemma_insert_entry_contains(m, n, v, j);
    }
    assert forall|i: int| 0 <= i < keys1.len() implies keys1[i] < 32 by {
        assert(keys1.contains(keys1[i]));
        if keys0.contains(keys1[i]) {
            let w = choose|w: int| 0 <= w < keys0.len() && keys0[w] == keys1[i];
            assert(m[w].0 < 32);
        }
    }
    let bm0 = spec_bitmap(keys0);
    let bm1 = spec_bitmap(keys1);
    lemma_bitmap_contains(keys1, n);
    lemma_bitmap_contains(keys0, n);
    assert((bm1 & (1u32 << n) == 0) || (bm1 & (1u32 << n) == 1u32 << n)) by (bit_vector)
        requires
            n < 32,
    ;
    assert forall|j: u32| j < 32 && j != n implies (bm1 & (1u32 << j)) == (bm0 & (1u32 << j)) by {
        lemma_bitmap_contains(keys1, j);
        lemma_bitmap_contains(keys0, j);
        assert((bm1 & (1u32 << j) == 0) || (bm1 & (1u32 << j) == 1u32 << j)) by (bit_vector)
            requires
                j < 32,
        ;
        assert((bm0 & (1u32 << j) == 0) || (bm0 & (1u32 << j) == 1u32 << j)) by (bit_vector)
            requires
                j < 32,
        ;
    }
}

/// A positional description of `insert_entry`: inserting before the first
/// larger key is inserting at the boundary index.
proof fn lemma_insert_entry_at(m: Seq<(u32, ValueModel)>, n: u32, v: ValueModel, p: int)
    requires
        0 <= p <= m.len(),
        forall|k: int| 0 <= k < p ==> (#[trigger] m[k]).0 < n,
        forall|k: int| p <= k < m.len() ==> (#[trigger] m[k]).0 > n,
    ensures
        insert_entry(m, n, v) == m.insert(p, (n, v)),
    decreases m.len(),
{
    if m.len() == 0 {
        assert(insert_entry(m, n, v) =~= m.insert(0, (n, v)));
    } else if n < m[0].0 {
        assert(p == 0);
        assert(seq![(n, v)] + m =~= m.insert(0, (n, v)));
    } else {
        assert(m[0].0 < n);
        let t = m.drop_first();
        assert(forall|k: int| 0 <= k < t.len() ==> t[k] == m[k + 1]);
        lemma_insert_entry_at(t, n, v, p - 1);
        assert(seq![m[0]] + t.insert(p - 1, (n, v)) =~= m.insert(p, (n, v)));
    }
}

impl AddStr for Message {
    /// Parses one line into a field and inserts it. On any failure the
    /// message is unchanged and the error says exactly what was wrong,
    /// as `spec_parse_line` lays it out.
    fn add_str(&mut self, data: &str) -> (r: Result<(), AddStrError>)
        ensures
            match spec_parse_line(old(self).spec_keys(), data@) {
                Ok((n, vm)) => r is Ok && final(self).model() == insert_entry(
                    old(self).model(),
                    n,
                    vm,
                ),
                Err(e) => r == Err::<(), AddStrError>(e) && final(self).model() == old(
                    self,
                ).model(),
            },
    {
        proof {
            use_type_invariant(&*self);
        }
        let tokens = split_tokens(data);
        let ghost ts = split_ws(data@);
        if tokens.len() < 3 {
            return Err(AddStrError::MalformedLine);
        }
        proof {
            assert(tokens@[0]@ == ts[0]);
        }
        let number = match parse_u32_digits(tokens[0]) {
            Some(v) => v,
            None => {
                return Err(AddStrError::NumberParseFailure);
            },
        };
        if number >= 32 {
            return Err(AddStrError::FieldNumberTooLarge(number));
        }
        let len = self.entries.len();
        let mut p: usize = 0;
        while p < len && self.entries[p].0 < number
            invariant
                0 <= p <= len,
                len == self.entries@.len(),
                forall|k: int| 0 <= k < p ==> (#[trigger] self.entries@[k]).0 < number,
            decreases len - p,
        {
            p = p + 1;
        }
        if p < len && self.entries[p].0 == number {
            proof {
                assert(self.spec_keys()[p as int] == number);
                assert(self.spec_keys().contains(number));
            }
            return Err(AddStrError::DuplicateFieldNumber(number));
        }
        let ghost m0 = self.model();
        proof {
            assert forall|k: int| 0 <= k < p implies (#[trigger] m0[k]).0 < number by {
                assert(m0[k].0 == self.entries@[k].0);
            }
            assert forall|k: int| p <= k < m0.len() implies (#[trigger] m0[k]).0 > number by {
                assert(m0[k].0 == self.entries@[k].0);
                assert(m0[p as int].0 == self.entries@[p as int].0);
                if k > p {
                    assert(m0[p as int].0 < m0[k].0);
                }
            }
            assert forall|k: int| 0 <= k < self.spec_keys().len() implies self.spec_keys()[k]
                != number by {
                assert(self.spec_keys()[k] == m0[k].0);
            }
            assert(!self.spec_keys().contains(number));
        }
        let joined = join_tokens(&tokens, 2);
        proof {
            assert(tokens@[1]@ == ts[1]);
            assert(tokens@.map_values(|t: &str| t@).skip(2) =~= ts.skip(2));
        }
        let value = match DataValue::from_str(tokens[1], joined.as_str()) {
            Ok(v) => v,
            Err(e) => {
                return Err(e);
            },
        };
        let ghost vm = value@;
        let ghost m1 = m0.insert(p as int, (number, vm));
        proof {
            lemma_insert_entry_at(m0, number, vm, p as int);
            assert forall|i: int, j: int| 0 <= i < j < m1.len() implies m1[i].0 < m1[j].0 by {
                if j < p {
                    assert(m1[i] == m0[i] && m1[j] == m0[j]);
                } else if j == p {
                    assert(m1[i] == m0[i]);
                } else {
                    assert(m1[j] == m0[j - 1] && m0[j - 1].0 > number);
                    if i < p {
                        assert(m1[i] == m0[i]);
                    } else if i > p {
                        assert(m1[i] == m0[i - 1]);
                    }
                }
            }
            assert forall|i: int| 0 <= i < m1.len() implies (#[trigger] m1[i]).0 < 32 && vm_wf(
                m1[i].1,
            ) by {
                if i < p {
                    assert(m1[i] == m0[i]);
                } else if i > p {
                    assert(m1[i] == m0[i - 1]);
                }
            }
            assert(model_wf(m1));
        }
        let mut es: Vec<(u32, DataValue)> = Vec::new();
        std::mem::swap(&mut es, &mut self.entries);
        proof {
            assert(self.model() =~= Seq::<(u32, ValueModel)>::empty());
        }
        es.insert(p, (number, value));
        proof {
            assert(es@.map_values(|e: (u32, DataValue)| (e.0, e.1@)) =~= m1);
        }
        std::mem::swap(&mut es, &mut self.entries);
        Ok(())
    }
}

} // verus!
