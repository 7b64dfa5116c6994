//! ABI-shaped decoding of raw log topics/data and of call inputs.
//!
//! The grammar is the standard contract-ABI word layout: every static value
//! occupies one 32-byte big-endian word; an event's non-anonymous signature
//! stands in `topics[0]`; indexed parameters follow one per topic; the
//! remaining parameters sit word by word in the data; a call input is a head
//! of one word per parameter, where a dynamic parameter's word is an offset
//! into the input.  A failed decode is expected and frequent — handlers probe
//! several shapes per log — so every mismatch is an `Err`, never a panic.

use vstd::prelude::*;
use crate::address::Address;

verus! {

/// Why a log or a call input does not match a probed shape.
#[derive(Clone, Copy, Debug, PartialEq, Eq, Structural)]
pub enum DecodeError {
    /// Topic count, topic contents, or data length do not fit the schema.
    Shape,
    /// A word is not a valid encoding of its parameter's type.
    Value,
    /// A decoded unsigned value does not fit the requested width.
    Range,
    /// A parameter index past the end of the decoded list.
    Index,
    /// A parameter of a different type than the caller asked for.
    Type,
}

/// The type of one static event parameter.
#[derive(Clone, Copy, Debug, PartialEq, Eq, Structural)]
pub enum ParamKind {
    Uint,
    Address,
    Bool,
}

/// One event parameter: its type and whether it is indexed (carried in a
/// topic rather than in the data).
#[derive(Clone, Copy, Debug, PartialEq, Eq, Structural)]
pub struct EventParam {
    pub kind: ParamKind,
    pub indexed: bool,
}

/// The shape of one event: its signature topic and its parameters in
/// declaration order.
pub struct EventSchema {
    pub topic: Vec<u8>,
    pub params: Vec<EventParam>,
}

impl EventSchema {
    /// A signature topic is one 32-byte word.
    pub open spec fn wf(&self) -> bool {
        self.topic@.len() == 32
    }
}

/// The type of one call parameter: a static word, or a dynamic value whose
/// head word is an offset into the input.
#[derive(Clone, Copy, Debug, PartialEq, Eq, Structural)]
pub enum CallKind {
    Uint,
    Address,
    Bool,
    Dynamic,
}

/// The shape of one function's input, selector already stripped.
pub struct FunctionSchema {
    pub params: Vec<CallKind>,
}

/// A raw log as the chain hands it out: the topic words and the data bytes.
pub struct RawLog {
    pub topics: Vec<Vec<u8>>,
    pub data: Vec<u8>,
}

/// One decoded parameter.
#[derive(Debug)]
pub enum AbiValue {
    /// An unsigned integer, kept as its full 32-byte word.
    Uint(Vec<u8>),
    /// An address: the last 20 bytes of its word.
    Address(Address),
    /// A boolean.
    Bool(bool),
    /// A dynamic parameter, reduced to its head offset.
    Dynamic(u64),
}

/// The mathematical shadow of [`AbiValue`].
pub enum AbiVal {
    Uint(Seq<u8>),
    Address(Seq<u8>),
    Bool(bool),
    Dynamic(u64),
}

impl View for AbiValue {
    type V = AbiVal;

    open spec fn view(&self) -> AbiVal {
        match self {
            AbiValue::Uint(w) => AbiVal::Uint(w@),
            AbiValue::Address(a) => AbiVal::Address(a@),
            AbiValue::Bool(b) => AbiVal::Bool(*b),
            AbiValue::Dynamic(o) => AbiVal::Dynamic(*o),
        }
    }
}

/// A byte sequence read as a big-endian natural number.
pub open spec fn be_nat(s: Seq<u8>) -> nat
    decreases s.len(),
{
    if s.len() == 0 {
        0
    } else {
        be_nat(s.drop_last()) * 256 + s.last() as nat
    }
}

/// 256 to the n-th power: the number of values of an n-byte sequence.
pub open spec fn pow256(n: nat) -> nat
    decreases n,
{
    if n == 0 {
        1
    } else {
        256 * pow256((n - 1) as nat)
    }
}

/// A big-endian number is bounded by the size of its byte sequence.
pub proof fn lemma_be_nat_bound(s: Seq<u8>)
    ensures
        be_nat(s) < pow256(s.len()),
    decreases s.len(),
{
    if s.len() > 0 {
        lemma_be_nat_bound(s.drop_last());
    }
}

/// Leading zero bytes do not change the value.
pub proof fn lemma_be_nat_skip_zeros(s: Seq<u8>, k: int)
    requires
        0 <= k <= s.len(),
        forall|i: int| 0 <= i < k ==> s[i] == 0,
    ensures
        be_nat(s) == be_nat(s.subrange(k, s.len() as int)),
    decreases s.len(),
{
    if s.len() == k {
        lemma_be_nat_zeros(s);
        assert(s.subrange(k, s.len() as int) =~= Seq::<u8>::empty());
    } else {
        lemma_be_nat_skip_zeros(s.drop_last(), k);
        assert(s.drop_last().subrange(k, s.drop_last().len() as int)
            =~= s.subrange(k, s.len() as int).drop_last());
    }
}

/// An all-zero byte sequence reads as zero.
pub proof fn lemma_be_nat_zeros(s: Seq<u8>)
    requires
        forall|i: int| 0 <= i < s.len() ==> s[i] == 0,
    ensures
        be_nat(s) == 0,
    decreases s.len(),
{
    if s.len() > 0 {
        lemma_be_nat_zeros(s.drop_last());
    }
}

/// A nonzero byte forces the value at least as high as its place value.
pub proof fn lemma_be_nat_nonzero(s: Seq<u8>, i: int)
    requires
        0 <= i < s.len(),
        s[i] != 0,
    ensures
        be_nat(s) >= pow256((s.len() - 1 - i) as nat),
    decreases s.len(),
{
    if i == s.len() - 1 {
        assert(be_nat(s) >= s.last());
    } else {
        lemma_be_nat_nonzero(s.drop_last(), i);
        assert(be_nat(s) >= be_nat(s.drop_last()) * 256);
    }
}

/// Copy `len` bytes of `src` starting at `start`.
pub fn copy_bytes(src: &Vec<u8>, start: usize, len: usize) -> (r: Vec<u8>)
    requires
        start + len <= src@.len(),
    ensures
        r@ == src@.subrange(start as int, start as int + len as int),
{
    let mut r: Vec<u8> = Vec::new();
    let n = src.len();
    let mut i: usize = 0;
    while i < len
        invariant
            i <= len,
            n == src@.len(),
            start + len <= n,
            r@ == src@.subrange(start as int, start as int + i as int),
        decreases len - i,
    {
        r.push(src[start + i]);
        proof {
            assert(r@ =~= src@.subrange(start as int, start as int + (i + 1) as int));
        }
        i = i + 1;
    }
    r
}

/// Fold the trailing `n` bytes of a word into an unsigned accumulator,
/// after the leading bytes have been checked to be zero.
fn fold_be_u64(w: &Vec<u8>, cut: usize) -> (v: u64)
    requires
        cut <= w@.len(),
        w@.len() - cut <= 8,
    ensures
        v == be_nat(w@.subrange(cut as int, w@.len() as int)),
{
    let mut v: u64 = 0;
    let mut i: usize = cut;
    proof {
        assert(w@.subrange(cut as int, cut as int) =~= Seq::<u8>::empty());
    }
    while i < w.len()
        invariant
            cut <= i <= w@.len(),
            w@.len() - cut <= 8,
            v == be_nat(w@.subrange(cut as int, i as int)),
            v < pow256((i - cut) as nat),
        decreases w@.len() - i,
    {
        proof {
            lemma_pow256_le((i - cut) as nat, 7);
            assert(pow256(7) == 0x100000000000000) by {
                reveal_with_fuel(pow256, 8);
            }
            assert(w@.subrange(cut as int, i as int + 1).drop_last()
                =~= w@.subrange(cut as int, i as int));
            assert(w@.subrange(cut as int, i as int + 1).last() == w@[i as int]);
        }
        v = v * 256 + (w[i] as u64);
        i = i + 1;
    }
    v
}

/// `pow256` grows with its exponent.
pub proof fn lemma_pow256_le(a: nat, b: nat)
    requires
        a <= b,
    ensures
        pow256(a) <= pow256(b),
    decreases b,
{
    if a < b {
        lemma_pow256_le(a, (b - 1) as nat);
        assert(pow256(b) == 256 * pow256((b - 1) as nat));
    }
}

impl AbiValue {
    /// The word's value, if this is an unsigned integer that fits in `u64`;
    /// `Range` when it is too large, `Type` when it is no integer at all.
    pub fn to_u64(&self) -> (r: Result<u64, DecodeError>)
        ensures
            match self@ {
                AbiVal::Uint(w) => {
                    if be_nat(w) <= u64::MAX {
                        r == Ok::<u64, DecodeError>(be_nat(w) as u64)
                    } else {
                        r == Err::<u64, DecodeError>(DecodeError::Range)
                    }
                },
                _ => r == Err::<u64, DecodeError>(DecodeError::Type),
            },
    {
        match self {
            AbiValue::Uint(w) => {
                let cut = if w.len() > 8 { w.len() - 8 } else { 0 };
                let mut i: usize = 0;
                while i < cut
                    invariant
                        cut <= w@.len(),
                        w@.len() - cut <= 8,
                        cut > 0 ==> w@.len() - cut == 8,
                        self@ == AbiVal::Uint(w@),
                        i <= cut,
                        forall|j: int| 0 <= j < i ==> w@[j] == 0,
                    decreases cut - i,
                {
                    if w[i] != 0 {
                        proof {
                            lemma_be_nat_nonzero(w@, i as int);
                            lemma_pow256_le(8, (w@.len() - 1 - i) as nat);
                            assert(pow256(8) == 0x10000000000000000) by {
                                reveal_with_fuel(pow256, 9);
                            }
                        }
                        return Err(DecodeError::Range);
                    }
                    i = i + 1;
                }
                proof {
                    lemma_be_nat_skip_zeros(w@, cut as int);
                    lemma_be_nat_bound(w@.subrange(cut as int, w@.len() as int));
                    lemma_pow256_le((w@.len() - cut) as nat, 8);
                    assert(pow256(8) == 0x10000000000000000) by {
                        reveal_with_fuel(pow256, 9);
                    }
                }
                Ok(fold_be_u64(w, cut))
            },
            _ => Err(DecodeError::Type),
        }
    }

    /// The word's value, if this is an unsigned integer that fits in `u128`.
    pub fn to_u128(&self) -> (r: Result<u128, DecodeError>)
        ensures
            match self@ {
                AbiVal::Uint(w) => {
                    if be_nat(w) <= u128::MAX {
                        r == Ok::<u128, DecodeError>(be_nat(w) as u128)
                    } else {
                        r == Err::<u128, DecodeError>(DecodeError::Range)
                    }
                },
                _ => r == Err::<u128, DecodeError>(DecodeError::Type),
            },
    {
        match self {
            AbiValue::Uint(w) => {
                let cut = if w.len() > 16 { w.len() - 16 } else { 0 };
                let mut i: usize = 0;
                while i < cut
                    invariant
                        cut <= w@.len(),
                        w@.len() - cut <= 16,
                        cut > 0 ==> w@.len() - cut == 16,
                        self@ == AbiVal::Uint(w@),
                        i <= cut,
                        forall|j: int| 0 <= j < i ==> w@[j] == 0,
                    decreases cut - i,
                {
                    if w[i] != 0 {
                        proof {
                            lemma_be_nat_nonzero(w@, i as int);
                            lemma_pow256_le(16, (w@.len() - 1 - i) as nat);
                            assert(pow256(16) == 0x100000000000000000000000000000000) by {
                                reveal_with_fuel(pow256, 17);
                            }
                        }
                        return Err(DecodeError::Range);
                    }
                    i = i + 1;
                }
                proof {
                    lemma_be_nat_skip_zeros(w@, cut as int);
                    lemma_be_nat_bound(w@.subrange(cut as int, w@.len() as int));
                    lemma_pow256_le((w@.len() - cut) as nat, 16);
                    assert(pow256(16) == 0x100000000000000000000000000000000) by {
                        reveal_with_fuel(pow256, 17);
                    }
                }
                Ok(fold_be_u128(w, cut))
            },
            _ => Err(DecodeError::Type),
        }
    }

    /// The address, if this parameter is one.
    pub fn to_address(&self) -> (r: Result<Address, DecodeError>)
        ensures
            match self@ {
                AbiVal::Address(a) => r matches Ok(out) && out@ == a,
                _ => r == Err::<Address, DecodeError>(DecodeError::Type),
            },
    {
        match self {
            AbiValue::Address(a) => Ok(a.dup()),
            _ => Err(DecodeError::Type),
        }
    }

    /// The boolean, if this parameter is one.
    pub fn to_bool(&self) -> (r: Result<bool, DecodeError>)
        ensures
            match self@ {
                AbiVal::Bool(b) => r == Ok::<bool, DecodeError>(b),
                _ => r == Err::<bool, DecodeError>(DecodeError::Type),
            },
    {
        match self {
            AbiValue::Bool(b) => Ok(*b),
            _ => Err(DecodeError::Type),
        }
    }
}

/// Fold the trailing bytes of a word into a `u128`, after the leading bytes
/// have been checked to be zero.
fn fold_be_u128(w: &Vec<u8>, cut: usize) -> (v: u128)
    requires
        cut <= w@.len(),
        w@.len() - cut <= 16,
    ensures
        v == be_nat(w@.subrange(cut as int, w@.len() as int)),
{
    let mut v: u128 = 0;
    let mut i: usize = cut;
    proof {
        assert(w@.subrange(cut as int, cut as int) =~= Seq::<u8>::empty());
    }
    while i < w.len()
        invariant
            cut <= i <= w@.len(),
            w@.len() - cut <= 16,
            v == be_nat(w@.subrange(cut as int, i as int)),
            v < pow256((i - cut) as nat),
        decreases w@.len() - i,
    {
        proof {
            lemma_pow256_le((i - cut) as nat, 15);
            assert(pow256(15) == 0x1000000000000000000000000000000) by {
                reveal_with_fuel(pow256, 16);
            }
            assert(w@.subrange(cut as int, i as int + 1).drop_last()
                =~= w@.subrange(cut as int, i as int));
            assert(w@.subrange(cut as int, i as int + 1).last() == w@[i as int]);
        }
        v = v * 256 + (w[i] as u128);
        i = i + 1;
    }
    v
}

} // verus!

verus! {

/// How many of the first `i` parameters are indexed.
pub open spec fn indexed_upto(params: Seq<EventParam>, i: int) -> int
    decreases i,
{
    if i <= 0 {
        0
    } else {
        indexed_upto(params, i - 1) + if params[i - 1].indexed { 1int } else { 0int }
    }
}

/// The indexed count grows by at most one per parameter.
pub proof fn lemma_indexed_upto_mono(params: Seq<EventParam>, i: int, j: int)
    requires
        0 <= i <= j,
    ensures
        indexed_upto(params, i) <= indexed_upto(params, j),
        indexed_upto(params, j) - indexed_upto(params, i) <= j - i,
    decreases j,
{
    if i < j {
        lemma_indexed_upto_mono(params, i, j - 1);
    }
}

/// The indexed count among the first `i` parameters lies between 0 and `i`.
pub proof fn lemma_indexed_upto_bound(params: Seq<EventParam>, i: int)
    requires
        0 <= i,
    ensures
        0 <= indexed_upto(params, i) <= i,
{
    lemma_indexed_upto_mono(params, 0, i);
}

/// The `j`-th 32-byte word of a byte sequence.
pub open spec fn word_at(data: Seq<u8>, j: int) -> Seq<u8> {
    data.subrange(32 * j, 32 * j + 32)
}

/// Whether a word is a valid encoding for a static parameter type.
pub open spec fn word_ok(kind: ParamKind, w: Seq<u8>) -> bool {
    match kind {
        ParamKind::Uint => true,
        ParamKind::Address => true,
        ParamKind::Bool => (forall|i: int| 0 <= i < 31 ==> w[i] == 0) && (w[31] == 0 || w[31] == 1),
    }
}

/// The decoded value of a static parameter word.
pub open spec fn word_val(kind: ParamKind, w: Seq<u8>) -> AbiVal {
    match kind {
        ParamKind::Uint => AbiVal::Uint(w),
        ParamKind::Address => AbiVal::Address(w.subrange(12, 32)),
        ParamKind::Bool => AbiVal::Bool(w[31] == 1),
    }
}

/// The word that carries event parameter `i`: a topic when indexed, a data
/// word otherwise.
pub open spec fn event_word(schema: EventSchema, raw: RawLog, i: int) -> Seq<u8> {
    if schema.params@[i].indexed {
        raw.topics@[1 + indexed_upto(schema.params@, i)]@
    } else {
        word_at(raw.data@, i - indexed_upto(schema.params@, i))
    }
}

/// The log has the right number of topics, the event's signature in
/// `topics[0]`, 32-byte topic words, and exactly one data word per
/// non-indexed parameter.
pub open spec fn event_shape_ok(schema: EventSchema, raw: RawLog) -> bool {
    let n = schema.params@.len() as int;
    &&& raw.topics@.len() == 1 + indexed_upto(schema.params@, n)
    &&& raw.topics@[0]@ == schema.topic@
    &&& forall|i: int| 0 <= i < raw.topics@.len() ==> (#[trigger] raw.topics@[i])@.len() == 32
    &&& raw.data@.len() == 32 * (n - indexed_upto(schema.params@, n))
}

/// Every parameter's word is a valid encoding of its type.
pub open spec fn event_words_ok(schema: EventSchema, raw: RawLog) -> bool {
    forall|i: int| 0 <= i < schema.params@.len()
        ==> word_ok(schema.params@[i].kind, #[trigger] event_word(schema, raw, i))
}

/// The log matches the event's shape.
pub open spec fn event_matches(schema: EventSchema, raw: RawLog) -> bool {
    event_shape_ok(schema, raw) && event_words_ok(schema, raw)
}

/// The decoded parameters, in declaration order.
pub open spec fn event_params_val(schema: EventSchema, raw: RawLog) -> Seq<AbiVal> {
    Seq::new(
        schema.params@.len(),
        |i: int| word_val(schema.params@[i].kind, event_word(schema, raw, i)),
    )
}

/// Decode a raw log against one event shape.  Succeeds exactly when the log
/// matches; a mismatched shape is `Shape`, an invalid word is `Value`.
pub fn decode_event(schema: &EventSchema, raw: &RawLog) -> (r: Result<Vec<AbiValue>, DecodeError>)
    ensures
        r is Ok <==> event_matches(*schema, *raw),
        r matches Ok(vals) ==> vals@.map_values(|v: AbiValue| v@) == event_params_val(*schema, *raw),
        !event_shape_ok(*schema, *raw)
            ==> r == Err::<Vec<AbiValue>, DecodeError>(DecodeError::Shape),
        event_shape_ok(*schema, *raw) && !event_words_ok(*schema, *raw)
            ==> r == Err::<Vec<AbiValue>, DecodeError>(DecodeError::Value),
{
    let n = schema.params.len();
    let n_topics = raw.topics.len();
    let n_data = raw.data.len();

    let mut n_idx: usize = 0;
    let mut k: usize = 0;
    while k < n
        invariant
            k <= n,
            n == schema.params@.len(),
            n_idx == indexed_upto(schema.params@, k as int),
            n_idx <= k,
        decreases n - k,
    {
        if schema.params[k].indexed {
            n_idx = n_idx + 1;
        }
        k = k + 1;
    }

    if n_topics == 0 || n_topics - 1 != n_idx {
        return Err(DecodeError::Shape);
    }
    if !(raw.topics[0] == schema.topic) {
        proof {
            if raw.topics@[0]@ == schema.topic@ {
                assert(raw.topics@[0]@.len() == schema.topic@.len());
            }
        }
        return Err(DecodeError::Shape);
    }
    proof {
        assert(raw.topics@[0]@ =~= schema.topic@);
    }
    let mut k: usize = 0;
    while k < n_topics
        invariant
            k <= n_topics,
            n_topics == raw.topics@.len(),
            forall|i: int| 0 <= i < k ==> (#[trigger] raw.topics@[i])@.len() == 32,
        decreases n_topics - k,
    {
        if raw.topics[k].len() != 32 {
            return Err(DecodeError::Shape);
        }
        k = k + 1;
    }
    let n_non = n - n_idx;
    if n_data % 32 != 0 || n_data / 32 != n_non {
        proof {
            vstd::arithmetic::div_mod::lemma_fundamental_div_mod(n_data as int, 32);
            if raw.data@.len() == 32 * (n_non as int) {
                vstd::arithmetic::div_mod::lemma_div_multiples_vanish(n_non as int, 32);
                vstd::arithmetic::div_mod::lemma_mod_multiples_basic(n_non as int, 32);
            }
        }
        return Err(DecodeError::Shape);
    }
    proof {
        vstd::arithmetic::div_mod::lemma_fundamental_div_mod(n_data as int, 32);
    }

    let mut vals: Vec<AbiValue> = Vec::new();
    let mut i: usize = 0;
    let mut i_idx: usize = 0;
    while i < n
        invariant
            n == schema.params@.len(),
            n_topics == raw.topics@.len(),
            n_data == raw.data@.len(),
            n_idx == indexed_upto(schema.params@, n as int),
            n_topics == 1 + n_idx,
            n_data == 32 * (n - n_idx),
            event_shape_ok(*schema, *raw),
            i <= n,
            i_idx == indexed_upto(schema.params@, i as int),
            i_idx <= i,
            i_idx <= n_idx,
            vals@.len() == i,
            forall|j: int| 0 <= j < i
                ==> word_ok(schema.params@[j].kind, #[trigger] event_word(*schema, *raw, j)),
            forall|j: int| 0 <= j < i
                ==> (#[trigger] vals@[j])@ == word_val(
                    schema.params@[j].kind, event_word(*schema, *raw, j)),
        decreases n - i,
    {
        let p = schema.params[i];
        proof {
            lemma_indexed_upto_mono(schema.params@, i as int + 1, n as int);
        }
        let w: Vec<u8> = if p.indexed {
            copy_bytes(&raw.topics[1 + i_idx], 0, 32)
        } else {
            copy_bytes(&raw.data, 32 * (i - i_idx), 32)
        };
        proof {
            assert(w@ =~= event_word(*schema, *raw, i as int));
        }
        let val = match p.kind {
            ParamKind::Uint => AbiValue::Uint(w),
            ParamKind::Address => AbiValue::Address(Address { bytes: copy_bytes(&w, 12, 20) }),
            ParamKind::Bool => {
                let mut z: usize = 0;
                let mut nonzero = false;
                while z < 31
                    invariant
                        z <= 31,
                        w@.len() == 32,
                        nonzero <==> exists|t: int| 0 <= t < z && w@[t] != 0,
                    decreases 31 - z,
                {
                    if w[z] != 0 {
                        nonzero = true;
                        assert(w@[z as int] != 0);
                    }
                    z = z + 1;
                }
                if nonzero || w[31] > 1 {
                    proof {
                        assert(!word_ok(p.kind, event_word(*schema, *raw, i as int)));
                    }
                    return Err(DecodeError::Value);
                }
                AbiValue::Bool(w[31] == 1)
            },
        };
        vals.push(val);
        if p.indexed {
            i_idx = i_idx + 1;
        }
        i = i + 1;
    }
    proof {
        assert(vals@.map_values(|v: AbiValue| v@) =~= event_params_val(*schema, *raw));
    }
    Ok(vals)
}

} // verus!

verus! {

/// The input holds at least one head word per parameter.
pub open spec fn call_shape_ok(schema: FunctionSchema, input: Seq<u8>) -> bool {
    input.len() >= 32 * schema.params@.len()
}

/// Whether a head word is a valid encoding for a call parameter type.  A
/// dynamic parameter's head word is an in-range offset into the input.
pub open spec fn call_word_ok(kind: CallKind, w: Seq<u8>, input_len: int) -> bool {
    match kind {
        CallKind::Uint => true,
        CallKind::Address => true,
        CallKind::Bool => (forall|i: int| 0 <= i < 31 ==> w[i] == 0) && (w[31] == 0 || w[31] == 1),
        CallKind::Dynamic => (forall|i: int| 0 <= i < 24 ==> w[i] == 0)
            && be_nat(w.subrange(24, 32)) <= input_len,
    }
}

/// The decoded value of a call head word.
pub open spec fn call_word_val(kind: CallKind, w: Seq<u8>) -> AbiVal {
    match kind {
        CallKind::Uint => AbiVal::Uint(w),
        CallKind::Address => AbiVal::Address(w.subrange(12, 32)),
        CallKind::Bool => AbiVal::Bool(w[31] == 1),
        CallKind::Dynamic => AbiVal::Dynamic(be_nat(w.subrange(24, 32)) as u64),
    }
}

/// Every head word is a valid encoding of its parameter's type.
pub open spec fn call_words_ok(schema: FunctionSchema, input: Seq<u8>) -> bool {
    forall|i: int| 0 <= i < schema.params@.len()
        ==> call_word_ok(schema.params@[i], #[trigger] word_at(input, i), input.len() as int)
}

/// The input matches the function's shape.
pub open spec fn call_matches(schema: FunctionSchema, input: Seq<u8>) -> bool {
    call_shape_ok(schema, input) && call_words_ok(schema, input)
}

/// The decoded head parameters, in declaration order.
pub open spec fn call_params_val(schema: FunctionSchema, input: Seq<u8>) -> Seq<AbiVal> {
    Seq::new(
        schema.params@.len(),
        |i: int| call_word_val(schema.params@[i], word_at(input, i)),
    )
}

/// Decode a call input (selector already stripped) against one function
/// shape.  Succeeds exactly when the input matches; an input too short for
/// the head is `Shape`, an invalid head word is `Value`.
pub fn decode_call(schema: &FunctionSchema, input: &Vec<u8>) -> (r: Result<
    Vec<AbiValue>,
    DecodeError,
>)
    ensures
        r is Ok <==> call_matches(*schema, input@),
        r matches Ok(vals) ==> vals@.map_values(|v: AbiValue| v@)
            == call_params_val(*schema, input@),
        !call_shape_ok(*schema, input@)
            ==> r == Err::<Vec<AbiValue>, DecodeError>(DecodeError::Shape),
        call_shape_ok(*schema, input@) && !call_words_ok(*schema, input@)
            ==> r == Err::<Vec<AbiValue>, DecodeError>(DecodeError::Value),
{
    let n = schema.params.len();
    let n_input = input.len();
    let need = match n.checked_mul(32) {
        Some(need) => need,
        None => {
            return Err(DecodeError::Shape);
        },
    };
    if n_input < need {
        return Err(DecodeError::Shape);
    }

    let mut vals: Vec<AbiValue> = Vec::new();
    let mut i: usize = 0;
    while i < n
        invariant
            n == schema.params@.len(),
            n_input == input@.len(),
            n_input >= 32 * n,
            i <= n,
            vals@.len() == i,
            forall|j: int| 0 <= j < i
                ==> call_word_ok(schema.params@[j], #[trigger] word_at(input@, j),
                    input@.len() as int),
            forall|j: int| 0 <= j < i
                ==> (#[trigger] vals@[j])@ == call_word_val(
                    schema.params@[j], word_at(input@, j)),
        decreases n - i,
    {
        let kind = schema.params[i];
        let w: Vec<u8> = copy_bytes(input, 32 * i, 32);
        proof {
            assert(w@ =~= word_at(input@, i as int));
        }
        let val = match kind {
            CallKind::Uint => AbiValue::Uint(w),
            CallKind::Address => AbiValue::Address(Address { bytes: copy_bytes(&w, 12, 20) }),
            CallKind::Bool => {
                let mut z: usize = 0;
                let mut nonzero = false;
                while z < 31
                    invariant
                        z <= 31,
                        w@.len() == 32,
                        nonzero <==> exists|t: int| 0 <= t < z && w@[t] != 0,
                    decreases 31 - z,
                {
                    if w[z] != 0 {
                        nonzero = true;
                        assert(w@[z as int] != 0);
                    }
                    z = z + 1;
                }
                if nonzero || w[31] > 1 {
                    proof {
                        assert(!call_word_ok(kind, word_at(input@, i as int),
                            input@.len() as int));
                    }
                    return Err(DecodeError::Value);
                }
                AbiValue::Bool(w[31] == 1)
            },
            CallKind::Dynamic => {
                let mut z: usize = 0;
                let mut nonzero = false;
                while z < 24
                    invariant
                        z <= 24,
                        w@.len() == 32,
                        nonzero <==> exists|t: int| 0 <= t < z && w@[t] != 0,
                    decreases 24 - z,
                {
                    if w[z] != 0 {
                        nonzero = true;
                        assert(w@[z as int] != 0);
                    }
                    z = z + 1;
                }
                if nonzero {
                    proof {
                        assert(!call_word_ok(kind, word_at(input@, i as int),
                            input@.len() as int));
                    }
                    return Err(DecodeError::Value);
                }
                let off = fold_be_u64(&w, 24);
                proof {
                    lemma_be_nat_bound(w@.subrange(24, 32));
                    lemma_pow256_le(8, 8);
                    assert(pow256(8) == 0x10000000000000000) by {
                        reveal_with_fuel(pow256, 9);
                    }
                }
                if !(off <= n_input as u64) {
                    proof {
                        assert(!call_word_ok(kind, word_at(input@, i as int),
                            input@.len() as int));
                    }
                    return Err(DecodeError::Value);
                }
                AbiValue::Dynamic(off)
            },
        };
        vals.push(val);
        i = i + 1;
    }
    proof {
        assert(vals@.map_values(|v: AbiValue| v@) =~= call_params_val(*schema, input@));
    }
    Ok(vals)
}

} // verus!
