//! The eight-byte fixed-width counter: a big-endian byte identifier carrying
//! an optional namespace prefix and a creation timestamp, with carry-chain
//! increment, borrow-chain decrement, numeric projection, distance, and the
//! canonical text codec.

use crate::codec::{
    dec_digits, decode_groups, encode_groups, encode_groups_string, find_colon, first_colon,
    lemma_dec_digits_val, lemma_digits_not_colon, lemma_encode_groups_props,
    lemma_first_colon_is, lemma_seg_round_trip, lex_lt_chars, seg_bytes, seg_ok, u64_dec_string,
    DecodeError,
};
use crate::numeric::{
    bytes_eq, bytes_lt, bytes_to_u128, copy_bytes, dec_bytes, dec_bytes_n, filled_bytes,
    inc_bytes, inc_bytes_n, lex_lt, lemma_lex_order, maxes, pred_bytes, succ_bytes, to_nat, zeros,
};
use crate::timestamp::{ts_of_text, Timestamp};
use vstd::prelude::*;

verus! {

/// The byte width of this counter: eight bytes, the width of a `u64`.
pub const IDENTIFIER_SIZE: usize = 8;

/// The mathematical content of a counter: the prefix text, the timestamp
/// seconds, the byte sequence, and the validity flag.
#[verifier::ext_equal]
pub ghost struct CounterModel {
    pub prefix: Option<Seq<char>>,
    pub timestamp: u64,
    pub bytes: Seq<u8>,
    pub valid: bool,
}

/// Order on optional prefixes: absent before present, present prefixes by
/// code point.
pub open spec fn prefix_lt(a: Option<Seq<char>>, b: Option<Seq<char>>) -> bool {
    match (a, b) {
        (Option::None, Option::Some(_)) => true,
        (Option::Some(x), Option::Some(y)) => lex_lt_chars(x, y),
        _ => false,
    }
}

/// The natural order of counters: lexicographic over prefix, then timestamp,
/// then the bytes. The validity flag has no part in it.
pub open spec fn counter_lt(a: CounterModel, b: CounterModel) -> bool {
    if a.prefix != b.prefix {
        prefix_lt(a.prefix, b.prefix)
    } else if a.timestamp != b.timestamp {
        a.timestamp < b.timestamp
    } else {
        lex_lt(a.bytes, b.bytes)
    }
}

/// An eight-byte big-endian counter with an optional namespace prefix and a
/// creation timestamp; `valid` is false only on a value recovered from
/// malformed text.
#[derive(Debug)]
pub struct ByteCounter {
    pub prefix: Option<String>,
    pub timestamp: Timestamp,
    pub id: Vec<u8>,
    pub valid: bool,
}

impl ByteCounter {
    /// The mathematical content of this counter.
    pub open spec fn model(&self) -> CounterModel {
        CounterModel {
            prefix: match self.prefix {
                Option::Some(p) => Option::Some(p@),
                Option::None => Option::None,
            },
            timestamp: self.timestamp.0,
            bytes: self.id@,
            valid: self.valid,
        }
    }

    /// Well-formed: the byte sequence has exactly the fixed width.
    pub open spec fn wf(&self) -> bool {
        self.id@.len() == IDENTIFIER_SIZE
    }

    /// The all-zero counter without a prefix, stamped now.
    pub fn new() -> (r: Self)
        ensures
            r.wf(),
            r.model().prefix is None,
            r.model().bytes == zeros(IDENTIFIER_SIZE as nat),
            r.model().valid,
    {
        let r = ByteCounter {
            prefix: None,
            timestamp: Timestamp::new(),
            id: filled_bytes(IDENTIFIER_SIZE, 0),
            valid: true,
        };
        proof {
            assert(r.id@ =~= zeros(IDENTIFIER_SIZE as nat));
        }
        r
    }

    /// The all-zero counter under the given prefix, stamped now.
    pub fn new_with_prefix(prefix: String) -> (r: Self)
        ensures
            r.wf(),
            r.model().prefix == Some(prefix@),
            r.model().bytes == zeros(IDENTIFIER_SIZE as nat),
            r.model().valid,
    {
        let r = ByteCounter {
            prefix: Some(prefix),
            timestamp: Timestamp::new(),
            id: filled_bytes(IDENTIFIER_SIZE, 0),
            valid: true,
        };
        proof {
            assert(r.id@ =~= zeros(IDENTIFIER_SIZE as nat));
        }
        r
    }

    /// The all-0xFF counter without a prefix, stamped now.
    pub fn max() -> (r: Self)
        ensures
            r.wf(),
            r.model().prefix is None,
            r.model().bytes == maxes(IDENTIFIER_SIZE as nat),
            r.model().valid,
    {
        let r = ByteCounter {
            prefix: None,
            timestamp: Timestamp::new(),
            id: filled_bytes(IDENTIFIER_SIZE, 255),
            valid: true,
        };
        proof {
            assert(r.id@ =~= maxes(IDENTIFIER_SIZE as nat));
        }
        r
    }

    /// The all-0xFF counter under the given prefix, stamped now.
    pub fn max_with_prefix(prefix: String) -> (r: Self)
        ensures
            r.wf(),
            r.model().prefix == Some(prefix@),
            r.model().bytes == maxes(IDENTIFIER_SIZE as nat),
            r.model().valid,
    {
        let r = ByteCounter {
            prefix: Some(prefix),
            timestamp: Timestamp::new(),
            id: filled_bytes(IDENTIFIER_SIZE, 255),
            valid: true,
        };
        proof {
            assert(r.id@ =~= maxes(IDENTIFIER_SIZE as nat));
        }
        r
    }

    /// This counter restamped with the given timestamp; bytes, prefix and
    /// validity are untouched. Together with `next_at` and `prev_at` this
    /// lets a caller supply the clock explicitly.
    pub fn with_timestamp(&self, ts: Timestamp) -> (r: Self)
        ensures
            r.model() == (CounterModel { timestamp: ts.0, ..self.model() }),
            r.wf() == self.wf(),
    {
        ByteCounter {
            prefix: clone_prefix(&self.prefix),
            timestamp: ts,
            id: copy_bytes(&self.id),
            valid: self.valid,
        }
    }

    /// The bytes of the identifier, most significant first.
    pub fn raw_value(&self) -> (r: &[u8])
        ensures
            r@ == self.model().bytes,
    {
        self.id.as_slice()
    }

    /// A copy of the identifier bytes, most significant first.
    pub fn to_vec(&self) -> (r: Vec<u8>)
        ensures
            r@ == self.model().bytes,
    {
        copy_bytes(&self.id)
    }

    /// The successor stamped with the given timestamp: the bytes plus one,
    /// wrapping to all-zero past the all-0xFF maximum.
    pub fn next_at(&self, ts: Timestamp) -> (r: Self)
        ensures
            r.model().bytes == inc_bytes(self.model().bytes),
            r.model().prefix == self.model().prefix,
            r.model().timestamp == ts.0,
            r.model().valid,
            self.wf() ==> r.wf(),
    {
        proof {
            crate::numeric::lemma_inc_len(self.id@);
        }
        ByteCounter {
            prefix: clone_prefix(&self.prefix),
            timestamp: ts,
            id: succ_bytes(&self.id),
            valid: true,
        }
    }

    /// The successor, stamped now: the timestamp is recomputed at every
    /// increment, not inherited.
    pub fn next_id(&self) -> (r: Self)
        ensures
            r.model().bytes == inc_bytes(self.model().bytes),
            r.model().prefix == self.model().prefix,
            r.model().valid,
            self.wf() ==> r.wf(),
    {
        self.next_at(Timestamp::new())
    }

    /// The predecessor stamped with the given timestamp: the bytes minus one,
    /// wrapping to all-0xFF past the all-zero minimum.
    pub fn prev_at(&self, ts: Timestamp) -> (r: Self)
        ensures
            r.model().bytes == dec_bytes(self.model().bytes),
            r.model().prefix == self.model().prefix,
            r.model().timestamp == ts.0,
            r.model().valid,
            self.wf() ==> r.wf(),
    {
        proof {
            crate::numeric::lemma_dec_len(self.id@);
        }
        ByteCounter {
            prefix: clone_prefix(&self.prefix),
            timestamp: ts,
            id: pred_bytes(&self.id),
            valid: true,
        }
    }

    /// The predecessor, stamped now.
    pub fn prev_id(&self) -> (r: Self)
        ensures
            r.model().bytes == dec_bytes(self.model().bytes),
            r.model().prefix == self.model().prefix,
            r.model().valid,
            self.wf() ==> r.wf(),
    {
        self.prev_at(Timestamp::new())
    }

    /// The positional base-256 value of the bytes.
    pub fn to_u128(&self) -> (r: u128)
        requires
            self.wf(),
        ensures
            r as nat == to_nat(self.model().bytes),
    {
        bytes_to_u128(&self.id)
    }

    /// The absolute difference of the two numeric projections.
    pub fn distance(&self, other: &ByteCounter) -> (r: u128)
        requires
            self.wf(),
            other.wf(),
        ensures
            to_nat(self.model().bytes) >= to_nat(other.model().bytes) ==> r as nat == to_nat(
                self.model().bytes,
            ) - to_nat(other.model().bytes),
            to_nat(self.model().bytes) < to_nat(other.model().bytes) ==> r as nat == to_nat(
                other.model().bytes,
            ) - to_nat(self.model().bytes),
    {
        let lhs = self.to_u128();
        let rhs = other.to_u128();
        if lhs < rhs {
            rhs - lhs
        } else {
            lhs - rhs
        }
    }

    /// How many forward steps lead from `start` to `end`: the difference of
    /// the numeric projections, when it fits a `usize`. `end` must not be
    /// numerically below `start`.
    pub fn steps_between(start: &Self, end: &Self) -> (r: Option<usize>)
        requires
            start.wf(),
            end.wf(),
            to_nat(start.model().bytes) <= to_nat(end.model().bytes),
        ensures
            r is Some <==> to_nat(end.model().bytes) - to_nat(start.model().bytes) <= usize::MAX,
            r is Some ==> r.unwrap() as nat == to_nat(end.model().bytes) - to_nat(
                start.model().bytes,
            ),
    {
        let diff = end.to_u128() - start.to_u128();
        if diff > usize::MAX as u128 {
            None
        } else {
            Some(diff as usize)
        }
    }

    /// `count` forward steps from `start`, each stamped now; byte arithmetic
    /// wraps silently, so this always produces a counter.
    pub fn forward_checked(start: Self, count: usize) -> (r: Option<Self>)
        requires
            start.wf(),
        ensures
            r is Some,
            r.unwrap().wf(),
            r.unwrap().model().bytes == inc_bytes_n(start.model().bytes, count as nat),
            r.unwrap().model().prefix == start.model().prefix,
            count == 0 ==> r.unwrap().model() == start.model(),
    {
        let ghost start_model = start.model();
        let mut result = start;
        let mut i: usize = 0;
        while i < count
            invariant
                i <= count,
                result.wf(),
                result.model().bytes == inc_bytes_n(start_model.bytes, i as nat),
                result.model().prefix == start_model.prefix,
                i == 0 ==> result.model() == start_model,
            decreases count - i,
        {
            result = result.next_id();
            i += 1;
        }
        Some(result)
    }

    /// `count` backward steps from `start`, each stamped now; byte arithmetic
    /// wraps silently, so this always produces a counter.
    pub fn backward_checked(start: Self, count: usize) -> (r: Option<Self>)
        requires
            start.wf(),
        ensures
            r is Some,
            r.unwrap().wf(),
            r.unwrap().model().bytes == dec_bytes_n(start.model().bytes, count as nat),
            r.unwrap().model().prefix == start.model().prefix,
            count == 0 ==> r.unwrap().model() == start.model(),
    {
        let ghost start_model = start.model();
        let mut result = start;
        let mut i: usize = 0;
        while i < count
            invariant
                i <= count,
                result.wf(),
                result.model().bytes == dec_bytes_n(start_model.bytes, i as nat),
                result.model().prefix == start_model.prefix,
                i == 0 ==> result.model() == start_model,
            decreases count - i,
        {
            result = result.prev_id();
            i += 1;
        }
        Some(result)
    }

    /// Whether this counter comes strictly before `other` in the natural
    /// order over prefix, timestamp, and bytes.
    pub fn lt(&self, other: &ByteCounter) -> (r: bool)
        requires
            self.wf(),
            other.wf(),
        ensures
            r == counter_lt(self.model(), other.model()),
    {
        match &self.prefix {
            None => {
                match &other.prefix {
                    None => self.lt_same_prefix(other),
                    Some(_) => true,
                }
            },
            Some(a) => {
                match &other.prefix {
                    None => false,
                    Some(b) => {
                        if a.eq(b) {
                            self.lt_same_prefix(other)
                        } else {
                            crate::codec::str_lt(a.as_str(), b.as_str())
                        }
                    },
                }
            },
        }
    }

    /// The order once the prefixes are known equal: timestamp, then bytes.
    fn lt_same_prefix(&self, other: &ByteCounter) -> (r: bool)
        requires
            self.wf(),
            other.wf(),
            self.model().prefix == other.model().prefix,
        ensures
            r == counter_lt(self.model(), other.model()),
    {
        let t1 = self.timestamp.value();
        let t2 = other.timestamp.value();
        if t1 != t2 {
            t1 < t2
        } else {
            bytes_lt(&self.id, &other.id)
        }
    }
}

/// A copy of an optional prefix.
fn clone_prefix(p: &Option<String>) -> (r: Option<String>)
    ensures
        r == *p,
{
    match p {
        Some(s) => Some(s.clone()),
        None => None,
    }
}

impl Clone for ByteCounter {
    /// An equal counter: every field is copied, the timestamp included.
    fn clone(&self) -> (r: Self)
        ensures
            r.model() == self.model(),
            r.wf() == self.wf(),
    {
        ByteCounter {
            prefix: clone_prefix(&self.prefix),
            timestamp: self.timestamp,
            id: copy_bytes(&self.id),
            valid: self.valid,
        }
    }
}

impl Default for ByteCounter {
    /// The all-zero counter without a prefix, stamped now.
    fn default() -> (r: Self)
        ensures
            r.wf(),
            r.model().prefix is None,
            r.model().bytes == zeros(IDENTIFIER_SIZE as nat),
            r.model().valid,
    {
        ByteCounter::new()
    }
}

impl vstd::std_specs::cmp::PartialEqSpecImpl for ByteCounter {
    open spec fn obeys_eq_spec() -> bool {
        true
    }

    open spec fn eq_spec(&self, other: &ByteCounter) -> bool {
        self.model().prefix == other.model().prefix && self.model().timestamp
            == other.model().timestamp && self.model().bytes == other.model().bytes
    }
}

impl PartialEq for ByteCounter {
    /// Equal content: prefix, timestamp and bytes; the validity flag has no
    /// part in equality.
    fn eq(&self, other: &ByteCounter) -> (r: bool) {
        let prefixes_equal = match &self.prefix {
            None => matches!(&other.prefix, None),
            Some(a) => {
                match &other.prefix {
                    None => false,
                    Some(b) => a.eq(b),
                }
            },
        };
        prefixes_equal && self.timestamp.value() == other.timestamp.value() && bytes_eq(
            &self.id,
            &other.id,
        )
    }
}

/// The canonical text of a counter: `prefix:timestamp:segment` with a prefix,
/// `timestamp:segment` without one; the segment is three decimal digits per
/// byte.
pub open spec fn encode_counter(m: CounterModel) -> Seq<char> {
    match m.prefix {
        Option::Some(p) => p + seq![':'] + dec_digits(m.timestamp as nat) + seq![':']
            + encode_groups(m.bytes),
        Option::None => dec_digits(m.timestamp as nat) + seq![':'] + encode_groups(m.bytes),
    }
}

/// The soft-failure value: all-zero bytes, no prefix, timestamp zero, and the
/// validity flag down.
pub open spec fn invalid_counter() -> CounterModel {
    CounterModel { prefix: None, timestamp: 0, bytes: zeros(IDENTIFIER_SIZE as nat), valid: false }
}

/// The counter recovered from split fields: the segment must decode, the
/// timestamp text parses (zero on failure), and the value is valid exactly
/// when the timestamp is nonzero.
pub open spec fn decoded_fields(prefix: Option<Seq<char>>, ts: Seq<char>, seg: Seq<char>) -> Result<
    CounterModel,
    DecodeError,
> {
    if seg_ok(seg, IDENTIFIER_SIZE as nat) {
        Ok(
            CounterModel {
                prefix: prefix,
                timestamp: ts_of_text(ts),
                bytes: seg_bytes(seg, IDENTIFIER_SIZE as nat),
                valid: ts_of_text(ts) != 0,
            },
        )
    } else {
        Err(DecodeError::InvalidGroup)
    }
}

/// What decoding a key yields: split on `':'`, a two-part key is
/// `timestamp:segment`, a three-part key is `prefix:timestamp:segment`, and
/// any other shape is the soft-invalid counter.
pub open spec fn decode_counter(s: Seq<char>) -> Result<CounterModel, DecodeError> {
    let i = first_colon(s, 0);
    if i == s.len() {
        Ok(invalid_counter())
    } else {
        let j = first_colon(s, i + 1);
        if j == s.len() {
            decoded_fields(None, s.subrange(0, i as int), s.skip(i as int + 1))
        } else {
            let k = first_colon(s, j + 1);
            if k == s.len() {
                decoded_fields(
                    Some(s.subrange(0, i as int)),
                    s.subrange(i as int + 1, j as int),
                    s.skip(j as int + 1),
                )
            } else {
                Ok(invalid_counter())
            }
        }
    }
}

impl ByteCounter {
    /// Decodes a bare segment: the text is normalized to eight groups (short
    /// input gains leading zeros, long input loses leading groups), and each
    /// group must be three decimal digits valued at most 255. The result has
    /// no prefix and a fresh timestamp.
    pub fn decode_bytes(str_bytes: &str) -> (r: Result<Self, DecodeError>)
        ensures
            r is Ok <==> seg_ok(str_bytes@, IDENTIFIER_SIZE as nat),
            r is Ok ==> r.unwrap().wf(),
            r is Ok ==> r.unwrap().model().prefix is None,
            r is Ok ==> r.unwrap().model().bytes == seg_bytes(str_bytes@, IDENTIFIER_SIZE as nat),
            r is Ok ==> r.unwrap().model().valid,
            r is Err ==> r.unwrap_err() == DecodeError::InvalidGroup,
    {
        match decode_groups(str_bytes, IDENTIFIER_SIZE) {
            Ok(bytes) => Ok(
                ByteCounter { prefix: None, timestamp: Timestamp::new(), id: bytes, valid: true },
            ),
            Err(e) => Err(e),
        }
    }

    /// The canonical text of this counter: `prefix:timestamp:segment` with a
    /// prefix, `timestamp:segment` without one.
    pub fn to_string(&self) -> (r: String)
        requires
            self.wf(),
        ensures
            r@ == encode_counter(self.model()),
    {
        proof {
            reveal_strlit(":");
        }
        let seg = encode_groups_string(&self.id);
        let ts = u64_dec_string(self.timestamp.value());
        match &self.prefix {
            Some(p) => {
                let mut out = p.clone();
                out.append(":");
                out.append(ts.as_str());
                out.append(":");
                out.append(seg.as_str());
                proof {
                    assert(out@ =~= encode_counter(self.model()));
                }
                out
            },
            None => {
                let mut out = ts;
                out.append(":");
                out.append(seg.as_str());
                proof {
                    assert(out@ =~= encode_counter(self.model()));
                }
                out
            },
        }
    }

    /// The counter built from split fields: segment bytes, parsed timestamp,
    /// and validity down when the timestamp text did not parse to a nonzero
    /// number.
    fn from_fields(prefix: Option<String>, ts: &str, seg: &str) -> (r: Result<Self, DecodeError>)
        ensures
            r is Ok <==> decoded_fields(prefix_view(prefix), ts@, seg@) is Ok,
            r is Ok ==> r.unwrap().wf() && r.unwrap().model() == decoded_fields(
                prefix_view(prefix),
                ts@,
                seg@,
            )->Ok_0,
            r is Err ==> r.unwrap_err() == decoded_fields(prefix_view(prefix), ts@, seg@)->Err_0,
    {
        match decode_groups(seg, IDENTIFIER_SIZE) {
            Ok(bytes) => {
                let t = Timestamp::parse(ts);
                let valid = t.value() != 0;
                Ok(ByteCounter { prefix, timestamp: t, id: bytes, valid })
            },
            Err(e) => Err(e),
        }
    }

    /// Decodes a full key. A two-part key is `timestamp:segment`, a
    /// three-part key is `prefix:timestamp:segment`; any other shape yields
    /// the soft-invalid counter, and a malformed segment group is the hard
    /// error.
    pub fn decode(key: &str) -> (r: Result<Self, DecodeError>)
        ensures
            r is Ok <==> decode_counter(key@) is Ok,
            r is Ok ==> r.unwrap().wf() && r.unwrap().model() == decode_counter(key@)->Ok_0,
            r is Err ==> r.unwrap_err() == decode_counter(key@)->Err_0,
    {
        let n = key.unicode_len();
        let i = find_colon(key, 0);
        if i == n {
            return Ok(Self::soft_invalid());
        }
        let j = find_colon(key, i + 1);
        if j == n {
            let ts = key.substring_char(0, i);
            let seg = key.substring_char(i + 1, n);
            proof {
                assert(seg@ =~= key@.skip(i as int + 1));
            }
            Self::from_fields(None, ts, seg)
        } else {
            let k = find_colon(key, j + 1);
            if k == n {
                let pfx = key.substring_char(0, i);
                let ts = key.substring_char(i + 1, j);
                let seg = key.substring_char(j + 1, n);
                proof {
                    assert(seg@ =~= key@.skip(j as int + 1));
                }
                Self::from_fields(Some(String::from_str(pfx)), ts, seg)
            } else {
                Ok(Self::soft_invalid())
            }
        }
    }

    /// The soft-failure counter: zero value, no prefix, flagged invalid.
    fn soft_invalid() -> (r: Self)
        ensures
            r.wf(),
            r.model() == invalid_counter(),
    {
        let r = ByteCounter {
            prefix: None,
            timestamp: Timestamp(0),
            id: filled_bytes(IDENTIFIER_SIZE, 0),
            valid: false,
        };
        proof {
            assert(r.id@ =~= zeros(IDENTIFIER_SIZE as nat));
            assert(r.model() =~= invalid_counter());
        }
        r
    }
}

/// The view of an optional prefix string.
pub open spec fn prefix_view(p: Option<String>) -> Option<Seq<char>> {
    match p {
        Option::Some(s) => Option::Some(s@),
        Option::None => Option::None,
    }
}

/// Encoding a well-formed counter and decoding the text recovers the counter:
/// prefix, timestamp and bytes survive the round trip, and the decoded value
/// is valid exactly when the timestamp is nonzero. The prefix must not
/// contain the `':'` separator.
pub proof fn lemma_counter_round_trip(m: CounterModel)
    requires
        m.bytes.len() == IDENTIFIER_SIZE as nat,
        match m.prefix {
            Option::Some(p) => forall|i: int| 0 <= i < p.len() ==> p[i] != ':',
            Option::None => true,
        },
    ensures
        decode_counter(encode_counter(m)) is Ok,
        decode_counter(encode_counter(m))->Ok_0 == (CounterModel {
            prefix: m.prefix,
            timestamp: m.timestamp,
            bytes: m.bytes,
            valid: m.timestamp != 0,
        }),
{
    let ts = dec_digits(m.timestamp as nat);
    let g = encode_groups(m.bytes);
    let s = encode_counter(m);
    lemma_dec_digits_val(m.timestamp as nat);
    lemma_encode_groups_props(m.bytes);
    lemma_digits_not_colon(ts);
    lemma_digits_not_colon(g);
    lemma_seg_round_trip(m.bytes);
    assert(ts_of_text(ts) == m.timestamp);
    match m.prefix {
        Option::Some(p) => {
            let i = p.len();
            let j = p.len() + 1 + ts.len();
            assert(s.len() == p.len() + 1 + ts.len() + 1 + g.len());
            assert(forall|x: int| 0 <= x < i ==> s[x] == p[x]);
            assert(s[i as int] == ':');
            assert(forall|x: int| i + 1 <= x < j ==> s[x] == ts[x - i - 1]);
            assert(s[j as int] == ':');
            assert(forall|x: int| j + 1 <= x < s.len() ==> s[x] == g[x - j - 1]);
            lemma_first_colon_is(s, 0, i);
            lemma_first_colon_is(s, i + 1, j);
            lemma_first_colon_is(s, j + 1, s.len());
            assert(s.subrange(0, i as int) =~= p);
            assert(s.subrange(i as int + 1, j as int) =~= ts);
            assert(s.skip(j as int + 1) =~= g);
            assert(decode_counter(s)->Ok_0 =~= (CounterModel {
                prefix: m.prefix,
                timestamp: m.timestamp,
                bytes: m.bytes,
                valid: m.timestamp != 0,
            }));
        },
        Option::None => {
            let i = ts.len();
            assert(s.len() == ts.len() + 1 + g.len());
            assert(forall|x: int| 0 <= x < i ==> s[x] == ts[x]);
            assert(s[i as int] == ':');
            assert(forall|x: int| i + 1 <= x < s.len() ==> s[x] == g[x - i - 1]);
            lemma_first_colon_is(s, 0, i);
            lemma_first_colon_is(s, i + 1, s.len());
            assert(s.subrange(0, i as int) =~= ts);
            assert(s.skip(i as int + 1) =~= g);
            assert(decode_counter(s)->Ok_0 =~= (CounterModel {
                prefix: m.prefix,
                timestamp: m.timestamp,
                bytes: m.bytes,
                valid: m.timestamp != 0,
            }));
        },
    }
}

/// Counters sharing prefix and timestamp order exactly by their positional
/// numeric value: `a < b` in the natural order iff the base-256 value of
/// `a`'s bytes is below that of `b`'s.
pub proof fn lemma_order_is_numeric(a: CounterModel, b: CounterModel)
    requires
        a.prefix == b.prefix,
        a.timestamp == b.timestamp,
        a.bytes.len() == b.bytes.len(),
    ensures
        counter_lt(a, b) <==> to_nat(a.bytes) < to_nat(b.bytes),
{
    lemma_lex_order(a.bytes, b.bytes);
}

} // verus!
