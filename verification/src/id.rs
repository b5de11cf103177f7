//! The sixteen-byte fixed-width identifier: a big-endian byte counter with an
//! optional namespace prefix and no timestamp, with carry-chain increment,
//! numeric projection, distance, and the canonical text codec.

use crate::codec::{
    decode_groups, encode_groups, encode_groups_string, find_colon, first_colon,
    lemma_digits_not_colon, lemma_encode_groups_props, lemma_first_colon_is, lemma_seg_round_trip,
    seg_bytes, seg_ok, DecodeError,
};
use crate::numeric::{
    bytes_to_u128, copy_bytes, filled_bytes, inc_bytes, succ_bytes, to_nat, zeros,
};
use vstd::prelude::*;

verus! {

/// The byte width of this identifier: sixteen bytes, the width of a `u128`.
pub const IDENTIFIER_SIZE: usize = 16;

/// The mathematical content of an identifier: the prefix text, the byte
/// sequence, and the validity flag.
#[verifier::ext_equal]
pub ghost struct IdModel {
    pub prefix: Option<Seq<char>>,
    pub bytes: Seq<u8>,
    pub valid: bool,
}

/// A sixteen-byte big-endian identifier with an optional namespace prefix;
/// `valid` is false only on a value recovered from malformed text.
#[derive(Debug)]
pub struct BigID {
    pub id: Vec<u8>,
    pub prefix: Option<String>,
    pub valid: bool,
}

/// The canonical text of an identifier: `prefix:segment` with a prefix, the
/// bare segment without one; the segment is three decimal digits per byte.
pub open spec fn encode_id(m: IdModel) -> Seq<char> {
    match m.prefix {
        Option::Some(p) => p + seq![':'] + encode_groups(m.bytes),
        Option::None => encode_groups(m.bytes),
    }
}

/// The soft-failure value: all-zero bytes, no prefix, and the validity flag
/// down.
pub open spec fn invalid_id() -> IdModel {
    IdModel { prefix: None, bytes: zeros(IDENTIFIER_SIZE as nat), valid: false }
}

/// The identifier recovered from split fields: the segment must decode.
pub open spec fn decoded_id_fields(prefix: Option<Seq<char>>, seg: Seq<char>) -> Result<
    IdModel,
    DecodeError,
> {
    if seg_ok(seg, IDENTIFIER_SIZE as nat) {
        Ok(IdModel { prefix: prefix, bytes: seg_bytes(seg, IDENTIFIER_SIZE as nat), valid: true })
    } else {
        Err(DecodeError::InvalidGroup)
    }
}

/// What decoding a key yields: split on `':'`, a one-part key is a bare
/// segment, a two-part key is `prefix:segment`, and any other shape is the
/// soft-invalid identifier.
pub open spec fn decode_id(s: Seq<char>) -> Result<IdModel, DecodeError> {
    let i = first_colon(s, 0);
    if i == s.len() {
        decoded_id_fields(None, s)
    } else {
        let j = first_colon(s, i + 1);
        if j == s.len() {
            decoded_id_fields(Some(s.subrange(0, i as int)), s.skip(i as int + 1))
        } else {
            Ok(invalid_id())
        }
    }
}

/// A name for what `String::from_utf8_lossy` returns on given bytes.
pub uninterp spec fn lossy_utf8(bytes: Seq<u8>) -> Seq<char>;

/// Relies on `String::from_utf8_lossy`: the decoding is a function of the
/// bytes alone (valid UTF-8 passes through unchanged; invalid sequences
/// become replacement characters).
#[verifier::external_body]
fn utf8_lossy_string(bytes: &[u8]) -> (r: String)
    ensures
        r@ == lossy_utf8(bytes@),
{
    String::from_utf8_lossy(bytes).into_owned()
}

impl BigID {
    /// The mathematical content of this identifier.
    pub open spec fn model(&self) -> IdModel {
        IdModel {
            prefix: match self.prefix {
                Option::Some(p) => Option::Some(p@),
                Option::None => Option::None,
            },
            bytes: self.id@,
            valid: self.valid,
        }
    }

    /// Well-formed: the byte sequence has exactly the fixed width.
    pub open spec fn wf(&self) -> bool {
        self.id@.len() == IDENTIFIER_SIZE
    }

    /// The all-zero identifier under the given optional prefix.
    pub fn new(prefix: Option<String>) -> (r: Self)
        ensures
            r.wf(),
            r.model().prefix == crate::counter::prefix_view(prefix),
            r.model().bytes == zeros(IDENTIFIER_SIZE as nat),
            r.model().valid,
    {
        let r = BigID { id: filled_bytes(IDENTIFIER_SIZE, 0), prefix, valid: true };
        proof {
            assert(r.id@ =~= zeros(IDENTIFIER_SIZE as nat));
        }
        r
    }

    /// Decodes a bare segment: the text is normalized to sixteen groups
    /// (short input gains leading zeros, long input loses leading groups),
    /// and each group must be three decimal digits valued at most 255.
    pub fn decode_bytes(str_bytes: &str) -> (r: Result<Self, DecodeError>)
        ensures
            r is Ok <==> seg_ok(str_bytes@, IDENTIFIER_SIZE as nat),
            r is Ok ==> r.unwrap().wf(),
            r is Ok ==> r.unwrap().model().prefix is None,
            r is Ok ==> r.unwrap().model().bytes == seg_bytes(str_bytes@, IDENTIFIER_SIZE as nat),
            r is Ok ==> r.unwrap().model().valid,
            r is Err ==> r.unwrap_err() == DecodeError::InvalidGroup,
    {
        match decode_groups(str_bytes, IDENTIFIER_SIZE) {
            Ok(bytes) => Ok(BigID { id: bytes, prefix: None, valid: true }),
            Err(e) => Err(e),
        }
    }

    /// The bytes of the identifier, most significant first.
    pub fn raw_value(&self) -> (r: &[u8])
        ensures
            r@ == self.model().bytes,
    {
        self.id.as_slice()
    }

    /// A copy of the identifier bytes, most significant first.
    pub fn to_vec(&self) -> (r: Vec<u8>)
        ensures
            r@ == self.model().bytes,
    {
        copy_bytes(&self.id)
    }

    /// The successor: the bytes plus one, wrapping to all-zero past the
    /// all-0xFF maximum; the prefix is carried unchanged.
    pub fn next(&self) -> (r: Self)
        ensures
            r.model().bytes == inc_bytes(self.model().bytes),
            r.model().prefix == self.model().prefix,
            r.model().valid,
            self.wf() ==> r.wf(),
    {
        proof {
            crate::numeric::lemma_inc_len(self.id@);
        }
        BigID { id: succ_bytes(&self.id), prefix: clone_id_prefix(&self.prefix), valid: true }
    }

    /// The positional base-256 value of the bytes.
    pub fn to_u128(&self) -> (r: u128)
        requires
            self.wf(),
        ensures
            r as nat == to_nat(self.model().bytes),
    {
        bytes_to_u128(&self.id)
    }

    /// The absolute difference of the two numeric projections.
    pub fn distance(&self, other: &BigID) -> (r: u128)
        requires
            self.wf(),
            other.wf(),
        ensures
            to_nat(self.model().bytes) >= to_nat(other.model().bytes) ==> r as nat == to_nat(
                self.model().bytes,
            ) - to_nat(other.model().bytes),
            to_nat(self.model().bytes) < to_nat(other.model().bytes) ==> r as nat == to_nat(
                other.model().bytes,
            ) - to_nat(self.model().bytes),
    {
        let lhs = self.to_u128();
        let rhs = other.to_u128();
        if lhs < rhs {
            rhs - lhs
        } else {
            lhs - rhs
        }
    }

    /// The canonical text of this identifier: `prefix:segment` with a prefix,
    /// the bare segment without one.
    pub fn to_string(&self) -> (r: String)
        requires
            self.wf(),
        ensures
            r@ == encode_id(self.model()),
    {
        proof {
            reveal_strlit(":");
        }
        let seg = encode_groups_string(&self.id);
        match &self.prefix {
            Some(p) => {
                let mut out = p.clone();
                out.append(":");
                out.append(seg.as_str());
                proof {
                    assert(out@ =~= encode_id(self.model()));
                }
                out
            },
            None => seg,
        }
    }

    /// The identifier built from split fields.
    fn from_fields(prefix: Option<String>, seg: &str) -> (r: Result<Self, DecodeError>)
        ensures
            r is Ok <==> decoded_id_fields(crate::counter::prefix_view(prefix), seg@) is Ok,
            r is Ok ==> r.unwrap().wf() && r.unwrap().model() == decoded_id_fields(
                crate::counter::prefix_view(prefix),
                seg@,
            )->Ok_0,
            r is Err ==> r.unwrap_err() == decoded_id_fields(
                crate::counter::prefix_view(prefix),
                seg@,
            )->Err_0,
    {
        match decode_groups(seg, IDENTIFIER_SIZE) {
            Ok(bytes) => Ok(BigID { id: bytes, prefix, valid: true }),
            Err(e) => Err(e),
        }
    }

    /// Decodes a full key. A one-part key is a bare segment, a two-part key
    /// is `prefix:segment`; any other shape yields the soft-invalid
    /// identifier, and a malformed segment group is the hard error.
    pub fn decode(key: &str) -> (r: Result<Self, DecodeError>)
        ensures
            r is Ok <==> decode_id(key@) is Ok,
            r is Ok ==> r.unwrap().wf() && r.unwrap().model() == decode_id(key@)->Ok_0,
            r is Err ==> r.unwrap_err() == decode_id(key@)->Err_0,
    {
        let n = key.unicode_len();
        let i = find_colon(key, 0);
        if i == n {
            Self::from_fields(None, key)
        } else {
            let j = find_colon(key, i + 1);
            if j == n {
                let pfx = key.substring_char(0, i);
                let seg = key.substring_char(i + 1, n);
                proof {
                    assert(seg@ =~= key@.skip(i as int + 1));
                }
                Self::from_fields(Some(String::from_str(pfx)), seg)
            } else {
                let r = BigID {
                    id: filled_bytes(IDENTIFIER_SIZE, 0),
                    prefix: None,
                    valid: false,
                };
                proof {
                    assert(r.id@ =~= zeros(IDENTIFIER_SIZE as nat));
                    assert(r.model() =~= invalid_id());
                }
                Ok(r)
            }
        }
    }

    /// Decodes a key handed over as raw bytes, read leniently as UTF-8 first.
    pub fn from_bytes(key: &[u8]) -> (r: Result<Self, DecodeError>)
        ensures
            r is Ok <==> decode_id(lossy_utf8(key@)) is Ok,
            r is Ok ==> r.unwrap().wf() && r.unwrap().model() == decode_id(lossy_utf8(key@))->Ok_0,
            r is Err ==> r.unwrap_err() == decode_id(lossy_utf8(key@))->Err_0,
    {
        let s = utf8_lossy_string(key);
        Self::decode(s.as_str())
    }
}

/// A copy of an optional prefix.
fn clone_id_prefix(p: &Option<String>) -> (r: Option<String>)
    ensures
        r == *p,
{
    match p {
        Some(s) => Some(s.clone()),
        None => None,
    }
}

impl Default for BigID {
    /// The all-zero identifier without a prefix.
    fn default() -> (r: Self)
        ensures
            r.wf(),
            r.model().prefix is None,
            r.model().bytes == zeros(IDENTIFIER_SIZE as nat),
            r.model().valid,
    {
        BigID::new(None)
    }
}

/// Encoding a well-formed identifier and decoding the text recovers the
/// identifier: prefix and bytes survive the round trip and the decoded value
/// is valid. The prefix must not contain the `':'` separator.
pub proof fn lemma_id_round_trip(m: IdModel)
    requires
        m.bytes.len() == IDENTIFIER_SIZE as nat,
        match m.prefix {
            Option::Some(p) => forall|i: int| 0 <= i < p.len() ==> p[i] != ':',
            Option::None => true,
        },
    ensures
        decode_id(encode_id(m)) is Ok,
        decode_id(encode_id(m))->Ok_0 == (IdModel {
            prefix: m.prefix,
            bytes: m.bytes,
            valid: true,
        }),
{
    let g = encode_groups(m.bytes);
    let s = encode_id(m);
    lemma_encode_groups_props(m.bytes);
    lemma_digits_not_colon(g);
    lemma_seg_round_trip(m.bytes);
    match m.prefix {
        Option::Some(p) => {
            let i = p.len();
            assert(s.len() == p.len() + 1 + g.len());
            assert(forall|x: int| 0 <= x < i ==> s[x] == p[x]);
            assert(s[i as int] == ':');
            assert(forall|x: int| i + 1 <= x < s.len() ==> s[x] == g[x - i - 1]);
            lemma_first_colon_is(s, 0, i);
            lemma_first_colon_is(s, i + 1, s.len());
            assert(s.subrange(0, i as int) =~= p);
            assert(s.skip(i as int + 1) =~= g);
            assert(decode_id(s)->Ok_0 =~= (IdModel {
                prefix: m.prefix,
                bytes: m.bytes,
                valid: true,
            }));
        },
        Option::None => {
            lemma_first_colon_is(s, 0, s.len());
            assert(decode_id(s)->Ok_0 =~= (IdModel {
                prefix: m.prefix,
                bytes: m.bytes,
                valid: true,
            }));
        },
    }
}

} // verus!
