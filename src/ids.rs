//! Store keys and their opaque textual form: the eight little-endian bytes of
//! the key, written in base58.
use vstd::prelude::*;

verus! {

/// Store-level numeric key of a deposit, an offer or a deal.
#[derive(Debug, Clone, Copy, PartialEq, Eq, Structural)]
pub struct OfferId(pub u64);

/// Why a token could not be read back as a key.
#[derive(Debug, Clone, Copy, PartialEq, Eq, Structural)]
pub enum IdError {
    /// The text is not base58.
    NotBase58,
    /// The text is base58, but of a byte string that is not eight bytes long.
    WrongLength,
}

/// The base58 text of a byte string, as the `bs58` crate writes it.
pub uninterp spec fn base58_of(bytes: Seq<u8>) -> Seq<char>;

/// The eight bytes of `x`, least significant first.
pub open spec fn le_bytes(x: u64) -> Seq<u8> {
    seq![
        x as u8,
        (x >> 8u64) as u8,
        (x >> 16u64) as u8,
        (x >> 24u64) as u8,
        (x >> 32u64) as u8,
        (x >> 40u64) as u8,
        (x >> 48u64) as u8,
        (x >> 56u64) as u8,
    ]
}

/// The external token of a key.
pub open spec fn token_of(id: OfferId) -> Seq<char> {
    base58_of(le_bytes(id.0))
}

/// Relies on `bs58::encode(..).into_string()`: the base58 text of the bytes.
#[verifier::external_body]
fn base58_encode(bytes: &[u8]) -> (r: String)
    ensures
        r@ == base58_of(bytes@),
{
    bs58::encode(bytes).into_string()
}

/// Relies on `bs58::decode(..).into_vec()`: base58 with the bitcoin alphabet
/// is a bijection between byte strings and texts over the alphabet, so text
/// written by the encoder decodes to the bytes it was written from, and
/// whatever decodes encodes back to the same text.
#[verifier::external_body]
pub(crate) fn base58_decode(s: &str) -> (r: Result<Vec<u8>, bs58::decode::Error>)
    ensures
        forall|b: Seq<u8>| #[trigger] base58_of(b) == s@ ==> r is Ok && r->Ok_0@ == b,
        r is Ok ==> base58_of(r->Ok_0@) == s@,
{
    bs58::decode(s).into_vec()
}

#[verifier::external_type_specification]
#[verifier::external_body]
pub struct ExBase58Error(bs58::decode::Error);

proof fn lemma_le_bytes_round_trip(x: u64, b0: u8, b1: u8, b2: u8, b3: u8, b4: u8, b5: u8, b6: u8, b7: u8)
    requires
        le_bytes(x) == seq![b0, b1, b2, b3, b4, b5, b6, b7],
    ensures
        x == (b0 as u64) | ((b1 as u64) << 8u64) | ((b2 as u64) << 16u64) | ((b3 as u64) << 24u64)
            | ((b4 as u64) << 32u64) | ((b5 as u64) << 40u64) | ((b6 as u64) << 48u64) | ((b7 as u64) << 56u64),
{
    let s = le_bytes(x);
    assert(s[0] == b0 && s[1] == b1 && s[2] == b2 && s[3] == b3);
    assert(s[4] == b4 && s[5] == b5 && s[6] == b6 && s[7] == b7);
    assert(b0 == x as u8 && b1 == (x >> 8u64) as u8 && b2 == (x >> 16u64) as u8 && b3 == (x >> 24u64) as u8
        && b4 == (x >> 32u64) as u8 && b5 == (x >> 40u64) as u8 && b6 == (x >> 48u64) as u8 && b7 == (x >> 56u64) as u8
        ==> x == (b0 as u64) | ((b1 as u64) << 8u64) | ((b2 as u64) << 16u64) | ((b3 as u64) << 24u64)
            | ((b4 as u64) << 32u64) | ((b5 as u64) << 40u64) | ((b6 as u64) << 48u64) | ((b7 as u64) << 56u64))
        by (bit_vector);
}

proof fn lemma_le_bytes_of_parts(b0: u8, b1: u8, b2: u8, b3: u8, b4: u8, b5: u8, b6: u8, b7: u8)
    ensures
        le_bytes((b0 as u64) | ((b1 as u64) << 8u64) | ((b2 as u64) << 16u64) | ((b3 as u64) << 24u64)
            | ((b4 as u64) << 32u64) | ((b5 as u64) << 40u64) | ((b6 as u64) << 48u64) | ((b7 as u64) << 56u64))
            == seq![b0, b1, b2, b3, b4, b5, b6, b7],
{
    let x = (b0 as u64) | ((b1 as u64) << 8u64) | ((b2 as u64) << 16u64) | ((b3 as u64) << 24u64)
        | ((b4 as u64) << 32u64) | ((b5 as u64) << 40u64) | ((b6 as u64) << 48u64) | ((b7 as u64) << 56u64);
    assert(x as u8 == b0 && (x >> 8u64) as u8 == b1 && (x >> 16u64) as u8 == b2 && (x >> 24u64) as u8 == b3
        && (x >> 32u64) as u8 == b4 && (x >> 40u64) as u8 == b5 && (x >> 48u64) as u8 == b6
        && (x >> 56u64) as u8 == b7) by (bit_vector)
        requires
            x == (b0 as u64) | ((b1 as u64) << 8u64) | ((b2 as u64) << 16u64) | ((b3 as u64) << 24u64)
                | ((b4 as u64) << 32u64) | ((b5 as u64) << 40u64) | ((b6 as u64) << 48u64) | ((b7 as u64) << 56u64);
    assert(le_bytes(x) =~= seq![b0, b1, b2, b3, b4, b5, b6, b7]);
}

/// Distinct keys have distinct byte strings.
pub proof fn lemma_le_bytes_injective(x: u64, y: u64)
    requires
        le_bytes(x) == le_bytes(y),
    ensures
        x == y,
{
    let s = le_bytes(x);
    lemma_le_bytes_round_trip(x, s[0], s[1], s[2], s[3], s[4], s[5], s[6], s[7]);
    assert(s =~= seq![s[0], s[1], s[2], s[3], s[4], s[5], s[6], s[7]]);
    lemma_le_bytes_round_trip(y, s[0], s[1], s[2], s[3], s[4], s[5], s[6], s[7]);
}

impl OfferId {
    /// The opaque textual form of this key.
    pub fn to_string(&self) -> (r: String)
        ensures
            r@ == token_of(*self),
    {
        let x = self.0;
        let bytes: Vec<u8> = vec![
            x as u8,
            (x >> 8u64) as u8,
            (x >> 16u64) as u8,
            (x >> 24u64) as u8,
            (x >> 32u64) as u8,
            (x >> 40u64) as u8,
            (x >> 48u64) as u8,
            (x >> 56u64) as u8,
        ];
        assert(bytes@ =~= le_bytes(x));
        base58_encode(bytes.as_slice())
    }

    /// Reads a key back from its textual form. A token written by
    /// `to_string` always reads back as the key it was written from.
    pub fn parse(s: &str) -> (r: Result<OfferId, IdError>)
        ensures
            forall|x: u64| #[trigger] token_of(OfferId(x)) == s@ ==> r == Ok::<OfferId, IdError>(OfferId(x)),
            r matches Ok(id) ==> token_of(id) == s@,
            r == Err::<OfferId, IdError>(IdError::NotBase58) <==> forall|b: Seq<u8>| base58_of(b) != s@,
            r == Err::<OfferId, IdError>(IdError::WrongLength) <==> exists|b: Seq<u8>|
                base58_of(b) == s@ && b.len() != 8,
    {
        let decoded = base58_decode(s);
        match decoded {
            Err(_) => {
                assert forall|b: Seq<u8>| base58_of(b) != s@ by {
                    if base58_of(b) == s@ {
                        assert(decoded is Ok);
                    }
                }
                Err(IdError::NotBase58)
            },
            Ok(bytes) => {
                if bytes.len() != 8 {
                    assert(base58_of(bytes@) == s@ && bytes@.len() != 8);
                    assert forall|x: u64| #[trigger] token_of(OfferId(x)) != s@ by {
                        if token_of(OfferId(x)) == s@ {
                            assert(bytes@ == le_bytes(x));
                        }
                    }
                    Err(IdError::WrongLength)
                } else {
                    let x = (bytes[0] as u64) | ((bytes[1] as u64) << 8u64) | ((bytes[2] as u64) << 16u64)
                        | ((bytes[3] as u64) << 24u64) | ((bytes[4] as u64) << 32u64)
                        | ((bytes[5] as u64) << 40u64) | ((bytes[6] as u64) << 48u64)
                        | ((bytes[7] as u64) << 56u64);
                    proof {
                        lemma_le_bytes_of_parts(bytes[0], bytes[1], bytes[2], bytes[3], bytes[4], bytes[5], bytes[6], bytes[7]);
                        assert(bytes@ =~= seq![bytes[0], bytes[1], bytes[2], bytes[3], bytes[4], bytes[5], bytes[6], bytes[7]]);
                        assert(le_bytes(x) == bytes@);
                        assert forall|y: u64| #[trigger] token_of(OfferId(y)) == s@ implies y == x by {
                            assert(bytes@ == le_bytes(y));
                            lemma_le_bytes_injective(x, y);
                        }
                        assert forall|b: Seq<u8>| base58_of(b) == s@ implies b.len() == 8 by {
                            assert(bytes@ == b);
                        }
                    }
                    Ok(OfferId(x))
                }
            },
        }
    }
}

impl From<i64> for OfferId {
    /// The key stored in a signed database column, read as unsigned.
    fn from(value: i64) -> (r: OfferId)
        ensures
            r.0 == value as u64,
    {
        OfferId(value as u64)
    }
}

impl vstd::std_specs::convert::FromSpecImpl<i64> for OfferId {
    open spec fn obeys_from_spec() -> bool {
        true
    }

    open spec fn from_spec(v: i64) -> OfferId {
        OfferId(v as u64)
    }
}

impl From<OfferId> for i64 {
    /// The key as a signed database column holds it.
    fn from(id: OfferId) -> (r: i64)
        ensures
            r == id.0 as i64,
    {
        id.0 as i64
    }
}

impl vstd::std_specs::convert::FromSpecImpl<OfferId> for i64 {
    open spec fn obeys_from_spec() -> bool {
        true
    }

    open spec fn from_spec(id: OfferId) -> i64 {
        id.0 as i64
    }
}

} // verus!
