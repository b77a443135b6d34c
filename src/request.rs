//! Authentication of an offer submission: the owner signs the amount, the
//! bank account and the public key, one per line, with the ed25519 key whose
//! base58 form is the public key.
use vstd::prelude::*;
use vstd::utf8::encode_utf8;
use crate::ids::{base58_decode, base58_of};

verus! {

/// An offer as its owner submits it.
#[derive(Debug)]
pub struct OfferRequest {
    /// Amount in the smallest unit.
    pub amount: u128,
    pub bank_account: String,
    /// The owner's ed25519 public key, base58.
    pub public_key: String,
    /// The signature of `cleartext_of` under `public_key`, base58.
    pub signature: String,
}

/// Why a submission is not authentic.
#[derive(Debug, Clone, Copy, PartialEq, Eq, Structural)]
pub enum AuthError {
    SignatureNotBase58,
    PublicKeyNotBase58,
    /// The public key is not 32 bytes long.
    PublicKeyLength,
    /// The signature is not 64 bytes long.
    SignatureLength,
    /// The key is not a curve point, or the signature does not verify.
    Rejected,
}

/// Whether ed25519 verification, as `ed25519-dalek` does it, accepts `sig`
/// on `msg` under the public key `key`.
pub uninterp spec fn ed25519_accepts(key: Seq<u8>, msg: Seq<u8>, sig: Seq<u8>) -> bool;

#[verifier::external_type_specification]
#[verifier::external_body]
pub struct ExSignatureError(ed25519_dalek::SignatureError);

/// Relies on `ed25519_dalek::VerifyingKey::from_bytes`, to read the key, and
/// on its `Verifier::verify`: `Ok` exactly when the key is a valid point and
/// the signature verifies on the message. `Signature::from_bytes` only
/// converts the bytes.
#[verifier::external_body]
fn ed25519_verify(key: &[u8; 32], msg: &[u8], sig: &[u8; 64]) -> (r: Result<(), ed25519_dalek::SignatureError>)
    ensures
        r is Ok <==> ed25519_accepts(key@, msg@, sig@),
{
    let key = ed25519_dalek::VerifyingKey::from_bytes(key)?;
    ed25519_dalek::Verifier::verify(&key, msg, &ed25519_dalek::Signature::from_bytes(sig))
}

/// The decimal digits of `n`, in ASCII.
pub open spec fn decimal_digits(n: nat) -> Seq<u8>
    decreases n,
{
    if n < 10 {
        seq![(48 + n) as u8]
    } else {
        decimal_digits(n / 10).push((48 + n % 10) as u8)
    }
}

/// The signed text: amount, bank account and public key, one per line.
pub open spec fn cleartext_of(amount: u128, bank_account: Seq<char>, public_key: Seq<char>) -> Seq<u8> {
    decimal_digits(amount as nat) + seq![10u8] + encode_utf8(bank_account) + seq![10u8] + encode_utf8(public_key)
}

/// The bytes that a base58 text decodes to (unique, when there are any).
pub open spec fn decoded(s: Seq<char>) -> Seq<u8> {
    choose|b: Seq<u8>| base58_of(b) == s
}

pub open spec fn is_base58(s: Seq<char>) -> bool {
    exists|b: Seq<u8>| base58_of(b) == s
}

/// The verdict on a submission.
pub open spec fn authenticity(amount: u128, bank_account: Seq<char>, public_key: Seq<char>, signature: Seq<char>) -> Result<
    (),
    AuthError,
> {
    if !is_base58(signature) {
        Err(AuthError::SignatureNotBase58)
    } else if !is_base58(public_key) {
        Err(AuthError::PublicKeyNotBase58)
    } else if decoded(public_key).len() != 32 {
        Err(AuthError::PublicKeyLength)
    } else if decoded(signature).len() != 64 {
        Err(AuthError::SignatureLength)
    } else if ed25519_accepts(
        decoded(public_key),
        cleartext_of(amount, bank_account, public_key),
        decoded(signature),
    ) {
        Ok(())
    } else {
        Err(AuthError::Rejected)
    }
}

fn push_decimal(n: u128, out: &mut Vec<u8>)
    ensures
        final(out)@ == old(out)@ + decimal_digits(n as nat),
    decreases n,
{
    if n >= 10 {
        push_decimal(n / 10, out);
    }
    out.push((48 + n % 10) as u8);
    assert(out@ =~= old(out)@ + decimal_digits(n as nat));
}

fn append_bytes(out: &mut Vec<u8>, b: &Vec<u8>)
    ensures
        final(out)@ == old(out)@ + b@,
{
    let mut i: usize = 0;
    while i < b.len()
        invariant
            0 <= i <= b@.len(),
            out@ == old(out)@ + b@.take(i as int),
        decreases b@.len() - i,
    {
        out.push(b[i]);
        assert(b@.take(i + 1) =~= b@.take(i as int).push(b@[i as int]));
        i = i + 1;
    }
    assert(b@.take(b@.len() as int) =~= b@);
}

fn to_key(v: &Vec<u8>) -> (r: [u8; 32])
    requires
        v@.len() == 32,
    ensures
        r@ == v@,
{
    let mut a = [0u8; 32];
    let mut i: usize = 0;
    while i < 32
        invariant
            v@.len() == 32,
            0 <= i <= 32,
            forall|k: int| 0 <= k < i ==> a@[k] == v@[k],
        decreases 32 - i,
    {
        a[i] = v[i];
        i = i + 1;
    }
    assert(a@ =~= v@);
    a
}

fn to_signature(v: &Vec<u8>) -> (r: [u8; 64])
    requires
        v@.len() == 64,
    ensures
        r@ == v@,
{
    let mut a = [0u8; 64];
    let mut i: usize = 0;
    while i < 64
        invariant
            v@.len() == 64,
            0 <= i <= 64,
            forall|k: int| 0 <= k < i ==> a@[k] == v@[k],
        decreases 64 - i,
    {
        a[i] = v[i];
        i = i + 1;
    }
    assert(a@ =~= v@);
    a
}

impl OfferRequest {
    /// The bytes the owner signs.
    pub fn cleartext(&self) -> (r: Vec<u8>)
        ensures
            r@ == cleartext_of(self.amount, self.bank_account@, self.public_key@),
    {
        let mut out: Vec<u8> = Vec::new();
        push_decimal(self.amount, &mut out);
        out.push(10u8);
        let bank = self.bank_account.as_str().as_bytes_vec();
        append_bytes(&mut out, &bank);
        out.push(10u8);
        let key = self.public_key.as_str().as_bytes_vec();
        append_bytes(&mut out, &key);
        assert(out@ =~= cleartext_of(self.amount, self.bank_account@, self.public_key@));
        out
    }

    /// Checks that the submission is signed by the key it names.
    pub fn ensure_authentic(&self) -> (r: Result<(), AuthError>)
        ensures
            r == authenticity(self.amount, self.bank_account@, self.public_key@, self.signature@),
    {
        let cleartext = self.cleartext();
        let signature = match base58_decode(self.signature.as_str()) {
            Ok(s) => s,
            Err(_) => {
                assert(!is_base58(self.signature@));
                return Err(AuthError::SignatureNotBase58);
            },
        };
        assert(base58_of(signature@) == self.signature@);
        assert(signature@ == decoded(self.signature@));
        let pubkey = match base58_decode(self.public_key.as_str()) {
            Ok(k) => k,
            Err(_) => {
                assert(!is_base58(self.public_key@));
                return Err(AuthError::PublicKeyNotBase58);
            },
        };
        assert(base58_of(pubkey@) == self.public_key@);
        assert(pubkey@ == decoded(self.public_key@));
        if pubkey.len() != 32 {
            return Err(AuthError::PublicKeyLength);
        }
        if signature.len() != 64 {
            return Err(AuthError::SignatureLength);
        }
        let key = to_key(&pubkey);
        let sig = to_signature(&signature);
        match ed25519_verify(&key, cleartext.as_slice(), &sig) {
            Ok(()) => Ok(()),
            Err(_) => Err(AuthError::Rejected),
        }
    }
}

} // verus!
