//! The error type of certificate and revocation verification.

use vstd::prelude::*;

verus! {

/// Why a certificate, signature, or revocation record failed to verify.  Any of
/// these means the subject is not trusted.
#[derive(Debug, Clone, Copy, PartialEq, Eq, Structural)]
pub enum AuthError {
    /// The bytes could not be parsed into the expected record.
    Malformed,
    /// The record's version byte is not one this build understands.
    BadVersion,
    /// The record is for a different mesh than the trust anchor.
    WrongMesh,
    /// The signature did not verify against the expected public key.
    BadSignature,
    /// The record is past its `not_after`.
    Expired,
    /// The certificate is before its `not_before`.
    NotYetValid,
    /// The subject has been revoked.
    Revoked,
}

impl AuthError {
    /// The error in words.
    pub open spec fn words(self) -> Seq<char> {
        match self {
            AuthError::Malformed => "malformed record"@,
            AuthError::BadVersion => "unsupported record version"@,
            AuthError::WrongMesh => "wrong mesh"@,
            AuthError::BadSignature => "bad signature"@,
            AuthError::Expired => "certificate expired"@,
            AuthError::NotYetValid => "certificate not yet valid"@,
            AuthError::Revoked => "subject revoked"@,
        }
    }

    /// The error in words.
    pub fn message(&self) -> (s: &'static str)
        ensures
            s@ == self.words(),
    {
        match self {
            AuthError::Malformed => "malformed record",
            AuthError::BadVersion => "unsupported record version",
            AuthError::WrongMesh => "wrong mesh",
            AuthError::BadSignature => "bad signature",
            AuthError::Expired => "certificate expired",
            AuthError::NotYetValid => "certificate not yet valid",
            AuthError::Revoked => "subject revoked",
        }
    }
}

/// No two errors are told in the same words.
pub proof fn errors_have_words_of_their_own(a: AuthError, b: AuthError)
    requires
        a != b,
    ensures
        a.words() != b.words(),
{
    reveal_strlit("malformed record");
    reveal_strlit("unsupported record version");
    reveal_strlit("wrong mesh");
    reveal_strlit("bad signature");
    reveal_strlit("certificate expired");
    reveal_strlit("certificate not yet valid");
    reveal_strlit("subject revoked");
    assert(a.words().len() != b.words().len());
}

} // verus!
