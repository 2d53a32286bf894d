use vstd::prelude::*;
use vstd::string::{StrSliceExecFns, StringExecFns};
use vstd::utf8::encode_utf8;

use crate::digest::{digest_hex, sha256_of};
use crate::utility::{hex_char_of, hex_of, is_alphanumeric_char, str_eq};

verus! {

// ---------------------------------------------------------------------------
// User records and the credential scheme around them. A passcode is never
// stored: the catalog keeps `hex(sha256(passcode + salt)) : salt`, and a
// login recomputes the salted digest from the supplied passcode and compares.
// ---------------------------------------------------------------------------

/// One user row, as handed out (the stored credential is never included).
pub struct UserInfo {
    pub user_id: u128,
    pub user_name: String,
    pub email: String,
    pub created_date: i64,
}

/// The credentials a login supplies.
pub struct UserLogin {
    pub email: String,
    pub passcode: String,
}

/// The fields a registration supplies.
pub struct NewUser {
    pub user_name: String,
    pub email: String,
    pub passcode: String,
}

/// Why a registration failed.
#[derive(Clone, Copy, Debug, PartialEq, Eq, Structural)]
pub enum NewUserError {
    /// The email is already taken or was refused.
    InvalidEmail,
}

/// Why a login failed.
#[derive(Clone, Copy, Debug, PartialEq, Eq, Structural)]
pub enum UserError {
    /// No user carries this email.
    InvalidEmail,
    /// The supplied passcode does not match the stored credential.
    WrongPasscode,
}

// ---------------------------------------------------------------------------
// The credential format.
// ---------------------------------------------------------------------------

/// The salted digest of a passcode: the SHA-256 of the passcode with the salt
/// appended, rendered as hexadecimal.
pub open spec fn salted_hash_of(passcode: Seq<char>, salt: Seq<char>) -> Seq<char> {
    hex_of(sha256_of(encode_utf8(passcode + salt)))
}

/// The stored credential: the salted digest, a colon, and the salt.
pub open spec fn stored_passcode_of(passcode: Seq<char>, salt: Seq<char>) -> Seq<char> {
    salted_hash_of(passcode, salt) + seq![':'] + salt
}

/// Position `i` holds the first `:` of `s`.
pub open spec fn is_first_colon(s: Seq<char>, i: int) -> bool {
    &&& 0 <= i < s.len()
    &&& s[i] == ':'
    &&& forall|j: int| 0 <= j < i ==> s[j] != ':'
}

/// Whether a stored credential has its separating colon.
pub open spec fn has_colon(s: Seq<char>) -> bool {
    exists|i: int| is_first_colon(s, i)
}

/// The digest part of a stored credential: the characters before the first
/// colon.
pub open spec fn hash_part(s: Seq<char>) -> Seq<char>
    recommends
        has_colon(s),
{
    s.subrange(0, choose|i: int| is_first_colon(s, i))
}

/// The salt part of a stored credential: the characters after the first
/// colon.
pub open spec fn salt_part(s: Seq<char>) -> Seq<char>
    recommends
        has_colon(s),
{
    s.subrange((choose|i: int| is_first_colon(s, i)) + 1, s.len() as int)
}

/// Whether a supplied passcode matches a stored credential: the credential is
/// well-formed and its digest part is the salted digest of the supplied
/// passcode under the credential's own salt.
pub open spec fn passcode_matches(stored: Seq<char>, supplied: Seq<char>) -> bool {
    has_colon(stored) && hash_part(stored) == salted_hash_of(supplied, salt_part(stored))
}

proof fn lemma_first_colon_unique(s: Seq<char>, i: int, j: int)
    requires
        is_first_colon(s, i),
        is_first_colon(s, j),
    ensures
        i == j,
{
    if i < j {
        assert(s[i] != ':');
    }
    if j < i {
        assert(s[j] != ':');
    }
}

// ---------------------------------------------------------------------------
// The executable credential functions.
// ---------------------------------------------------------------------------

/// Builds the stored credential for a new passcode under a given salt.
pub fn hash_passcode(passcode: &str, salt: &str) -> (r: String)
    ensures
        r@ == stored_passcode_of(passcode@, salt@),
{
    let mut joined = passcode.to_owned();
    joined.append(salt);
    let bytes = joined.as_str().as_bytes_vec();
    let mut out = digest_hex(bytes.as_slice());
    proof {
        reveal_strlit(":");
    }
    out.append(":");
    out.append(salt);
    proof {
        assert(out@ =~= stored_passcode_of(passcode@, salt@));
    }
    out
}

/// Whether the supplied passcode matches the stored credential: the salted
/// digest is recomputed from the credential's own salt and compared with the
/// credential's digest part.
pub fn verify_passcode(stored: &str, supplied: &str) -> (r: bool)
    ensures
        r == passcode_matches(stored@, supplied@),
{
    let n = stored.unicode_len();
    let mut i: usize = 0;
    while i < n
        invariant
            i <= n,
            n == stored@.len(),
            forall|j: int| 0 <= j < i ==> stored@[j] != ':',
        decreases n - i,
    {
        if stored.get_char(i) == ':' {
            proof {
                assert(is_first_colon(stored@, i as int));
                lemma_first_colon_unique(
                    stored@,
                    i as int,
                    choose|k: int| is_first_colon(stored@, k),
                );
            }
            let stored_hash = stored.substring_char(0, i);
            let salt = stored.substring_char(i + 1, n);
            let mut joined = supplied.to_owned();
            joined.append(salt);
            let bytes = joined.as_str().as_bytes_vec();
            let recomputed = digest_hex(bytes.as_slice());
            return str_eq(stored_hash, recomputed.as_str());
        }
        i = i + 1;
    }
    proof {
        assert forall|k: int| !is_first_colon(stored@, k) by {
            if 0 <= k < stored@.len() && stored@[k] == ':' {
            }
        }
    }
    false
}

// ---------------------------------------------------------------------------
// The credential round trip: a credential built by `hash_passcode` accepts
// the passcode it was built from, whatever salt was drawn.
// ---------------------------------------------------------------------------

/// No hexadecimal digit is a colon.
proof fn lemma_hex_char_not_colon(n: u8)
    requires
        n < 16,
    ensures
        hex_char_of(n) != ':',
{
    if n < 10 {
        assert(hex_char_of(n) as int == 48 + n);
    } else {
        assert(hex_char_of(n) as int == 97 + (n - 10));
    }
    assert(':' as int == 58);
}

proof fn lemma_hex_no_colon(bytes: Seq<u8>)
    ensures
        forall|i: int| 0 <= i < hex_of(bytes).len() ==> hex_of(bytes)[i] != ':',
    decreases bytes.len(),
{
    if bytes.len() > 0 {
        lemma_hex_no_colon(bytes.drop_last());
        let h = hex_of(bytes);
        let p = hex_of(bytes.drop_last());
        lemma_hex_char_not_colon(bytes.last() / 16);
        lemma_hex_char_not_colon(bytes.last() % 16);
        assert forall|i: int| 0 <= i < h.len() implies h[i] != ':' by {
            if i < p.len() {
                assert(h[i] == p[i]);
            } else if i == p.len() {
                assert(h[i] == hex_char_of(bytes.last() / 16));
            } else {
                assert(h[i] == hex_char_of(bytes.last() % 16));
            }
        }
    }
}

/// A stored credential built from a colon-free salt accepts exactly the
/// passcode it was built from under its own salt: the first colon is the
/// separator that was written, so the digest and salt parts are recovered
/// exactly.
pub proof fn lemma_credential_round_trip(passcode: Seq<char>, salt: Seq<char>)
    requires
        forall|i: int| 0 <= i < salt.len() ==> is_alphanumeric_char(#[trigger] salt[i]),
    ensures
        passcode_matches(stored_passcode_of(passcode, salt), passcode),
{
    let h = salted_hash_of(passcode, salt);
    let stored = stored_passcode_of(passcode, salt);
    lemma_hex_no_colon(sha256_of(encode_utf8(passcode + salt)));
    assert forall|j: int| 0 <= j < h.len() implies stored[j] != ':' by {
        assert(stored[j] == h[j]);
    }
    assert(stored[h.len() as int] == ':');
    assert(is_first_colon(stored, h.len() as int));
    let k = choose|k: int| is_first_colon(stored, k);
    lemma_first_colon_unique(stored, k, h.len() as int);
    assert(hash_part(stored) =~= h);
    assert(salt_part(stored) =~= salt);
}

} // verus!
