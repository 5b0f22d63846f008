//! Stored passwords. A password is kept as `sha256$<salt>$<digest>`: a
//! fresh random salt, and the SHA-256 digest of the salt followed by the
//! password, in lower-case hexadecimal.

use crate::auth::{hex_of, random_uuid_text, sha256_of, token_hash, uuid_v4_text};
use crate::error::{bad_request_with, ApiError};
use crate::text::{chars_of, concat2, concat3, copy_range, find_char, has_prefix, split_once, strip_prefix_chars};
use vstd::prelude::*;
use vstd::utf8::encode_utf8;

verus! {

/// The digest kept for `password` under `salt`.
pub open spec fn digest_of(salt: Seq<char>, password: Seq<char>) -> Seq<char> {
    hex_of(sha256_of(encode_utf8(salt + password)))
}

/// The stored form of `password` under `salt`.
pub open spec fn stored_form(salt: Seq<char>, password: Seq<char>) -> Seq<char> {
    "sha256$"@ + salt + "$"@ + digest_of(salt, password)
}

/// The salt and digest of a stored password: what follows `sha256$`, split
/// at its first `$`.
pub open spec fn stored_parts(stored: Seq<char>) -> Option<(Seq<char>, Seq<char>)> {
    if has_prefix(stored, "sha256$"@) {
        split_once(stored.subrange(7, stored.len() as int), '$')
    } else {
        None
    }
}

/// The digest of `password` under `salt`.
pub fn password_digest(salt: &str, password: &str) -> (d: String)
    ensures
        d@ == digest_of(salt@, password@),
{
    let joined = concat2(salt, password);
    token_hash(joined.as_str())
}

/// The stored form of a new password, under a fresh random salt; an empty
/// password is refused.
pub fn hash_password(password: &str) -> (r: Result<String, ApiError>)
    ensures
        password@.len() == 0 ==> (r matches Err(e) && bad_request_with(
            e,
            "password must not be empty"@,
        )),
        password@.len() > 0 ==> (r matches Ok(s) && exists|salt: Seq<char>|
            uuid_v4_text(salt) && s@ == stored_form(salt, password@)),
{
    let p = chars_of(password);
    if p.len() == 0 {
        return Err(ApiError::bad_request("password must not be empty".to_owned()));
    }
    let salt = random_uuid_text();
    let digest = password_digest(salt.as_str(), password);
    let mut stored = concat3("sha256$", salt.as_str(), "$");
    stored.append(digest.as_str());
    proof {
        assert(uuid_v4_text(salt@));
    }
    Ok(stored)
}

/// Whether two texts are equal, looking at every character of equal-length
/// texts.
fn same_text(a: &[char], b: &[char]) -> (r: bool)
    ensures
        r == (a@ == b@),
{
    if a.len() != b.len() {
        return false;
    }
    let mut same = true;
    let mut i: usize = 0;
    while i < a.len()
        invariant
            a@.len() == b@.len(),
            i <= a@.len(),
            same == forall|j: int| 0 <= j < i ==> a@[j] == b@[j],
        decreases a@.len() - i,
    {
        if a[i] != b[i] {
            same = false;
        }
        i += 1;
    }
    if same {
        assert(a@ =~= b@);
    }
    same
}

/// Whether `password` is the one `stored` was made from: `stored` must be
/// in the stored form, and its digest must be that of `password` under its
/// salt.
pub fn verify_password(stored: &str, password: &str) -> (b: bool)
    ensures
        b == match stored_parts(stored@) {
            Some((salt, digest)) => digest == digest_of(salt, password@),
            None => false,
        },
{
    proof {
        reveal_strlit("sha256$");
    }
    let s = chars_of(stored);
    let rest = match strip_prefix_chars(s.as_slice(), "sha256$") {
        Some(rest) => rest,
        None => return false,
    };
    let n: usize = rest.len();
    let k = match find_char(rest.as_slice(), '$') {
        Some(k) => k,
        None => return false,
    };
    let salt = copy_range(rest.as_slice(), 0, k);
    let digest = copy_range(rest.as_slice(), k + 1, n);
    let salt_text = crate::text::string_from_chars(salt.as_slice());
    let expected = password_digest(salt_text.as_str(), password);
    let e = chars_of(expected.as_str());
    same_text(digest.as_slice(), e.as_slice())
}

} // verus!

verus! {

/// A stored password verifies against the password it was made from: the
/// salt of the stored form is read back whole when it holds no `$`, as a
/// random UUID does not.
pub proof fn lemma_password_round_trip(salt: Seq<char>, password: Seq<char>)
    requires
        !salt.contains('$'),
    ensures
        stored_parts(stored_form(salt, password)) == Some((salt, digest_of(salt, password))),
{
    reveal_strlit("sha256$");
    reveal_strlit("$");
    let d = digest_of(salt, password);
    let s = stored_form(salt, password);
    let rest = salt + "$"@ + d;
    assert(s =~= "sha256$"@ + rest);
    assert(has_prefix(s, "sha256$"@)) by {
        assert(s.subrange(0, 7) =~= "sha256$"@);
    }
    assert(s.subrange(7, s.len() as int) =~= rest);
    let k = salt.len() as int;
    assert(rest[k] == '$');
    assert forall|j: int| 0 <= j < k implies rest[j] != '$' by {
        assert(rest[j] == salt[j]);
        if salt[j] == '$' {
            assert(salt.contains('$'));
        }
    }
    let f = choose|i: int| 0 <= i < rest.len() && rest[i] == '$' && forall|j: int| 0 <= j < i ==> rest[j] != '$';
    assert(f == k) by {
        if f < k {
            assert(rest[f] != '$');
        }
    }
    assert(crate::text::find(rest, '$') == Some(k));
    assert(rest.subrange(0, k) =~= salt);
    assert(rest.subrange(k + 1, rest.len() as int) =~= d);
}

/// Every password that `hash_password` stores verifies against the same
/// password: its random salt holds no `$`, so the stored form reads back as
/// that salt and the digest of the password under it.
pub proof fn lemma_stored_passwords_verify(salt: Seq<char>, password: Seq<char>)
    requires
        uuid_v4_text(salt),
    ensures
        stored_parts(stored_form(salt, password)) == Some((salt, digest_of(salt, password))),
{
    assert(!salt.contains('$')) by {
        if salt.contains('$') {
            let i = choose|i: int| 0 <= i < salt.len() && salt[i] == '$';
            assert(0 <= i < 36);
        }
    }
    lemma_password_round_trip(salt, password);
}

} // verus!
