//! Sessions: the cookie that carries a session token, the hash stored for
//! it, and fresh identifiers.

use crate::error::ApiError;
use crate::text::{
    chars_eq, chars_of, concat2, copy_range, find_char, has_prefix, split_chars, split_on,
    split_once, string_from_chars, trim, trim_chars, views,
};
use vstd::prelude::*;
use vstd::string::*;

verus! {

/// A setup request: the first user's name and password.
pub struct SetupRequest {
    pub username: String,
    pub password: String,
}

/// A login request.
pub struct LoginRequest {
    pub username: String,
    pub password: String,
}

/// The answer naming the signed-in user.
pub struct MeResponse {
    pub username: String,
}

/// Whether setup is still needed and who, if anyone, is signed in.
pub struct AuthStatusResponse {
    pub setup_required: bool,
    pub authenticated: bool,
    pub username: Option<String>,
}

/// The identifier of a login session.
pub struct SessionId(pub String);

/// A lower-case hexadecimal digit.
pub open spec fn lower_hex_digit(c: char) -> bool {
    ('0' <= c <= '9') || ('a' <= c <= 'f')
}

/// The text of a random (version 4) UUID in its hyphenated lower-case form:
/// 36 characters, hyphens at 8, 13, 18 and 23, hexadecimal digits elsewhere,
/// version digit `4` at 14 and a variant digit `8`, `9`, `a` or `b` at 19.
pub open spec fn uuid_v4_text(s: Seq<char>) -> bool {
    &&& s.len() == 36
    &&& forall|i: int|
        0 <= i < 36 ==> if i == 8 || i == 13 || i == 18 || i == 23 {
            #[trigger] s[i] == '-'
        } else {
            lower_hex_digit(s[i])
        }
    &&& s[14] == '4'
    &&& (s[19] == '8' || s[19] == '9' || s[19] == 'a' || s[19] == 'b')
}

/// A fresh random UUID as text.
/// Calls `uuid::Uuid::new_v4` and formats it with `Display`, which writes
/// the hyphenated lower-case form; the value is random, so only its shape
/// is stated.
#[verifier::external_body]
pub(crate) fn random_uuid_text() -> (s: String)
    ensures
        uuid_v4_text(s@),
{
    uuid::Uuid::new_v4().to_string()
}

/// A fresh random identifier, as the panel gives session tokens, users and
/// server cards: the hyphenated text of a random UUID.
pub fn fresh_id() -> (s: String)
    ensures
        uuid_v4_text(s@),
{
    random_uuid_text()
}

impl SessionId {
    /// A fresh random session identifier.
    pub fn new() -> (id: SessionId)
        ensures
            uuid_v4_text(id.0@),
    {
        SessionId(random_uuid_text())
    }
}

/// A fresh random session identifier.
pub fn new_session_id() -> (id: SessionId)
    ensures
        uuid_v4_text(id.0@),
{
    SessionId::new()
}

/// The SHA-256 digest of a byte sequence.
pub uninterp spec fn sha256_of(data: Seq<u8>) -> Seq<u8>;

/// The SHA-256 digest of `data`.
/// Calls `sha2::Sha256::digest`; the digest is named by `sha256_of`, and it
/// is 32 bytes long.
#[verifier::external_body]
fn sha256(data: &[u8]) -> (d: Vec<u8>)
    ensures
        d@ == sha256_of(data@),
        d@.len() == 32,
{
    <sha2::Sha256 as sha2::Digest>::digest(data).to_vec()
}

/// The lower-case hexadecimal digit for a value below 16.
pub open spec fn hex_char(n: int) -> char {
    if n < 10 {
        (('0' as u32) + n) as char
    } else {
        (('a' as u32) + n - 10) as char
    }
}

/// Bytes in lower-case hexadecimal, two digits per byte, high half first.
pub open spec fn hex_of(data: Seq<u8>) -> Seq<char>
    decreases data.len(),
{
    if data.len() == 0 {
        Seq::empty()
    } else {
        hex_of(data.drop_last()) + seq![
            hex_char((data.last() / 16) as int),
            hex_char((data.last() % 16) as int),
        ]
    }
}

/// `data` in lower-case hexadecimal.
/// Calls `hex::encode`, which writes each byte as two lower-case digits,
/// the high half first.
#[verifier::external_body]
fn hex_lower(data: &[u8]) -> (s: String)
    ensures
        s@ == hex_of(data@),
{
    hex::encode(data)
}

/// The value stored for a session token: the SHA-256 digest of its UTF-8
/// bytes in lower-case hexadecimal.
pub fn token_hash(token: &str) -> (h: String)
    ensures
        h@ == hex_of(sha256_of(token.spec_bytes())),
{
    let digest = sha256(token.as_bytes());
    hex_lower(digest.as_slice())
}

/// The token found among cookies `segs` (the `;`-separated parts of a
/// `Cookie` header): the trimmed value of the first part whose trimmed name
/// is `name`. A part without `=` before a match ends the search with none.
pub open spec fn token_in(segs: Seq<Seq<char>>, name: Seq<char>) -> Option<Seq<char>>
    decreases segs.len(),
{
    if segs.len() == 0 {
        None
    } else {
        match split_once(trim(segs[0]), '=') {
            None => None,
            Some(kv) => if trim(kv.0) == name {
                Some(trim(kv.1))
            } else {
                token_in(segs.drop_first(), name)
            },
        }
    }
}

/// Reads the session token named `cookie_name` from a `Cookie` header.
pub fn extract_token(cookie_header: Option<&str>, cookie_name: &str) -> (r: Option<String>)
    ensures
        match cookie_header {
            None => r is None,
            Some(h) => match token_in(split_on(h@, ';'), cookie_name@) {
                Some(t) => (r matches Some(s) && s@ == t),
                None => r is None,
            },
        },
{
    let header = match cookie_header {
        Some(h) => h,
        None => return None,
    };
    let name = chars_of(cookie_name);
    let text = chars_of(header);
    let segs = split_chars(text.as_slice(), ';');
    let ghost all = views(segs@);
    let mut i: usize = 0;
    assert(all.subrange(0, all.len() as int) =~= all);
    while i < segs.len()
        invariant
            all == views(segs@),
            cookie_header == Some(header),
            name@ == cookie_name@,
            all == split_on(header@, ';'),
            i <= segs@.len(),
            token_in(all.subrange(i as int, all.len() as int), name@) == token_in(all, name@),
        decreases segs@.len() - i,
    {
        let ghost rest = all.subrange(i as int, all.len() as int);
        assert(rest.drop_first() =~= all.subrange(i + 1, all.len() as int));
        assert(rest[0] == segs[i as int]@);
        let t = trim_chars(segs[i].as_slice());
        let tlen: usize = t.len();
        match find_char(t.as_slice(), '=') {
            None => return None,
            Some(p) => {
                let k = copy_range(t.as_slice(), 0, p);
                let v = copy_range(t.as_slice(), p + 1, tlen);
                let kt = trim_chars(k.as_slice());
                if chars_eq(kt.as_slice(), name.as_slice()) {
                    let vt = trim_chars(v.as_slice());
                    return Some(string_from_chars(vt.as_slice()));
                }
            },
        }
        i += 1;
    }
    None
}

/// The attribute appended to cookies: `; Secure` when the panel is served
/// over HTTPS.
pub fn cookie_suffix(public_url: &str) -> (s: &'static str)
    ensures
        s@ == if has_prefix(public_url@, "https://"@) {
            "; Secure"@
        } else {
            ""@
        },
{
    let url = chars_of(public_url);
    let p = chars_of("https://");
    if crate::text::starts_with(url.as_slice(), p.as_slice()) {
        "; Secure"
    } else {
        ""
    }
}

/// The `Set-Cookie` value that hands a session token to the browser.
pub fn session_cookie(cookie_name: &str, token: &str, suffix: &str) -> (s: String)
    ensures
        s@ == cookie_name@ + "="@ + token@ + "; HttpOnly; Path=/; SameSite=Lax"@ + suffix@,
{
    let mut s = cookie_name.to_owned();
    s.append("=");
    s.append(token);
    s.append("; HttpOnly; Path=/; SameSite=Lax");
    s.append(suffix);
    s
}

/// The `Set-Cookie` value that removes the session cookie.
pub fn cleared_cookie(cookie_name: &str, suffix: &str) -> (s: String)
    ensures
        s@ == cookie_name@ + "=; Max-Age=0; Path=/; SameSite=Lax"@ + suffix@,
{
    let mut s = cookie_name.to_owned();
    s.append("=; Max-Age=0; Path=/; SameSite=Lax");
    s.append(suffix);
    s
}

/// Setup is needed while no user exists.
pub fn setup_required(user_count: i64) -> (b: bool)
    ensures
        b == (user_count == 0),
{
    user_count == 0
}

/// Whether the first user may be created: only while setup is still
/// required; afterwards setup is forbidden.
pub fn setup_check(setup_required: bool) -> (r: Result<(), ApiError>)
    ensures
        setup_required ==> r is Ok,
        !setup_required ==> r matches Err(ApiError::Forbidden),
{
    if setup_required {
        Ok(())
    } else {
        Err(ApiError::Forbidden)
    }
}

/// The user a login signs in: the one stored under the name, when there is
/// one and the password matches its stored hash; any other login is
/// unauthorized.
pub fn login_check(user_id: Option<String>, password_matches: bool) -> (r: Result<String, ApiError>)
    ensures
        match user_id {
            Some(id) => if password_matches {
                r == Ok::<String, ApiError>(id)
            } else {
                r matches Err(ApiError::Unauthorized)
            },
            None => r matches Err(ApiError::Unauthorized),
        },
{
    match user_id {
        Some(id) => {
            if password_matches {
                Ok(id)
            } else {
                Err(ApiError::Unauthorized)
            }
        },
        None => Err(ApiError::Unauthorized),
    }
}

/// The signed-in user of a request: its session token must be present and
/// belong to a live session; otherwise the request is unauthorized.
pub fn require_user(token: Option<String>, username: Option<String>) -> (r: Result<String, ApiError>)
    ensures
        match (token, username) {
            (Some(_), Some(u)) => r == Ok::<String, ApiError>(u),
            _ => r matches Err(ApiError::Unauthorized),
        },
{
    match (token, username) {
        (Some(_), Some(u)) => Ok(u),
        _ => Err(ApiError::Unauthorized),
    }
}

/// The status answer for the given setup state and signed-in user.
pub fn auth_status(setup_required: bool, username: Option<String>) -> (r: AuthStatusResponse)
    ensures
        r.setup_required == setup_required,
        r.authenticated == (username is Some),
        r.username == username,
{
    let authenticated = username.is_some();
    AuthStatusResponse { setup_required, authenticated, username }
}

} // verus!

verus! {

/// The session cookie the panel sets is read back: a `Cookie` header that
/// holds `name=token` gives that token, when the name is not blank and
/// neither holds `;`, the name holds no `=`, and neither has white space at
/// its ends.
pub proof fn lemma_cookie_round_trip(name: Seq<char>, token: Seq<char>)
    requires
        name.len() > 0,
        trim(name) == name,
        trim(token) == token,
        !name.contains('='),
        !name.contains(';'),
        !token.contains(';'),
    ensures
        token_in(split_on(name + "="@ + token, ';'), name) == Some(token),
{
    reveal_strlit("=");
    let s = name + "="@ + token;
    let k = name.len() as int;
    assert(s[k] == '=');
    assert(!s.contains(';')) by {
        if s.contains(';') {
            let i = choose|i: int| 0 <= i < s.len() && s[i] == ';';
            if i < k {
                assert(name[i] == ';');
            } else if i > k {
                assert(token[i - k - 1] == ';');
            }
        }
    }
    crate::paths::lemma_split_plain(s, ';', Seq::empty());
    assert(Seq::<char>::empty() + s =~= s);
    let segs = split_on(s, ';');
    assert(segs == seq![s]);
    crate::text::lemma_trimmed_ends(name);
    if token.len() > 0 {
        crate::text::lemma_trimmed_ends(token);
        assert(s.last() == token.last());
    } else {
        assert(s.last() == '=');
    }
    assert(s[0] == name[0]);
    crate::text::lemma_trim_noop(s);
    assert(exists|i: int| 0 <= i < s.len() && s[i] == '=');
    let f = choose|i: int| 0 <= i < s.len() && s[i] == '=' && forall|j: int| 0 <= j < i ==> s[j] != '=';
    assert(forall|j: int| 0 <= j < k ==> s[j] != '=') by {
        assert forall|j: int| 0 <= j < k implies s[j] != '=' by {
            assert(s[j] == name[j]);
        }
    }
    assert(f == k) by {
        if f < k {
            assert(s[f] == name[f]);
        }
    }
    assert(crate::text::find(s, '=') == Some(k));
    assert(s.subrange(0, k) =~= name);
    assert(s.subrange(k + 1, s.len() as int) =~= token);
    assert(segs.drop_first() =~= Seq::<Seq<char>>::empty());
}

} // verus!
