//! Login-facing logic: verification of the HMAC-tagged error message that
//! the login form carries in its query string, and the decision a login
//! attempt turns into.

use vstd::prelude::*;

use hmac::Mac;
use vstd::string::StringExecFns;
use vstd::string::StringSliceAdditionalSpecFns;
use vstd::utf8::encode_utf8;

verus! {

/// Secret key for the HMAC tag protecting the login error message.
pub struct HmacSecret(pub String);

pub open spec fn is_hex_char(c: char) -> bool {
    ('0' <= c && c <= '9') || ('a' <= c && c <= 'f') || ('A' <= c && c <= 'F')
}

pub open spec fn hex_val(c: char) -> u8 {
    if '0' <= c && c <= '9' {
        (c as u8 - 48) as u8
    } else if 'a' <= c && c <= 'f' {
        (c as u8 - 97 + 10) as u8
    } else {
        (c as u8 - 65 + 10) as u8
    }
}

/// Whether a string is a well-formed hex encoding: an even number of hex
/// digits, upper or lower case.
pub open spec fn is_hex_string(s: Seq<char>) -> bool {
    s.len() % 2 == 0 && forall|i: int| 0 <= i < s.len() ==> is_hex_char(#[trigger] s[i])
}

/// The bytes a well-formed hex string denotes, two digits per byte.
pub open spec fn hex_decoded(s: Seq<char>) -> Seq<u8>
    decreases s.len(),
{
    if s.len() < 2 {
        Seq::empty()
    } else {
        seq![(16 * hex_val(s[0]) + hex_val(s[1])) as u8] + hex_decoded(s.skip(2))
    }
}

pub open spec fn hex_digit(d: u8) -> char {
    if d < 10 {
        (d + 48) as char
    } else {
        (d + 97 - 10) as char
    }
}

/// The lower-case hex encoding of a byte string.
pub open spec fn hex_encoded(b: Seq<u8>) -> Seq<char>
    decreases b.len(),
{
    if b.len() == 0 {
        Seq::empty()
    } else {
        seq![hex_digit(b[0] / 16), hex_digit(b[0] % 16)] + hex_encoded(b.drop_first())
    }
}

/// The HMAC-SHA-256 tag of a message under a key. The value is a function
/// of the two byte strings alone; it is given by this name rather than by
/// its pages-long definition, and nothing more is assumed of it.
pub uninterp spec fn hmac_sha256(key: Seq<u8>, msg: Seq<u8>) -> Seq<u8>;

pub open spec fn hex_digit_upper(d: u8) -> char {
    if d < 10 {
        (d + 48) as char
    } else {
        (d + 65 - 10) as char
    }
}

/// The bytes percent-encoding keeps as they are: ASCII alphanumerics and
/// `-`, `.`, `_`, `~`.
pub open spec fn url_unreserved(b: u8) -> bool {
    (48 <= b && b <= 57) || (65 <= b && b <= 90) || (97 <= b && b <= 122) || b == 45 || b == 46
        || b == 95 || b == 126
}

pub open spec fn url_encoded_byte(b: u8) -> Seq<char> {
    if url_unreserved(b) {
        seq![b as char]
    } else {
        seq!['%', hex_digit_upper(b / 16), hex_digit_upper(b % 16)]
    }
}

/// The percent-encoding of a byte string, byte by byte.
pub open spec fn url_encoded(bs: Seq<u8>) -> Seq<char>
    decreases bs.len(),
{
    if bs.len() == 0 {
        Seq::empty()
    } else {
        url_encoded_byte(bs[0]) + url_encoded(bs.drop_first())
    }
}

/// Relies on hex::decode: succeeds exactly on an even number of hex digits
/// (either case) and returns the denoted bytes.
#[verifier::external_body]
fn hex_decode(s: &str) -> (r: Result<Vec<u8>, ()>)
    ensures
        r is Ok <==> is_hex_string(s@),
        r matches Ok(v) ==> v@ == hex_decoded(s@),
{
    match hex::decode(s) {
        Ok(v) => Ok(v),
        Err(_) => Err(()),
    }
}

/// Relies on hex::encode: two lower-case digits per byte.
#[verifier::external_body]
fn hex_encode(b: &Vec<u8>) -> (r: String)
    ensures
        r@ == hex_encoded(b@),
{
    hex::encode(b)
}

/// Relies on hmac::Hmac with sha2::Sha256: the tag of `msg` under `key`,
/// a function of the two byte strings alone. HMAC accepts keys of any
/// length, so the construction cannot fail.
#[verifier::external_body]
fn hmac_tag(key: &str, msg: &str) -> (r: Vec<u8>)
    ensures
        r@ == hmac_sha256(key.spec_bytes(), msg.spec_bytes()),
{
    let mut mac = hmac::Hmac::<sha2::Sha256>::new_from_slice(key.as_bytes()).unwrap();
    mac.update(msg.as_bytes());
    mac.finalize().into_bytes().to_vec()
}

/// Relies on urlencoding::encode: every UTF-8 byte except the unreserved
/// ones becomes `%` and two upper-case hex digits.
#[verifier::external_body]
fn url_encode(s: &str) -> (r: String)
    ensures
        r@ == url_encoded(s.spec_bytes()),
{
    urlencoding::encode(s).into_owned()
}

fn eq_bytes(a: &Vec<u8>, b: &Vec<u8>) -> (r: bool)
    ensures
        r <==> a@ == b@,
{
    if a.len() != b.len() {
        proof {
            assert(a@.len() != b@.len());
        }
        return false;
    }
    let n = a.len();
    let mut i: usize = 0;
    while i < n
        invariant
            n == a@.len(),
            n == b@.len(),
            i <= n,
            forall|j: int| 0 <= j < i ==> a@[j] == b@[j],
        decreases n - i,
    {
        if a[i] != b[i] {
            return false;
        }
        i += 1;
    }
    proof {
        assert(a@ =~= b@);
    }
    true
}

/// The query string whose tag is computed: the percent-encoded error
/// message behind `error=`.
pub open spec fn signed_message(error: Seq<char>) -> Seq<char> {
    "error="@ + url_encoded(encode_utf8(error))
}

/// The tag expected for an error message under a secret.
pub open spec fn expected_tag(secret: Seq<char>, error: Seq<char>) -> Seq<u8> {
    hmac_sha256(encode_utf8(secret), encode_utf8(signed_message(error)))
}

/// The hex-encoded tag for an error message, as the login redirect embeds
/// it in the query string it builds.
pub fn error_tag(secret: &HmacSecret, error: &str) -> (r: String)
    ensures
        r@ == hex_encoded(expected_tag(secret.0@, error@)),
{
    let encoded = url_encode(error);
    let mut msg = "error=".to_owned();
    msg.append(encoded.as_str());
    proof {
        assert(msg@ == signed_message(error@));
    }
    let tag = hmac_tag(secret.0.as_str(), msg.as_str());
    hex_encode(&tag)
}

/// Why a tagged query string was rejected.
#[derive(Debug)]
pub enum VerifyError {
    /// The tag is not a well-formed hex string.
    InvalidTagEncoding,
    /// The tag decodes, but is not the tag of this error message under
    /// this secret.
    TagMismatch,
}

/// Mathematical model of the tagged query parameters.
#[verifier::ext_equal]
pub struct QueryV {
    pub error: Seq<char>,
    pub tag: Seq<char>,
}

/// The query parameters of the login form: an error message to display and
/// the HMAC tag vouching that this server produced it.
pub struct QueryParam {
    error: String,
    tag: String,
}

impl View for QueryParam {
    type V = QueryV;

    closed spec fn view(&self) -> QueryV {
        QueryV { error: self.error@, tag: self.tag@ }
    }
}

impl QueryParam {
    pub fn new(error: String, tag: String) -> (r: Self)
        ensures
            r@ == (QueryV { error: error@, tag: tag@ }),
    {
        QueryParam { error, tag }
    }

    /// Accept the error message exactly when the tag is the well-formed
    /// hex encoding of this message's tag under the secret.
    pub fn verify(self, secret: &HmacSecret) -> (r: Result<String, VerifyError>)
        ensures
            match r {
                Result::Ok(e) => is_hex_string(self@.tag) && hex_decoded(self@.tag)
                    == expected_tag(secret.0@, self@.error) && e@ == self@.error,
                Result::Err(VerifyError::InvalidTagEncoding) => !is_hex_string(self@.tag),
                Result::Err(VerifyError::TagMismatch) => is_hex_string(self@.tag) && hex_decoded(
                    self@.tag,
                ) != expected_tag(secret.0@, self@.error),
            },
    {
        let decoded = hex_decode(self.tag.as_str());
        match decoded {
            Result::Err(_) => Result::Err(VerifyError::InvalidTagEncoding),
            Result::Ok(tag_bytes) => {
                let encoded = url_encode(self.error.as_str());
                let mut msg = "error=".to_owned();
                msg.append(encoded.as_str());
                proof {
                    assert(msg@ == signed_message(self@.error));
                }
                let expected = hmac_tag(secret.0.as_str(), msg.as_str());
                if eq_bytes(&tag_bytes, &expected) {
                    Result::Ok(self.error)
                } else {
                    Result::Err(VerifyError::TagMismatch)
                }
            },
        }
    }
}

/// Login failure, with the underlying cause's description.
pub enum LoginError {
    /// The credentials were rejected.
    AuthError(String),
    /// Anything else went wrong while checking them.
    UnexpectedError(String),
}

impl LoginError {
    /// The status such a failure answers with: a redirect back to the
    /// login form.
    pub fn status_code(&self) -> (r: u16)
        ensures
            r == 303,
    {
        303
    }

    /// The message shown to the user.
    pub fn message(&self) -> (r: String)
        ensures
            (self is AuthError) ==> r@ == "Authentication failed"@,
            (self is UnexpectedError) ==> r@ == "Something went wrong"@,
    {
        match self {
            LoginError::AuthError(_) => "Authentication failed".to_owned(),
            LoginError::UnexpectedError(_) => "Something went wrong".to_owned(),
        }
    }
}

/// How the credential check ended; the check itself is a collaborator that
/// hands this verdict in.
pub enum AuthOutcome {
    /// The credentials belong to this user id.
    Authenticated(u64),
    /// The credentials were rejected, with the cause's description.
    InvalidCredentials(String),
    /// The check itself failed, with the cause's description.
    UnexpectedFailure(String),
}

/// What a login attempt answers: a redirect, and the flash message carried
/// to the login form when the attempt failed.
pub struct LoginResponse {
    pub status: u16,
    pub location: String,
    pub flash_error: Option<String>,
}

/// Decide a login attempt: success redirects home; any failure redirects
/// back to the login form carrying the failure's message.
pub fn login_decision(outcome: AuthOutcome) -> (r: LoginResponse)
    ensures
        r.status == 303,
        (outcome is Authenticated) ==> r.location@ == "/"@ && r.flash_error is None,
        (outcome is InvalidCredentials) ==> r.location@ == "/login"@ && (r.flash_error
            matches Option::Some(m) && m@ == "Authentication failed"@),
        (outcome is UnexpectedFailure) ==> r.location@ == "/login"@ && (r.flash_error
            matches Option::Some(m) && m@ == "Something went wrong"@),
{
    match outcome {
        AuthOutcome::Authenticated(_) => LoginResponse {
            status: 303,
            location: "/".to_owned(),
            flash_error: None,
        },
        AuthOutcome::InvalidCredentials(source) => {
            let err = LoginError::AuthError(source);
            let msg = err.message();
            LoginResponse { status: 303, location: "/login".to_owned(), flash_error: Some(msg) }
        },
        AuthOutcome::UnexpectedFailure(source) => {
            let err = LoginError::UnexpectedError(source);
            let msg = err.message();
            LoginResponse { status: 303, location: "/login".to_owned(), flash_error: Some(msg) }
        },
    }
}

} // verus!
