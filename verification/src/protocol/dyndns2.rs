use vstd::prelude::*;
use vstd::utf8::{decode_utf8, encode_utf8, valid_utf8};

use crate::credential::Credential;
use crate::ip::{utf8_error_message, utf8_error_of, utf8_text};
use crate::ipaddr_source::interface::{occurs_at, occurs_at_exec};

verus! {

/// The update protocol that dyn.com introduced and many providers speak.
#[derive(Debug, Clone)]
pub struct DynDns2 {
    server_url: String,
}

/// Why the server did not take an update.
#[derive(Debug, Clone, PartialEq, Eq)]
pub enum UpdateFailure {
    /// The reply's HTTP status is not a success.
    Status(u16),
    /// The reply's body is not UTF-8 text; the text of the decoding error.
    NotText(String),
    /// The reply's body does not report the address as set.
    Rejected(String),
}

/// The base64 digit for a value below 64 (standard alphabet).
pub open spec fn base64_digit(v: int) -> char {
    if v < 26 {
        (65 + v) as char
    } else if v < 52 {
        (97 + v - 26) as char
    } else if v < 62 {
        (48 + v - 52) as char
    } else if v == 62 {
        '+'
    } else {
        '/'
    }
}

/// The standard, padded base64 encoding of bytes: each group of three bytes
/// becomes four digits; a last group of one or two bytes is padded with `=`.
pub open spec fn base64_standard(b: Seq<u8>) -> Seq<char>
    decreases b.len(),
{
    if b.len() == 0 {
        seq![]
    } else if b.len() == 1 {
        seq![base64_digit((b[0] / 4) as int), base64_digit((b[0] % 4) * 16), '=', '=']
    } else if b.len() == 2 {
        seq![
            base64_digit((b[0] / 4) as int),
            base64_digit((b[0] % 4) * 16 + b[1] / 16),
            base64_digit((b[1] % 16) * 4),
            '=',
        ]
    } else {
        seq![
            base64_digit((b[0] / 4) as int),
            base64_digit((b[0] % 4) * 16 + b[1] / 16),
            base64_digit((b[1] % 16) * 4 + b[2] / 64),
            base64_digit((b[2] % 64) as int),
        ] + base64_standard(b.skip(3))
    }
}

/// Encodes the UTF-8 bytes of a text with `base64::encode`.
/// Trusted: the crate's source encodes with the `STANDARD` configuration,
/// the standard alphabet with `=` padding.
#[verifier::external_body]
fn base64_encode(text: &str) -> (res: String)
    ensures
        res@ == base64_standard(encode_utf8(text@)),
{
    base64::encode(text)
}

/// Whether hyper's URI parser (`hyper::Uri::from_str`) accepts a text.
pub uninterp spec fn spec_uri_parses(text: Seq<char>) -> bool;

/// Parses a text with `hyper::Uri::from_str` and tells whether that succeeded.
/// Trusted: the result is `spec_uri_parses` of the text.
#[verifier::external_body]
fn uri_parses(text: &str) -> (res: bool)
    ensures
        res == spec_uri_parses(text@),
{
    text.parse::<hyper::Uri>().is_ok()
}

/// The URL that sets `domain_name` to the address written `ip_text`, on the
/// server at `server_url`.
pub open spec fn update_url_text(server_url: Seq<char>, domain_name: Seq<char>, ip_text: Seq<char>) -> Seq<char> {
    server_url + "/nic/update?hostname="@ + domain_name + "&myip="@ + ip_text
}

/// An HTTP status in the success class `200..=299`.
pub open spec fn is_success_status(status: u16) -> bool {
    200 <= status <= 299
}

/// The bytes of `"good "`.
pub open spec fn good_word() -> Seq<u8> {
    seq![103u8, 111, 111, 100, 32]
}

/// The bytes of `"nochg "`.
pub open spec fn nochg_word() -> Seq<u8> {
    seq![110u8, 111, 99, 104, 103, 32]
}

/// A reply body that reports the address as set, or as already set.
pub open spec fn body_confirms(body: Seq<u8>) -> bool {
    occurs_at(body, nochg_word(), 0) || occurs_at(body, good_word(), 0)
}

impl DynDns2 {
    /// The base URL of the server.
    pub closed spec fn spec_server_url(&self) -> Seq<char> {
        self.server_url@
    }

    /// A client of the server at `server_url`.
    pub fn new(server_url: &str) -> (res: DynDns2)
        ensures
            res.spec_server_url() == server_url@,
    {
        DynDns2 { server_url: server_url.to_owned() }
    }

    /// The base URL of the server.
    pub fn server_url(&self) -> (res: &str)
        ensures
            res@ == self.spec_server_url(),
    {
        self.server_url.as_str()
    }

    /// The URL that sets `domain_name` to the address written `ip_text`.
    pub fn update_url(&self, domain_name: &str, ip_text: &str) -> (res: String)
        ensures
            res@ == update_url_text(self.spec_server_url(), domain_name@, ip_text@),
    {
        let mut url = self.server_url.clone();
        url.append("/nic/update?hostname=");
        url.append(domain_name);
        url.append("&myip=");
        url.append(ip_text);
        url
    }

    /// The value of the `Authorization` header for an account: HTTP basic
    /// authentication of `username:password`.
    pub fn authorization(cred: &Credential) -> (res: String)
        ensures
            res@ == "Basic "@ + base64_standard(encode_utf8(cred.username@ + ":"@ + cred.password@)),
    {
        let mut pair = cred.username.clone();
        pair.append(":");
        pair.append(cred.password.as_str());
        let mut res = String::from_str("Basic ");
        let encoded = base64_encode(pair.as_str());
        res.append(encoded.as_str());
        res
    }

    /// The URL of the update request, where hyper accepts it as a URI; `None`
    /// where it does not (then no request is made).
    pub fn update_request_url(&self, domain_name: &str, ip_text: &str) -> (res: Option<String>)
        ensures
            res is Some <==> spec_uri_parses(update_url_text(self.spec_server_url(), domain_name@, ip_text@)),
            res matches Some(u) ==> u@ == update_url_text(self.spec_server_url(), domain_name@, ip_text@),
    {
        let url = self.update_url(domain_name, ip_text);
        if uri_parses(url.as_str()) {
            Some(url)
        } else {
            None
        }
    }

    /// Whether a reply confirms the update: its status must be a success, its
    /// body UTF-8 text, and the text must begin with `"nochg "` or `"good "`.
    pub fn check_reply(status: u16, body: &[u8]) -> (res: Result<(), UpdateFailure>)
        ensures
            !is_success_status(status) ==> res == Err::<(), UpdateFailure>(UpdateFailure::Status(status)),
            is_success_status(status) && !valid_utf8(body@) ==> (res matches Err(UpdateFailure::NotText(text))
                && text@ == utf8_error_of(body@)),
            is_success_status(status) && valid_utf8(body@) && body_confirms(body@) ==> res is Ok,
            is_success_status(status) && valid_utf8(body@) && !body_confirms(body@) ==> (res matches Err(
                UpdateFailure::Rejected(text),
            ) && text@ == decode_utf8(body@)),
    {
        if status < 200 || status > 299 {
            return Err(UpdateFailure::Status(status));
        }
        let text = match utf8_text(body) {
            Ok(t) => t,
            Err((valid_up_to, error_len)) => {
                return Err(UpdateFailure::NotText(utf8_error_message(valid_up_to, error_len)));
            },
        };
        let nochg: Vec<u8> = vec![110u8, 111, 99, 104, 103, 32];
        let good: Vec<u8> = vec![103u8, 111, 111, 100, 32];
        let n = body.len();
        let confirmed_nochg = n >= 6 && occurs_at_exec(body, nochg.as_slice(), 0);
        let confirmed_good = n >= 5 && occurs_at_exec(body, good.as_slice(), 0);
        if confirmed_nochg || confirmed_good {
            Ok(())
        } else {
            Err(UpdateFailure::Rejected(text.to_owned()))
        }
    }
}


/// A success status is one whose hundreds digit is `2`.
pub proof fn law_success_status(status: u16)
    ensures
        is_success_status(status) <==> status / 100 == 2,
{
}

/// A reply body confirms the update exactly when it begins with the six
/// ASCII bytes `nochg ` or the five ASCII bytes `good `; so replies such as
/// `nohost`, `notfqdn`, `badauth`, `nochg` or `good` alone do not.
pub proof fn law_confirming_bodies(body: Seq<u8>)
    ensures
        body_confirms(body) <==> (body.len() >= 6 && body.take(6) == seq![110u8, 111, 99, 104, 103, 32]) || (
        body.len() >= 5 && body.take(5) == seq![103u8, 111, 111, 100, 32]),
{
    if body.len() >= 6 {
        assert(body.subrange(0, 6) =~= body.take(6));
    }
    if body.len() >= 5 {
        assert(body.subrange(0, 5) =~= body.take(5));
    }
}

/// The update URL is laid out as the server's URL, the path and query
/// `/nic/update?hostname=`, the host name, `&myip=` and the address text:
/// it begins with the server's URL, holds the host name right after the
/// 21 characters of the path, and ends with the address text.
pub proof fn law_update_url_layout(server_url: Seq<char>, domain_name: Seq<char>, ip_text: Seq<char>)
    ensures
        ({
            let u = update_url_text(server_url, domain_name, ip_text);
            let s = server_url.len() as int;
            let d = domain_name.len() as int;
            &&& u.len() == s + d + ip_text.len() + 27
            &&& u.take(s) == server_url
            &&& u.subrange(s, s + 21) == "/nic/update?hostname="@
            &&& u.subrange(s + 21, s + 21 + d) == domain_name
            &&& u.subrange(s + 21 + d, s + 27 + d) == "&myip="@
            &&& u.skip(s + 27 + d) == ip_text
        }),
{
    reveal_strlit("/nic/update?hostname=");
    reveal_strlit("&myip=");
    let u = update_url_text(server_url, domain_name, ip_text);
    let s = server_url.len() as int;
    let d = domain_name.len() as int;
    assert(u.take(s) =~= server_url);
    assert(u.subrange(s, s + 21) =~= "/nic/update?hostname="@);
    assert(u.subrange(s + 21, s + 21 + d) =~= domain_name);
    assert(u.subrange(s + 21 + d, s + 27 + d) =~= "&myip="@);
    assert(u.skip(s + 27 + d) =~= ip_text);
}


/// The base64 encoding of `n` bytes has `4 * ceil(n / 3)` digits, each from
/// the standard alphabet `A-Z`, `a-z`, `0-9`, `+`, `/` or the padding `=`.
pub proof fn law_base64_shape(b: Seq<u8>)
    ensures
        base64_standard(b).len() == 4 * ((b.len() + 2) / 3),
        forall|i: int| 0 <= i < base64_standard(b).len() ==> {
            let c = #[trigger] base64_standard(b)[i];
            ('A' <= c <= 'Z') || ('a' <= c <= 'z') || ('0' <= c <= '9') || c == '+' || c == '/' || c == '='
        },
    decreases b.len(),
{
    if b.len() >= 3 {
        law_base64_shape(b.skip(3));
        let head = seq![
            base64_digit((b[0] / 4) as int),
            base64_digit((b[0] % 4) * 16 + b[1] / 16),
            base64_digit((b[1] % 16) * 4 + b[2] / 64),
            base64_digit((b[2] % 64) as int),
        ];
        let tail = base64_standard(b.skip(3));
        assert(base64_standard(b) == head + tail);
        assert forall|i: int| 0 <= i < base64_standard(b).len() implies {
            let c = #[trigger] base64_standard(b)[i];
            ('A' <= c <= 'Z') || ('a' <= c <= 'z') || ('0' <= c <= '9') || c == '+' || c == '/' || c == '='
        } by {
            if i >= 4 {
                assert(base64_standard(b)[i] == tail[i - 4]);
            }
        }
    }
}

} // verus!
