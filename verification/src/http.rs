//! The Ludex server's HTTP API as text: where each call goes, how a resumed
//! download asks for the rest, and what a failed call tells the user.

use vstd::prelude::*;
use crate::text::{
    blank, chars_of, decimal, i64_to_decimal, is_blank, signed_decimal, string_of, u64_to_decimal,
};

verus! {

/// The string without trailing `/`s (`trim_end_matches('/')`).
pub open spec fn trim_slashes(s: Seq<char>) -> Seq<char>
    decreases s.len(),
{
    if s.len() > 0 && s.last() == '/' {
        trim_slashes(s.drop_last())
    } else {
        s
    }
}

pub fn trim_trailing_slashes(s: &str) -> (r: String)
    ensures
        r@ == trim_slashes(s@),
{
    let v = chars_of(s);
    let mut n = v.len();
    assert(v@.take(v.len() as int) =~= v@);
    while n > 0 && v[n - 1] == '/'
        invariant
            n <= v.len(),
            trim_slashes(v@) == trim_slashes(v@.take(n as int)),
        decreases n,
    {
        assert(v@.take(n as int).drop_last() =~= v@.take(n - 1));
        n -= 1;
    }
    assert(n > 0 ==> v@.take(n as int).last() == v@[n - 1]);
    let mut r: Vec<char> = Vec::new();
    let mut i: usize = 0;
    while i < n
        invariant
            i <= n <= v.len(),
            r@ == v@.take(i as int),
        decreases n - i,
    {
        r.push(v[i]);
        assert(v@.take(i as int + 1) =~= v@.take(i as int).push(v@[i as int]));
        i += 1;
    }
    string_of(r.as_slice())
}

/// Where and as whom the client talks to the server.
pub struct ServerEndpoint {
    pub base: String,
    pub user: String,
    pub pass: String,
}

impl ServerEndpoint {
    /// The base address is kept without trailing slashes.
    pub fn new(base: &str, user: &str, pass: &str) -> (s: ServerEndpoint)
        ensures
            s.base@ == trim_slashes(base@),
            s.user@ == user@,
            s.pass@ == pass@,
    {
        ServerEndpoint {
            base: trim_trailing_slashes(base),
            user: String::from_str(user),
            pass: String::from_str(pass),
        }
    }

    /// The address of an API path.
    pub fn url(&self, path: &str) -> (u: String)
        ensures
            u@ == self.base@ + "/api"@ + path@,
    {
        let mut u = self.base.clone();
        u.append("/api");
        u.append(path);
        u
    }
}

/// `/games/{slug}`
pub fn game_path(slug: &str) -> (p: String)
    ensures
        p@ == "/games/"@ + slug@,
{
    let mut p = String::from_str("/games/");
    p.append(slug);
    p
}

/// `/games/{slug}/cover`
pub fn cover_path(slug: &str) -> (p: String)
    ensures
        p@ == "/games/"@ + slug@ + "/cover"@,
{
    let mut p = String::from_str("/games/");
    p.append(slug);
    p.append("/cover");
    p
}

/// `/download/{slug}`
pub fn download_path(slug: &str) -> (p: String)
    ensures
        p@ == "/download/"@ + slug@,
{
    let mut p = String::from_str("/download/");
    p.append(slug);
    p
}

/// `/libraries/{id}`
pub fn library_path(id: i64) -> (p: String)
    ensures
        p@ == "/libraries/"@ + signed_decimal(id as int),
{
    let mut p = String::from_str("/libraries/");
    let d = i64_to_decimal(id);
    p.append(d.as_str());
    p
}

/// How a download asks for its bytes.
pub enum RangeRequest {
    /// From the start.
    Whole,
    /// A folder stream resumes with the query `skip=` this many bytes.
    Skip(String),
    /// A loose file resumes with this `Range` header.
    Range(String),
}

pub open spec fn range_request_of(offset: u64, is_tar: bool) -> Option<(bool, Seq<char>)> {
    if offset == 0 {
        None
    } else if is_tar {
        Some((true, decimal(offset as nat)))
    } else {
        Some((false, "bytes="@ + decimal(offset as nat) + "-"@))
    }
}

/// A resumed download asks for what follows `offset`: folder games by
/// `?skip=`, loose files by an HTTP `Range` header.
pub fn range_request(offset: u64, is_tar: bool) -> (r: RangeRequest)
    ensures
        match r {
            RangeRequest::Whole => range_request_of(offset, is_tar) is None,
            RangeRequest::Skip(s) => range_request_of(offset, is_tar) == Some((true, s@)),
            RangeRequest::Range(h) => range_request_of(offset, is_tar) == Some((false, h@)),
        },
{
    if offset == 0 {
        RangeRequest::Whole
    } else if is_tar {
        RangeRequest::Skip(u64_to_decimal(offset))
    } else {
        let mut h = String::from_str("bytes=");
        let d = u64_to_decimal(offset);
        h.append(d.as_str());
        h.append("-");
        RangeRequest::Range(h)
    }
}

/// The message for an HTTP status that is not a success.
pub open spec fn status_msg_of(code: u16) -> Seq<char> {
    if code == 401 {
        "Invalid username or password"@
    } else if code == 403 {
        "Access denied \u{2014} this needs an admin account"@
    } else if code == 404 {
        "Not found on server"@
    } else if code == 409 {
        "Already exists"@
    } else {
        "Server error ("@ + decimal(code as nat) + ")"@
    }
}

pub fn status_msg(code: u16) -> (s: String)
    ensures
        s@ == status_msg_of(code),
{
    match code {
        401 => String::from_str("Invalid username or password"),
        403 => String::from_str("Access denied \u{2014} this needs an admin account"),
        404 => String::from_str("Not found on server"),
        409 => String::from_str("Already exists"),
        c => {
            let mut s = String::from_str("Server error (");
            let d = u64_to_decimal(c as u64);
            s.append(d.as_str());
            s.append(")");
            s
        },
    }
}

/// A failure to reach the server.
pub fn net_err(shown: &str) -> (s: String)
    ensures
        s@ == "Network error: "@ + shown@,
{
    let mut s = String::from_str("Network error: ");
    s.append(shown);
    s
}

/// A failed API call: the server's own `detail` message where its answer
/// carried one, else the message for the status.
pub fn api_err(code: u16, detail: Option<String>) -> (s: String)
    ensures
        s@ == match detail {
            Some(d) => d@,
            None => status_msg_of(code),
        },
{
    match detail {
        Some(d) => d,
        None => status_msg(code),
    }
}

/// What an answer's body stands for.
pub enum Body {
    /// An empty (or blank) body, read as JSON `null`.
    Null,
    /// A body to parse as JSON.
    Json,
}

/// A 202/204 body may be empty: blank text is `null`, not an error.
pub fn body_kind(text: &str) -> (b: Body)
    ensures
        (b is Null) == is_blank(text@),
{
    if blank(text) {
        Body::Null
    } else {
        Body::Json
    }
}

/// A body that did not parse as JSON.
pub fn bad_response(shown: &str) -> (s: String)
    ensures
        s@ == "Bad response from server: "@ + shown@,
{
    let mut s = String::from_str("Bad response from server: ");
    s.append(shown);
    s
}

/// What a cover request's status means.
pub enum CoverStatus {
    /// No cover (404).
    Missing,
    /// The request failed; the message.
    Failed(String),
    /// The cover is in the body.
    Found,
}

pub fn cover_status(code: u16) -> (c: CoverStatus)
    ensures
        code == 404 ==> c is Missing,
        code != 404 && !(200 <= code < 300) ==> (c matches CoverStatus::Failed(m) && m@ == status_msg_of(code)),
        code != 404 && 200 <= code < 300 ==> c is Found,
{
    if code == 404 {
        CoverStatus::Missing
    } else if !(200 <= code && code < 300) {
        CoverStatus::Failed(status_msg(code))
    } else {
        CoverStatus::Found
    }
}

/// The cover's content type, `image/jpeg` where the answer gave none.
pub fn cover_content_type(header: Option<String>) -> (t: String)
    ensures
        t@ == match header {
            Some(h) => h@,
            None => "image/jpeg"@,
        },
{
    match header {
        Some(h) => h,
        None => String::from_str("image/jpeg"),
    }
}

} // verus!

verus! {

/// A stored server address never ends in `/`, so `{base}/api{path}` never
/// holds a doubled slash at the join.
pub proof fn law_trimmed_base_has_no_trailing_slash(s: Seq<char>)
    ensures
        trim_slashes(s).len() == 0 || trim_slashes(s).last() != '/',
        trim_slashes(trim_slashes(s)) == trim_slashes(s),
    decreases s.len(),
{
    if s.len() > 0 && s.last() == '/' {
        law_trimmed_base_has_no_trailing_slash(s.drop_last());
    }
}

/// Whether a status is a success (2xx).
pub fn is_success(code: u16) -> (b: bool)
    ensures
        b == (200 <= code < 300),
{
    200 <= code && code < 300
}

} // verus!
