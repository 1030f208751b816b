//! What the client makes of HTTP: the URLs it fills in from the session's
//! templates, and what each status code of an answer means.
use crate::error::Error;
use crate::json::{decimal, decimal_string};
use crate::text::chars_of;
use vstd::prelude::*;

verus! {

/// `s` with every occurrence of `pat` replaced by `w`, scanning from the
/// left and resuming after each replaced occurrence, as `str::replace` does.
pub open spec fn replaced(s: Seq<char>, pat: Seq<char>, w: Seq<char>) -> Seq<char>
    decreases s.len(),
{
    if pat.len() == 0 || s.len() < pat.len() {
        s
    } else if s.subrange(0, pat.len() as int) == pat {
        w + replaced(s.subrange(pat.len() as int, s.len() as int), pat, w)
    } else {
        seq![s[0]] + replaced(s.drop_first(), pat, w)
    }
}

/// Whether `pat` occurs in `cs` at position `i`.
fn matches_at(cs: &[char], i: usize, pat: &[char]) -> (r: bool)
    requires
        i <= cs@.len(),
    ensures
        r == (i + pat@.len() <= cs@.len() && cs@.subrange(i as int, i + pat@.len()) == pat@),
{
    if pat.len() > cs.len() - i {
        return false;
    }
    let mut k: usize = 0;
    while k < pat.len()
        invariant
            k <= pat@.len(),
            i + pat@.len() <= cs@.len(),
            cs@.len() == cs.len(),
            forall|j: int| 0 <= j < k ==> cs@[i + j] == pat@[j],
        decreases pat@.len() - k,
    {
        if cs[i + k] != pat[k] {
            assert(cs@.subrange(i as int, i + pat@.len())[k as int] != pat@[k as int]);
            return false;
        }
        k += 1;
    }
    assert(cs@.subrange(i as int, i + pat@.len()) =~= pat@);
    true
}

/// `s` with every occurrence of the non-empty `pat` replaced by `w`.
pub fn replace_all(s: &str, pat: &str, w: &str) -> (r: String)
    requires
        pat@.len() > 0,
    ensures
        r@ == replaced(s@, pat@, w@),
{
    let cs = chars_of(s);
    let pc = chars_of(pat);
    let wc = chars_of(w);
    let n = cs.len();
    let mut out: Vec<char> = Vec::new();
    let mut i: usize = 0;
    assert(cs@.subrange(0, n as int) =~= cs@);
    while i < n
        invariant
            i <= n,
            n == cs@.len(),
            cs@ == s@,
            pc@ == pat@,
            wc@ == w@,
            pat@.len() > 0,
            out@ + replaced(cs@.subrange(i as int, n as int), pat@, w@) == replaced(s@, pat@, w@),
        decreases n - i,
    {
        let ghost rest = cs@.subrange(i as int, n as int);
        if matches_at(cs.as_slice(), i, pc.as_slice()) {
            assert(rest.subrange(0, pat@.len() as int) =~= cs@.subrange(i as int, i + pat@.len()));
            assert(rest.subrange(pat@.len() as int, rest.len() as int) =~= cs@.subrange(
                i + pat@.len(),
                n as int,
            ));
            let ghost before = out@;
            let mut k: usize = 0;
            while k < wc.len()
                invariant
                    k <= wc@.len(),
                    out@ == before + wc@.subrange(0, k as int),
                decreases wc@.len() - k,
            {
                out.push(wc[k]);
                assert(wc@.subrange(0, k + 1) =~= wc@.subrange(0, k as int).push(wc@[k as int]));
                k += 1;
            }
            assert(wc@.subrange(0, wc@.len() as int) =~= wc@);
            assert(before + (w@ + replaced(cs@.subrange(i + pat@.len(), n as int), pat@, w@))
                =~= out@ + replaced(cs@.subrange(i + pat@.len(), n as int), pat@, w@));
            i = i + pc.len();
        } else {
            if n - i < pc.len() {
                assert(replaced(rest, pat@, w@) == rest);
                let ghost before = out@;
                while i < n
                    invariant
                        i <= n,
                        n == cs@.len(),
                        out@ + cs@.subrange(i as int, n as int) == before + rest,
                    decreases n - i,
                {
                    out.push(cs[i]);
                    assert(cs@.subrange(i as int, n as int) =~= seq![cs@[i as int]] + cs@.subrange(
                        i + 1,
                        n as int,
                    ));
                    i += 1;
                }
                assert(cs@.subrange(n as int, n as int) =~= Seq::<char>::empty());
                assert(out@ =~= before + rest);
                assert(out@ + replaced(cs@.subrange(n as int, n as int), pat@, w@) =~= out@);
            } else {
                assert(rest.subrange(0, pat@.len() as int) =~= cs@.subrange(i as int, i + pat@.len()));
                assert(rest.drop_first() =~= cs@.subrange(i + 1, n as int));
                let ghost before = out@;
                out.push(cs[i]);
                assert(before + (seq![rest[0]] + replaced(rest.drop_first(), pat@, w@)) =~= out@
                    + replaced(cs@.subrange(i + 1, n as int), pat@, w@));
                i += 1;
            }
        }
    }
    assert(cs@.subrange(n as int, n as int) =~= Seq::<char>::empty());
    assert(out@ + replaced(Seq::<char>::empty(), pat@, w@) =~= out@);
    crate::text::string_from_chars(out.as_slice())
}

/// The URL to download a blob from: the session's download template with
/// the account, the blob, the name `attachment` and the type
/// `application/octet-stream` filled in, in that order.
pub open spec fn download_url_of(template: Seq<char>, account_id: Seq<char>, blob_id: Seq<char>) -> Seq<
    char,
> {
    replaced(
        replaced(
            replaced(replaced(template, "{accountId}"@, account_id), "{blobId}"@, blob_id),
            "{name}"@,
            "attachment"@,
        ),
        "{type}"@,
        "application/octet-stream"@,
    )
}

/// The URL to download the blob `blob_id` of account `account_id` from.
pub fn download_url(template: &str, account_id: &str, blob_id: &str) -> (u: String)
    ensures
        u@ == download_url_of(template@, account_id@, blob_id@),
{
    proof {
        reveal_strlit("{accountId}");
        reveal_strlit("{blobId}");
        reveal_strlit("{name}");
        reveal_strlit("{type}");
    }
    let a = replace_all(template, "{accountId}", account_id);
    let b = replace_all(a.as_str(), "{blobId}", blob_id);
    let c = replace_all(b.as_str(), "{name}", "attachment");
    replace_all(c.as_str(), "{type}", "application/octet-stream")
}

/// The URL to upload blobs of account `account_id` to.
pub fn upload_url(template: &str, account_id: &str) -> (u: String)
    ensures
        u@ == replaced(template@, "{accountId}"@, account_id@),
{
    proof {
        reveal_strlit("{accountId}");
    }
    replace_all(template, "{accountId}", account_id)
}

/// The HTTP calls the client makes, which read statuses differently.
#[derive(Debug, Clone, Copy, PartialEq, Eq, Structural)]
pub enum HttpCall {
    /// Fetching the session.
    Session,
    /// A JMAP API request.
    Api,
    /// Downloading a blob.
    Download,
    /// Uploading a blob.
    Upload,
}

/// What a status code means for a call.
#[derive(Debug)]
pub enum StatusVerdict {
    /// Read the answer.
    Proceed,
    /// The call failed with this error.
    Fail(Error),
    /// An upload was refused with a status that has no error of its own;
    /// the answer's text says why.
    Rejected,
}

/// Whether `code` is a server error.
pub open spec fn is_server_error(code: u16) -> bool {
    500 <= code <= 599
}

/// What the status `code` (shown as `status_text`) means for `call`; a
/// download's `blob_id` names the blob in its not-found error.
pub fn check_status(call: HttpCall, code: u16, status_text: &str, blob_id: &str) -> (v: StatusVerdict)
    ensures
        code == 401 ==> (v matches StatusVerdict::Fail(Error::InvalidToken(m)) && m@ == (if call
            == HttpCall::Session {
            "Authentication failed"@
        } else {
            "Token expired or invalid"@
        })),
        code == 429 ==> v matches StatusVerdict::Fail(Error::RateLimited),
        is_server_error(code) ==> (v matches StatusVerdict::Fail(Error::Server(m)) && m@
            == "Server error: "@ + status_text@),
        (code == 404 && call == HttpCall::Download) ==> (v matches StatusVerdict::Fail(
            Error::Config(m),
        ) && m@ == "Blob not found: "@ + blob_id@),
        (call == HttpCall::Upload && 200 <= code <= 299) ==> v is Proceed,
        (call == HttpCall::Upload && !(200 <= code <= 299) && code != 401 && code != 429
            && !is_server_error(code)) ==> v is Rejected,
        (call != HttpCall::Upload && code != 401 && code != 429 && !is_server_error(code) && !(
        code == 404 && call == HttpCall::Download)) ==> v is Proceed,
{
    if call == HttpCall::Upload && 200 <= code && code <= 299 {
        return StatusVerdict::Proceed;
    }
    if code == 401 {
        if call == HttpCall::Session {
            return StatusVerdict::Fail(Error::InvalidToken("Authentication failed"));
        } else {
            return StatusVerdict::Fail(Error::InvalidToken("Token expired or invalid"));
        }
    }
    if code == 404 && call == HttpCall::Download {
        let mut m = "Blob not found: ".to_owned();
        m.append(blob_id);
        return StatusVerdict::Fail(Error::Config(m));
    }
    if code == 429 {
        return StatusVerdict::Fail(Error::RateLimited);
    }
    if 500 <= code && code <= 599 {
        let mut m = "Server error: ".to_owned();
        m.append(status_text);
        return StatusVerdict::Fail(Error::Server(m));
    }
    if call == HttpCall::Upload {
        StatusVerdict::Rejected
    } else {
        StatusVerdict::Proceed
    }
}

/// The error for an upload refused with `code`, whose answer read `text`.
pub fn upload_rejected(code: u16, text: &str) -> (e: Error)
    ensures
        e matches Error::Server(m) && m@ == "Upload failed ("@ + decimal(code as nat) + "): "@
            + text@,
{
    let mut m = "Upload failed (".to_owned();
    let d = decimal_string(code as u64);
    m.append(d.as_str());
    m.append("): ");
    m.append(text);
    Error::Server(m)
}

} // verus!
