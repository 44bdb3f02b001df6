//! GitLab provider adapter: username validation, SSH key line validation,
//! and interpretation of the plain-text response of
//! `GET <base>/<username>.keys` (one key per line).

use vstd::prelude::*;
use vstd::string::StringExecFns;

use crate::text::{
    chars_eq, chars_string, is_alnum_char, non_ws_to, scan_non_ws, scan_ws, str_chars, subvec,
    trim_chars, trimmed, ws_to,
};
use crate::{FetchError, Provider};

verus! {

/// Internal code for a username GitLab does not allow.
pub const INVALID_GITLAB_USERNAME: u16 = 1003;

/// Internal code for a GitLab response that is not a list of SSH keys.
pub const INVALID_GITLAB_API_RESPONSE: u16 = 1004;

/// A character GitLab allows in usernames: ASCII alphanumeric, dot, hyphen
/// or underscore.
pub open spec fn is_gitlab_char(c: char) -> bool {
    is_alnum_char(c) || c == '.' || c == '-' || c == '_'
}

/// GitLab's username rule: one or more allowed characters. No length cap and
/// no positional restriction is known, so none is imposed.
pub open spec fn valid_gitlab_username(s: Seq<char>) -> bool {
    &&& s.len() >= 1
    &&& forall|i: int| 0 <= i < s.len() ==> is_gitlab_char(#[trigger] s[i])
}

/// Whether GitLab allows `username`.
pub fn validate_username(username: &str) -> (r: bool)
    ensures
        r == valid_gitlab_username(username@),
{
    let v = str_chars(username);
    if v.len() == 0 {
        return false;
    }
    let mut j: usize = 0;
    while j < v.len()
        invariant
            j <= v@.len(),
            v@ == username@,
            forall|k: int| 0 <= k < j ==> is_gitlab_char(#[trigger] v@[k]),
        decreases v@.len() - j,
    {
        let c = v[j];
        let u = c as u32;
        let ok = (48 <= u && u <= 57) || (65 <= u && u <= 90) || (97 <= u && u <= 122) || c == '.'
            || c == '-' || c == '_';
        if !ok {
            return false;
        }
        j = j + 1;
    }
    true
}

/// Whether the given text decodes as standard base64. The exact acceptance
/// condition is the decoder's; it depends on the characters alone.
pub uninterp spec fn base64_accepts(s: Seq<char>) -> bool;

/// Relies on `base64::decode`: whether it accepts the text is a function of
/// the text alone; `Ok` means the text is decodable standard base64.
#[verifier::external_body]
fn decodes_as_base64(s: &str) -> (r: bool)
    ensures
        r == base64_accepts(s@),
{
    base64::decode(s).is_ok()
}

/// A valid SSH key line: after trimming, at least two whitespace-separated
/// tokens, the first a known key-type identifier and the second decodable
/// base64 key data.
pub open spec fn valid_ssh_key_line(l: Seq<char>) -> bool {
    let t = trimmed(l);
    let e1 = non_ws_to(t, 0);
    let s2 = ws_to(t, e1);
    let e2 = non_ws_to(t, s2);
    &&& t.len() > 0
    &&& s2 < t.len()
    &&& (t.subrange(0, e1) == "ssh-rsa"@ || t.subrange(0, e1) == "ssh-ecdsa"@)
    &&& base64_accepts(t.subrange(s2, e2))
}

fn valid_key_chars(l: &Vec<char>) -> (r: bool)
    ensures
        r == valid_ssh_key_line(l@),
{
    let t = trim_chars(l);
    if t.len() == 0 {
        return false;
    }
    let e1 = scan_non_ws(&t, 0);
    let s2 = scan_ws(&t, e1);
    let e2 = scan_non_ws(&t, s2);
    if s2 >= t.len() {
        return false;
    }
    let tok1 = subvec(&t, 0, e1);
    let tok2 = subvec(&t, s2, e2);
    let rsa = str_chars("ssh-rsa");
    let ecdsa = str_chars("ssh-ecdsa");
    if !(chars_eq(&tok1, &rsa) || chars_eq(&tok1, &ecdsa)) {
        return false;
    }
    let data = chars_string(&tok2);
    decodes_as_base64(data.as_str())
}

/// Basic SSH public key validator: the line must have at least two
/// whitespace-separated parts, the first one of the allowed key types
/// (`ssh-rsa`, `ssh-ecdsa`) and the second actual base64 data.
pub fn validate_ssh_key(key: &str) -> (r: bool)
    ensures
        r == valid_ssh_key_line(key@),
{
    let v = str_chars(key);
    valid_key_chars(&v)
}

/// First index at or after `i` holding a newline (or the length of `s`).
pub open spec fn nl_to(s: Seq<char>, i: int) -> int
    decreases s.len() - i,
    when 0 <= i <= s.len()
{
    if i < s.len() && s[i] != '\n' {
        nl_to(s, i + 1)
    } else {
        i
    }
}

pub proof fn lemma_nl_to(s: Seq<char>, i: int)
    requires
        0 <= i <= s.len(),
    ensures
        i <= nl_to(s, i) <= s.len(),
    decreases s.len() - i,
{
    if i < s.len() && s[i] != '\n' {
        lemma_nl_to(s, i + 1);
    }
}

/// The pieces of `s` from `i` on, split on newlines.
pub open spec fn lines_from(s: Seq<char>, i: int) -> Seq<Seq<char>>
    decreases s.len() - i,
    when 0 <= i <= s.len()
{
    let j = nl_to(s, i);
    if i <= j < s.len() {
        seq![s.subrange(i, j)] + lines_from(s, j + 1)
    } else {
        seq![s.subrange(i, s.len() as int)]
    }
}

/// The non-empty pieces, in order.
pub open spec fn drop_empty(ls: Seq<Seq<char>>) -> Seq<Seq<char>>
    decreases ls.len(),
{
    if ls.len() == 0 {
        Seq::empty()
    } else if ls[0].len() > 0 {
        seq![ls[0]] + drop_empty(ls.drop_first())
    } else {
        drop_empty(ls.drop_first())
    }
}

/// The non-blank lines of a GitLab response body: trim the body, split on
/// newlines, keep the non-empty lines unmodified, in order.
pub open spec fn gitlab_lines(body: Seq<char>) -> Seq<Seq<char>> {
    drop_empty(lines_from(trimmed(body), 0))
}

/// A valid GitLab response: every non-blank line is a valid SSH key line.
pub open spec fn valid_gitlab_body(body: Seq<char>) -> bool {
    forall|i: int|
        0 <= i < gitlab_lines(body).len() ==> valid_ssh_key_line(#[trigger] gitlab_lines(body)[i])
}

fn split_lines(t: &Vec<char>) -> (r: Vec<Vec<char>>)
    ensures
        r.deep_view() == lines_from(t@, 0),
{
    let ghost s = t@;
    let mut out: Vec<Vec<char>> = Vec::new();
    let mut i: usize = 0;
    loop
        invariant
            i <= s.len(),
            t@ == s,
            lines_from(s, 0) == out.deep_view() + lines_from(s, i as int),
        decreases s.len() - i,
    {
        proof {
            lemma_nl_to(s, i as int);
        }
        let mut j = i;
        while j < t.len() && t[j] != '\n'
            invariant
                i <= j <= s.len(),
                t@ == s,
                nl_to(s, i as int) == nl_to(s, j as int),
            decreases s.len() - j,
        {
            j = j + 1;
        }
        let piece = subvec(t, i, j);
        out.push(piece);
        proof {
            assert(out.deep_view() =~~= out.deep_view().drop_last().push(piece@));
        }
        if j == t.len() {
            proof {
                assert(lines_from(s, 0) =~~= out.deep_view() + Seq::<Seq<char>>::empty());
                assert(lines_from(s, 0) =~~= out.deep_view());
            }
            return out;
        }
        i = j + 1;
        proof {
            assert(lines_from(s, 0) =~~= out.deep_view() + lines_from(s, i as int));
        }
    }
}

fn keep_non_empty(ls: Vec<Vec<char>>) -> (r: Vec<Vec<char>>)
    ensures
        r.deep_view() == drop_empty(ls.deep_view()),
{
    let mut out: Vec<Vec<char>> = Vec::new();
    let mut k: usize = 0;
    proof {
        assert(ls.deep_view().skip(0) =~~= ls.deep_view());
        assert(out.deep_view() + drop_empty(ls.deep_view()) =~~= drop_empty(ls.deep_view()));
    }
    while k < ls.len()
        invariant
            k <= ls@.len(),
            drop_empty(ls.deep_view()) == out.deep_view() + drop_empty(
                ls.deep_view().skip(k as int),
            ),
        decreases ls@.len() - k,
    {
        let ghost pre = ls.deep_view().skip(k as int);
        proof {
            assert(pre[0] == ls.deep_view()[k as int]);
            assert(pre.drop_first() =~= ls.deep_view().skip(k as int + 1));
        }
        if ls[k].len() > 0 {
            let ghost old_out = out.deep_view();
            let piece = subvec(&ls[k], 0, ls[k].len());
            proof {
                assert(piece@ =~= ls.deep_view()[k as int]);
            }
            out.push(piece);
            proof {
                assert(out.deep_view() =~~= old_out.push(ls.deep_view()[k as int]));
                assert(out.deep_view() + drop_empty(ls.deep_view().skip(k as int + 1)) =~~= old_out
                    + drop_empty(pre));
            }
        }
        k = k + 1;
    }
    proof {
        assert(ls.deep_view().skip(k as int) =~= Seq::<Seq<char>>::empty());
        assert(out.deep_view() + drop_empty(ls.deep_view().skip(k as int)) =~~= out.deep_view());
    }
    out
}

/// Whether every line of a GitLab response body is a valid SSH key.
pub fn validate_response(response: &str) -> (r: bool)
    ensures
        r == valid_gitlab_body(response@),
{
    let v = str_chars(response);
    let t = trim_chars(&v);
    let all = split_lines(&t);
    let kept = keep_non_empty(all);
    let ghost gl = gitlab_lines(response@);
    proof {
        assert(kept.deep_view() == gl);
    }
    let mut k: usize = 0;
    while k < kept.len()
        invariant
            k <= kept@.len(),
            kept.deep_view() == gl,
            gl == gitlab_lines(response@),
            forall|m: int| 0 <= m < k ==> valid_ssh_key_line(#[trigger] gl[m]),
        decreases kept@.len() - k,
    {
        proof {
            assert(kept@[k as int]@ == gl[k as int]);
        }
        if !valid_key_chars(&kept[k]) {
            return false;
        }
        k = k + 1;
    }
    true
}

/// The URL path for a user's keys, after validating the username; an invalid
/// username never reaches the network.
pub fn keys_path(username: &str) -> (r: Result<String, FetchError>)
    ensures
        valid_gitlab_username(username@) ==> r is Ok && r->Ok_0@ == "/"@ + username@ + ".keys"@,
        !valid_gitlab_username(username@) ==> r == Err::<String, FetchError>(
            FetchError::InvalidUsername(Provider::Gitlab),
        ),
{
    if !validate_username(username) {
        return Err(FetchError::InvalidUsername(Provider::Gitlab));
    }
    let mut path = String::from_str("/");
    path.append(username);
    path.append(".keys");
    Ok(path)
}

/// The `Authorization` header value for a GitLab token (OAuth-compliant, so
/// personal tokens work too).
pub fn auth_header_value(token: &str) -> (r: String)
    ensures
        r@ == "Bearer "@ + token@,
{
    let mut s = String::from_str("Bearer ");
    s.append(token);
    s
}

/// Turn a GitLab response (status code and body text) into the user's key
/// lines: a non-2xx status passes through as a transport error; a 2xx body
/// must be a list of valid SSH key lines, returned unmodified and in order
/// (possibly empty).
pub fn keys_from_response(status: u16, body: &str) -> (r: Result<Vec<String>, FetchError>)
    ensures
        !(200 <= status < 300) ==> r == Err::<Vec<String>, FetchError>(
            FetchError::TransportStatus(status),
        ),
        200 <= status < 300 && !valid_gitlab_body(body@) ==> r == Err::<Vec<String>, FetchError>(
            FetchError::InvalidApiResponse(Provider::Gitlab),
        ),
        200 <= status < 300 && valid_gitlab_body(body@) ==> r is Ok && r->Ok_0.deep_view()
            == gitlab_lines(body@),
{
    if !(200 <= status && status < 300) {
        return Err(FetchError::TransportStatus(status));
    }
    if !validate_response(body) {
        return Err(FetchError::InvalidApiResponse(Provider::Gitlab));
    }
    let v = str_chars(body);
    let t = trim_chars(&v);
    let all = split_lines(&t);
    let kept = keep_non_empty(all);
    let ghost gl = gitlab_lines(body@);
    proof {
        assert(kept.deep_view() == gl);
    }
    let mut out: Vec<String> = Vec::new();
    let mut k: usize = 0;
    while k < kept.len()
        invariant
            k <= kept@.len(),
            kept.deep_view() == gl,
            out.deep_view() =~= gl.take(k as int),
        decreases kept@.len() - k,
    {
        let ghost old_out = out.deep_view();
        let line = chars_string(&kept[k]);
        proof {
            assert(line@ == kept.deep_view()[k as int]);
        }
        out.push(line);
        proof {
            assert(out.deep_view() =~~= old_out.push(line@));
            assert(out.deep_view() =~~= gl.take(k as int + 1));
        }
        k = k + 1;
    }
    proof {
        assert(out.deep_view() =~~= gl);
    }
    Ok(out)
}

} // verus!
