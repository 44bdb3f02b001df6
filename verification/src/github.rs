//! GitHub provider adapter: username validation and interpretation of the
//! JSON response of `GET <api-base>/users/<username>/keys`, an array of
//! `{ "id": <unsigned integer>, "key": <string> }` records.

use vstd::prelude::*;
use vstd::string::StringExecFns;

use crate::json::{digits_to, int_end, skip_value, skip_value_exec, str_body, str_body_exec};
use crate::text::{
    chars_eq, chars_string, dec_seq, is_alnum_char, is_digit_char, scan_ws, str_chars,
    u64_dec_chars, ws_to,
};
use crate::{FetchError, Provider};

verus! {

/// Internal code for a username GitHub does not allow.
pub const INVALID_GH_USERNAME: u16 = 1001;

/// Internal code for a GitHub response that could not be parsed.
pub const INVALID_GH_API_RESPONSE: u16 = 1002;

/// A character GitHub allows in usernames: ASCII alphanumeric or hyphen.
pub open spec fn is_github_char(c: char) -> bool {
    is_alnum_char(c) || c == '-'
}

/// GitHub's username rule: 1 to 39 characters, each alphanumeric or hyphen,
/// not ending with a hyphen, and without two consecutive hyphens.
pub open spec fn valid_github_username(s: Seq<char>) -> bool {
    &&& 1 <= s.len() <= 39
    &&& (forall|i: int| #![trigger s[i]] 0 <= i < s.len() ==> is_github_char(s[i]))
    &&& s[s.len() - 1] != '-'
    &&& (forall|i: int| #![trigger s[i]] 0 <= i < s.len() - 1 ==> !(s[i] == '-' && s[i + 1] == '-'))
}

/// Whether GitHub allows `username`.
pub fn validate_username(username: &str) -> (r: bool)
    ensures
        r == valid_github_username(username@),
{
    let v = str_chars(username);
    if v.len() == 0 || v.len() > 39 {
        return false;
    }
    if v[v.len() - 1] == '-' {
        return false;
    }
    let mut j: usize = 0;
    while j < v.len()
        invariant
            j <= v@.len(),
            v@ == username@,
            1 <= v@.len() <= 39,
            forall|k: int| #![trigger v@[k]] 0 <= k < j ==> is_github_char(v@[k]),
            forall|k: int| #![trigger v@[k]] 0 <= k < j - 1 ==> !(v@[k] == '-' && v@[k + 1] == '-'),
        decreases v@.len() - j,
    {
        let c = v[j];
        let u = c as u32;
        let ok = (48 <= u && u <= 57) || (65 <= u && u <= 90) || (97 <= u && u <= 122) || c == '-';
        if !ok {
            return false;
        }
        if j > 0 && c == '-' && v[j - 1] == '-' {
            return false;
        }
        j = j + 1;
    }
    true
}

/// One record of the GitHub keys response: the key's internal id and the key
/// text itself.
#[derive(Debug, PartialEq, Eq)]
pub struct GhKey {
    pub id: u64,
    pub key: String,
}

/// The record a `GhKey` holds, as plain values.
pub open spec fn gh_key_rec(g: GhKey) -> (u64, Seq<char>) {
    (g.id, g.key@)
}

/// The records a sequence of `GhKey` holds.
pub open spec fn gh_keys_view(ks: Seq<GhKey>) -> Seq<(u64, Seq<char>)> {
    ks.map_values(|g: GhKey| gh_key_rec(g))
}

/// The value of the decimal digits `s[i..j)`.
pub open spec fn digits_val(s: Seq<char>, i: int, j: int) -> int
    decreases j - i,
    when i <= j
{
    if i < j {
        digits_val(s, i, j - 1) * 10 + (s[j - 1] as u32 - 48)
    } else {
        0
    }
}

proof fn lemma_digits_val_bounds(s: Seq<char>, i: int, j: int)
    requires
        i <= j,
        forall|k: int| #![trigger s[k]] i <= k < j ==> is_digit_char(s[k]),
    ensures
        digits_val(s, i, j) >= 0,
        i < j ==> digits_val(s, i, j) >= digits_val(s, i, j - 1),
    decreases j - i,
{
    if i < j {
        lemma_digits_val_bounds(s, i, j - 1);
        assert(digits_val(s, i, j - 1) * 10 >= digits_val(s, i, j - 1)) by (nonlinear_arith)
            requires
                digits_val(s, i, j - 1) >= 0,
        ;
    }
}

proof fn lemma_digits_val_mono(s: Seq<char>, i: int, k: int, j: int)
    requires
        i <= k <= j,
        forall|m: int| #![trigger s[m]] i <= m < j ==> is_digit_char(s[m]),
    ensures
        digits_val(s, i, j) >= digits_val(s, i, k),
    decreases j - k,
{
    if k < j {
        lemma_digits_val_mono(s, i, k, j - 1);
        lemma_digits_val_bounds(s, i, j);
    }
}

proof fn lemma_digits_to_digits(s: Seq<char>, i: int, j: int)
    requires
        0 <= i <= j <= digits_to(s, i),
        i <= s.len(),
    ensures
        forall|k: int| #![trigger s[k]] i <= k < j ==> is_digit_char(s[k]),
    decreases j - i,
{
    if i < j {
        assert(is_digit_char(s[i]));
        lemma_digits_to_digits(s, i + 1, j);
        assert forall|k: int| i <= k < j implies is_digit_char(s[k]) by {
            if k > i {
                assert(is_digit_char(s[k]));
            }
        }
    }
}

/// An id member's value starting at `i`: a plain JSON integer without sign,
/// fraction or exponent, whose value fits an unsigned 64-bit integer, and the
/// position after it. `None` otherwise (the record is then not a key record).
pub open spec fn id_value(s: Seq<char>, i: int) -> Option<(u64, int)> {
    match int_end(s, i) {
        None => None,
        Some(j) => {
            if j < s.len() && (s[j] == '.' || s[j] == 'e' || s[j] == 'E') {
                None
            } else {
                let n = digits_val(s, i, j);
                if n <= u64::MAX {
                    Some((n as u64, j))
                } else {
                    None
                }
            }
        },
    }
}

/// Parse an id value, matching `id_value`.
fn id_value_exec(v: &Vec<char>, i: usize) -> (r: Option<(u64, usize)>)
    requires
        i <= v@.len(),
    ensures
        match r {
            Some(p) => id_value(v@, i as int) == Some((p.0, p.1 as int)) && i < p.1 <= v@.len(),
            None => id_value(v@, i as int) is None,
        },
{
    let ghost s = v@;
    if i >= v.len() {
        return None;
    }
    let c0 = v[i] as u32;
    if !(48 <= c0 && c0 <= 57) {
        return None;
    }
    let je: usize = if v[i] == '0' {
        i + 1
    } else {
        let e = crate::json::scan_digits(v, i);
        proof {
            assert(int_end(s, i as int) == Some(e as int));
        }
        e
    };
    proof {
        assert(int_end(s, i as int) == Some(je as int));
        crate::json::lemma_digits_to(s, i as int);
        assert(digits_to(s, i as int) == digits_to(s, i + 1));
        crate::json::lemma_digits_to(s, i + 1);
        assert(i < je <= s.len());
        assert(je <= digits_to(s, i as int));
        lemma_digits_to_digits(s, i as int, je as int);
    }
    if je < v.len() && (v[je] == '.' || v[je] == 'e' || v[je] == 'E') {
        return None;
    }
    let mut acc: u64 = 0;
    let mut k: usize = i;
    while k < je
        invariant
            i <= k <= je <= v@.len(),
            v@ == s,
            je == int_end(s, i as int).unwrap(),
            int_end(s, i as int) is Some,
            forall|m: int| #![trigger s[m]] i <= m < je ==> is_digit_char(s[m]),
            acc == digits_val(s, i as int, k as int),
        decreases je - k,
    {
        let d: u64 = (v[k] as u32 - 48) as u64;
        let step = match acc.checked_mul(10) {
            Some(x) => x.checked_add(d),
            None => None,
        };
        match step {
            Some(x) => {
                acc = x;
            },
            None => {
                proof {
                    lemma_digits_val_bounds(s, i as int, k + 1);
                    lemma_digits_val_mono(s, i as int, k + 1, je as int);
                    assert(digits_val(s, i as int, k + 1) == acc * 10 + d);
                    assert(digits_val(s, i as int, je as int) > u64::MAX);
                }
                return None;
            },
        }
        k = k + 1;
    }
    Some((acc, je))
}

/// The members of a key-record object, from position `i` (just after the
/// opening brace when `first`, just after a separating comma otherwise),
/// given which of the two required fields were already seen. Yields the
/// record's id, its key text and the position after the closing brace; `None`
/// where the object is not a well-formed key record (malformed JSON, an `id`
/// that is not an unsigned integer, a `key` that is not a string, a duplicate
/// or missing required field).
pub open spec fn rec_members(
    s: Seq<char>,
    i: int,
    first: bool,
    id: Option<u64>,
    key: Option<Seq<char>>,
) -> Option<(u64, Seq<char>, int)>
    decreases s.len() - i, 1int,
    when 0 <= i <= s.len()
{
    let j = ws_to(s, i);
    if j < s.len() && first && s[j] == '}' {
        if id is Some && key is Some {
            Some((id.unwrap(), key.unwrap(), j + 1))
        } else {
            None
        }
    } else if j < s.len() && s[j] == '"' {
        match str_body(s, j + 1) {
            None => None,
            Some(p) => {
                let name = p.0;
                let j2 = p.1;
                if 0 <= j2 <= s.len() {
                    let j3 = ws_to(s, j2);
                    if j3 < s.len() && s[j3] == ':' {
                        let j4 = ws_to(s, j3 + 1);
                        if i < j4 <= s.len() {
                            if name == "id"@ {
                                if id is Some {
                                    None
                                } else {
                                    match id_value(s, j4) {
                                        None => None,
                                        Some(q) => rec_member_tail(s, i, q.1, Some(q.0), key),
                                    }
                                }
                            } else if name == "key"@ {
                                if key is Some {
                                    None
                                } else if j4 < s.len() && s[j4] == '"' {
                                    match str_body(s, j4 + 1) {
                                        None => None,
                                        Some(q) => rec_member_tail(s, i, q.1, id, Some(q.0)),
                                    }
                                } else {
                                    None
                                }
                            } else {
                                match skip_value(s, j4) {
                                    None => None,
                                    Some(j5) => rec_member_tail(s, i, j5, id, key),
                                }
                            }
                        } else {
                            None
                        }
                    } else {
                        None
                    }
                } else {
                    None
                }
            },
        }
    } else {
        None
    }
}

/// After one member: a closing brace ends the record (both required fields
/// must have been seen), a comma continues with the next member.
pub open spec fn rec_member_tail(
    s: Seq<char>,
    i: int,
    j5: int,
    id: Option<u64>,
    key: Option<Seq<char>>,
) -> Option<(u64, Seq<char>, int)>
    decreases s.len() - i, 0int,
    when 0 <= i <= s.len()
{
    if 0 <= j5 <= s.len() {
        let j6 = ws_to(s, j5);
        if j6 < s.len() && s[j6] == '}' {
            if id is Some && key is Some {
                Some((id.unwrap(), key.unwrap(), j6 + 1))
            } else {
                None
            }
        } else if j6 < s.len() && s[j6] == ',' && i < j6 + 1 {
            rec_members(s, j6 + 1, false, id, key)
        } else {
            None
        }
    } else {
        None
    }
}

/// The key records of a JSON array, from position `i` (just after the opening
/// bracket when `first`, just after a separating comma otherwise), appended
/// to `acc`, with the position after the closing bracket.
pub open spec fn rec_items(s: Seq<char>, i: int, first: bool, acc: Seq<(u64, Seq<char>)>) -> Option<
    (Seq<(u64, Seq<char>)>, int),
>
    decreases s.len() - i,
    when 0 <= i <= s.len()
{
    let j = ws_to(s, i);
    if j < s.len() && first && s[j] == ']' {
        Some((acc, j + 1))
    } else if j < s.len() && s[j] == '{' {
        match rec_members(s, j + 1, true, None, None) {
            None => None,
            Some(m) => {
                let j2 = m.2;
                if 0 <= j2 <= s.len() {
                    let j3 = ws_to(s, j2);
                    if j3 < s.len() && s[j3] == ']' {
                        Some((acc.push((m.0, m.1)), j3 + 1))
                    } else if j3 < s.len() && s[j3] == ',' && i < j3 + 1 {
                        rec_items(s, j3 + 1, false, acc.push((m.0, m.1)))
                    } else {
                        None
                    }
                } else {
                    None
                }
            },
        }
    } else {
        None
    }
}

/// The records of a whole GitHub keys response body: a JSON array of key
/// records with nothing but whitespace around it, or `None` where the body
/// cannot be parsed that way.
pub open spec fn gh_records(s: Seq<char>) -> Option<Seq<(u64, Seq<char>)>> {
    let j = ws_to(s, 0);
    if j < s.len() && s[j] == '[' {
        match rec_items(s, j + 1, true, Seq::empty()) {
            None => None,
            Some(p) => {
                if 0 <= p.1 <= s.len() && ws_to(s, p.1) == s.len() {
                    Some(p.0)
                } else {
                    None
                }
            },
        }
    } else {
        None
    }
}

/// Parse one record object's members, matching
/// `rec_members(_, i, true, None, None)`.
fn rec_members_exec(v: &Vec<char>, i: usize) -> (r: Option<(u64, Vec<char>, usize)>)
    requires
        i <= v@.len(),
    ensures
        match r {
            Some(m) => rec_members(v@, i as int, true, None, None) == Some(
                (m.0, m.1@, m.2 as int),
            ) && i < m.2 <= v@.len(),
            None => rec_members(v@, i as int, true, None, None) is None,
        },
{
    let ghost s = v@;
    let mut j = i;
    let mut first = true;
    let mut cur_id: Option<u64> = None;
    let mut cur_key: Option<Vec<char>> = None;
    loop
        invariant
            i <= j <= s.len(),
            v@ == s,
            rec_members(s, i as int, true, None, None) == rec_members(
                s,
                j as int,
                first,
                cur_id,
                opt_chars_view(cur_key),
            ),
        decreases s.len() - j, 1int,
    {
        let jw = scan_ws(v, j);
        if jw < v.len() && first && v[jw] == '}' {
            match (cur_id, cur_key) {
                (Some(n), Some(k)) => {
                    return Some((n, k, jw + 1));
                },
                _ => {
                    return None;
                },
            }
        }
        if !(jw < v.len() && v[jw] == '"') {
            return None;
        }
        let p = match str_body_exec(v, jw + 1) {
            Some(p) => p,
            None => {
                return None;
            },
        };
        let name = p.0;
        let j2 = p.1;
        let j3 = scan_ws(v, j2);
        if !(j3 < v.len() && v[j3] == ':') {
            return None;
        }
        let j4 = scan_ws(v, j3 + 1);
        let id_lit = str_chars("id");
        let key_lit = str_chars("key");
        let j5: usize;
        if chars_eq(&name, &id_lit) {
            if cur_id.is_some() {
                return None;
            }
            match id_value_exec(v, j4) {
                None => {
                    return None;
                },
                Some(q) => {
                    cur_id = Some(q.0);
                    j5 = q.1;
                },
            }
        } else if chars_eq(&name, &key_lit) {
            if cur_key.is_some() {
                return None;
            }
            if !(j4 < v.len() && v[j4] == '"') {
                return None;
            }
            match str_body_exec(v, j4 + 1) {
                None => {
                    return None;
                },
                Some(q) => {
                    cur_key = Some(q.0);
                    j5 = q.1;
                },
            }
        } else {
            match skip_value_exec(v, j4) {
                None => {
                    return None;
                },
                Some(x) => {
                    j5 = x;
                },
            }
        }
        let j6 = scan_ws(v, j5);
        if j6 < v.len() && v[j6] == '}' {
            match (cur_id, cur_key) {
                (Some(n), Some(k)) => {
                    return Some((n, k, j6 + 1));
                },
                _ => {
                    return None;
                },
            }
        } else if j6 < v.len() && v[j6] == ',' {
            j = j6 + 1;
            first = false;
        } else {
            return None;
        }
    }
}

/// The key text a parser-side option holds.
pub open spec fn opt_chars_view(o: Option<Vec<char>>) -> Option<Seq<char>> {
    match o {
        Some(v) => Some(v@),
        None => None,
    }
}

/// Parse a whole GitHub keys response body, matching `gh_records`.
pub fn parse_records(body: &str) -> (r: Option<Vec<GhKey>>)
    ensures
        r is Some <==> gh_records(body@) is Some,
        r is Some ==> gh_keys_view(r->0@) == gh_records(body@).unwrap(),
{
    let v = str_chars(body);
    let ghost s = v@;
    let j0 = scan_ws(&v, 0);
    if !(j0 < v.len() && v[j0] == '[') {
        return None;
    }
    let mut acc: Vec<GhKey> = Vec::new();
    let mut j = j0 + 1;
    let mut first = true;
    proof {
        assert(gh_keys_view(acc@) =~= Seq::<(u64, Seq<char>)>::empty());
    }
    loop
        invariant
            j <= s.len(),
            v@ == s,
            body@ == s,
            j0 == ws_to(s, 0),
            j0 < s.len() && s[j0 as int] == '[',
            rec_items(s, j0 + 1, true, Seq::empty()) == rec_items(
                s,
                j as int,
                first,
                gh_keys_view(acc@),
            ),
        decreases s.len() - j,
    {
        let jw = scan_ws(&v, j);
        if jw < v.len() && first && v[jw] == ']' {
            let k = scan_ws(&v, jw + 1);
            if k == v.len() {
                return Some(acc);
            } else {
                return None;
            }
        }
        if !(jw < v.len() && v[jw] == '{') {
            return None;
        }
        let m = match rec_members_exec(&v, jw + 1) {
            Some(m) => m,
            None => {
                return None;
            },
        };
        let g = GhKey { id: m.0, key: chars_string(&m.1) };
        let ghost old_acc = acc@;
        acc.push(g);
        proof {
            assert(gh_keys_view(acc@) =~= gh_keys_view(old_acc).push((m.0, m.1@)));
        }
        let j3 = scan_ws(&v, m.2);
        if j3 < v.len() && v[j3] == ']' {
            let k = scan_ws(&v, j3 + 1);
            if k == v.len() {
                return Some(acc);
            } else {
                return None;
            }
        } else if j3 < v.len() && v[j3] == ',' {
            j = j3 + 1;
            first = false;
        } else {
            return None;
        }
    }
}

/// The normalized key line of one record: the key text, then the marker
/// ` from-GH-id-` and the record's id in decimal.
pub open spec fn gh_line(id: u64, key: Seq<char>) -> Seq<char> {
    key + " from-GH-id-"@ + dec_seq(id as int)
}

/// The normalized key lines of a record sequence, in order.
pub open spec fn gh_lines(rs: Seq<(u64, Seq<char>)>) -> Seq<Seq<char>> {
    rs.map_values(|p: (u64, Seq<char>)| gh_line(p.0, p.1))
}

/// The normalized key line of one record.
pub fn format_key(k: &GhKey) -> (r: String)
    ensures
        r@ == gh_line(k.id, k.key@),
{
    let mut line = k.key.clone();
    line.append(" from-GH-id-");
    let digits = u64_dec_chars(k.id);
    let ds = chars_string(&digits);
    line.append(ds.as_str());
    proof {
        assert(line@ =~= gh_line(k.id, k.key@));
    }
    line
}

/// Turn a GitHub response (status code and body text) into the user's
/// normalized key lines: a non-2xx status passes through as a transport
/// error; a 2xx body must parse as a JSON array of key records, mapped in
/// order to `<key> from-GH-id-<id>` lines (possibly none).
pub fn keys_from_response(status: u16, body: &str) -> (r: Result<Vec<String>, FetchError>)
    ensures
        !(200 <= status < 300) ==> r == Err::<Vec<String>, FetchError>(
            FetchError::TransportStatus(status),
        ),
        200 <= status < 300 && gh_records(body@) is None ==> r == Err::<Vec<String>, FetchError>(
            FetchError::InvalidApiResponse(Provider::Github),
        ),
        200 <= status < 300 && gh_records(body@) is Some ==> r is Ok && r->Ok_0.deep_view()
            == gh_lines(gh_records(body@).unwrap()),
{
    if !(200 <= status && status < 300) {
        return Err(FetchError::TransportStatus(status));
    }
    let ks = match parse_records(body) {
        Some(ks) => ks,
        None => {
            return Err(FetchError::InvalidApiResponse(Provider::Github));
        },
    };
    let ghost recs = gh_records(body@).unwrap();
    proof {
        assert(gh_keys_view(ks@) == recs);
    }
    let mut out: Vec<String> = Vec::new();
    let mut k: usize = 0;
    while k < ks.len()
        invariant
            k <= ks@.len(),
            gh_keys_view(ks@) == recs,
            out.deep_view() =~= gh_lines(recs).take(k as int),
        decreases ks@.len() - k,
    {
        let ghost old_out = out.deep_view();
        let line = format_key(&ks[k]);
        proof {
            assert(gh_keys_view(ks@)[k as int] == gh_key_rec(ks@[k as int]));
            assert(gh_lines(recs)[k as int] == gh_line(ks@[k as int].id, ks@[k as int].key@));
        }
        out.push(line);
        proof {
            assert(out.deep_view() =~~= old_out.push(line@));
            assert(out.deep_view() =~~= gh_lines(recs).take(k as int + 1));
        }
        k = k + 1;
    }
    proof {
        assert(out.deep_view() =~~= gh_lines(recs));
    }
    Ok(out)
}

/// The URL path for a user's keys, after validating the username; an invalid
/// username never reaches the network.
pub fn keys_path(username: &str) -> (r: Result<String, FetchError>)
    ensures
        valid_github_username(username@) ==> r is Ok && r->Ok_0@ == "/users/"@ + username@
            + "/keys"@,
        !valid_github_username(username@) ==> r == Err::<String, FetchError>(
            FetchError::InvalidUsername(Provider::Github),
        ),
{
    if !validate_username(username) {
        return Err(FetchError::InvalidUsername(Provider::Github));
    }
    let mut path = String::from_str("/users/");
    path.append(username);
    path.append("/keys");
    Ok(path)
}

/// The `Authorization` header value for a GitHub OAuth or personal token.
pub fn auth_header_value(token: &str) -> (r: String)
    ensures
        r@ == "token "@ + token@,
{
    let mut s = String::from_str("token ");
    s.append(token);
    s
}

} // verus!
