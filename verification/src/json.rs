//! JSON text scanning: string bodies with escape decoding, number syntax,
//! and skipping over a whole value. The GitHub adapter builds its
//! record parser on these.
//!
//! Each shape is specified by a recursive spec function over the character
//! sequence and a position, returning the parsed content and/or the position
//! after the construct, or `None` where the text is not well-formed JSON.

use vstd::prelude::*;

use crate::text::{char_from_u32, is_digit_char, scan_ws, ws_to};

verus! {

pub open spec fn is_hex_char(c: char) -> bool {
    is_digit_char(c) || (65 <= c as u32 <= 70) || (97 <= c as u32 <= 102)
}

/// The value of a hexadecimal digit.
pub open spec fn hex_val(c: char) -> int {
    if is_digit_char(c) {
        c as u32 - 48
    } else if 65 <= c as u32 <= 70 {
        c as u32 - 55
    } else {
        c as u32 - 87
    }
}

/// The value of the four hexadecimal digits at `i`.
pub open spec fn hex4(s: Seq<char>, i: int) -> int {
    hex_val(s[i]) * 0x1000 + hex_val(s[i + 1]) * 0x100 + hex_val(s[i + 2]) * 0x10 + hex_val(
        s[i + 3],
    )
}

/// The character a single-character escape stands for, if the escape is one
/// JSON allows.
pub open spec fn simple_escape(e: char) -> Option<char> {
    if e == '"' {
        Some('"')
    } else if e == '\\' {
        Some('\\')
    } else if e == '/' {
        Some('/')
    } else if e == 'b' {
        Some('\u{8}')
    } else if e == 'f' {
        Some('\u{c}')
    } else if e == 'n' {
        Some('\n')
    } else if e == 'r' {
        Some('\r')
    } else if e == 't' {
        Some('\t')
    } else {
        None
    }
}

pub open spec fn prepend_char(c: char, r: Option<(Seq<char>, int)>) -> Option<(Seq<char>, int)> {
    match r {
        Some(p) => Some((seq![c] + p.0, p.1)),
        None => None,
    }
}

pub open spec fn prepend_seq(p: Seq<char>, r: Option<(Seq<char>, int)>) -> Option<
    (Seq<char>, int),
> {
    match r {
        Some(q) => Some((p + q.0, q.1)),
        None => None,
    }
}

/// The decoded content of a JSON string whose opening quote stands just
/// before `i`, together with the position after the closing quote. `None`
/// where the text up to the closing quote is not a well-formed JSON string:
/// an unknown escape, a malformed or lone-surrogate `\u` escape, an unescaped
/// control character, or no closing quote at all.
pub open spec fn str_body(s: Seq<char>, i: int) -> Option<(Seq<char>, int)>
    decreases s.len() - i,
    when 0 <= i <= s.len()
{
    if i >= s.len() {
        None
    } else {
        let c = s[i];
        if c == '"' {
            Some((Seq::empty(), i + 1))
        } else if c == '\\' {
            if i + 2 > s.len() {
                None
            } else {
                let e = s[i + 1];
                if e == 'u' {
                    if i + 6 > s.len() {
                        None
                    } else if !(is_hex_char(s[i + 2]) && is_hex_char(s[i + 3]) && is_hex_char(
                        s[i + 4],
                    ) && is_hex_char(s[i + 5])) {
                        None
                    } else {
                        let code = hex4(s, i + 2);
                        if 0xD800 <= code < 0xDC00 {
                            if i + 12 > s.len() {
                                None
                            } else if !(s[i + 6] == '\\' && s[i + 7] == 'u' && is_hex_char(
                                s[i + 8],
                            ) && is_hex_char(s[i + 9]) && is_hex_char(s[i + 10]) && is_hex_char(
                                s[i + 11],
                            )) {
                                None
                            } else {
                                let lo = hex4(s, i + 8);
                                if 0xDC00 <= lo < 0xE000 {
                                    let cp = 0x10000 + (code - 0xD800) * 0x400 + (lo - 0xDC00);
                                    prepend_char((cp as u32) as char, str_body(s, i + 12))
                                } else {
                                    None
                                }
                            }
                        } else if 0xDC00 <= code < 0xE000 {
                            None
                        } else {
                            prepend_char((code as u32) as char, str_body(s, i + 6))
                        }
                    }
                } else {
                    match simple_escape(e) {
                        Some(d) => prepend_char(d, str_body(s, i + 2)),
                        None => None,
                    }
                }
            }
        } else if (c as u32) < 0x20 {
            None
        } else {
            prepend_char(c, str_body(s, i + 1))
        }
    }
}

pub proof fn lemma_str_body_bounds(s: Seq<char>, i: int)
    requires
        0 <= i <= s.len(),
    ensures
        str_body(s, i) is Some ==> i < str_body(s, i).unwrap().1 <= s.len(),
    decreases s.len() - i,
{
    if i < s.len() {
        let c = s[i];
        if c == '"' {
        } else if c == '\\' && i + 2 <= s.len() {
            let e = s[i + 1];
            if e == 'u' {
                if i + 6 <= s.len() {
                    lemma_str_body_bounds(s, i + 6);
                    if i + 12 <= s.len() {
                        lemma_str_body_bounds(s, i + 12);
                    }
                }
            } else {
                lemma_str_body_bounds(s, i + 2);
            }
        } else {
            lemma_str_body_bounds(s, i + 1);
        }
    }
}

proof fn lemma_prepend_push(p: Seq<char>, c: char, r: Option<(Seq<char>, int)>)
    ensures
        prepend_seq(p, prepend_char(c, r)) == prepend_seq(p.push(c), r),
{
    match r {
        Some(q) => {
            assert(p + (seq![c] + q.0) =~= p.push(c) + q.0);
        },
        None => {},
    }
}

fn hex_digit(c: char) -> (r: Option<u32>)
    ensures
        r is Some <==> is_hex_char(c),
        r is Some ==> r->0 == hex_val(c),
{
    let u = c as u32;
    if 48 <= u && u <= 57 {
        Some(u - 48)
    } else if 65 <= u && u <= 70 {
        Some(u - 55)
    } else if 97 <= u && u <= 102 {
        Some(u - 87)
    } else {
        None
    }
}

/// Read four hexadecimal digits at `i`.
fn hex4_exec(v: &Vec<char>, i: usize) -> (r: Option<u32>)
    requires
        i + 4 <= v@.len(),
    ensures
        r is Some <==> (is_hex_char(v@[i as int]) && is_hex_char(v@[i + 1]) && is_hex_char(
            v@[i + 2],
        ) && is_hex_char(v@[i + 3])),
        r is Some ==> r->0 == hex4(v@, i as int) && r->0 < 0x10000,
{
    let n = v.len();
    let d0 = hex_digit(v[i]);
    let d1 = hex_digit(v[i + 1]);
    let d2 = hex_digit(v[i + 2]);
    let d3 = hex_digit(v[i + 3]);
    match (d0, d1, d2, d3) {
        (Some(a), Some(b), Some(c), Some(d)) => Some(a * 0x1000 + b * 0x100 + c * 0x10 + d),
        _ => None,
    }
}

/// Decode a JSON string body starting at `i` (just after the opening quote),
/// matching `str_body`.
pub fn str_body_exec(v: &Vec<char>, i: usize) -> (r: Option<(Vec<char>, usize)>)
    requires
        i <= v@.len(),
    ensures
        match r {
            Some(p) => str_body(v@, i as int) == Some((p.0@, p.1 as int)) && i < p.1 <= v@.len(),
            None => str_body(v@, i as int) is None,
        },
{
    proof {
        lemma_str_body_bounds(v@, i as int);
    }
    let ghost s = v@;
    let mut acc: Vec<char> = Vec::new();
    let mut j = i;
    proof {
        assert(prepend_seq(acc@, str_body(s, i as int)) == str_body(s, i as int)) by {
            match str_body(s, i as int) {
                Some(q) => {
                    assert(acc@ + q.0 =~= q.0);
                },
                None => {},
            }
        }
    }
    loop
        invariant
            i <= j <= s.len(),
            v@ == s,
            str_body(s, i as int) == prepend_seq(acc@, str_body(s, j as int)),
        decreases s.len() - j,
    {
        proof {
            lemma_str_body_bounds(s, j as int);
        }
        if j == v.len() {
            return None;
        }
        let c = v[j];
        if c == '"' {
            proof {
                assert(str_body(s, j as int) == Some((Seq::<char>::empty(), j + 1 as int)));
                match str_body(s, i as int) {
                    Some(q) => {
                        assert(acc@ + Seq::<char>::empty() =~= acc@);
                    },
                    None => {},
                }
            }
            return Some((acc, j + 1));
        } else if c == '\\' {
            if v.len() - j < 2 {
                return None;
            }
            let e = v[j + 1];
            if e == 'u' {
                if v.len() - j < 6 {
                    return None;
                }
                let code = match hex4_exec(v, j + 2) {
                    Some(x) => x,
                    None => {
                        return None;
                    },
                };
                if 0xD800 <= code && code < 0xDC00 {
                    if v.len() - j < 12 {
                        return None;
                    }
                    if !(v[j + 6] == '\\' && v[j + 7] == 'u') {
                        return None;
                    }
                    let lo = match hex4_exec(v, j + 8) {
                        Some(x) => x,
                        None => {
                            return None;
                        },
                    };
                    if !(0xDC00 <= lo && lo < 0xE000) {
                        return None;
                    }
                    let cp: u32 = 0x10000 + (code - 0xD800) * 0x400 + (lo - 0xDC00);
                    let ch = match char_from_u32(cp) {
                        Some(ch) => ch,
                        None => {
                            // a supplementary-plane scalar value is always valid
                            proof {
                                assert(false);
                            }
                            return None;
                        },
                    };
                    proof {
                        vstd::utf8::char_u32_cast(ch, cp);
                        lemma_prepend_push(acc@, ch, str_body(s, j + 12));
                    }
                    acc.push(ch);
                    j = j + 12;
                } else if 0xDC00 <= code && code < 0xE000 {
                    return None;
                } else {
                    let ch = match char_from_u32(code) {
                        Some(ch) => ch,
                        None => {
                            // below the surrogate range or in the upper BMP: valid
                            proof {
                                assert(false);
                            }
                            return None;
                        },
                    };
                    proof {
                        vstd::utf8::char_u32_cast(ch, code);
                        lemma_prepend_push(acc@, ch, str_body(s, j + 6));
                    }
                    acc.push(ch);
                    j = j + 6;
                }
            } else {
                let d = match e {
                    '"' => '"',
                    '\\' => '\\',
                    '/' => '/',
                    'b' => '\u{8}',
                    'f' => '\u{c}',
                    'n' => '\n',
                    'r' => '\r',
                    't' => '\t',
                    _ => {
                        return None;
                    },
                };
                proof {
                    lemma_prepend_push(acc@, d, str_body(s, j + 2));
                }
                acc.push(d);
                j = j + 2;
            }
        } else if (c as u32) < 0x20 {
            return None;
        } else {
            proof {
                lemma_prepend_push(acc@, c, str_body(s, j + 1));
            }
            acc.push(c);
            j = j + 1;
        }
    }
}

/// First index at or after `i` whose character is not a decimal digit.
pub open spec fn digits_to(s: Seq<char>, i: int) -> int
    decreases s.len() - i,
    when 0 <= i <= s.len()
{
    if i < s.len() && is_digit_char(s[i]) {
        digits_to(s, i + 1)
    } else {
        i
    }
}

pub proof fn lemma_digits_to(s: Seq<char>, i: int)
    requires
        0 <= i <= s.len(),
    ensures
        i <= digits_to(s, i) <= s.len(),
    decreases s.len() - i,
{
    if i < s.len() && is_digit_char(s[i]) {
        lemma_digits_to(s, i + 1);
    }
}

pub fn scan_digits(v: &Vec<char>, i: usize) -> (r: usize)
    requires
        i <= v@.len(),
    ensures
        r == digits_to(v@, i as int),
        i <= r <= v@.len(),
{
    proof {
        lemma_digits_to(v@, i as int);
    }
    let mut j = i;
    while j < v.len() && crate::text::digit_char(v[j])
        invariant
            i <= j <= v@.len(),
            digits_to(v@, i as int) == digits_to(v@, j as int),
        decreases v@.len() - j,
    {
        j = j + 1;
    }
    j
}

/// Position after a JSON integer part whose first character stands at `i`:
/// a single `0`, or a nonzero digit followed by more digits.
pub open spec fn int_end(s: Seq<char>, i: int) -> Option<int> {
    if 0 <= i < s.len() && is_digit_char(s[i]) {
        if s[i] == '0' {
            Some(i + 1)
        } else {
            Some(digits_to(s, i))
        }
    } else {
        None
    }
}

/// Position after an optional fraction part at `i`.
pub open spec fn frac_end(s: Seq<char>, j: int) -> Option<int> {
    if 0 <= j < s.len() && s[j] == '.' {
        if j + 1 < s.len() && is_digit_char(s[j + 1]) {
            Some(digits_to(s, j + 1))
        } else {
            None
        }
    } else {
        Some(j)
    }
}

/// Position after an optional exponent part at `j`.
pub open spec fn expo_end(s: Seq<char>, j: int) -> Option<int> {
    if 0 <= j < s.len() && (s[j] == 'e' || s[j] == 'E') {
        let k = if j + 1 < s.len() && (s[j + 1] == '+' || s[j + 1] == '-') {
            j + 2
        } else {
            j + 1
        };
        if k < s.len() && is_digit_char(s[k]) {
            Some(digits_to(s, k))
        } else {
            None
        }
    } else {
        Some(j)
    }
}

/// Position after a complete JSON number starting at `i` (optional minus,
/// integer part, optional fraction, optional exponent), or `None` where the
/// text at `i` is not a well-formed number.
pub open spec fn num_end(s: Seq<char>, i: int) -> Option<int> {
    let j0 = if 0 <= i < s.len() && s[i] == '-' {
        i + 1
    } else {
        i
    };
    match int_end(s, j0) {
        None => None,
        Some(j1) => match frac_end(s, j1) {
            None => None,
            Some(j2) => expo_end(s, j2),
        },
    }
}

pub proof fn lemma_num_end(s: Seq<char>, i: int)
    requires
        0 <= i <= s.len(),
    ensures
        num_end(s, i) is Some ==> i < num_end(s, i).unwrap() <= s.len(),
{
    let j0 = if 0 <= i < s.len() && s[i] == '-' {
        i + 1
    } else {
        i
    };
    if num_end(s, i) is Some {
        let j1 = int_end(s, j0).unwrap();
        lemma_digits_to(s, j0 + 1);
        if s[j0] != '0' {
            lemma_digits_to(s, j0);
            assert(digits_to(s, j0) == digits_to(s, j0 + 1));
        }
        assert(j0 < j1 <= s.len());
        let j2 = frac_end(s, j1).unwrap();
        if 0 <= j1 < s.len() && s[j1] == '.' {
            lemma_digits_to(s, j1 + 1);
        }
        assert(j1 <= j2 <= s.len());
        let j3 = expo_end(s, j2).unwrap();
        if 0 <= j2 < s.len() && (s[j2] == 'e' || s[j2] == 'E') {
            let k = if j2 + 1 < s.len() && (s[j2 + 1] == '+' || s[j2 + 1] == '-') {
                j2 + 2
            } else {
                j2 + 1
            };
            lemma_digits_to(s, k);
        }
        assert(j2 <= j3 <= s.len());
    }
}

/// Scan a complete JSON number, matching `num_end`.
pub fn num_end_exec(v: &Vec<char>, i: usize) -> (r: Option<usize>)
    requires
        i <= v@.len(),
    ensures
        match r {
            Some(j) => num_end(v@, i as int) == Some(j as int) && i < j <= v@.len(),
            None => num_end(v@, i as int) is None,
        },
{
    proof {
        lemma_num_end(v@, i as int);
    }
    let j0 = if i < v.len() && v[i] == '-' {
        i + 1
    } else {
        i
    };
    if j0 >= v.len() {
        return None;
    }
    let c0 = v[j0] as u32;
    if !(48 <= c0 && c0 <= 57) {
        return None;
    }
    let j1 = if v[j0] == '0' {
        j0 + 1
    } else {
        scan_digits(v, j0)
    };
    let j2 = if j1 < v.len() && v[j1] == '.' {
        if j1 + 1 < v.len() && {
            let u = v[j1 + 1] as u32;
            48 <= u && u <= 57
        } {
            scan_digits(v, j1 + 1)
        } else {
            return None;
        }
    } else {
        j1
    };
    let j3 = if j2 < v.len() && (v[j2] == 'e' || v[j2] == 'E') {
        let k = if j2 + 1 < v.len() && (v[j2 + 1] == '+' || v[j2 + 1] == '-') {
            j2 + 2
        } else {
            j2 + 1
        };
        if k < v.len() && {
            let u = v[k] as u32;
            48 <= u && u <= 57
        } {
            scan_digits(v, k)
        } else {
            return None;
        }
    } else {
        j2
    };
    Some(j3)
}

/// Position after the JSON value starting at `i` (which must not be
/// whitespace), or `None` where no well-formed value starts there.
pub open spec fn skip_value(s: Seq<char>, i: int) -> Option<int>
    decreases s.len() - i, 0int,
    when 0 <= i <= s.len()
{
    if i >= s.len() {
        None
    } else {
        let c = s[i];
        if c == '"' {
            match str_body(s, i + 1) {
                Some(p) => Some(p.1),
                None => None,
            }
        } else if c == '{' {
            skip_members(s, i + 1, true)
        } else if c == '[' {
            skip_items(s, i + 1, true)
        } else if c == 't' {
            if i + 4 <= s.len() && s[i + 1] == 'r' && s[i + 2] == 'u' && s[i + 3] == 'e' {
                Some(i + 4)
            } else {
                None
            }
        } else if c == 'f' {
            if i + 5 <= s.len() && s[i + 1] == 'a' && s[i + 2] == 'l' && s[i + 3] == 's' && s[i + 4]
                == 'e' {
                Some(i + 5)
            } else {
                None
            }
        } else if c == 'n' {
            if i + 4 <= s.len() && s[i + 1] == 'u' && s[i + 2] == 'l' && s[i + 3] == 'l' {
                Some(i + 4)
            } else {
                None
            }
        } else if c == '-' || is_digit_char(c) {
            num_end(s, i)
        } else {
            None
        }
    }
}

/// Position after the members and closing brace of a JSON object whose
/// opening brace (or last member separator) stands just before `i`.
pub open spec fn skip_members(s: Seq<char>, i: int, first: bool) -> Option<int>
    decreases s.len() - i, 1int,
    when 0 <= i <= s.len()
{
    let j = ws_to(s, i);
    if j < s.len() && first && s[j] == '}' {
        Some(j + 1)
    } else if j < s.len() && s[j] == '"' {
        match str_body(s, j + 1) {
            None => None,
            Some(p) => {
                let j2 = p.1;
                if 0 <= j2 <= s.len() {
                    let j3 = ws_to(s, j2);
                    if j3 < s.len() && s[j3] == ':' {
                        let j4 = ws_to(s, j3 + 1);
                        if i < j4 <= s.len() {
                            match skip_value(s, j4) {
                                None => None,
                                Some(j5) => {
                                    if 0 <= j5 <= s.len() {
                                        let j6 = ws_to(s, j5);
                                        if j6 < s.len() && s[j6] == '}' {
                                            Some(j6 + 1)
                                        } else if j6 < s.len() && s[j6] == ',' && i < j6 + 1 {
                                            skip_members(s, j6 + 1, false)
                                        } else {
                                            None
                                        }
                                    } else {
                                        None
                                    }
                                },
                            }
                        } else {
                            None
                        }
                    } else {
                        None
                    }
                } else {
                    None
                }
            },
        }
    } else {
        None
    }
}

/// Position after the items and closing bracket of a JSON array whose
/// opening bracket (or last item separator) stands just before `i`.
pub open spec fn skip_items(s: Seq<char>, i: int, first: bool) -> Option<int>
    decreases s.len() - i, 1int,
    when 0 <= i <= s.len()
{
    let j = ws_to(s, i);
    if j < s.len() && first && s[j] == ']' {
        Some(j + 1)
    } else if i <= j < s.len() {
        match skip_value(s, j) {
            None => None,
            Some(j2) => {
                if 0 <= j2 <= s.len() {
                    let j3 = ws_to(s, j2);
                    if j3 < s.len() && s[j3] == ']' {
                        Some(j3 + 1)
                    } else if j3 < s.len() && s[j3] == ',' && i < j3 + 1 {
                        skip_items(s, j3 + 1, false)
                    } else {
                        None
                    }
                } else {
                    None
                }
            },
        }
    } else {
        None
    }
}

/// Skip a JSON value, matching `skip_value`.
pub fn skip_value_exec(v: &Vec<char>, i: usize) -> (r: Option<usize>)
    requires
        i <= v@.len(),
    ensures
        match r {
            Some(j) => skip_value(v@, i as int) == Some(j as int) && i < j <= v@.len(),
            None => skip_value(v@, i as int) is None,
        },
    decreases v@.len() - i, 0int,
{
    if i >= v.len() {
        return None;
    }
    let c = v[i];
    if c == '"' {
        match str_body_exec(v, i + 1) {
            Some(p) => Some(p.1),
            None => None,
        }
    } else if c == '{' {
        skip_members_exec(v, i + 1, true)
    } else if c == '[' {
        skip_items_exec(v, i + 1, true)
    } else if c == 't' {
        if v.len() - i >= 4 && v[i + 1] == 'r' && v[i + 2] == 'u' && v[i + 3] == 'e' {
            Some(i + 4)
        } else {
            None
        }
    } else if c == 'f' {
        if v.len() - i >= 5 && v[i + 1] == 'a' && v[i + 2] == 'l' && v[i + 3] == 's' && v[i + 4]
            == 'e' {
            Some(i + 5)
        } else {
            None
        }
    } else if c == 'n' {
        if v.len() - i >= 4 && v[i + 1] == 'u' && v[i + 2] == 'l' && v[i + 3] == 'l' {
            Some(i + 4)
        } else {
            None
        }
    } else {
        let u = c as u32;
        if c == '-' || (48 <= u && u <= 57) {
            num_end_exec(v, i)
        } else {
            None
        }
    }
}

/// Skip an object's members, matching `skip_members`.
fn skip_members_exec(v: &Vec<char>, i: usize, first: bool) -> (r: Option<usize>)
    requires
        i <= v@.len(),
    ensures
        match r {
            Some(j) => skip_members(v@, i as int, first) == Some(j as int) && i <= j <= v@.len(),
            None => skip_members(v@, i as int, first) is None,
        },
    decreases v@.len() - i, 1int,
{
    let j = scan_ws(v, i);
    if j < v.len() && first && v[j] == '}' {
        return Some(j + 1);
    }
    if !(j < v.len() && v[j] == '"') {
        return None;
    }
    let p = match str_body_exec(v, j + 1) {
        Some(p) => p,
        None => {
            return None;
        },
    };
    let j2 = p.1;
    let j3 = scan_ws(v, j2);
    if !(j3 < v.len() && v[j3] == ':') {
        return None;
    }
    let j4 = scan_ws(v, j3 + 1);
    let j5 = match skip_value_exec(v, j4) {
        Some(j5) => j5,
        None => {
            return None;
        },
    };
    let j6 = scan_ws(v, j5);
    if j6 < v.len() && v[j6] == '}' {
        Some(j6 + 1)
    } else if j6 < v.len() && v[j6] == ',' {
        skip_members_exec(v, j6 + 1, false)
    } else {
        None
    }
}

/// Skip an array's items, matching `skip_items`.
fn skip_items_exec(v: &Vec<char>, i: usize, first: bool) -> (r: Option<usize>)
    requires
        i <= v@.len(),
    ensures
        match r {
            Some(j) => skip_items(v@, i as int, first) == Some(j as int) && i <= j <= v@.len(),
            None => skip_items(v@, i as int, first) is None,
        },
    decreases v@.len() - i, 1int,
{
    let j = scan_ws(v, i);
    if j < v.len() && first && v[j] == ']' {
        return Some(j + 1);
    }
    if j >= v.len() {
        return None;
    }
    let j2 = match skip_value_exec(v, j) {
        Some(j2) => j2,
        None => {
            return None;
        },
    };
    let j3 = scan_ws(v, j2);
    if j3 < v.len() && v[j3] == ']' {
        Some(j3 + 1)
    } else if j3 < v.len() && v[j3] == ',' {
        skip_items_exec(v, j3 + 1, false)
    } else {
        None
    }
}

} // verus!
