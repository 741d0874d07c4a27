//! Parsing the release endpoint's JSON payload and turning an HTTP response
//! into a fetch state.
//!
//! The endpoint answers with a JSON object that carries, among many other
//! members, an `"assets"` member: an array of objects each of which carries a
//! `"name"` and a `"browser_download_url"` string member. The parser checks
//! that schema and nothing more: unknown members — of the top-level object
//! and of each asset object alike — are skipped whatever their value, member
//! order is free, and when a key repeats the later value counts. A body
//! without the required members, or that is not such an object at all, is a
//! parse failure.
//!
//! Strings are read with the single-character JSON escapes (`\"` `\\` `\/`
//! `\b` `\f` `\n` `\r` `\t`) decoded. A `\uXXXX` escape in a string that is
//! only skipped is passed over like any other escape; in one of the two
//! extracted strings it is a parse failure — asset names and download URLs
//! never carry one.

use vstd::prelude::*;
use crate::bytes::bytes_eq;
use crate::classify::{assets_view, opt_view, ReleaseAsset, ReleaseSnapshot};

verus! {

pub const QUOTE: u8 = 34;
pub const BACKSLASH: u8 = 92;
pub const SLASH: u8 = 47;
pub const LBRACE: u8 = 123;
pub const RBRACE: u8 = 125;
pub const LBRACKET: u8 = 91;
pub const RBRACKET: u8 = 93;
pub const COLON: u8 = 58;
pub const COMMA: u8 = 44;
pub const SPACE: u8 = 32;
pub const TAB: u8 = 9;
pub const NEWLINE: u8 = 10;
pub const CARRIAGE: u8 = 13;
pub const BACKSPACE: u8 = 8;
pub const FORMFEED: u8 = 12;

/// True for the four whitespace bytes JSON allows between tokens.
pub open spec fn is_json_ws(b: u8) -> bool {
    b == SPACE || b == TAB || b == NEWLINE || b == CARRIAGE
}

/// The first position at or after `i` that does not hold whitespace.
pub open spec fn spec_skip_ws(s: Seq<u8>, i: int) -> int
    decreases s.len() - i,
{
    if 0 <= i < s.len() && is_json_ws(s[i]) {
        spec_skip_ws(s, i + 1)
    } else {
        i
    }
}

pub proof fn lemma_skip_ws_bounds(s: Seq<u8>, i: int)
    requires
        0 <= i <= s.len(),
    ensures
        i <= spec_skip_ws(s, i) <= s.len(),
    decreases s.len() - i,
{
    if i < s.len() && is_json_ws(s[i]) {
        lemma_skip_ws_bounds(s, i + 1);
    }
}

fn is_ws_byte(b: u8) -> (r: bool)
    ensures
        r == is_json_ws(b),
{
    b == SPACE || b == TAB || b == NEWLINE || b == CARRIAGE
}

/// Advances past whitespace.
pub fn skip_ws(s: &Vec<u8>, i: usize) -> (j: usize)
    requires
        i <= s@.len(),
    ensures
        j as int == spec_skip_ws(s@, i as int),
        i <= j <= s@.len(),
{
    let n: usize = s.len();
    let mut cur: usize = i;
    while cur < n && is_ws_byte(s[cur])
        invariant
            i <= cur <= n,
            n == s@.len(),
            spec_skip_ws(s@, i as int) == spec_skip_ws(s@, cur as int),
        decreases n - cur,
    {
        cur = cur + 1;
    }
    cur
}

/// The byte a single-character JSON escape stands for, or `None` where the
/// character after the backslash is no such escape.
pub open spec fn escape_byte(b: u8) -> Option<u8> {
    if b == QUOTE {
        Some(QUOTE)
    } else if b == BACKSLASH {
        Some(BACKSLASH)
    } else if b == SLASH {
        Some(SLASH)
    } else if b == ('b' as u8) {
        Some(BACKSPACE)
    } else if b == ('f' as u8) {
        Some(FORMFEED)
    } else if b == ('n' as u8) {
        Some(NEWLINE)
    } else if b == ('r' as u8) {
        Some(CARRIAGE)
    } else if b == ('t' as u8) {
        Some(TAB)
    } else {
        None
    }
}

fn unescape_byte(b: u8) -> (r: Option<u8>)
    ensures
        r == escape_byte(b),
{
    if b == QUOTE {
        Some(QUOTE)
    } else if b == BACKSLASH {
        Some(BACKSLASH)
    } else if b == SLASH {
        Some(SLASH)
    } else if b == ('b' as u8) {
        Some(BACKSPACE)
    } else if b == ('f' as u8) {
        Some(FORMFEED)
    } else if b == ('n' as u8) {
        Some(NEWLINE)
    } else if b == ('r' as u8) {
        Some(CARRIAGE)
    } else if b == ('t' as u8) {
        Some(TAB)
    } else {
        None
    }
}

/// The remainder of a string literal, scanned from just after the opening
/// quote: the decoded contents up to the closing quote, and the position
/// after it. An unsupported escape or a missing closing quote is a failure.
pub open spec fn spec_string_body(s: Seq<u8>, i: int) -> Option<(Seq<u8>, int)>
    decreases s.len() - i,
{
    if !(0 <= i < s.len()) {
        None
    } else if s[i] == QUOTE {
        Some((Seq::empty(), i + 1))
    } else if s[i] == BACKSLASH {
        if i + 2 <= s.len() {
            match escape_byte(s[i + 1]) {
                Some(e) => match spec_string_body(s, i + 2) {
                    Some((t, j)) => Some((seq![e] + t, j)),
                    None => None,
                },
                None => None,
            }
        } else {
            None
        }
    } else {
        match spec_string_body(s, i + 1) {
            Some((t, j)) => Some((seq![s[i]] + t, j)),
            None => None,
        }
    }
}

/// A string literal at position `i`: an opening quote, the contents, a
/// closing quote. Yields the decoded contents and the position after the
/// literal.
pub open spec fn spec_parse_string(s: Seq<u8>, i: int) -> Option<(Seq<u8>, int)> {
    if 0 <= i < s.len() && s[i] == QUOTE {
        spec_string_body(s, i + 1)
    } else {
        None
    }
}

pub proof fn lemma_string_body_bounds(s: Seq<u8>, i: int)
    requires
        0 <= i <= s.len(),
    ensures
        match spec_string_body(s, i) {
            Some((t, j)) => i < j <= s.len(),
            None => true,
        },
    decreases s.len() - i,
{
    if 0 <= i < s.len() {
        if s[i] == QUOTE {
        } else if s[i] == BACKSLASH {
            if i + 2 <= s.len() {
                lemma_string_body_bounds(s, i + 2);
            }
        } else {
            lemma_string_body_bounds(s, i + 1);
        }
    }
}

pub proof fn lemma_parse_string_bounds(s: Seq<u8>, i: int)
    ensures
        match spec_parse_string(s, i) {
            Some((t, j)) => i < j <= s.len(),
            None => true,
        },
{
    if 0 <= i < s.len() && s[i] == QUOTE {
        lemma_string_body_bounds(s, i + 1);
    }
}

/// Prefixes the contents of a partial string-parse result.
pub open spec fn prepend_bytes(prefix: Seq<u8>, o: Option<(Seq<u8>, int)>) -> Option<(Seq<u8>, int)> {
    match o {
        Some((t, j)) => Some((prefix + t, j)),
        None => None,
    }
}

proof fn lemma_prepend_bytes_push(prefix: Seq<u8>, b: u8, o: Option<(Seq<u8>, int)>)
    ensures
        prepend_bytes(prefix, prepend_bytes(seq![b], o)) == prepend_bytes(prefix.push(b), o),
{
    match o {
        Some((t, j)) => {
            assert(prefix + (seq![b] + t) =~= prefix.push(b) + t);
        },
        None => {},
    }
}

/// Parses a string literal beginning at `i`, decoding escapes.
pub fn parse_string(s: &Vec<u8>, i: usize) -> (r: Option<(Vec<u8>, usize)>)
    requires
        i <= s@.len(),
    ensures
        match r {
            Some(p) => spec_parse_string(s@, i as int) == Some((p.0@, p.1 as int)) && i < p.1
                <= s@.len(),
            None => spec_parse_string(s@, i as int) is None,
        },
{
    let n: usize = s.len();
    if i >= n || s[i] != QUOTE {
        return None;
    }
    let mut out: Vec<u8> = Vec::new();
    let mut cur: usize = i + 1;
    loop
        invariant
            i + 1 <= cur <= n,
            n == s@.len(),
            spec_parse_string(s@, i as int) == spec_string_body(s@, i + 1),
            spec_string_body(s@, i + 1) == prepend_bytes(out@, spec_string_body(s@, cur as int)),
        decreases n - cur,
    {
        if cur >= n {
            return None;
        }
        let b = s[cur];
        if b == QUOTE {
            proof {
                assert(out@ + Seq::<u8>::empty() =~= out@);
            }
            return Some((out, cur + 1));
        }
        if b == BACKSLASH {
            if cur + 1 >= n {
                return None;
            }
            let e = match unescape_byte(s[cur + 1]) {
                None => {
                    return None;
                },
                Some(e) => e,
            };
            proof {
                lemma_prepend_bytes_push(out@, e, spec_string_body(s@, cur + 2));
            }
            out.push(e);
            cur = cur + 2;
        } else {
            proof {
                lemma_prepend_bytes_push(out@, b, spec_string_body(s@, cur + 1));
            }
            out.push(b);
            cur = cur + 1;
        }
    }
}

/// The position after a string literal whose contents are not needed,
/// scanned from just after the opening quote. Any escaped character is
/// passed over, so the scan never mistakes an escaped quote for the end.
pub open spec fn spec_skip_string(s: Seq<u8>, i: int) -> Option<int>
    decreases s.len() - i,
{
    if !(0 <= i < s.len()) {
        None
    } else if s[i] == QUOTE {
        Some(i + 1)
    } else if s[i] == BACKSLASH {
        if i + 2 <= s.len() {
            spec_skip_string(s, i + 2)
        } else {
            None
        }
    } else {
        spec_skip_string(s, i + 1)
    }
}

pub proof fn lemma_skip_string_bounds(s: Seq<u8>, i: int)
    requires
        0 <= i <= s.len(),
    ensures
        match spec_skip_string(s, i) {
            Some(j) => i < j <= s.len(),
            None => true,
        },
    decreases s.len() - i,
{
    if 0 <= i < s.len() {
        if s[i] == QUOTE {
        } else if s[i] == BACKSLASH {
            if i + 2 <= s.len() {
                lemma_skip_string_bounds(s, i + 2);
            }
        } else {
            lemma_skip_string_bounds(s, i + 1);
        }
    }
}

/// Advances past a string literal whose contents are not needed.
fn skip_string(s: &Vec<u8>, i: usize) -> (r: Option<usize>)
    requires
        i <= s@.len(),
    ensures
        match r {
            Some(j) => spec_skip_string(s@, i as int) == Some(j as int) && i < j <= s@.len(),
            None => spec_skip_string(s@, i as int) is None,
        },
{
    let n: usize = s.len();
    let mut cur: usize = i;
    loop
        invariant
            i <= cur <= n,
            n == s@.len(),
            spec_skip_string(s@, i as int) == spec_skip_string(s@, cur as int),
        decreases n - cur,
    {
        if cur >= n {
            return None;
        }
        let b = s[cur];
        if b == QUOTE {
            return Some(cur + 1);
        }
        if b == BACKSLASH {
            if cur + 1 >= n {
                return None;
            }
            cur = cur + 2;
        } else {
            cur = cur + 1;
        }
    }
}

/// True for a byte that can stand inside a number, `true`, `false` or
/// `null`: anything but whitespace and JSON punctuation.
pub open spec fn is_plain_byte(b: u8) -> bool {
    !is_json_ws(b) && b != QUOTE && b != COMMA && b != COLON && b != LBRACE && b != RBRACE
        && b != LBRACKET && b != RBRACKET
}

/// The first position at or after `i` that does not hold a plain-token byte.
pub open spec fn spec_plain_end(s: Seq<u8>, i: int) -> int
    decreases s.len() - i,
{
    if 0 <= i < s.len() && is_plain_byte(s[i]) {
        spec_plain_end(s, i + 1)
    } else {
        i
    }
}

pub proof fn lemma_plain_end_bounds(s: Seq<u8>, i: int)
    requires
        0 <= i <= s.len(),
    ensures
        i <= spec_plain_end(s, i) <= s.len(),
    decreases s.len() - i,
{
    if i < s.len() && is_plain_byte(s[i]) {
        lemma_plain_end_bounds(s, i + 1);
    }
}

fn is_plain(b: u8) -> (r: bool)
    ensures
        r == is_plain_byte(b),
{
    !(b == SPACE || b == TAB || b == NEWLINE || b == CARRIAGE || b == QUOTE || b == COMMA
        || b == COLON || b == LBRACE || b == RBRACE || b == LBRACKET || b == RBRACKET)
}

/// Advances past a number, `true`, `false` or `null`.
fn scan_plain(s: &Vec<u8>, i: usize) -> (j: usize)
    requires
        i <= s@.len(),
    ensures
        j as int == spec_plain_end(s@, i as int),
        i <= j <= s@.len(),
{
    let n: usize = s.len();
    let mut cur: usize = i;
    while cur < n && is_plain(s[cur])
        invariant
            i <= cur <= n,
            n == s@.len(),
            spec_plain_end(s@, i as int) == spec_plain_end(s@, cur as int),
        decreases n - cur,
    {
        cur = cur + 1;
    }
    cur
}

/// Clamps a successor position into `(lo, n]`, so that termination of the
/// mutually recursive skip functions is evident from the text alone. The
/// bounds lemmas below show the clamp never alters a real result.
pub open spec fn step_within(lo: int, j: int, n: int) -> int {
    if lo < j <= n {
        j
    } else if lo + 1 <= n {
        lo + 1
    } else {
        n
    }
}

/// The position after one JSON value of any kind, starting at its first
/// byte: a string, an object, an array, or a plain token.
pub open spec fn spec_skip_value(s: Seq<u8>, i: int) -> Option<int>
    decreases s.len() - i, 0int,
    when 0 <= i <= s.len()
{
    if !(0 <= i < s.len()) {
        None
    } else if s[i] == QUOTE {
        spec_skip_string(s, i + 1)
    } else if s[i] == LBRACE {
        let j = spec_skip_ws(s, i + 1);
        proof {
            lemma_skip_ws_bounds(s, i + 1);
        }
        if j < s.len() && s[j] == RBRACE {
            Some(j + 1)
        } else {
            spec_skip_members(s, j)
        }
    } else if s[i] == LBRACKET {
        let j = spec_skip_ws(s, i + 1);
        proof {
            lemma_skip_ws_bounds(s, i + 1);
        }
        if j < s.len() && s[j] == RBRACKET {
            Some(j + 1)
        } else {
            spec_skip_elements(s, j)
        }
    } else if is_plain_byte(s[i]) {
        Some(spec_plain_end(s, i))
    } else {
        None
    }
}

/// The position after the remaining members of an object whose contents are
/// not needed, starting at a member's key.
pub open spec fn spec_skip_members(s: Seq<u8>, i: int) -> Option<int>
    decreases s.len() - i, 1int,
    when 0 <= i <= s.len()
{
    if !(0 <= i < s.len() && s[i] == QUOTE) {
        None
    } else {
        match spec_skip_string(s, i + 1) {
            None => None,
            Some(k) => {
                proof {
                    lemma_skip_string_bounds(s, i + 1);
                }
                let m = spec_skip_ws(s, k);
                proof {
                    lemma_skip_ws_bounds(s, k);
                }
                if !(m < s.len() && s[m] == COLON) {
                    None
                } else {
                    let v0 = spec_skip_ws(s, m + 1);
                    proof {
                        lemma_skip_ws_bounds(s, m + 1);
                    }
                    match spec_skip_value(s, v0) {
                        None => None,
                        Some(v) => {
                            let vc = step_within(v0, v, s.len() as int);
                            let t = spec_skip_ws(s, vc);
                            proof {
                                lemma_skip_ws_bounds(s, vc);
                            }
                            if t < s.len() && s[t] == COMMA {
                                let r = spec_skip_ws(s, t + 1);
                                proof {
                                    lemma_skip_ws_bounds(s, t + 1);
                                }
                                spec_skip_members(s, r)
                            } else if t < s.len() && s[t] == RBRACE {
                                Some(t + 1)
                            } else {
                                None
                            }
                        },
                    }
                }
            },
        }
    }
}

/// The position after the remaining elements of an array whose contents are
/// not needed, starting at an element's first byte.
pub open spec fn spec_skip_elements(s: Seq<u8>, i: int) -> Option<int>
    decreases s.len() - i, 1int,
    when 0 <= i <= s.len()
{
    match spec_skip_value(s, i) {
        None => None,
        Some(v) => {
            let vc = step_within(i, v, s.len() as int);
            let t = spec_skip_ws(s, vc);
            proof {
                lemma_skip_ws_bounds(s, vc);
            }
            if t < s.len() && s[t] == COMMA {
                let r = spec_skip_ws(s, t + 1);
                proof {
                    lemma_skip_ws_bounds(s, t + 1);
                }
                spec_skip_elements(s, r)
            } else if t < s.len() && s[t] == RBRACKET {
                Some(t + 1)
            } else {
                None
            }
        },
    }
}

pub proof fn lemma_skip_value_bounds(s: Seq<u8>, i: int)
    requires
        0 <= i <= s.len(),
    ensures
        match spec_skip_value(s, i) {
            Some(v) => i < v <= s.len(),
            None => true,
        },
    decreases s.len() - i, 0int,
{
    if 0 <= i < s.len() {
        if s[i] == QUOTE {
            lemma_skip_string_bounds(s, i + 1);
        } else if s[i] == LBRACE {
            lemma_skip_ws_bounds(s, i + 1);
            let j = spec_skip_ws(s, i + 1);
            if !(j < s.len() && s[j] == RBRACE) {
                lemma_skip_members_bounds(s, j);
            }
        } else if s[i] == LBRACKET {
            lemma_skip_ws_bounds(s, i + 1);
            let j = spec_skip_ws(s, i + 1);
            if !(j < s.len() && s[j] == RBRACKET) {
                lemma_skip_elements_bounds(s, j);
            }
        } else if is_plain_byte(s[i]) {
            lemma_plain_end_bounds(s, i + 1);
        }
    }
}

pub proof fn lemma_skip_members_bounds(s: Seq<u8>, i: int)
    requires
        0 <= i <= s.len(),
    ensures
        match spec_skip_members(s, i) {
            Some(v) => i < v <= s.len(),
            None => true,
        },
    decreases s.len() - i, 1int,
{
    if 0 <= i < s.len() && s[i] == QUOTE {
        lemma_skip_string_bounds(s, i + 1);
        match spec_skip_string(s, i + 1) {
            None => {},
            Some(k) => {
                lemma_skip_ws_bounds(s, k);
                let m = spec_skip_ws(s, k);
                if m < s.len() && s[m] == COLON {
                    lemma_skip_ws_bounds(s, m + 1);
                    let v0 = spec_skip_ws(s, m + 1);
                    lemma_skip_value_bounds(s, v0);
                    match spec_skip_value(s, v0) {
                        None => {},
                        Some(v) => {
                            let vc = step_within(v0, v, s.len() as int);
                            assert(vc == v);
                            lemma_skip_ws_bounds(s, vc);
                            let t = spec_skip_ws(s, vc);
                            if t < s.len() && s[t] == COMMA {
                                lemma_skip_ws_bounds(s, t + 1);
                                lemma_skip_members_bounds(s, spec_skip_ws(s, t + 1));
                            }
                        },
                    }
                }
            },
        }
    }
}

pub proof fn lemma_skip_elements_bounds(s: Seq<u8>, i: int)
    requires
        0 <= i <= s.len(),
    ensures
        match spec_skip_elements(s, i) {
            Some(v) => i < v <= s.len(),
            None => true,
        },
    decreases s.len() - i, 1int,
{
    lemma_skip_value_bounds(s, i);
    match spec_skip_value(s, i) {
        None => {},
        Some(v) => {
            let vc = step_within(i, v, s.len() as int);
            assert(vc == v);
            lemma_skip_ws_bounds(s, vc);
            let t = spec_skip_ws(s, vc);
            if t < s.len() && s[t] == COMMA {
                lemma_skip_ws_bounds(s, t + 1);
                lemma_skip_elements_bounds(s, spec_skip_ws(s, t + 1));
            }
        },
    }
}

/// Advances past one JSON value of any kind.
fn skip_value(s: &Vec<u8>, i: usize) -> (r: Option<usize>)
    requires
        i <= s@.len(),
    ensures
        match r {
            Some(v) => spec_skip_value(s@, i as int) == Some(v as int) && i < v <= s@.len(),
            None => spec_skip_value(s@, i as int) is None,
        },
    decreases s@.len() - i, 0int,
{
    let n: usize = s.len();
    if i >= n {
        return None;
    }
    let b = s[i];
    if b == QUOTE {
        skip_string(s, i + 1)
    } else if b == LBRACE {
        let j = skip_ws(s, i + 1);
        if j < n && s[j] == RBRACE {
            Some(j + 1)
        } else {
            skip_members(s, j)
        }
    } else if b == LBRACKET {
        let j = skip_ws(s, i + 1);
        if j < n && s[j] == RBRACKET {
            Some(j + 1)
        } else {
            skip_elements(s, j)
        }
    } else if is_plain(b) {
        let e = scan_plain(s, i);
        proof {
            lemma_plain_end_bounds(s@, i + 1);
        }
        Some(e)
    } else {
        None
    }
}

/// Advances past the remaining members of an object, from a member's key.
fn skip_members(s: &Vec<u8>, i: usize) -> (r: Option<usize>)
    requires
        i <= s@.len(),
    ensures
        match r {
            Some(v) => spec_skip_members(s@, i as int) == Some(v as int) && i < v <= s@.len(),
            None => spec_skip_members(s@, i as int) is None,
        },
    decreases s@.len() - i, 1int,
{
    let n: usize = s.len();
    if i >= n || s[i] != QUOTE {
        return None;
    }
    let k = match skip_string(s, i + 1) {
        None => {
            return None;
        },
        Some(k) => k,
    };
    let m = skip_ws(s, k);
    if m >= n || s[m] != COLON {
        return None;
    }
    let v0 = skip_ws(s, m + 1);
    let v = match skip_value(s, v0) {
        None => {
            return None;
        },
        Some(v) => v,
    };
    let t = skip_ws(s, v);
    if t < n && s[t] == COMMA {
        let r2 = skip_ws(s, t + 1);
        skip_members(s, r2)
    } else if t < n && s[t] == RBRACE {
        Some(t + 1)
    } else {
        None
    }
}

/// Advances past the remaining elements of an array, from an element's
/// first byte.
fn skip_elements(s: &Vec<u8>, i: usize) -> (r: Option<usize>)
    requires
        i <= s@.len(),
    ensures
        match r {
            Some(v) => spec_skip_elements(s@, i as int) == Some(v as int) && i < v <= s@.len(),
            None => spec_skip_elements(s@, i as int) is None,
        },
    decreases s@.len() - i, 1int,
{
    let n: usize = s.len();
    let v = match skip_value(s, i) {
        None => {
            return None;
        },
        Some(v) => v,
    };
    let t = skip_ws(s, v);
    if t < n && s[t] == COMMA {
        let r2 = skip_ws(s, t + 1);
        skip_elements(s, r2)
    } else if t < n && s[t] == RBRACKET {
        Some(t + 1)
    } else {
        None
    }
}

/// The object key "name".
pub open spec fn key_name() -> Seq<u8> {
    seq![('n' as u8), ('a' as u8), ('m' as u8), ('e' as u8)]
}

/// The object key "browser_download_url".
pub open spec fn key_url() -> Seq<u8> {
    seq![
        ('b' as u8), ('r' as u8), ('o' as u8), ('w' as u8), ('s' as u8), ('e' as u8), ('r' as u8),
        ('_' as u8), ('d' as u8), ('o' as u8), ('w' as u8), ('n' as u8), ('l' as u8), ('o' as u8),
        ('a' as u8), ('d' as u8), ('_' as u8), ('u' as u8), ('r' as u8), ('l' as u8),
    ]
}

/// The object key "assets".
pub open spec fn key_assets() -> Seq<u8> {
    seq![('a' as u8), ('s' as u8), ('s' as u8), ('e' as u8), ('t' as u8), ('s' as u8)]
}

fn name_key() -> (v: Vec<u8>)
    ensures
        v@ == key_name(),
{
    let v: Vec<u8> = vec![('n' as u8), ('a' as u8), ('m' as u8), ('e' as u8)];
    proof {
        assert(v@ =~= key_name());
    }
    v
}

fn url_key() -> (v: Vec<u8>)
    ensures
        v@ == key_url(),
{
    let v: Vec<u8> = vec![
        ('b' as u8), ('r' as u8), ('o' as u8), ('w' as u8), ('s' as u8), ('e' as u8), ('r' as u8),
        ('_' as u8), ('d' as u8), ('o' as u8), ('w' as u8), ('n' as u8), ('l' as u8), ('o' as u8),
        ('a' as u8), ('d' as u8), ('_' as u8), ('u' as u8), ('r' as u8), ('l' as u8),
    ];
    proof {
        assert(v@ =~= key_url());
    }
    v
}

fn assets_key() -> (v: Vec<u8>)
    ensures
        v@ == key_assets(),
{
    let v: Vec<u8> = vec![
        ('a' as u8), ('s' as u8), ('s' as u8), ('e' as u8), ('t' as u8), ('s' as u8),
    ];
    proof {
        assert(v@ =~= key_assets());
    }
    v
}

/// The members of one asset object from a key at `i` on, with the `"name"`
/// and `"browser_download_url"` values seen so far. A `"name"` or
/// `"browser_download_url"` member must hold a string and is extracted —
/// when a key repeats, the later value counts; any other member is skipped.
/// At the closing brace both values must have been seen.
pub open spec fn spec_asset_members(
    s: Seq<u8>,
    i: int,
    name: Option<Seq<u8>>,
    url: Option<Seq<u8>>,
) -> Option<((Seq<u8>, Seq<u8>), int)>
    decreases s.len() - i,
    when 0 <= i <= s.len()
{
    match spec_parse_string(s, i) {
        None => None,
        Some((key, k)) => {
            proof {
                lemma_parse_string_bounds(s, i);
            }
            let m = spec_skip_ws(s, k);
            proof {
                lemma_skip_ws_bounds(s, k);
            }
            if !(m < s.len() && s[m] == COLON) {
                None
            } else {
                let v0 = spec_skip_ws(s, m + 1);
                proof {
                    lemma_skip_ws_bounds(s, m + 1);
                }
                if key == key_name() {
                    match spec_parse_string(s, v0) {
                        None => None,
                        Some((val, v)) => {
                            proof {
                                lemma_parse_string_bounds(s, v0);
                            }
                            spec_asset_tail(s, v, Some(val), url)
                        },
                    }
                } else if key == key_url() {
                    match spec_parse_string(s, v0) {
                        None => None,
                        Some((val, v)) => {
                            proof {
                                lemma_parse_string_bounds(s, v0);
                            }
                            spec_asset_tail(s, v, name, Some(val))
                        },
                    }
                } else {
                    match spec_skip_value(s, v0) {
                        None => None,
                        Some(v) => {
                            proof {
                                lemma_skip_value_bounds(s, v0);
                            }
                            spec_asset_tail(s, v, name, url)
                        },
                    }
                }
            }
        },
    }
}

/// After one member of an asset object: a comma and a further member, or
/// the closing brace. Yields the (name, URL) pair and the position after
/// the brace.
pub open spec fn spec_asset_tail(
    s: Seq<u8>,
    i: int,
    name: Option<Seq<u8>>,
    url: Option<Seq<u8>>,
) -> Option<((Seq<u8>, Seq<u8>), int)>
    decreases s.len() - i,
    when 0 <= i <= s.len()
{
    let t = spec_skip_ws(s, i);
    proof {
        lemma_skip_ws_bounds(s, i);
    }
    if t < s.len() && s[t] == COMMA {
        let r = spec_skip_ws(s, t + 1);
        proof {
            lemma_skip_ws_bounds(s, t + 1);
        }
        spec_asset_members(s, r, name, url)
    } else if t < s.len() && s[t] == RBRACE {
        match (name, url) {
            (Some(n), Some(u)) => Some(((n, u), t + 1)),
            _ => None,
        }
    } else {
        None
    }
}

pub proof fn lemma_asset_members_bounds(
    s: Seq<u8>,
    i: int,
    name: Option<Seq<u8>>,
    url: Option<Seq<u8>>,
)
    requires
        0 <= i <= s.len(),
    ensures
        match spec_asset_members(s, i, name, url) {
            Some((a, j)) => i < j <= s.len(),
            None => true,
        },
    decreases s.len() - i, 1int,
{
    lemma_parse_string_bounds(s, i);
    match spec_parse_string(s, i) {
        None => {},
        Some((key, k)) => {
            lemma_skip_ws_bounds(s, k);
            let m = spec_skip_ws(s, k);
            if m < s.len() && s[m] == COLON {
                lemma_skip_ws_bounds(s, m + 1);
                let v0 = spec_skip_ws(s, m + 1);
                if key == key_name() || key == key_url() {
                    lemma_parse_string_bounds(s, v0);
                    match spec_parse_string(s, v0) {
                        None => {},
                        Some((val, v)) => {
                            if key == key_name() {
                                lemma_asset_tail_bounds(s, v, Some(val), url);
                            } else {
                                lemma_asset_tail_bounds(s, v, name, Some(val));
                            }
                        },
                    }
                } else {
                    lemma_skip_value_bounds(s, v0);
                    match spec_skip_value(s, v0) {
                        None => {},
                        Some(v) => {
                            lemma_asset_tail_bounds(s, v, name, url);
                        },
                    }
                }
            }
        },
    }
}

pub proof fn lemma_asset_tail_bounds(
    s: Seq<u8>,
    i: int,
    name: Option<Seq<u8>>,
    url: Option<Seq<u8>>,
)
    requires
        0 <= i <= s.len(),
    ensures
        match spec_asset_tail(s, i, name, url) {
            Some((a, j)) => i < j <= s.len(),
            None => true,
        },
    decreases s.len() - i, 0int,
{
    lemma_skip_ws_bounds(s, i);
    let t = spec_skip_ws(s, i);
    if t < s.len() && s[t] == COMMA {
        lemma_skip_ws_bounds(s, t + 1);
        lemma_asset_members_bounds(s, spec_skip_ws(s, t + 1), name, url);
    }
}

/// One asset object at position `i`: an object with a `"name"` and a
/// `"browser_download_url"` string member, in either order, other members
/// skipped. Yields the name, the URL, and the position after the closing
/// brace.
pub open spec fn spec_parse_asset(s: Seq<u8>, i: int) -> Option<((Seq<u8>, Seq<u8>), int)> {
    if !(0 <= i < s.len() && s[i] == LBRACE) {
        None
    } else {
        let j = spec_skip_ws(s, i + 1);
        if j < s.len() && s[j] == RBRACE {
            None
        } else {
            spec_asset_members(s, j, None, None)
        }
    }
}

pub proof fn lemma_parse_asset_bounds(s: Seq<u8>, i: int)
    ensures
        match spec_parse_asset(s, i) {
            Some((a, j)) => i < j <= s.len(),
            None => true,
        },
{
    if 0 <= i < s.len() && s[i] == LBRACE {
        lemma_skip_ws_bounds(s, i + 1);
        let j = spec_skip_ws(s, i + 1);
        if !(j < s.len() && s[j] == RBRACE) {
            lemma_asset_members_bounds(s, j, None, None);
        }
    }
}

/// Parses one asset object beginning at `i`.
pub fn parse_asset(s: &Vec<u8>, i: usize) -> (r: Option<(ReleaseAsset, usize)>)
    requires
        i <= s@.len(),
    ensures
        match r {
            Some(p) => spec_parse_asset(s@, i as int) == Some(((p.0.name@, p.0.download_url@),
                p.1 as int)) && i < p.1 <= s@.len(),
            None => spec_parse_asset(s@, i as int) is None,
        },
{
    let n: usize = s.len();
    if i >= n || s[i] != LBRACE {
        return None;
    }
    let j = skip_ws(s, i + 1);
    if j < n && s[j] == RBRACE {
        return None;
    }
    let mut name: Option<Vec<u8>> = None;
    let mut url: Option<Vec<u8>> = None;
    let mut cur: usize = j;
    loop
        invariant
            i < cur <= n,
            n == s@.len(),
            spec_parse_asset(s@, i as int) == spec_asset_members(
                s@,
                cur as int,
                opt_view(name),
                opt_view(url),
            ),
        decreases n - cur,
    {
        let (key, k) = match parse_string(s, cur) {
            None => {
                return None;
            },
            Some(p) => p,
        };
        let m = skip_ws(s, k);
        if m >= n || s[m] != COLON {
            return None;
        }
        let v0 = skip_ws(s, m + 1);
        let vpos: usize = if bytes_eq(&key, &name_key()) {
            match parse_string(s, v0) {
                None => {
                    return None;
                },
                Some((val, v)) => {
                    name = Some(val);
                    v
                },
            }
        } else if bytes_eq(&key, &url_key()) {
            match parse_string(s, v0) {
                None => {
                    return None;
                },
                Some((val, v)) => {
                    url = Some(val);
                    v
                },
            }
        } else {
            match skip_value(s, v0) {
                None => {
                    return None;
                },
                Some(v) => v,
            }
        };
        let t = skip_ws(s, vpos);
        if t < n && s[t] == COMMA {
            cur = skip_ws(s, t + 1);
        } else if t < n && s[t] == RBRACE {
            match (name, url) {
                (Some(nv), Some(uv)) => {
                    return Some((ReleaseAsset { name: nv, download_url: uv }, t + 1));
                },
                _ => {
                    return None;
                },
            }
        } else {
            return None;
        }
    }
}

/// Prefixes one parsed asset onto a partial list-parse result.
pub open spec fn prepend_one(
    x: (Seq<u8>, Seq<u8>),
    o: Option<(Seq<(Seq<u8>, Seq<u8>)>, int)>,
) -> Option<(Seq<(Seq<u8>, Seq<u8>)>, int)> {
    match o {
        Some((t, j)) => Some((seq![x] + t, j)),
        None => None,
    }
}

/// Prefixes already-parsed assets onto a partial list-parse result.
pub open spec fn prepend_assets(
    prefix: Seq<(Seq<u8>, Seq<u8>)>,
    o: Option<(Seq<(Seq<u8>, Seq<u8>)>, int)>,
) -> Option<(Seq<(Seq<u8>, Seq<u8>)>, int)> {
    match o {
        Some((t, j)) => Some((prefix + t, j)),
        None => None,
    }
}

proof fn lemma_prepend_assets_push(
    prefix: Seq<(Seq<u8>, Seq<u8>)>,
    x: (Seq<u8>, Seq<u8>),
    o: Option<(Seq<(Seq<u8>, Seq<u8>)>, int)>,
)
    ensures
        prepend_assets(prefix, prepend_one(x, o)) == prepend_assets(prefix.push(x), o),
{
    match o {
        Some((t, j)) => {
            assert(prefix + (seq![x] + t) =~= prefix.push(x) + t);
        },
        None => {},
    }
}

/// The rest of an asset list after one parsed asset: either the closing
/// bracket, or a comma and a further asset, repeated. Yields the remaining
/// (name, URL) pairs and the position after the closing bracket.
pub open spec fn spec_list_tail(s: Seq<u8>, i: int) -> Option<(Seq<(Seq<u8>, Seq<u8>)>, int)>
    decreases s.len() - i,
    when 0 <= i <= s.len()
{
    let j = spec_skip_ws(s, i);
    if j < s.len() && s[j] == RBRACKET {
        Some((Seq::empty(), j + 1))
    } else if j < s.len() && s[j] == COMMA {
        let k = spec_skip_ws(s, j + 1);
        match spec_parse_asset(s, k) {
            Some((a, m)) => {
                proof {
                    lemma_skip_ws_bounds(s, i);
                    lemma_skip_ws_bounds(s, j + 1);
                    lemma_parse_asset_bounds(s, k);
                }
                prepend_one(a, spec_list_tail(s, m))
            },
            None => None,
        }
    } else {
        None
    }
}

pub proof fn lemma_list_tail_bounds(s: Seq<u8>, i: int)
    requires
        0 <= i <= s.len(),
    ensures
        match spec_list_tail(s, i) {
            Some((aa, j)) => i < j <= s.len(),
            None => true,
        },
    decreases s.len() - i,
{
    lemma_skip_ws_bounds(s, i);
    let j = spec_skip_ws(s, i);
    if j < s.len() && s[j] == RBRACKET {
    } else if j < s.len() && s[j] == COMMA {
        lemma_skip_ws_bounds(s, j + 1);
        let k = spec_skip_ws(s, j + 1);
        lemma_parse_asset_bounds(s, k);
        match spec_parse_asset(s, k) {
            Some((a, m)) => {
                lemma_list_tail_bounds(s, m);
            },
            None => {},
        }
    }
}

/// The asset list at position `i`: `[`, zero or more asset objects
/// separated by commas, `]`. Yields the (name, URL) pairs and the position
/// after the closing bracket.
pub open spec fn spec_parse_list(s: Seq<u8>, i: int) -> Option<(Seq<(Seq<u8>, Seq<u8>)>, int)> {
    if !(0 <= i < s.len() && s[i] == LBRACKET) {
        None
    } else {
        let j = spec_skip_ws(s, i + 1);
        if j < s.len() && s[j] == RBRACKET {
            Some((Seq::empty(), j + 1))
        } else {
            match spec_parse_asset(s, j) {
                Some((a, m)) => prepend_one(a, spec_list_tail(s, m)),
                None => None,
            }
        }
    }
}

pub proof fn lemma_parse_list_bounds(s: Seq<u8>, i: int)
    ensures
        match spec_parse_list(s, i) {
            Some((aa, j)) => i < j <= s.len(),
            None => true,
        },
{
    if 0 <= i < s.len() && s[i] == LBRACKET {
        lemma_skip_ws_bounds(s, i + 1);
        let j = spec_skip_ws(s, i + 1);
        if !(j < s.len() && s[j] == RBRACKET) {
            lemma_parse_asset_bounds(s, j);
            match spec_parse_asset(s, j) {
                Some((a, m)) => {
                    lemma_list_tail_bounds(s, m);
                },
                None => {},
            }
        }
    }
}

/// Parses the asset list beginning at `i`.
pub fn parse_asset_list(s: &Vec<u8>, i: usize) -> (r: Option<(Vec<ReleaseAsset>, usize)>)
    requires
        i <= s@.len(),
    ensures
        match r {
            Some(p) => spec_parse_list(s@, i as int) == Some((assets_view(p.0@), p.1 as int))
                && i < p.1 <= s@.len(),
            None => spec_parse_list(s@, i as int) is None,
        },
{
    let n: usize = s.len();
    if i >= n || s[i] != LBRACKET {
        return None;
    }
    let j = skip_ws(s, i + 1);
    if j < n && s[j] == RBRACKET {
        let empty: Vec<ReleaseAsset> = Vec::new();
        proof {
            assert(assets_view(empty@) =~= Seq::<(Seq<u8>, Seq<u8>)>::empty());
        }
        return Some((empty, j + 1));
    }
    let (a0, m0) = match parse_asset(s, j) {
        None => {
            return None;
        },
        Some(p) => p,
    };
    let mut out: Vec<ReleaseAsset> = Vec::new();
    proof {
        assert(assets_view(out@.push(a0)) =~= seq![(a0.name@, a0.download_url@)]);
    }
    out.push(a0);
    let mut cur: usize = m0;
    loop
        invariant
            i < cur <= n,
            n == s@.len(),
            spec_parse_list(s@, i as int) == prepend_assets(
                assets_view(out@),
                spec_list_tail(s@, cur as int),
            ),
        decreases n - cur,
    {
        let j2 = skip_ws(s, cur);
        if j2 < n && s[j2] == RBRACKET {
            proof {
                assert(assets_view(out@) + Seq::<(Seq<u8>, Seq<u8>)>::empty() =~= assets_view(
                    out@,
                ));
            }
            return Some((out, j2 + 1));
        }
        if j2 >= n || s[j2] != COMMA {
            return None;
        }
        let k = skip_ws(s, j2 + 1);
        match parse_asset(s, k) {
            None => {
                return None;
            },
            Some((a, m)) => {
                proof {
                    lemma_prepend_assets_push(
                        assets_view(out@),
                        (a.name@, a.download_url@),
                        spec_list_tail(s@, m as int),
                    );
                    assert(assets_view(out@.push(a)) =~= assets_view(out@).push(
                        (a.name@, a.download_url@),
                    ));
                }
                out.push(a);
                cur = m;
            },
        }
    }
}

/// The view of an optional list of assets.
pub open spec fn opt_assets_view(o: Option<Vec<ReleaseAsset>>) -> Option<Seq<(Seq<u8>, Seq<u8>)>> {
    match o {
        Some(v) => Some(assets_view(v@)),
        None => None,
    }
}

/// The members of the top-level object from a key at `i` on, with the
/// `"assets"` value seen so far. The `"assets"` member must hold an asset
/// list and is extracted — when the key repeats, the later value counts;
/// any other member is skipped. At the closing brace the `"assets"` member
/// must have been seen.
pub open spec fn spec_release_members(
    s: Seq<u8>,
    i: int,
    assets: Option<Seq<(Seq<u8>, Seq<u8>)>>,
) -> Option<(Seq<(Seq<u8>, Seq<u8>)>, int)>
    decreases s.len() - i,
    when 0 <= i <= s.len()
{
    match spec_parse_string(s, i) {
        None => None,
        Some((key, k)) => {
            proof {
                lemma_parse_string_bounds(s, i);
            }
            let m = spec_skip_ws(s, k);
            proof {
                lemma_skip_ws_bounds(s, k);
            }
            if !(m < s.len() && s[m] == COLON) {
                None
            } else {
                let v0 = spec_skip_ws(s, m + 1);
                proof {
                    lemma_skip_ws_bounds(s, m + 1);
                }
                if key == key_assets() {
                    match spec_parse_list(s, v0) {
                        None => None,
                        Some((aa, v)) => {
                            proof {
                                lemma_parse_list_bounds(s, v0);
                            }
                            spec_release_tail(s, v, Some(aa))
                        },
                    }
                } else {
                    match spec_skip_value(s, v0) {
                        None => None,
                        Some(v) => {
                            proof {
                                lemma_skip_value_bounds(s, v0);
                            }
                            spec_release_tail(s, v, assets)
                        },
                    }
                }
            }
        },
    }
}

/// After one member of the top-level object: a comma and a further member,
/// or the closing brace. Yields the assets and the position after the
/// brace.
pub open spec fn spec_release_tail(
    s: Seq<u8>,
    i: int,
    assets: Option<Seq<(Seq<u8>, Seq<u8>)>>,
) -> Option<(Seq<(Seq<u8>, Seq<u8>)>, int)>
    decreases s.len() - i,
    when 0 <= i <= s.len()
{
    let t = spec_skip_ws(s, i);
    proof {
        lemma_skip_ws_bounds(s, i);
    }
    if t < s.len() && s[t] == COMMA {
        let r = spec_skip_ws(s, t + 1);
        proof {
            lemma_skip_ws_bounds(s, t + 1);
        }
        spec_release_members(s, r, assets)
    } else if t < s.len() && s[t] == RBRACE {
        match assets {
            Some(aa) => Some((aa, t + 1)),
            None => None,
        }
    } else {
        None
    }
}

/// The payload is accepted when the member scan ends and only whitespace
/// follows the closing brace.
pub open spec fn finish_release(
    s: Seq<u8>,
    o: Option<(Seq<(Seq<u8>, Seq<u8>)>, int)>,
) -> Option<Seq<(Seq<u8>, Seq<u8>)>> {
    match o {
        Some((aa, e)) => if spec_skip_ws(s, e) == s.len() {
            Some(aa)
        } else {
            None
        },
        None => None,
    }
}

/// The whole payload: whitespace, a top-level object with an `"assets"`
/// member (other members skipped), whitespace, end of input. Yields the
/// (name, URL) pairs of the assets; a body of any other shape yields
/// `None`.
pub open spec fn spec_parse_release(s: Seq<u8>) -> Option<Seq<(Seq<u8>, Seq<u8>)>> {
    let i0 = spec_skip_ws(s, 0);
    if !(i0 < s.len() && s[i0] == LBRACE) {
        None
    } else {
        let j = spec_skip_ws(s, i0 + 1);
        if j < s.len() && s[j] == RBRACE {
            None
        } else {
            finish_release(s, spec_release_members(s, j, None))
        }
    }
}

/// Parses a release payload body into a snapshot.
pub fn parse_release(body: &Vec<u8>) -> (r: Option<ReleaseSnapshot>)
    ensures
        match r {
            Some(snap) => spec_parse_release(body@) == Some(snap@),
            None => spec_parse_release(body@) is None,
        },
{
    let n: usize = body.len();
    let i0 = skip_ws(body, 0);
    if i0 >= n || body[i0] != LBRACE {
        return None;
    }
    let j = skip_ws(body, i0 + 1);
    if j < n && body[j] == RBRACE {
        return None;
    }
    let mut assets: Option<Vec<ReleaseAsset>> = None;
    let mut cur: usize = j;
    loop
        invariant
            i0 < cur <= n,
            n == body@.len(),
            spec_parse_release(body@) == finish_release(
                body@,
                spec_release_members(body@, cur as int, opt_assets_view(assets)),
            ),
        decreases n - cur,
    {
        let (key, k) = match parse_string(body, cur) {
            None => {
                return None;
            },
            Some(p) => p,
        };
        let m = skip_ws(body, k);
        if m >= n || body[m] != COLON {
            return None;
        }
        let v0 = skip_ws(body, m + 1);
        let vpos: usize = if bytes_eq(&key, &assets_key()) {
            match parse_asset_list(body, v0) {
                None => {
                    return None;
                },
                Some((aa, v)) => {
                    assets = Some(aa);
                    v
                },
            }
        } else {
            match skip_value(body, v0) {
                None => {
                    return None;
                },
                Some(v) => v,
            }
        };
        let t = skip_ws(body, vpos);
        if t < n && body[t] == COMMA {
            cur = skip_ws(body, t + 1);
        } else if t < n && body[t] == RBRACE {
            match assets {
                Some(av) => {
                    if skip_ws(body, t + 1) != n {
                        return None;
                    }
                    return Some(ReleaseSnapshot { assets: av });
                },
                None => {
                    return None;
                },
            }
        } else {
            return None;
        }
    }
}

/// Why a fetch attempt failed: the transport or the HTTP status
/// (`NetworkError`), or a body that does not match the expected shape
/// (`ParseError`). Both are logged as diagnostics and shown to the user
/// identically, as an empty download table.
#[derive(Clone, Copy, PartialEq, Eq, Structural, Debug)]
pub enum FetchError {
    NetworkError,
    ParseError,
}

/// The view state of the release fetch: not yet answered, answered with a
/// usable snapshot, or failed for good (no retries).
pub enum FetchState {
    Loading,
    Success(ReleaseSnapshot),
    Failure,
}

/// True for an HTTP status in the success range.
pub open spec fn spec_is_success_status(status: u16) -> bool {
    200 <= status < 300
}

/// Decides what a completed HTTP exchange means: a status outside the
/// success range is a network error, a body of the wrong shape is a parse
/// error, and otherwise the parsed snapshot is returned.
pub fn resolve_response(status: u16, body: &Vec<u8>) -> (r: Result<ReleaseSnapshot, FetchError>)
    ensures
        match r {
            Ok(snap) => spec_is_success_status(status) && spec_parse_release(body@) == Some(
                snap@,
            ),
            Err(e) => if !spec_is_success_status(status) {
                e == FetchError::NetworkError
            } else {
                spec_parse_release(body@) is None && e == FetchError::ParseError
            },
        },
{
    if !(200 <= status && status < 300) {
        return Err(FetchError::NetworkError);
    }
    match parse_release(body) {
        Some(snap) => Ok(snap),
        None => Err(FetchError::ParseError),
    }
}

impl FetchState {
    /// The state before the fetch has answered.
    pub fn initial() -> (s: FetchState)
        ensures
            s is Loading,
    {
        FetchState::Loading
    }

    /// The state after the fetch has answered. Success keeps the snapshot;
    /// either error becomes `Failure` — the view does not distinguish them.
    pub fn from_result(r: Result<ReleaseSnapshot, FetchError>) -> (s: FetchState)
        ensures
            match r {
                Ok(snap) => s == FetchState::Success(snap),
                Err(_) => s is Failure,
            },
    {
        match r {
            Ok(snap) => FetchState::Success(snap),
            Err(_) => FetchState::Failure,
        }
    }
}

} // verus!
