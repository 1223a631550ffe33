//! The deep-link router: normalizes the delivery shapes of an external
//! OAuth redirect into one canonical URL and extracts the correlation
//! token from its query string.

use vstd::prelude::*;

use crate::errors::AuthError;

verus! {

/// The custom URI scheme every callback must carry.
pub open spec fn scheme_prefix() -> Seq<char> {
    "kiro://"@
}

/// The well-known query key under which the correlation token travels.
pub open spec fn token_key() -> Seq<char> {
    "state"@
}

/// Whether `p` is a prefix of `s`.
pub open spec fn starts_with(s: Seq<char>, p: Seq<char>) -> bool {
    p.len() <= s.len() && s.subrange(0, p.len() as int) == p
}

/// Checks `p` against the front of `s`.
pub fn str_starts_with(s: &str, p: &str) -> (r: bool)
    ensures
        r == starts_with(s@, p@),
{
    let n = s.unicode_len();
    let m = p.unicode_len();
    if m > n {
        return false;
    }
    let mut i: usize = 0;
    while i < m
        invariant
            0 <= i <= m,
            m == p@.len(),
            n == s@.len(),
            m <= n,
            forall|j: int| 0 <= j < i ==> s@[j] == p@[j],
        decreases m - i,
    {
        if s.get_char(i) != p.get_char(i) {
            proof {
                if starts_with(s@, p@) {
                    assert(s@.subrange(0, p@.len() as int)[i as int] == s@[i as int]);
                }
            }
            return false;
        }
        i = i + 1;
    }
    proof {
        assert(s@.subrange(0, p@.len() as int) =~= p@);
    }
    true
}

/// The position of the first `c` in `s` at or after `i`, if any.
pub open spec fn find_from(s: Seq<char>, c: char, i: int) -> Option<int>
    decreases s.len() - i,
    when 0 <= i <= s.len()
{
    if i >= s.len() {
        None
    } else if s[i] == c {
        Some(i)
    } else {
        find_from(s, c, i + 1)
    }
}

/// What `find_from` returns is the first occurrence: in range, holding `c`,
/// with nothing equal to `c` before it.
pub proof fn lemma_find_from(s: Seq<char>, c: char, i: int)
    requires
        0 <= i <= s.len(),
    ensures
        match find_from(s, c, i) {
            Some(j) => i <= j < s.len() && s[j] == c && forall|k: int| i <= k < j ==> s[k] != c,
            None => forall|k: int| i <= k < s.len() ==> s[k] != c,
        },
    decreases s.len() - i,
{
    if i < s.len() && s[i] != c {
        lemma_find_from(s, c, i + 1);
    }
}

/// Finds the first `c` in `s` at or after `from`.
pub fn find_char_from(s: &str, c: char, from: usize) -> (r: Option<usize>)
    requires
        from <= s@.len(),
    ensures
        match r {
            Some(i) => from <= i < s@.len() && find_from(s@, c, from as int) == Some(i as int),
            None => find_from(s@, c, from as int) is None,
        },
{
    let n = s.unicode_len();
    let mut i = from;
    while i < n
        invariant
            from <= i <= n,
            n == s@.len(),
            find_from(s@, c, from as int) == find_from(s@, c, i as int),
        decreases n - i,
    {
        if s.get_char(i) == c {
            return Some(i);
        }
        i = i + 1;
    }
    None
}

/// End of the query segment that begins at `start`: the position of the
/// next `&`, or the end of the text.
pub open spec fn segment_end(s: Seq<char>, c: char, start: int) -> int {
    match find_from(s, c, start) {
        Some(i) => i,
        None => s.len() as int,
    }
}

/// Whether the segment beginning at `start` is `key` followed by `=`.
pub open spec fn key_matches_at(s: Seq<char>, key: Seq<char>, start: int) -> bool {
    let e = segment_end(s, '&', start);
    &&& e - start > key.len()
    &&& s.subrange(start, start + key.len() as int) == key
    &&& s[start + key.len()] == '='
}

/// The value of the first query parameter named `key` in the parameter list
/// of `s` that begins at `start`, if any. Parameters are separated by `&`;
/// a parameter is its key, `=`, then its value.
pub open spec fn param_value_at(s: Seq<char>, key: Seq<char>, start: int) -> Option<Seq<char>>
    decreases s.len() - start,
    when 0 <= start <= s.len()
    via param_value_at_decreases
{
    let e = segment_end(s, '&', start);
    if key_matches_at(s, key, start) {
        Some(s.subrange(start + key.len() + 1, e))
    } else if e >= s.len() {
        None
    } else {
        param_value_at(s, key, e + 1)
    }
}

#[via_fn]
proof fn param_value_at_decreases(s: Seq<char>, key: Seq<char>, start: int) {
    lemma_find_from(s, '&', start);
}

/// The correlation token carried by callback URL `u`: present only when the
/// URL starts with the scheme and its query string, after the first `?`,
/// holds a parameter under the well-known key.
pub open spec fn callback_token(u: Seq<char>) -> Option<Seq<char>> {
    if !starts_with(u, scheme_prefix()) {
        None
    } else {
        match find_from(u, '?', 0) {
            None => None,
            Some(q) => param_value_at(u, token_key(), q + 1),
        }
    }
}

/// Checks whether the segment `[pos, e)` of `s` begins with `key` followed
/// by `=`, i.e. `key_matches_at` with `e` the end of that segment.
fn key_eq_at(s: &str, key: &str, pos: usize, e: usize) -> (r: bool)
    requires
        pos <= e <= s@.len(),
        segment_end(s@, '&', pos as int) == e as int,
    ensures
        r == key_matches_at(s@, key@, pos as int),
{
    let klen = key.unicode_len();
    if e - pos <= klen {
        return false;
    }
    if s.get_char(pos + klen) != '=' {
        return false;
    }
    let mut j: usize = 0;
    while j < klen
        invariant
            0 <= j <= klen,
            klen == key@.len(),
            pos + klen < e <= s@.len(),
            forall|t: int| 0 <= t < j ==> s@[pos + t] == key@[t],
        decreases klen - j,
    {
        if s.get_char(pos + j) != key.get_char(j) {
            proof {
                if s@.subrange(pos as int, pos + klen) == key@ {
                    assert(s@.subrange(pos as int, pos + klen)[j as int] == s@[pos + j]);
                }
            }
            return false;
        }
        j = j + 1;
    }
    proof {
        assert(s@.subrange(pos as int, pos + klen) =~= key@);
    }
    true
}

/// Extracts the value of the first query parameter named `key` from the
/// parameter list of `s` beginning at `start`.
pub fn extract_param(s: &str, key: &str, start: usize) -> (r: Option<String>)
    requires
        start <= s@.len(),
    ensures
        match r {
            Some(v) => param_value_at(s@, key@, start as int) == Some(v@),
            None => param_value_at(s@, key@, start as int) is None,
        },
{
    let n = s.unicode_len();
    let klen = key.unicode_len();
    let mut pos = start;
    loop
        invariant
            start <= pos <= n,
            n == s@.len(),
            klen == key@.len(),
            param_value_at(s@, key@, start as int) == param_value_at(s@, key@, pos as int),
        decreases n - pos,
    {
        let e = match find_char_from(s, '&', pos) {
            Some(i) => i,
            None => n,
        };
        proof {
            lemma_find_from(s@, '&', pos as int);
            assert(segment_end(s@, '&', pos as int) == e as int);
        }
        if key_eq_at(s, key, pos, e) {
            let v = s.substring_char(pos + klen + 1, e);
            return Some(v.to_owned());
        }
        if e == n {
            return None;
        }
        pos = e + 1;
    }
}

/// The text a JSON string literal denotes, when the payload is one.
/// An event-bus delivery wraps the URL in one extra layer of JSON string
/// encoding; what the decoder returns depends on the payload text alone.
pub uninterp spec fn json_string_value(s: Seq<char>) -> Option<Seq<char>>;

/// Relies on serde_json::from_str::<String>: decodes a JSON string
/// literal, returning its text; fails on any payload that is not one. The
/// result is a function of the payload text alone.
#[verifier::external_body]
fn decode_json_string(payload: &str) -> (r: Option<String>)
    ensures
        match r {
            Some(u) => json_string_value(payload@) == Some(u@),
            None => json_string_value(payload@) is None,
        },
{
    match serde_json::from_str::<String>(payload) {
        Ok(u) => Some(u),
        Err(_) => None,
    }
}

/// The canonical URL carried by a delivered event payload: the text of the
/// payload when it is a JSON string literal, the raw payload otherwise.
pub open spec fn normalized_payload(p: Seq<char>) -> Seq<char> {
    match json_string_value(p) {
        Some(u) => u,
        None => p,
    }
}

/// Normalizes a delivered event payload into the canonical URL: structured
/// decoding is attempted first, and a payload that does not decode is
/// taken literally — some delivery paths do not wrap the payload, so the
/// fallback is required, not optional.
pub fn normalize_payload(payload: &str) -> (r: String)
    ensures
        r@ == normalized_payload(payload@),
{
    match decode_json_string(payload) {
        Some(u) => u,
        None => payload.to_owned(),
    }
}

/// Parses a callback URL: checks the scheme and extracts the correlation
/// token. A URL without the scheme or without the token is malformed.
pub fn parse_callback(url: &str) -> (r: Result<String, AuthError>)
    ensures
        match r {
            Ok(t) => callback_token(url@) == Some(t@),
            Err(e) => e == AuthError::ParseError && callback_token(url@) is None,
        },
{
    if !str_starts_with(url, "kiro://") {
        return Err(AuthError::ParseError);
    }
    let n = url.unicode_len();
    let q = match find_char_from(url, '?', 0) {
        Some(i) => i,
        None => {
            return Err(AuthError::ParseError);
        },
    };
    proof {
        lemma_find_from(url@, '?', 0);
    }
    match extract_param(url, "state", q + 1) {
        Some(v) => Ok(v),
        None => Err(AuthError::ParseError),
    }
}

/// The command value registered for the URI-scheme handler: the quoted
/// executable path, the flag, the separator, and the quoted URL
/// placeholder — the most specific of the three launch layouts, so that a
/// relaunch delivers the URL at the third position after the executable.
pub fn deep_link_command_value(exe_path: &str) -> (r: String)
    ensures
        r@ == "\""@ + exe_path@ + "\" --open-url -- \"%1\""@,
{
    let mut out = String::new();
    out.append("\"");
    out.append(exe_path);
    out.append("\" --open-url -- \"%1\"");
    out
}

/// Where the canonical URL stands among the launch arguments of a second
/// process instance. The three delivery layouts place it third, second or
/// first after the executable path; the most specific layout is tried
/// first, and only an argument carrying the scheme is taken.
pub open spec fn url_in_args(args: Seq<Seq<char>>) -> Option<Seq<char>> {
    if args.len() > 3 && starts_with(args[3], scheme_prefix()) {
        Some(args[3])
    } else if args.len() > 2 && starts_with(args[2], scheme_prefix()) {
        Some(args[2])
    } else if args.len() > 1 && starts_with(args[1], scheme_prefix()) {
        Some(args[1])
    } else {
        None
    }
}

/// Locates the callback URL among the launch arguments of a second process
/// instance, as `url_in_args` says.
pub fn extract_url_from_args(args: &Vec<String>) -> (r: Option<String>)
    ensures
        match r {
            Some(u) => url_in_args(args.deep_view()) == Some(u@),
            None => url_in_args(args.deep_view()) is None,
        },
{
    proof {
        assert(args.deep_view().len() == args@.len());
        assert(forall|i: int|
            0 <= i < args@.len() ==> args.deep_view()[i] == args@[i]@);
    }
    if args.len() > 3 && str_starts_with(args[3].as_str(), "kiro://") {
        return Some(args[3].clone());
    }
    if args.len() > 2 && str_starts_with(args[2].as_str(), "kiro://") {
        return Some(args[2].clone());
    }
    if args.len() > 1 && str_starts_with(args[1].as_str(), "kiro://") {
        return Some(args[1].clone());
    }
    None
}

} // verus!
