//! Route patterns such as `/sensors/{id}/readings/{type}`: their
//! translation into an anchored regular expression with one capture group
//! per parameter, and the matching of request paths against them.

use vstd::prelude::*;
use crate::router::util::{PercentDecodedStr, percent_decoded};
use crate::text::append_str;
use crate::router::response::{Response, StatusCode, error_response};

verus! {

/// The index of the first character of `s` for which `p` holds, or the
/// length of `s` when there is none.
pub open spec fn first_index(s: Seq<char>, p: spec_fn(char) -> bool) -> int
    decreases s.len(),
{
    if s.len() == 0 {
        0
    } else if p(s[0]) {
        0
    } else {
        1 + first_index(s.drop_first(), p)
    }
}

/// `first_index` lies between 0 and the length, and `p` fails before it.
pub proof fn lemma_first_index_bounds(s: Seq<char>, p: spec_fn(char) -> bool)
    ensures
        0 <= first_index(s, p) <= s.len(),
        forall|j: int| 0 <= j < first_index(s, p) ==> !p(#[trigger] s[j]),
        first_index(s, p) < s.len() ==> p(s[first_index(s, p)]),
    decreases s.len(),
{
    if s.len() > 0 && !p(s[0]) {
        lemma_first_index_bounds(s.drop_first(), p);
        assert forall|j: int| 0 <= j < first_index(s, p) implies !p(#[trigger] s[j]) by {
            if j > 0 {
                assert(s[j] == s.drop_first()[j - 1]);
            }
        }
        if first_index(s, p) < s.len() {
            assert(s[first_index(s, p)] == s.drop_first()[first_index(s, p) - 1]);
        }
    }
}

/// `i` is the first index of `s` where `p` holds (or the end) when `p`
/// fails before it.
pub proof fn lemma_first_index(s: Seq<char>, p: spec_fn(char) -> bool, i: int)
    requires
        0 <= i <= s.len(),
        forall|j: int| 0 <= j < i ==> !p(#[trigger] s[j]),
        i == s.len() || p(s[i]),
    ensures
        first_index(s, p) == i,
    decreases s.len(),
{
    if s.len() > 0 && i > 0 {
        assert(!p(s[0]));
        assert forall|j: int| 0 <= j < i - 1 implies !p(#[trigger] s.drop_first()[j]) by {
            assert(s.drop_first()[j] == s[j + 1]);
        }
        if i < s.len() {
            assert(s.drop_first()[i - 1] == s[i]);
        }
        lemma_first_index(s.drop_first(), p, i - 1);
    }
}

pub open spec fn is_brace(c: char) -> bool {
    c == '{' || c == '}'
}

pub open spec fn is_slash(c: char) -> bool {
    c == '/'
}

pub open spec fn is_not_slash(c: char) -> bool {
    c != '/'
}

pub open spec fn brace_pred() -> spec_fn(char) -> bool {
    |c: char| is_brace(c)
}

pub open spec fn slash_pred() -> spec_fn(char) -> bool {
    |c: char| is_slash(c)
}

pub open spec fn not_slash_pred() -> spec_fn(char) -> bool {
    |c: char| is_not_slash(c)
}

/// The number of slashes at the end of `s`.
pub open spec fn trailing_slashes(s: Seq<char>) -> int
    decreases s.len(),
{
    if s.len() > 0 && s.last() == '/' {
        1 + trailing_slashes(s.drop_last())
    } else {
        0
    }
}

/// `s` without its leading and trailing slashes.
pub open spec fn trim_slashes(s: Seq<char>) -> Seq<char> {
    let t = s.skip(first_index(s, not_slash_pred()));
    t.take(t.len() - trailing_slashes(t))
}

/// The pieces of `s` between slashes; the empty text has one empty piece.
pub open spec fn split_slash(s: Seq<char>) -> Seq<Seq<char>>
    decreases s.len(),
{
    let i = first_index(s, slash_pred());
    proof {
        lemma_first_index_bounds(s, slash_pred());
    }
    if i >= s.len() {
        seq![s]
    } else {
        seq![s.take(i)] + split_slash(s.skip(i + 1))
    }
}

/// The characters that `regex::escape` escapes.
pub open spec fn is_meta_character(c: char) -> bool {
    c == '\\' || c == '.' || c == '+' || c == '*' || c == '?' || c == '(' || c == ')' || c == '|'
        || c == '[' || c == ']' || c == '{' || c == '}' || c == '^' || c == '$' || c == '#' || c == '&'
        || c == '-' || c == '~'
}

/// `s` with a backslash before each meta character.
pub open spec fn escape_spec(s: Seq<char>) -> Seq<char>
    decreases s.len(),
{
    if s.len() == 0 {
        Seq::empty()
    } else if is_meta_character(s.last()) {
        escape_spec(s.drop_last()) + seq!['\\', s.last()]
    } else {
        escape_spec(s.drop_last()).push(s.last())
    }
}

/// The capture group that stands for one parameter.
pub open spec fn param_group() -> Seq<char> {
    seq!['(', '[', '^', '/', ']', '+', ')']
}

/// Why a route pattern is not accepted.
#[derive(Debug, Clone, PartialEq, Eq)]
pub enum RoutePatternError {
    /// A `{` inside a parameter.
    NestedParameters,
    /// A `}` outside a parameter.
    UnmatchedClosingBrace,
    /// A `{` without its `}` in the same segment.
    UnclosedParameter,
    /// The regular expression engine rejected the pattern; its message.
    InvalidPattern(String),
}

/// The regular expression of one segment and the names of its
/// parameters: literal text is escaped, each `{name}` becomes a capture
/// group.
pub open spec fn segment_pattern(s: Seq<char>) -> Result<(Seq<char>, Seq<Seq<char>>), RoutePatternError>
    decreases s.len(),
{
    let o = first_index(s, brace_pred());
    proof {
        lemma_first_index_bounds(s, brace_pred());
    }
    if o >= s.len() {
        Ok((escape_spec(s), Seq::empty()))
    } else if s[o] == '}' {
        Err(RoutePatternError::UnmatchedClosingBrace)
    } else {
        let rest = s.skip(o + 1);
        let c = first_index(rest, brace_pred());
        proof {
            lemma_first_index_bounds(rest, brace_pred());
        }
        if c >= rest.len() {
            Err(RoutePatternError::UnclosedParameter)
        } else if rest[c] == '{' {
            Err(RoutePatternError::NestedParameters)
        } else {
            match segment_pattern(rest.skip(c + 1)) {
                Ok((p, names)) => Ok((escape_spec(s.take(o)) + param_group() + p, seq![rest.take(c)] + names)),
                Err(e) => Err(e),
            }
        }
    }
}

/// The regular expression of a list of segments, joined with slashes, and
/// their parameter names; the first segment in error decides the error.
pub open spec fn segments_pattern(segs: Seq<Seq<char>>) -> Result<(Seq<char>, Seq<Seq<char>>), RoutePatternError>
    decreases segs.len(),
{
    if segs.len() == 0 {
        Ok((Seq::empty(), Seq::empty()))
    } else {
        match segment_pattern(segs[0]) {
            Err(e) => Err(e),
            Ok((p, names)) => if segs.len() == 1 {
                Ok((p, names))
            } else {
                match segments_pattern(segs.drop_first()) {
                    Err(e) => Err(e),
                    Ok((q, more)) => Ok((p + seq!['/'] + q, names + more)),
                }
            },
        }
    }
}

/// The anchored regular expression of a route and its parameter names:
/// leading and trailing slashes are ignored and the segments between the
/// remaining slashes are translated one by one.
pub open spec fn route_pattern(route: Seq<char>) -> Result<(Seq<char>, Seq<Seq<char>>), RoutePatternError> {
    match segments_pattern(split_slash(trim_slashes(route))) {
        Ok((p, names)) => Ok((seq!['^'] + p + seq!['$'], names)),
        Err(e) => Err(e),
    }
}

/// Calls `regex::escape`, which puts a backslash before each meta
/// character (see `is_meta_character`) and keeps every other character.
#[verifier::external_body]
fn regex_escape(text: &str) -> (r: String)
    ensures
        r@ == escape_spec(text@),
{
    regex::escape(text)
}

/// The strings of `v` as sequences.
pub open spec fn strings_view(v: Seq<String>) -> Seq<Seq<char>> {
    v.map_values(|x: String| x@)
}

/// `split_slash` gives at least one piece.
proof fn lemma_split_slash_nonempty(s: Seq<char>)
    ensures
        split_slash(s).len() >= 1,
{
    lemma_first_index_bounds(s, slash_pred());
}

/// The first index in `from..to` of a brace, or `to`.
fn find_brace(route: &str, from: usize, to: usize) -> (r: usize)
    requires
        from <= to <= route@.len(),
    ensures
        from <= r <= to,
        r - from == first_index(route@.subrange(from as int, to as int), brace_pred()),
{
    let mut i: usize = from;
    while i < to
        invariant
            from <= i <= to <= route@.len(),
            forall|j: int| from <= j < i ==> !is_brace(#[trigger] route@[j]),
        ensures
            from <= i <= to,
            forall|j: int| from <= j < i ==> !is_brace(#[trigger] route@[j]),
            i == to || is_brace(route@[i as int]),
        decreases to - i,
    {
        let c = route.get_char(i);
        if c == '{' || c == '}' {
            break;
        }
        i = i + 1;
    }
    proof {
        let sub = route@.subrange(from as int, to as int);
        assert forall|j: int| 0 <= j < i - from implies !brace_pred()(#[trigger] sub[j]) by {
            assert(sub[j] == route@[from + j]);
        }
        if i < to {
            assert(sub[i - from] == route@[i as int]);
        }
        lemma_first_index(sub, brace_pred(), i - from);
    }
    i
}

/// The first index in `from..to` of a slash, or `to`.
pub(crate) fn find_slash(route: &str, from: usize, to: usize) -> (r: usize)
    requires
        from <= to <= route@.len(),
    ensures
        from <= r <= to,
        r - from == first_index(route@.subrange(from as int, to as int), slash_pred()),
{
    let mut i: usize = from;
    while i < to
        invariant
            from <= i <= to <= route@.len(),
            forall|j: int| from <= j < i ==> !is_slash(#[trigger] route@[j]),
        ensures
            from <= i <= to,
            forall|j: int| from <= j < i ==> !is_slash(#[trigger] route@[j]),
            i == to || is_slash(route@[i as int]),
        decreases to - i,
    {
        if route.get_char(i) == '/' {
            break;
        }
        i = i + 1;
    }
    proof {
        let sub = route@.subrange(from as int, to as int);
        assert forall|j: int| 0 <= j < i - from implies !slash_pred()(#[trigger] sub[j]) by {
            assert(sub[j] == route@[from + j]);
        }
        if i < to {
            assert(sub[i - from] == route@[i as int]);
        }
        lemma_first_index(sub, slash_pred(), i - from);
    }
    i
}

/// The trailing slashes of `s`, where `s[b..]` is all slashes and `s[b-1]`
/// is not one.
proof fn lemma_trailing_slashes(s: Seq<char>, b: int)
    requires
        0 <= b <= s.len(),
        forall|j: int| b <= j < s.len() ==> #[trigger] s[j] == '/',
        b == 0 || s[b - 1] != '/',
    ensures
        trailing_slashes(s) == s.len() - b,
    decreases s.len(),
{
    if s.len() > b {
        assert(s.last() == '/');
        assert forall|j: int| b <= j < s.drop_last().len() implies #[trigger] s.drop_last()[j] == '/' by {
            assert(s.drop_last()[j] == s[j]);
        }
        if b > 0 {
            assert(s.drop_last()[b - 1] == s[b - 1]);
        }
        lemma_trailing_slashes(s.drop_last(), b);
    }
}

/// The bounds of `s` without its leading and trailing slashes.
fn trim_bounds(s: &str) -> (r: (usize, usize))
    ensures
        r.0 <= r.1 <= s@.len(),
        s@.subrange(r.0 as int, r.1 as int) == trim_slashes(s@),
{
    let n = s.unicode_len();
    let mut a: usize = 0;
    while a < n
        invariant
            n == s@.len(),
            a <= n,
            forall|j: int| 0 <= j < a ==> #[trigger] s@[j] == '/',
        ensures
            a <= n,
            forall|j: int| 0 <= j < a ==> #[trigger] s@[j] == '/',
            a == n || s@[a as int] != '/',
        decreases n - a,
    {
        if s.get_char(a) != '/' {
            break;
        }
        a = a + 1;
    }
    let mut b: usize = n;
    while b > a
        invariant
            n == s@.len(),
            a <= b <= n,
            forall|j: int| b <= j < n ==> #[trigger] s@[j] == '/',
        ensures
            a <= b <= n,
            forall|j: int| b <= j < n ==> #[trigger] s@[j] == '/',
            b == a || s@[b - 1] != '/',
        decreases b - a,
    {
        if s.get_char(b - 1) != '/' {
            break;
        }
        b = b - 1;
    }
    proof {
        assert forall|j: int| 0 <= j < a implies !not_slash_pred()(#[trigger] s@[j]) by {}
        if a < n {
            assert(not_slash_pred()(s@[a as int]));
        }
        lemma_first_index(s@, not_slash_pred(), a as int);
        let t = s@.skip(a as int);
        assert forall|j: int| b - a <= j < t.len() implies #[trigger] t[j] == '/' by {
            assert(t[j] == s@[a + j]);
        }
        if b > a {
            assert(t[b - a - 1] == s@[b - 1]);
        }
        lemma_trailing_slashes(t, b - a);
        assert(s@.subrange(a as int, b as int) =~= t.take(t.len() - trailing_slashes(t)));
    }
    (a, b)
}

/// Appends the regular expression of the segment `route[from..to]` to
/// `pattern` and its parameter names to `names` (see `segment_pattern`).
fn build_segment(
    route: &str,
    from: usize,
    to: usize,
    pattern: &mut String,
    names: &mut Vec<String>,
) -> (r: Result<(), RoutePatternError>)
    requires
        from <= to <= route@.len(),
    ensures
        match segment_pattern(route@.subrange(from as int, to as int)) {
            Ok((p, ns)) => {
                &&& r is Ok
                &&& final(pattern)@ == old(pattern)@ + p
                &&& strings_view(final(names)@) == strings_view(old(names)@) + ns
            },
            Err(e) => r == Err::<(), RoutePatternError>(e),
        },
    decreases to - from,
{
    let ghost s = route@.subrange(from as int, to as int);
    let o = find_brace(route, from, to);
    proof {
        lemma_first_index_bounds(s, brace_pred());
    }
    if o == to {
        if from < to {
            let lit = regex_escape(route.substring_char(from, to));
            pattern.append(lit.as_str());
        } else {
            assert(s =~= Seq::<char>::empty());
        }
        proof {
            assert(strings_view(names@) =~= strings_view(old(names)@) + Seq::<Seq<char>>::empty());
        }
        return Ok(());
    }
    assert(s[o - from] == route@[o as int]);
    if route.get_char(o) == '}' {
        return Err(RoutePatternError::UnmatchedClosingBrace);
    }
    let ghost rest = s.skip(o - from + 1);
    assert(rest =~= route@.subrange(o + 1, to as int));
    let c = find_brace(route, o + 1, to);
    proof {
        lemma_first_index_bounds(rest, brace_pred());
    }
    if c == to {
        return Err(RoutePatternError::UnclosedParameter);
    }
    assert(rest[c - o - 1] == route@[c as int]);
    if route.get_char(c) == '{' {
        return Err(RoutePatternError::NestedParameters);
    }
    let ghost p0 = pattern@;
    let ghost n0 = names@;
    if o > from {
        let lit = regex_escape(route.substring_char(from, o));
        pattern.append(lit.as_str());
    }
    proof {
        reveal_strlit("([^/]+)");
        assert(s.take(o - from) =~= route@.subrange(from as int, o as int));
    }
    pattern.append("([^/]+)");
    let name = route.substring_char(o + 1, c).to_owned();
    names.push(name);
    proof {
        assert(pattern@ =~= p0 + escape_spec(s.take(o - from)) + param_group());
        assert(rest.take(c - o - 1) =~= route@.subrange(o + 1, c as int));
        assert(strings_view(names@) =~= strings_view(n0) + seq![rest.take(c - o - 1)]);
        assert(rest.skip(c - o - 1 + 1) =~= route@.subrange(c + 1, to as int));
    }
    let r = build_segment(route, c + 1, to, pattern, names);
    proof {
        match segment_pattern(route@.subrange(c + 1, to as int)) {
            Ok((p, ns)) => {
                assert(pattern@ =~= p0 + (escape_spec(s.take(o - from)) + param_group() + p));
                assert(strings_view(names@) =~= strings_view(n0) + (seq![rest.take(c - o - 1)] + ns));
            },
            Err(e) => {},
        }
    }
    r
}

/// Appends the regular expression of the segments of `route[from..to]` to
/// `pattern` and their parameter names to `names` (see
/// `segments_pattern`).
fn build_segments(
    route: &str,
    from: usize,
    to: usize,
    pattern: &mut String,
    names: &mut Vec<String>,
) -> (r: Result<(), RoutePatternError>)
    requires
        from <= to <= route@.len(),
    ensures
        match segments_pattern(split_slash(route@.subrange(from as int, to as int))) {
            Ok((p, ns)) => {
                &&& r is Ok
                &&& final(pattern)@ == old(pattern)@ + p
                &&& strings_view(final(names)@) == strings_view(old(names)@) + ns
            },
            Err(e) => r == Err::<(), RoutePatternError>(e),
        },
    decreases to - from,
{
    let ghost s = route@.subrange(from as int, to as int);
    let e = find_slash(route, from, to);
    proof {
        lemma_first_index_bounds(s, slash_pred());
    }
    let ghost segs = split_slash(s);
    proof {
        if e < to {
            assert(s.take(e - from) =~= route@.subrange(from as int, e as int));
            assert(s.skip(e - from + 1) =~= route@.subrange(e + 1, to as int));
            lemma_split_slash_nonempty(s.skip(e - from + 1));
            assert(segs[0] == route@.subrange(from as int, e as int));
            assert(segs.drop_first() =~= split_slash(route@.subrange(e + 1, to as int)));
        } else {
            assert(segs[0] == route@.subrange(from as int, e as int));
        }
    }
    let ghost p0 = pattern@;
    let ghost n0 = names@;
    match build_segment(route, from, e, pattern, names) {
        Ok(()) => {},
        Err(err) => {
            return Err(err);
        },
    }
    if e < to {
        proof {
            reveal_strlit("/");
        }
        let ghost p1 = pattern@;
        let ghost n1 = names@;
        pattern.append("/");
        let r = build_segments(route, e + 1, to, pattern, names);
        proof {
            match segments_pattern(split_slash(route@.subrange(e + 1, to as int))) {
                Ok((q, more)) => {
                    let (p, ns) = segment_pattern(segs[0])->Ok_0;
                    assert(pattern@ =~= p0 + (p + seq!['/'] + q));
                    assert(strings_view(names@) =~= strings_view(n0) + (ns + more));
                },
                Err(err) => {},
            }
        }
        r
    } else {
        Ok(())
    }
}

/// The regular expression and the parameter names of a route (see
/// `route_pattern`).
pub fn build_pattern(route: &str) -> (r: Result<(String, Vec<String>), RoutePatternError>)
    ensures
        match route_pattern(route@) {
            Ok((p, ns)) => r matches Ok(pn) && pn.0@ == p && strings_view(pn.1@) == ns,
            Err(e) => r == Err::<(String, Vec<String>), RoutePatternError>(e),
        },
{
    let (a, b) = trim_bounds(route);
    let mut pattern = String::new();
    let mut names: Vec<String> = Vec::new();
    proof {
        reveal_strlit("^");
        reveal_strlit("$");
    }
    pattern.append("^");
    let ghost p0 = pattern@;
    match build_segments(route, a, b, &mut pattern, &mut names) {
        Ok(()) => {},
        Err(e) => {
            return Err(e);
        },
    }
    pattern.append("$");
    proof {
        match segments_pattern(split_slash(trim_slashes(route@))) {
            Ok((p, ns)) => {
                assert(pattern@ =~= seq!['^'] + p + seq!['$']);
                assert(strings_view(names@) =~= ns);
            },
            Err(e) => {},
        }
    }
    Ok((pattern, names))
}

/// Why a request does not reach a route's handler.
#[derive(Debug, Clone, Copy, PartialEq, Eq, Hash, Structural)]
pub enum RouteError {
    /// The request method does not match the route's method.
    DifferentMethod,
    /// The request does not have a URI path.
    NoUriPath,
    /// The request URI path does not match the route's path.
    DifferentPath,
    /// A path parameter does not percent-decode to UTF-8.
    FailedToDecodePath,
    /// No route matches the request.
    NotFound,
}

/// The message of a route error.
pub open spec fn route_error_message(e: RouteError) -> Seq<char> {
    match e {
        RouteError::DifferentMethod => "Different method"@,
        RouteError::NoUriPath => "No URI path"@,
        RouteError::DifferentPath => "Different path"@,
        RouteError::FailedToDecodePath => "Failed to decode path"@,
        RouteError::NotFound => "Not found"@,
    }
}

impl RouteError {
    /// The human-readable message of the error.
    pub fn message(&self) -> (r: String)
        ensures
            r@ == route_error_message(*self),
    {
        let s = match self {
            RouteError::DifferentMethod => "Different method",
            RouteError::NoUriPath => "No URI path",
            RouteError::DifferentPath => "Different path",
            RouteError::FailedToDecodePath => "Failed to decode path",
            RouteError::NotFound => "Not found",
        };
        s.to_owned()
    }

    /// The answer to the refused request: NotFound where no route matches,
    /// BadRequest otherwise, with the message as payload.
    pub fn into_response(self) -> (r: Response)
        ensures
            r.status_code == Some(if self == RouteError::NotFound { StatusCode::NotFound } else { StatusCode::BadRequest }),
            r.payload matches Some(p) && p@ == vstd::utf8::encode_utf8(route_error_message(self)),
    {
        let m = self.message();
        let status_code = match self {
            RouteError::NotFound => StatusCode::NotFound,
            _ => StatusCode::BadRequest,
        };
        error_response(status_code, m.as_str())
    }
}

/// The message of a route pattern error for the pattern `route`.
pub open spec fn route_pattern_message(e: RoutePatternError, route: Seq<char>) -> Seq<char> {
    match e {
        RoutePatternError::NestedParameters => "Nested parameters are not allowed in route pattern: "@ + route,
        RoutePatternError::UnmatchedClosingBrace => "Unmatched closing brace in route pattern: "@ + route,
        RoutePatternError::UnclosedParameter => "Unclosed parameter in route pattern: "@ + route,
        RoutePatternError::InvalidPattern(m) => "Invalid route pattern: "@ + route + " ("@ + m@ + ")"@,
    }
}

impl RoutePatternError {
    /// The human-readable message of the error, for the pattern `route`.
    pub fn message(&self, route: &str) -> (r: String)
        ensures
            r@ == route_pattern_message(*self, route@),
    {
        let mut r = String::new();
        match self {
            RoutePatternError::NestedParameters => {
                append_str(&mut r, "Nested parameters are not allowed in route pattern: ");
                append_str(&mut r, route);
            },
            RoutePatternError::UnmatchedClosingBrace => {
                append_str(&mut r, "Unmatched closing brace in route pattern: ");
                append_str(&mut r, route);
            },
            RoutePatternError::UnclosedParameter => {
                append_str(&mut r, "Unclosed parameter in route pattern: ");
                append_str(&mut r, route);
            },
            RoutePatternError::InvalidPattern(m) => {
                append_str(&mut r, "Invalid route pattern: ");
                append_str(&mut r, route);
                append_str(&mut r, " (");
                append_str(&mut r, m.as_str());
                append_str(&mut r, ")");
            },
        }
        assert(r@ =~= route_pattern_message(*self, route@));
        r
    }
}

#[verifier::external_type_specification]
#[verifier::external_body]
pub struct ExRegex(regex::Regex);

#[verifier::external_type_specification]
#[verifier::external_body]
pub struct ExRegexError(regex::Error);

/// `Clone` of a compiled regular expression; nothing is stated of the copy.
pub assume_specification[ <regex::Regex as Clone>::clone ](r: &regex::Regex) -> regex::Regex;

/// Whether the regular expression engine compiles `pattern` (with its
/// default limits): what `regex::Regex::new(pattern)` decides.
pub uninterp spec fn regex_compiles(pattern: Seq<char>) -> bool;

/// What `regex::Regex::captures(text)` gives for the regular expression
/// `pattern`: `None` where it does not match, else each capture group, the
/// whole match first, as its text or `None` where the group took no part.
pub uninterp spec fn regex_captures_of(pattern: Seq<char>, text: Seq<char>) -> Option<Seq<Option<Seq<char>>>>;

/// A compiled regular expression together with its source text.
#[derive(Debug, Clone)]
pub struct CompiledRegex {
    regex: regex::Regex,
    source: String,
}

impl View for CompiledRegex {
    type V = Seq<char>;

    /// The source text the expression was compiled from.
    closed spec fn view(&self) -> Seq<char> {
        self.source@
    }
}

/// Calls `regex::Regex::new(pattern)` and keeps the pattern beside the
/// compiled expression.  Whether the pattern compiles is named
/// `regex_compiles`.
#[verifier::external_body]
fn compile_regex(pattern: &str) -> (r: Result<CompiledRegex, regex::Error>)
    ensures
        r is Ok <==> regex_compiles(pattern@),
        r matches Ok(c) ==> c@ == pattern@,
{
    regex::Regex::new(pattern).map(|regex| CompiledRegex { regex, source: pattern.to_string() })
}

/// Calls `to_string` on a `regex::Error`, its human-readable message;
/// nothing is stated of the text.
#[verifier::external_body]
fn regex_error_message(e: &regex::Error) -> (r: String) {
    e.to_string()
}

/// Calls `regex::Regex::captures(text)` on the compiled expression and
/// lists the capture groups, the whole match first, each as its text or
/// `None` where the group took no part in the match.  What it gives is
/// named `regex_captures_of`, over the source text of the expression.
#[verifier::external_body]
fn regex_captures(re: &CompiledRegex, text: &str) -> (r: Option<Vec<Option<String>>>)
    ensures
        captures_view(r) == regex_captures_of(re@, text@),
{
    re.regex.captures(text).map(|caps| caps.iter().map(|m| m.map(|m| m.as_str().to_string())).collect())
}

/// Whether `route` is a well-formed pattern whose regular expression
/// compiles: the routes that `Route::new` builds.
pub open spec fn route_accepted(route: Seq<char>) -> bool {
    match route_pattern(route) {
        Ok((p, ns)) => regex_compiles(p),
        Err(e) => false,
    }
}

/// The parameters of a route, one for each parameter name from the first
/// onwards whose capture group took part in the match, each with its
/// percent-decoded value; `FailedToDecodePath` at the first value that does
/// not decode.
pub open spec fn collect_params(names: Seq<Seq<char>>, caps: Seq<Option<Seq<char>>>, i: int) -> Result<Seq<(Seq<char>, Seq<char>)>, RouteError>
    decreases names.len() - i,
{
    if i < 0 || i >= names.len() {
        Ok(Seq::empty())
    } else if i + 1 < caps.len() && caps[i + 1] is Some {
        match percent_decoded(caps[i + 1]->0) {
            None => Err(RouteError::FailedToDecodePath),
            Some(d) => match collect_params(names, caps, i + 1) {
                Ok(rest) => Ok(seq![(names[i], d)] + rest),
                Err(e) => Err(e),
            },
        }
    } else {
        collect_params(names, caps, i + 1)
    }
}

/// What matching a path gives for the capture groups `caps` (`None` where
/// the path does not match).
pub open spec fn params_spec(names: Seq<Seq<char>>, caps: Option<Seq<Option<Seq<char>>>>) -> Result<Seq<(Seq<char>, Seq<char>)>, RouteError> {
    match caps {
        None => Err(RouteError::DifferentPath),
        Some(c) => collect_params(names, c, 0),
    }
}

pub open spec fn captures_view(caps: Option<Vec<Option<String>>>) -> Option<Seq<Option<Seq<char>>>> {
    match caps {
        None => None,
        Some(c) => Some(c@.map_values(|x: Option<String>| match x {
            Some(s) => Some(s@),
            None => None,
        })),
    }
}

pub open spec fn pairs_view(v: Seq<(String, String)>) -> Seq<(Seq<char>, Seq<char>)> {
    v.map_values(|p: (String, String)| (p.0@, p.1@))
}

pub open spec fn params_result_view(r: Result<Vec<(String, String)>, RouteError>) -> Result<Seq<(Seq<char>, Seq<char>)>, RouteError> {
    match r {
        Ok(v) => Ok(pairs_view(v@)),
        Err(e) => Err(e),
    }
}

/// The parameters of a route, given its parameter names and the capture
/// groups of the match (`None` where the path does not match): see
/// `params_spec`.
pub fn params_from_captures(names: &Vec<String>, caps: Option<Vec<Option<String>>>) -> (r: Result<Vec<(String, String)>, RouteError>)
    ensures
        params_result_view(r) == params_spec(strings_view(names@), captures_view(caps)),
{
    let ghost cv = captures_view(caps);
    let c = match caps {
        None => {
            return Err(RouteError::DifferentPath);
        },
        Some(c) => c,
    };
    let ghost cs = cv->0;
    let ghost ns = strings_view(names@);
    let mut params: Vec<(String, String)> = Vec::new();
    let mut i: usize = 0;
    while i < names.len()
        invariant
            i <= names@.len(),
            ns == strings_view(names@),
            cv == Some(cs),
            cv == captures_view(caps),
            cs == c@.map_values(|x: Option<String>| match x {
                Some(s) => Some(s@),
                None => None,
            }),
            match collect_params(ns, cs, 0) {
                Ok(all) => match collect_params(ns, cs, i as int) {
                    Ok(rest) => all == pairs_view(params@) + rest,
                    Err(e) => false,
                },
                Err(e) => match collect_params(ns, cs, i as int) {
                    Ok(rest) => false,
                    Err(e2) => e2 == e,
                },
            },
        decreases names@.len() - i,
    {
        let ghost before = params@;
        if i + 1 < c.len() {
            match &c[i + 1] {
                Some(value) => {
                    match PercentDecodedStr::new(value.as_str()) {
                        Some(decoded) => {
                            params.push((names[i].clone(), decoded.into_string()));
                            proof {
                                assert(pairs_view(params@) =~= pairs_view(before) + seq![(ns[i as int], percent_decoded(cs[i + 1]->0)->0)]);
                            }
                        },
                        None => {
                            proof {
                                assert(cs[i + 1] == Some(value@));
                                assert(collect_params(ns, cs, i as int) == Err::<Seq<(Seq<char>, Seq<char>)>, RouteError>(
                                    RouteError::FailedToDecodePath,
                                ));
                                match collect_params(ns, cs, 0) {
                                    Ok(all) => {
                                        assert(false);
                                    },
                                    Err(e) => {
                                        assert(e == RouteError::FailedToDecodePath);
                                    },
                                }
                                assert(params_spec(ns, cv) == collect_params(ns, cs, 0));
                            }
                            return Err(RouteError::FailedToDecodePath);
                        },
                    }
                },
                None => {},
            }
        }
        i = i + 1;
    }
    proof {
        assert(pairs_view(params@) + Seq::<(Seq<char>, Seq<char>)>::empty() =~= pairs_view(params@));
    }
    Ok(params)
}

/// A route: the compiled regular expression of its pattern and the names
/// of its parameters in the order in which they appear.
#[derive(Debug, Clone)]
pub struct Route {
    regex: CompiledRegex,
    param_names: Vec<String>,
}

impl Route {
    /// The names of the route's parameters, in order.
    pub closed spec fn names(&self) -> Seq<Seq<char>> {
        strings_view(self.param_names@)
    }

    /// The regular expression the route matches paths against.
    pub closed spec fn pattern(&self) -> Seq<char> {
        self.regex@
    }

    /// Builds the route for the well-formed pattern `route` (see
    /// `route_pattern`), whose regular expression compiles.
    pub fn new(route: &str) -> (r: Route)
        requires
            route_accepted(route@),
        ensures
            route_pattern(route@) == Ok::<(Seq<char>, Seq<Seq<char>>), RoutePatternError>((r.pattern(), r.names())),
    {
        let (pattern, param_names) = build_pattern(route).unwrap();
        let regex = compile_regex(pattern.as_str()).unwrap();
        Route { regex, param_names }
    }

    /// Builds the route for the pattern `route`; fails with the pattern's
    /// error where it is malformed, and with `InvalidPattern` where the
    /// regular expression engine rejects it.
    pub fn try_new(route: &str) -> (r: Result<Route, RoutePatternError>)
        ensures
            r is Ok <==> route_accepted(route@),
            r matches Ok(rt) ==> route_pattern(route@) == Ok::<(Seq<char>, Seq<Seq<char>>), RoutePatternError>(
                (rt.pattern(), rt.names()),
            ),
            route_pattern(route@) matches Err(e) ==> r == Err::<Route, RoutePatternError>(e),
            route_pattern(route@) is Ok && !route_accepted(route@) ==> (r matches Err(e) && e is InvalidPattern),
    {
        let (pattern, _names) = match build_pattern(route) {
            Ok(pn) => pn,
            Err(e) => {
                return Err(e);
            },
        };
        match compile_regex(pattern.as_str()) {
            Ok(_) => Ok(Route::new(route)),
            Err(err) => Err(RoutePatternError::InvalidPattern(regex_error_message(&err))),
        }
    }

    /// The parameter names of the route.
    pub fn param_names(&self) -> (r: &Vec<String>)
        ensures
            strings_view(r@) == self.names(),
    {
        &self.param_names
    }

    /// Matches `path`, without its leading and trailing slashes, against the
    /// route's regular expression and returns its parameters with their
    /// percent-decoded values: `DifferentPath` where it does not match (see
    /// `params_spec` over `regex_captures_of`).
    pub fn match_path(&self, path: &str) -> (r: Result<Vec<(String, String)>, RouteError>)
        ensures
            params_result_view(r) == params_spec(self.names(), regex_captures_of(self.pattern(), trim_slashes(path@))),
    {
        let (a, b) = trim_bounds(path);
        let trimmed = path.substring_char(a, b);
        let caps = regex_captures(&self.regex, trimmed);
        params_from_captures(&self.param_names, caps)
    }
}

} // verus!
