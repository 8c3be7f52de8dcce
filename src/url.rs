//! URLs: with a scheme, found from the `:` of `://`, and without one, found
//! from a `.` in a host name.
use crate::chars::{
    is_ascii_alpha, is_ascii_digit, is_non_ascii, is_scheme_char, is_unicode_whitespace,
    spec_is_ascii_alpha,
    spec_is_ascii_digit, spec_is_non_ascii, spec_is_unicode_whitespace,
};
use crate::domains::{authority_end_ok, find_authority_end, spec_authority_end};
use vstd::prelude::*;

verus! {

/// What the path scanner knows after reading part of a path, query or fragment.
#[derive(Clone, Copy)]
pub struct PathState {
    /// Brackets opened and not yet closed.
    pub round: usize,
    pub square: usize,
    pub curly: usize,
    /// An odd number of `'` has been read.
    pub single_quote: bool,
    pub previous_can_be_last: bool,
    /// The last position at which the URL may end.
    pub end: usize,
}

pub enum PathStep {
    Next(PathState),
    Stop,
}

/// Characters that never stand in a URL (RFC 3986 and RFC 3987), or that
/// markup uses around one.
pub open spec fn is_url_terminator(c: char) -> bool {
    let u = c as u32;
    u <= 0x1F || c == ' ' || c == '|' || c == '"' || c == '<' || c == '>' || c == '`' || (0x7F
        <= u <= 0x9F)
}

/// Characters that may stand in a URL but not at its end, as plain text
/// uses them after one.
pub open spec fn is_trailing_punctuation(c: char) -> bool {
    c == '?' || c == '!' || c == '.' || c == ',' || c == ':' || c == ';' || c == '*'
}

pub open spec fn mark(st: PathState, i: int, can_be_last: bool) -> PathState {
    PathState {
        end: if can_be_last {
            (i + 1) as usize
        } else {
            st.end
        },
        previous_can_be_last: can_be_last,
        ..st
    }
}

/// The path scanner's rule for character `c` at position `i`.
pub open spec fn path_step(c: char, i: int, st: PathState, iri_parsing_enabled: bool) -> PathStep {
    if is_url_terminator(c) {
        PathStep::Stop
    } else if is_trailing_punctuation(c) {
        PathStep::Next(mark(st, i, false))
    } else if c == '/' {
        PathStep::Next(mark(st, i, st.previous_can_be_last))
    } else if c == '(' {
        PathStep::Next(mark(PathState { round: (st.round + 1) as usize, ..st }, i, false))
    } else if c == ')' {
        if st.round == 0 {
            PathStep::Stop
        } else {
            PathStep::Next(mark(PathState { round: (st.round - 1) as usize, ..st }, i, true))
        }
    } else if c == '[' {
        PathStep::Next(mark(PathState { square: (st.square + 1) as usize, ..st }, i, false))
    } else if c == ']' {
        if st.square == 0 {
            PathStep::Stop
        } else {
            PathStep::Next(mark(PathState { square: (st.square - 1) as usize, ..st }, i, true))
        }
    } else if c == '{' {
        PathStep::Next(mark(PathState { curly: (st.curly + 1) as usize, ..st }, i, false))
    } else if c == '}' {
        if st.curly == 0 {
            PathStep::Stop
        } else {
            PathStep::Next(mark(PathState { curly: (st.curly - 1) as usize, ..st }, i, true))
        }
    } else if c == '\'' {
        // A single quote ends a URL only after an even number of them.
        PathStep::Next(
            mark(PathState { single_quote: !st.single_quote, ..st }, i, st.single_quote),
        )
    } else if spec_is_non_ascii(c) {
        if !iri_parsing_enabled || spec_is_unicode_whitespace(c) {
            PathStep::Stop
        } else {
            PathStep::Next(mark(st, i, true))
        }
    } else {
        PathStep::Next(mark(st, i, true))
    }
}

pub open spec fn path_run(s: Seq<char>, i: int, st: PathState, iri_parsing_enabled: bool) -> PathState
    decreases s.len() - i,
{
    if i >= s.len() || i < 0 {
        st
    } else {
        match path_step(s[i], i, st, iri_parsing_enabled) {
            PathStep::Next(n) => path_run(s, i + 1, n, iri_parsing_enabled),
            PathStep::Stop => st,
        }
    }
}

pub open spec fn initial_path_state(from: usize) -> PathState {
    PathState {
        round: 0,
        square: 0,
        curly: 0,
        single_quote: false,
        previous_can_be_last: true,
        end: from,
    }
}

/// The end of a URL whose authority ends at `from`: a path or query must
/// start with `/` or `?`.
pub open spec fn spec_url_end(s: Seq<char>, from: int, iri_parsing_enabled: bool) -> int {
    if 0 <= from < s.len() && (s[from] == '/' || s[from] == '?') {
        path_run(s, from, initial_path_state(from as usize), iri_parsing_enabled).end as int
    } else {
        from
    }
}

/// Reads a scheme leftwards from position `i` down to `lo`: the leftmost
/// letter, and the leftmost digit.
pub open spec fn scheme_rewind(
    s: Seq<char>,
    lo: int,
    i: int,
    first: Option<int>,
    special: Option<int>,
) -> (Option<int>, Option<int>)
    decreases i - lo,
{
    if i <= lo || i > s.len() {
        (first, special)
    } else {
        let c = s[i - 1];
        if spec_is_ascii_alpha(c) {
            scheme_rewind(s, lo, i - 1, Some(i - 1), special)
        } else if spec_is_ascii_digit(c) {
            scheme_rewind(s, lo, i - 1, first, Some(i - 1))
        } else if c == '+' || c == '-' || c == '.' {
            scheme_rewind(s, lo, i - 1, first, special)
        } else {
            (first, special)
        }
    }
}

/// The start of the scheme that ends at `sep`. `abc://` is no scheme in
/// `1abc://`, while `.abc://` and others are.
pub open spec fn scheme_start(s: Seq<char>, lo: int, sep: int) -> Option<int> {
    let (first, special) = scheme_rewind(s, lo, sep, None, None);
    match first {
        None => None,
        Some(f) => if special == Some(f - 1) {
            None
        } else {
            Some(f)
        },
    }
}

/// Web schemes whose authority must look like a host name or an IP address;
/// other schemes (`file`, ...) take any authority.
pub open spec fn spec_scheme_requires_host(scheme: Seq<char>) -> bool {
    scheme == seq!['h', 't', 't', 'p'] || scheme == seq!['h', 't', 't', 'p', 's'] || scheme
        == seq!['f', 't', 'p'] || scheme == seq!['s', 's', 'h']
}

/// The URL with a scheme whose `://` starts at `sep`, in the text from `lo` on.
pub open spec fn spec_scan_url(s: Seq<char>, lo: int, sep: int, iri_parsing_enabled: bool) -> Option<
    (int, int),
> {
    if sep <= lo || sep + 2 >= s.len() || s[sep + 1] != '/' || s[sep + 2] != '/' {
        None
    } else {
        match scheme_start(s, lo, sep) {
            None => None,
            Some(start) => match spec_authority_end(
                s,
                sep + 3,
                true,
                spec_scheme_requires_host(s.subrange(start, sep)),
                true,
                iri_parsing_enabled,
            ).0 {
                None => None,
                Some(after_authority) => {
                    let end = spec_url_end(s, after_authority as int, iri_parsing_enabled);
                    if end == sep + 3 {
                        None
                    } else {
                        Some((start, end))
                    }
                },
            },
        }
    }
}

/// Reads a host label leftwards from position `i` down to `lo`: the
/// leftmost character of the label, or `None` where no domain may start.
pub open spec fn domain_rewind(
    s: Seq<char>,
    lo: int,
    i: int,
    first: Option<int>,
    iri_parsing_enabled: bool,
) -> Option<Option<int>>
    decreases i - lo,
{
    if i <= lo || i > s.len() {
        Some(first)
    } else {
        let c = s[i - 1];
        if spec_is_ascii_alpha(c) || spec_is_ascii_digit(c) {
            domain_rewind(s, lo, i - 1, Some(i - 1), iri_parsing_enabled)
        } else if spec_is_non_ascii(c) {
            if iri_parsing_enabled && !spec_is_unicode_whitespace(c) {
                domain_rewind(s, lo, i - 1, Some(i - 1), iri_parsing_enabled)
            } else {
                Some(first)
            }
        } else if c == '/' || c == '@' || c == '.' {
            // A URL with a scheme, an email address, or a domain from an
            // earlier dot would have been found already.
            None
        } else if c == '-' {
            // A label does not end with `-`.
            if first is None {
                None
            } else {
                domain_rewind(s, lo, i - 1, Some(i - 1), iri_parsing_enabled)
            }
        } else {
            Some(first)
        }
    }
}

/// The start of a domain whose first dot is at `dot`. A label does not
/// start with `-`.
pub open spec fn domain_start(s: Seq<char>, lo: int, dot: int, iri_parsing_enabled: bool) -> Option<
    int,
> {
    match domain_rewind(s, lo, dot, None, iri_parsing_enabled) {
        Some(Some(f)) => if s[f] == '-' {
            None
        } else {
            Some(f)
        },
        _ => None,
    }
}

/// The URL without a scheme whose host holds the `.` at `dot`, in the text
/// from `lo` on.
pub open spec fn spec_scan_domain(
    s: Seq<char>,
    lo: int,
    dot: int,
    iri_parsing_enabled: bool,
) -> Option<(int, int)> {
    match domain_start(s, lo, dot, iri_parsing_enabled) {
        None => None,
        Some(start) => match spec_authority_end(s, start, false, true, true, iri_parsing_enabled) {
            (Some(domain_end), Some(_)) => Some(
                (start, spec_url_end(s, domain_end as int, iri_parsing_enabled)),
            ),
            _ => None,
        },
    }
}

/// What holds of every URL `s[a..b]`: it ends in a character that
/// trimming would keep, and from some point `ae` on (the end of its
/// authority) no closing bracket outnumbers its openers, and a final `'`
/// closes an earlier one.
pub open spec fn url_span_laws(s: Seq<char>, a: int, b: int) -> bool {
    &&& a < b ==> can_end_url(s[b - 1])
    &&& exists|ae: int|
        a <= ae <= b && #[trigger] brackets_never_underflow(s.subrange(ae, b)) && (a < b && s[b
            - 1] == '\'' ==> ae < b && s.subrange(ae, b - 1).contains('\''))
}

pub open spec fn path_bounded(st: PathState, from: int, i: int) -> bool {
    &&& st.round <= i
    &&& st.square <= i
    &&& st.curly <= i
    &&& from <= st.end <= i
}

fn path_mark(st: &PathState, i: usize, can_be_last: bool) -> (r: PathState)
    requires
        i < usize::MAX,
    ensures
        r == mark(*st, i as int, can_be_last),
{
    PathState {
        end: if can_be_last {
            i + 1
        } else {
            st.end
        },
        previous_can_be_last: can_be_last,
        ..*st
    }
}

fn next_path_step(c: char, from: usize, i: usize, st: &PathState, iri_parsing_enabled: bool) -> (r:
    PathStep)
    requires
        i < usize::MAX,
        from <= i,
        path_bounded(*st, from as int, i as int),
    ensures
        r == path_step(c, i as int, *st, iri_parsing_enabled),
        r matches PathStep::Next(n) ==> path_bounded(n, from as int, i + 1),
{
    let u = c as u32;
    if u <= 0x1F || c == ' ' || c == '|' || c == '"' || c == '<' || c == '>' || c == '`' || (0x7F
        <= u && u <= 0x9F) {
        PathStep::Stop
    } else if c == '?' || c == '!' || c == '.' || c == ',' || c == ':' || c == ';' || c == '*' {
        PathStep::Next(path_mark(st, i, false))
    } else if c == '/' {
        PathStep::Next(path_mark(st, i, st.previous_can_be_last))
    } else if c == '(' {
        PathStep::Next(path_mark(&PathState { round: st.round + 1, ..*st }, i, false))
    } else if c == ')' {
        if st.round == 0 {
            PathStep::Stop
        } else {
            PathStep::Next(path_mark(&PathState { round: st.round - 1, ..*st }, i, true))
        }
    } else if c == '[' {
        PathStep::Next(path_mark(&PathState { square: st.square + 1, ..*st }, i, false))
    } else if c == ']' {
        if st.square == 0 {
            PathStep::Stop
        } else {
            PathStep::Next(path_mark(&PathState { square: st.square - 1, ..*st }, i, true))
        }
    } else if c == '{' {
        PathStep::Next(path_mark(&PathState { curly: st.curly + 1, ..*st }, i, false))
    } else if c == '}' {
        if st.curly == 0 {
            PathStep::Stop
        } else {
            PathStep::Next(path_mark(&PathState { curly: st.curly - 1, ..*st }, i, true))
        }
    } else if c == '\'' {
        PathStep::Next(
            path_mark(&PathState { single_quote: !st.single_quote, ..*st }, i, st.single_quote),
        )
    } else if is_non_ascii(c) {
        if !iri_parsing_enabled || is_unicode_whitespace(c) {
            PathStep::Stop
        } else {
            PathStep::Next(path_mark(st, i, true))
        }
    } else {
        PathStep::Next(path_mark(st, i, true))
    }
}

/// Finds the end of a URL whose authority ends at `from`, through its path,
/// query and fragment, leaving out trailing punctuation and unbalanced
/// brackets.
pub fn find_url_end(s: &[char], from: usize, iri_parsing_enabled: bool) -> (r: usize)
    requires
        from <= s.len(),
    ensures
        r == spec_url_end(s@, from as int, iri_parsing_enabled),
        from <= r <= s.len(),
{
    if !(from < s.len() && (s[from] == '/' || s[from] == '?')) {
        return from;
    }
    let ghost init = initial_path_state(from);
    let mut st = PathState {
        round: 0,
        square: 0,
        curly: 0,
        single_quote: false,
        previous_can_be_last: true,
        end: from,
    };
    let mut i: usize = from;
    while i < s.len()
        invariant
            from <= i <= s.len(),
            from < s.len(),
            s@[from as int] == '/' || s@[from as int] == '?',
            init == initial_path_state(from),
            path_bounded(st, from as int, i as int),
            path_run(s@, from as int, init, iri_parsing_enabled) == path_run(
                s@,
                i as int,
                st,
                iri_parsing_enabled,
            ),
        decreases s.len() - i,
    {
        let r = next_path_step(s[i], from, i, &st, iri_parsing_enabled);
        assert(path_run(s@, i as int, st, iri_parsing_enabled) == match r {
            PathStep::Next(n) => path_run(s@, i + 1, n, iri_parsing_enabled),
            PathStep::Stop => st,
        });
        match r {
            PathStep::Next(n) => {
                st = n;
                i = i + 1;
            },
            PathStep::Stop => {
                return st.end;
            },
        }
    }
    st.end
}

/// Finds the start of the scheme that ends at `sep`.
fn find_scheme_start(s: &[char], lo: usize, sep: usize) -> (r: Option<usize>)
    requires
        lo <= sep <= s.len(),
    ensures
        r is None ==> scheme_start(s@, lo as int, sep as int) is None,
        r matches Some(f) ==> scheme_start(s@, lo as int, sep as int) == Some(f as int) && lo
            <= f < sep && spec_is_ascii_alpha(s@[f as int]),
{
    let mut first: Option<usize> = None;
    let mut special: Option<usize> = None;
    let mut i: usize = sep;
    while i > lo
        invariant
            lo <= i <= sep <= s.len(),
            scheme_rewind(s@, lo as int, sep as int, None, None) == scheme_rewind(
                s@,
                lo as int,
                i as int,
                match first {
                    Some(f) => Some(f as int),
                    None => None,
                },
                match special {
                    Some(f) => Some(f as int),
                    None => None,
                },
            ),
            first matches Some(f) ==> i <= f < sep && spec_is_ascii_alpha(s@[f as int]),
            special matches Some(f) ==> i <= f < sep,
        decreases i,
    {
        let c = s[i - 1];
        if !is_scheme_char(c) {
            return scheme_from(first, special);
        }
        if is_ascii_alpha(c) {
            first = Some(i - 1);
        } else if is_ascii_digit(c) {
            special = Some(i - 1);
        }
        i = i - 1;
    }
    scheme_from(first, special)
}

/// A scheme starts at its leftmost letter, unless a digit stands just before it.
fn scheme_from(first: Option<usize>, special: Option<usize>) -> (r: Option<usize>)
    ensures
        r == (match first {
            None => None,
            Some(f) => if (match special {
                Some(d) => Some(d as int),
                None => None,
            }) == Some(f - 1) {
                None
            } else {
                Some(f)
            },
        }),
{
    match first {
        None => None,
        Some(f) => match special {
            Some(d) => if f > 0 && d == f - 1 {
                None
            } else {
                Some(f)
            },
            None => Some(f),
        },
    }
}

/// Whether the scheme `s[start..end]` needs a host.
fn scheme_requires_host(s: &[char], start: usize, end: usize) -> (r: bool)
    requires
        start <= end <= s.len(),
    ensures
        r == spec_scheme_requires_host(s@.subrange(start as int, end as int)),
{
    let ghost scheme = s@.subrange(start as int, end as int);
    let n = end - start;
    let r = if n == 3 {
        (s[start] == 'f' && s[start + 1] == 't' && s[start + 2] == 'p') || (s[start] == 's' && s[start
            + 1] == 's' && s[start + 2] == 'h')
    } else if n == 4 || n == 5 {
        s[start] == 'h' && s[start + 1] == 't' && s[start + 2] == 't' && s[start + 3] == 'p' && (n
            == 4 || s[start + 4] == 's')
    } else {
        false
    };
    proof {
        if r {
            if n == 3 && s[start as int] == 'f' {
                assert(scheme =~= seq!['f', 't', 'p']);
            } else if n == 3 {
                assert(scheme =~= seq!['s', 's', 'h']);
            } else if n == 4 {
                assert(scheme =~= seq!['h', 't', 't', 'p']);
            } else {
                assert(scheme =~= seq!['h', 't', 't', 'p', 's']);
            }
        } else {
            assert(scheme.len() == n);
            if spec_scheme_requires_host(scheme) {
                assert(scheme[0] == s@[start as int]);
                assert(scheme[1] == s@[start + 1]);
                assert(scheme[2] == s@[start + 2]);
                if n >= 4 {
                    assert(scheme[3] == s@[start + 3]);
                }
                if n == 5 {
                    assert(scheme[4] == s@[start + 4]);
                }
            }
        }
    }
    r
}

/// Scans for a URL with a scheme whose `://` starts at `sep`, in the text
/// from `lo` on; returns its start and end.
pub fn scan_url(s: &[char], lo: usize, sep: usize, iri_parsing_enabled: bool) -> (r: Option<
    (usize, usize),
>)
    requires
        lo <= sep < s.len(),
    ensures
        r is None ==> spec_scan_url(s@, lo as int, sep as int, iri_parsing_enabled) is None,
        r matches Some((a, b)) ==> spec_scan_url(s@, lo as int, sep as int, iri_parsing_enabled)
            == Some((a as int, b as int)),
        r matches Some((a, b)) ==> lo <= a < sep < b <= s.len() && spec_is_ascii_alpha(
            s@[a as int],
        ) && url_span_laws(s@, a as int, b as int),
{
    if sep <= lo || s.len() - sep <= 2 || s[sep + 1] != '/' || s[sep + 2] != '/' {
        return None;
    }
    let start = match find_scheme_start(s, lo, sep) {
        None => {
            return None;
        },
        Some(start) => start,
    };
    let after_slash_slash = sep + 3;
    let require_host = scheme_requires_host(s, start, sep);
    match find_authority_end(s, after_slash_slash, true, require_host, true, iri_parsing_enabled).0 {
        None => None,
        Some(after_authority) => {
            let end = find_url_end(s, after_authority, iri_parsing_enabled);
            proof {
                lemma_url_end(s@, after_authority as int, iri_parsing_enabled);
                assert(brackets_never_underflow(s@.subrange(after_authority as int, end as int)));
            }
            if end == after_slash_slash {
                None
            } else {
                Some((start, end))
            }
        },
    }
}

/// Finds the start of a domain whose first dot is at `dot`.
fn find_domain_start(s: &[char], lo: usize, dot: usize, iri_parsing_enabled: bool) -> (r: Option<
    usize,
>)
    requires
        lo <= dot <= s.len(),
    ensures
        r is None ==> domain_start(s@, lo as int, dot as int, iri_parsing_enabled) is None,
        r matches Some(f) ==> domain_start(s@, lo as int, dot as int, iri_parsing_enabled) == Some(
            f as int,
        ) && lo <= f < dot && s@[f as int] != '-' && (spec_is_ascii_alpha(s@[f as int])
            || spec_is_ascii_digit(s@[f as int]) || (spec_is_non_ascii(s@[f as int])
            && !spec_is_unicode_whitespace(s@[f as int]))),
{
    let mut first: Option<usize> = None;
    let mut i: usize = dot;
    while i > lo
        invariant
            lo <= i <= dot <= s.len(),
            domain_rewind(s@, lo as int, dot as int, None, iri_parsing_enabled) == domain_rewind(
                s@,
                lo as int,
                i as int,
                match first {
                    Some(f) => Some(f as int),
                    None => None,
                },
                iri_parsing_enabled,
            ),
            first matches Some(f) ==> i <= f < dot && (s@[f as int] == '-' || spec_is_ascii_alpha(
                s@[f as int],
            ) || spec_is_ascii_digit(s@[f as int]) || (spec_is_non_ascii(s@[f as int])
                && !spec_is_unicode_whitespace(s@[f as int]))),
        decreases i,
    {
        let c = s[i - 1];
        if is_ascii_alpha(c) || is_ascii_digit(c) {
            first = Some(i - 1);
        } else if is_non_ascii(c) {
            if iri_parsing_enabled && !is_unicode_whitespace(c) {
                first = Some(i - 1);
            } else {
                return domain_from(s, first);
            }
        } else if c == '/' || c == '@' || c == '.' {
            return None;
        } else if c == '-' {
            if first.is_none() {
                return None;
            }
            first = Some(i - 1);
        } else {
            return domain_from(s, first);
        }
        i = i - 1;
    }
    domain_from(s, first)
}

/// A domain starts at the leftmost character of its first label, unless
/// that is a `-`.
fn domain_from(s: &[char], first: Option<usize>) -> (r: Option<usize>)
    requires
        first matches Some(f) ==> f < s.len(),
    ensures
        r == (match first {
            Some(f) => if s@[f as int] == '-' {
                None
            } else {
                Some(f)
            },
            None => None,
        }),
{
    match first {
        Some(f) => if s[f] == '-' {
            None
        } else {
            Some(f)
        },
        None => None,
    }
}

/// Scans for a URL without a scheme whose host holds the `.` at `dot`, in
/// the text from `lo` on; returns its start and end.
pub fn scan_domain(s: &[char], lo: usize, dot: usize, iri_parsing_enabled: bool) -> (r: Option<
    (usize, usize),
>)
    requires
        lo <= dot < s.len(),
    ensures
        r is None ==> spec_scan_domain(s@, lo as int, dot as int, iri_parsing_enabled) is None,
        r matches Some((a, b)) ==> spec_scan_domain(s@, lo as int, dot as int, iri_parsing_enabled)
            == Some((a as int, b as int)),
        r matches Some((a, b)) ==> lo <= a < dot && a <= b <= s.len() && (spec_is_ascii_alpha(
            s@[a as int],
        ) || spec_is_ascii_digit(s@[a as int]) || (spec_is_non_ascii(s@[a as int])
            && !spec_is_unicode_whitespace(s@[a as int]))) && url_span_laws(s@, a as int, b as int),
{
    let start = match find_domain_start(s, lo, dot, iri_parsing_enabled) {
        None => {
            return None;
        },
        Some(start) => start,
    };
    match find_authority_end(s, start, false, true, true, iri_parsing_enabled) {
        (Some(domain_end), Some(_)) => {
            let end = find_url_end(s, domain_end, iri_parsing_enabled);
            proof {
                lemma_url_end(s@, domain_end as int, iri_parsing_enabled);
                assert(brackets_never_underflow(s@.subrange(domain_end as int, end as int)));
            }
            Some((start, end))
        },
        _ => None,
    }
}

/// Openers of `open` less closers `close` in `t`.
pub open spec fn net(t: Seq<char>, open: char, close: char) -> int
    decreases t.len(),
{
    if t.len() == 0 {
        0
    } else {
        net(t.drop_last(), open, close) + if t.last() == open {
            1int
        } else if t.last() == close {
            -1int
        } else {
            0int
        }
    }
}

/// No pair of brackets has more closers than openers in `t`.
pub open spec fn nets_ok(t: Seq<char>) -> bool {
    net(t, '(', ')') >= 0 && net(t, '[', ']') >= 0 && net(t, '{', '}') >= 0
}

/// At no prefix of `t` does a closing bracket outnumber its openers.
pub open spec fn brackets_never_underflow(t: Seq<char>) -> bool {
    forall|p: int| 0 <= p <= t.len() ==> #[trigger] nets_ok(t.take(p))
}

/// A character that trimming would not take off the end of a URL: no
/// trailing punctuation and no opening bracket.
pub open spec fn can_end_url(c: char) -> bool {
    !is_trailing_punctuation(c) && c != '(' && c != '[' && c != '{'
}

/// What holds of the path scanner's state after reading `s[from..i]`.
pub open spec fn path_invariant(s: Seq<char>, from: int, i: int, st: PathState) -> bool {
    &&& 0 <= from <= i <= s.len()
    &&& from <= st.end <= i
    &&& st.round + st.square + st.curly <= i - from
    &&& st.round == net(s.subrange(from, i), '(', ')')
    &&& st.square == net(s.subrange(from, i), '[', ']')
    &&& st.curly == net(s.subrange(from, i), '{', '}')
    &&& forall|p: int| from <= p <= i ==> #[trigger] nets_ok(s.subrange(from, p))
    &&& st.end > from ==> can_end_url(s[st.end - 1])
    &&& st.single_quote ==> s.subrange(from, i).contains('\'')
    &&& st.end > from && s[st.end - 1] == '\'' ==> s.subrange(from, st.end - 1).contains('\'')
}

/// The path scanner keeps its invariant to the end, and the end it reports
/// only grows.
pub proof fn lemma_path_run(s: Seq<char>, from: int, i: int, st: PathState, iri: bool)
    requires
        s.len() <= usize::MAX,
        path_invariant(s, from, i, st),
    ensures
        path_run(s, i, st, iri).end >= st.end,
        from <= path_run(s, i, st, iri).end <= s.len(),
        forall|p: int|
            from <= p <= path_run(s, i, st, iri).end ==> #[trigger] nets_ok(s.subrange(from, p)),
        path_run(s, i, st, iri).end > from ==> can_end_url(s[path_run(s, i, st, iri).end - 1]),
        path_run(s, i, st, iri).end > from && s[path_run(s, i, st, iri).end - 1] == '\''
            ==> s.subrange(from, path_run(s, i, st, iri).end - 1).contains('\''),
    decreases s.len() - i,
{
    if i >= s.len() {
    } else {
        match path_step(s[i], i, st, iri) {
            PathStep::Next(n) => {
                let t0 = s.subrange(from, i);
                let t1 = s.subrange(from, i + 1);
                assert(t1.drop_last() =~= t0);
                assert(t1.last() == s[i]);
                assert(net(t1, '(', ')') == net(t0, '(', ')') + if s[i] == '(' {
                    1int
                } else if s[i] == ')' {
                    -1int
                } else {
                    0int
                });
                assert(net(t1, '[', ']') == net(t0, '[', ']') + if s[i] == '[' {
                    1int
                } else if s[i] == ']' {
                    -1int
                } else {
                    0int
                });
                assert(net(t1, '{', '}') == net(t0, '{', '}') + if s[i] == '{' {
                    1int
                } else if s[i] == '}' {
                    -1int
                } else {
                    0int
                });
                assert(n.round == net(t1, '(', ')'));
                assert(n.square == net(t1, '[', ']'));
                assert(n.curly == net(t1, '{', '}'));
                assert(nets_ok(t1));
                assert(n.end > from ==> can_end_url(s[n.end - 1]));
                if t0.contains('\'') {
                    let j = choose|j: int| 0 <= j < t0.len() && t0[j] == '\'';
                    assert(t1[j] == '\'');
                }
                if s[i] == '\'' {
                    assert(t1[i - from] == '\'');
                }
                assert(n.single_quote ==> t1.contains('\''));
                if n.end > from && s[n.end - 1] == '\'' && n.end != st.end {
                    assert(n.end == i + 1);
                    assert(s.subrange(from, n.end - 1) == t0);
                }
                assert(path_invariant(s, from, i + 1, n));
                lemma_path_run(s, from, i + 1, n, iri);
            },
            PathStep::Stop => {},
        }
    }
}

/// The path, query and fragment after an authority that ends at `from`
/// never close a bracket they did not open, and end in a character that
/// trimming would keep. A path that starts with `/` keeps at least that.
pub proof fn lemma_url_end(s: Seq<char>, from: int, iri: bool)
    requires
        0 <= from <= s.len() <= usize::MAX,
    ensures
        from <= spec_url_end(s, from, iri) <= s.len(),
        brackets_never_underflow(s.subrange(from, spec_url_end(s, from, iri))),
        spec_url_end(s, from, iri) > from ==> can_end_url(s[spec_url_end(s, from, iri) - 1]),
        spec_url_end(s, from, iri) > from && s[spec_url_end(s, from, iri) - 1] == '\'' ==> s.subrange(
            from,
            spec_url_end(s, from, iri) - 1,
        ).contains('\''),
        from < s.len() && s[from] == '/' ==> spec_url_end(s, from, iri) > from,
{
    let e = spec_url_end(s, from, iri);
    if from < s.len() && (s[from] == '/' || s[from] == '?') {
        let init = initial_path_state(from as usize);
        assert(s.subrange(from, from) =~= Seq::<char>::empty());
        assert(path_invariant(s, from, from, init));
        lemma_path_run(s, from, from, init, iri);
        if s[from] == '/' {
            let n = mark(init, from, true);
            assert(path_step(s[from], from, init, iri) == PathStep::Next(n));
            let t1 = s.subrange(from, from + 1);
            assert(t1.drop_last() =~= s.subrange(from, from));
            assert(path_invariant(s, from, from + 1, n));
            lemma_path_run(s, from, from + 1, n, iri);
        }
    } else {
        assert(s.subrange(from, from) =~= Seq::<char>::empty());
    }
    assert forall|p: int| 0 <= p <= s.subrange(from, e).len() implies #[trigger] nets_ok(
        s.subrange(from, e).take(p),
    ) by {
        assert(s.subrange(from, e).take(p) =~= s.subrange(from, from + p));
    }
}

} // verus!
