//! The authority part of a URL (RFC 3986, section 3.2), shared by the email
//! and URL scanners:
//!
//! ```text
//! authority   = [ userinfo "@" ] host [ ":" port ]
//! host        = IP-literal / IPv4address / reg-name
//! reg-name    = *( unreserved / pct-encoded / sub-delims )
//! unreserved  = ALPHA / DIGIT / "-" / "." / "_" / "~"
//! sub-delims  = "!" / "$" / "&" / "'" / "(" / ")" / "*" / "+" / "," / ";" / "="
//! ```
//!
//! Positions are indices into the text's characters.
use crate::chars::{
    is_ascii_alpha, is_ascii_digit, is_hex_digit, is_non_ascii, is_unicode_whitespace,
    spec_is_ascii_alpha, spec_is_ascii_digit, spec_is_hex_digit, spec_is_non_ascii,
    spec_is_unicode_whitespace,
};
use vstd::prelude::*;

verus! {

/// What the reg-name scanner knows after reading part of an authority.
#[derive(Clone, Copy)]
pub struct AuthorityState {
    /// The last position at which the authority may end.
    pub end: usize,
    /// A dot that becomes `last_dot` once a label character follows it.
    pub maybe_last_dot: Option<usize>,
    pub last_dot: Option<usize>,
    /// Dots between numeric labels (an IPv4 address has three).
    pub number_dots: usize,
    pub dot_allowed: bool,
    pub hyphen_allowed: bool,
    pub all_numeric: bool,
    pub maybe_host: bool,
    pub host_ended: bool,
    pub userinfo_allowed: bool,
}

/// One step of the reg-name scanner.
pub enum AuthorityStep {
    /// Go on to the next character.
    Next(AuthorityState),
    /// The authority stops before this character.
    Stop(AuthorityState),
    /// The text cannot hold a valid authority here.
    Reject,
}

pub open spec fn is_sub_delim(c: char) -> bool {
    c == '!' || c == '$' || c == '&' || c == '\'' || c == '(' || c == ')' || c == '*' || c == '+'
        || c == ',' || c == ';' || c == '='
}

pub open spec fn initial_authority_state(from: usize, userinfo_allowed: bool) -> AuthorityState {
    AuthorityState {
        end: from,
        maybe_last_dot: None,
        last_dot: None,
        number_dots: 0,
        dot_allowed: false,
        hyphen_allowed: false,
        all_numeric: true,
        maybe_host: true,
        host_ended: false,
        userinfo_allowed,
    }
}

/// The positions that a state holds after the scanner has read `from..i`.
pub open spec fn state_bounded(st: AuthorityState, from: int, i: int) -> bool {
    &&& st.number_dots <= i
    &&& from <= st.end <= i
    &&& st.last_dot matches Some(d) ==> from <= d < i
    &&& st.maybe_last_dot matches Some(d) ==> from <= d < i
}

/// A label character: it may start or end a label.
pub open spec fn after_label_char(
    st: AuthorityState,
    i: int,
    numeric: bool,
    require_host: bool,
) -> AuthorityState {
    let commits = st.last_dot != st.maybe_last_dot;
    AuthorityState {
        end: if !require_host || !st.host_ended {
            (i + 1) as usize
        } else {
            st.end
        },
        last_dot: st.maybe_last_dot,
        number_dots: if numeric && commits {
            (st.number_dots + 1) as usize
        } else {
            st.number_dots
        },
        dot_allowed: true,
        hyphen_allowed: true,
        all_numeric: st.all_numeric && numeric,
        maybe_host: st.maybe_host && !st.host_ended,
        ..st
    }
}

/// The reg-name scanner's rule for character `c` at position `i`.
pub open spec fn authority_step(
    c: char,
    i: int,
    st: AuthorityState,
    require_host: bool,
    port_allowed: bool,
    iri_parsing_enabled: bool,
) -> AuthorityStep {
    if spec_is_ascii_alpha(c) {
        AuthorityStep::Next(after_label_char(st, i, false, require_host))
    } else if spec_is_non_ascii(c) {
        if !iri_parsing_enabled || spec_is_unicode_whitespace(c) {
            AuthorityStep::Stop(st)
        } else {
            AuthorityStep::Next(after_label_char(st, i, false, require_host))
        }
    } else if spec_is_ascii_digit(c) {
        AuthorityStep::Next(after_label_char(st, i, true, require_host))
    } else if c == '-' {
        AuthorityStep::Next(
            AuthorityState {
                end: if !require_host {
                    (i + 1) as usize
                } else {
                    st.end
                },
                maybe_host: st.maybe_host && st.hyphen_allowed,
                dot_allowed: false,
                all_numeric: false,
                ..st
            },
        )
    } else if c == '.' {
        AuthorityStep::Next(
            AuthorityState {
                host_ended: st.host_ended || !st.dot_allowed,
                dot_allowed: false,
                hyphen_allowed: false,
                maybe_last_dot: Some(i as usize),
                ..st
            },
        )
    } else if c == '_' || c == '~' {
        AuthorityStep::Next(AuthorityState { maybe_host: false, ..st })
    } else if is_sub_delim(c) {
        let n = AuthorityState { host_ended: true, ..st };
        if !st.userinfo_allowed && require_host {
            AuthorityStep::Stop(n)
        } else {
            AuthorityStep::Next(n)
        }
    } else if c == ':' {
        if !st.userinfo_allowed && !port_allowed {
            AuthorityStep::Stop(st)
        } else {
            AuthorityStep::Next(AuthorityState { maybe_last_dot: st.last_dot, ..st })
        }
    } else if c == '@' {
        if !st.userinfo_allowed {
            AuthorityStep::Reject
        } else {
            // Everything so far was userinfo: the host starts after the `@`.
            AuthorityStep::Next(
                AuthorityState {
                    maybe_last_dot: None,
                    last_dot: None,
                    dot_allowed: false,
                    hyphen_allowed: false,
                    all_numeric: true,
                    maybe_host: true,
                    host_ended: false,
                    userinfo_allowed: false,
                    ..st
                },
            )
        }
    } else if c == '/' {
        // Without a required host, a closing slash ends the authority right here.
        AuthorityStep::Stop(
            if !require_host {
                AuthorityState { end: i as usize, ..st }
            } else {
                st
            },
        )
    } else {
        AuthorityStep::Stop(st)
    }
}

/// Runs the reg-name scanner from position `i` in state `st`: the state in
/// which it stops, or `None` where it rejects.
pub open spec fn authority_run(
    s: Seq<char>,
    i: int,
    st: AuthorityState,
    require_host: bool,
    port_allowed: bool,
    iri_parsing_enabled: bool,
) -> Option<AuthorityState>
    decreases s.len() - i,
{
    if i >= s.len() || i < 0 {
        Some(st)
    } else {
        match authority_step(s[i], i, st, require_host, port_allowed, iri_parsing_enabled) {
            AuthorityStep::Next(n) => authority_run(
                s,
                i + 1,
                n,
                require_host,
                port_allowed,
                iri_parsing_enabled,
            ),
            AuthorityStep::Stop(n) => Some(n),
            AuthorityStep::Reject => None,
        }
    }
}

/// A character at which the scanner may end an authority.
pub open spec fn is_authority_last(c: char) -> bool {
    spec_is_ascii_alpha(c) || spec_is_ascii_digit(c) || spec_is_non_ascii(c) || c == '-' || c
        == ']'
}

/// An authority that starts at `from` and ends at `e` is empty, ends in a
/// character allowed there, or is followed by `/`.
pub open spec fn authority_end_ok(s: Seq<char>, from: int, e: int) -> bool {
    e == from || (0 < e <= s.len() && is_authority_last(s[e - 1])) || (0 <= e < s.len() && s[e]
        == '/')
}

/// A top-level domain starts with at least two ASCII letters.
pub open spec fn spec_valid_tld(s: Seq<char>, from: int) -> bool {
    from + 1 < s.len() && spec_is_ascii_alpha(s[from]) && spec_is_ascii_alpha(s[from + 1])
}

/// What the reg-name scanner returns from its final state.
pub open spec fn authority_result(s: Seq<char>, st: AuthorityState, require_host: bool) -> (
    Option<usize>,
    Option<usize>,
) {
    if !require_host {
        (Some(st.end), st.last_dot)
    } else if !st.maybe_host {
        (None, None)
    } else if st.all_numeric && st.number_dots != 3 {
        (None, None)
    } else if !st.all_numeric && st.last_dot is Some && !spec_valid_tld(
        s,
        st.last_dot->0 + 1,
    ) {
        (None, None)
    } else {
        (Some(st.end), st.last_dot)
    }
}

/// Position of the `]` that closes an IPv6 literal whose characters start at `i`.
pub open spec fn ipv6_close(s: Seq<char>, i: int) -> Option<int>
    decreases s.len() - i,
{
    if i >= s.len() || i < 0 {
        None
    } else if s[i] == ']' {
        Some(i)
    } else if spec_is_hex_digit(s[i]) || s[i] == ':' || s[i] == '.' {
        ipv6_close(s, i + 1)
    } else {
        None
    }
}

/// The end of the run of ASCII digits that starts at `i`.
pub open spec fn digits_end(s: Seq<char>, i: int) -> int
    decreases s.len() - i,
{
    if i >= s.len() || i < 0 || !spec_is_ascii_digit(s[i]) {
        i
    } else {
        digits_end(s, i + 1)
    }
}

/// An IPv6 literal `[...]` at `from`, optionally followed by `:port`.
pub open spec fn spec_ipv6_authority_end(s: Seq<char>, from: int, port_allowed: bool) -> (
    Option<usize>,
    Option<usize>,
) {
    match ipv6_close(s, from + 1) {
        None => (None, None),
        Some(close) => {
            let end = close + 1;
            if port_allowed && end < s.len() && s[end] == ':' && digits_end(s, end + 1) > end
                + 1 {
                (Some(digits_end(s, end + 1) as usize), None)
            } else {
                (Some(end as usize), None)
            }
        },
    }
}

/// End of the authority that starts at `from`, and the position of the last
/// dot of its host that a label follows.
pub open spec fn spec_authority_end(
    s: Seq<char>,
    from: int,
    userinfo_allowed: bool,
    require_host: bool,
    port_allowed: bool,
    iri_parsing_enabled: bool,
) -> (Option<usize>, Option<usize>) {
    if from < s.len() && s[from] == '[' {
        spec_ipv6_authority_end(s, from, port_allowed)
    } else {
        match authority_run(
            s,
            from,
            initial_authority_state(from as usize, userinfo_allowed),
            require_host,
            port_allowed,
            iri_parsing_enabled,
        ) {
            None => (None, None),
            Some(st) => authority_result(s, st, require_host),
        }
    }
}

fn same_position(a: Option<usize>, b: Option<usize>) -> (r: bool)
    ensures
        r == (a == b),
{
    match (a, b) {
        (None, None) => true,
        (Some(x), Some(y)) => x == y,
        _ => false,
    }
}

fn label_char(st: &AuthorityState, from: usize, i: usize, numeric: bool, require_host: bool) -> (r:
    AuthorityState)
    requires
        i < usize::MAX,
        from <= i,
        state_bounded(*st, from as int, i as int),
    ensures
        r == after_label_char(*st, i as int, numeric, require_host),
        state_bounded(r, from as int, i + 1),
{
    let commits = !same_position(st.last_dot, st.maybe_last_dot);
    AuthorityState {
        end: if !require_host || !st.host_ended {
            i + 1
        } else {
            st.end
        },
        last_dot: st.maybe_last_dot,
        number_dots: if numeric && commits {
            st.number_dots + 1
        } else {
            st.number_dots
        },
        dot_allowed: true,
        hyphen_allowed: true,
        all_numeric: st.all_numeric && numeric,
        maybe_host: st.maybe_host && !st.host_ended,
        ..*st
    }
}

fn step(
    c: char,
    from: usize,
    i: usize,
    st: &AuthorityState,
    require_host: bool,
    port_allowed: bool,
    iri_parsing_enabled: bool,
) -> (r: AuthorityStep)
    requires
        i < usize::MAX,
        from <= i,
        state_bounded(*st, from as int, i as int),
    ensures
        r == authority_step(c, i as int, *st, require_host, port_allowed, iri_parsing_enabled),
        r matches AuthorityStep::Next(n) ==> state_bounded(n, from as int, i + 1),
        r matches AuthorityStep::Stop(n) ==> state_bounded(n, from as int, i + 1),
{
    if is_ascii_alpha(c) {
        AuthorityStep::Next(label_char(st, from, i, false, require_host))
    } else if is_non_ascii(c) {
        if !iri_parsing_enabled || is_unicode_whitespace(c) {
            AuthorityStep::Stop(*st)
        } else {
            AuthorityStep::Next(label_char(st, from, i, false, require_host))
        }
    } else if is_ascii_digit(c) {
        AuthorityStep::Next(label_char(st, from, i, true, require_host))
    } else if c == '-' {
        AuthorityStep::Next(
            AuthorityState {
                end: if !require_host {
                    i + 1
                } else {
                    st.end
                },
                maybe_host: st.maybe_host && st.hyphen_allowed,
                dot_allowed: false,
                all_numeric: false,
                ..*st
            },
        )
    } else if c == '.' {
        AuthorityStep::Next(
            AuthorityState {
                host_ended: st.host_ended || !st.dot_allowed,
                dot_allowed: false,
                hyphen_allowed: false,
                maybe_last_dot: Some(i),
                ..*st
            },
        )
    } else if c == '_' || c == '~' {
        AuthorityStep::Next(AuthorityState { maybe_host: false, ..*st })
    } else if c == '!' || c == '$' || c == '&' || c == '\'' || c == '(' || c == ')' || c == '*'
        || c == '+' || c == ',' || c == ';' || c == '=' {
        let n = AuthorityState { host_ended: true, ..*st };
        if !st.userinfo_allowed && require_host {
            AuthorityStep::Stop(n)
        } else {
            AuthorityStep::Next(n)
        }
    } else if c == ':' {
        if !st.userinfo_allowed && !port_allowed {
            AuthorityStep::Stop(*st)
        } else {
            AuthorityStep::Next(AuthorityState { maybe_last_dot: st.last_dot, ..*st })
        }
    } else if c == '@' {
        if !st.userinfo_allowed {
            AuthorityStep::Reject
        } else {
            AuthorityStep::Next(
                AuthorityState {
                    maybe_last_dot: None,
                    last_dot: None,
                    dot_allowed: false,
                    hyphen_allowed: false,
                    all_numeric: true,
                    maybe_host: true,
                    host_ended: false,
                    userinfo_allowed: false,
                    ..*st
                },
            )
        }
    } else if c == '/' {
        AuthorityStep::Stop(
            if !require_host {
                AuthorityState { end: i, ..*st }
            } else {
                *st
            },
        )
    } else {
        AuthorityStep::Stop(*st)
    }
}

/// Whether the top-level domain starting at `from` begins with two ASCII letters.
pub fn valid_tld(s: &[char], from: usize) -> (r: bool)
    ensures
        r == spec_valid_tld(s@, from as int),
{
    from < s.len() && s.len() - from >= 2 && is_ascii_alpha(s[from]) && is_ascii_alpha(
        s[from + 1],
    )
}

/// Finds the `]` that closes an IPv6 literal whose characters start at `from`.
fn find_ipv6_close(s: &[char], from: usize) -> (r: Option<usize>)
    requires
        from <= s.len(),
    ensures
        r is None ==> ipv6_close(s@, from as int) is None,
        r matches Some(c) ==> ipv6_close(s@, from as int) == Some(c as int) && from <= c < s.len()
            && s@[c as int] == ']',
{
    let mut i: usize = from;
    while i < s.len()
        invariant
            from <= i <= s.len(),
            ipv6_close(s@, from as int) == ipv6_close(s@, i as int),
        decreases s.len() - i,
    {
        let c = s[i];
        if c == ']' {
            return Some(i);
        } else if is_hex_digit(c) || c == ':' || c == '.' {
            i = i + 1;
        } else {
            return None;
        }
    }
    None
}

/// Scans an IPv6 literal `[...]` at `from`, optionally followed by `:port`.
/// Such an authority has no dot to check a top-level domain against.
pub fn find_ipv6_authority_end(s: &[char], from: usize, port_allowed: bool) -> (r: (
    Option<usize>,
    Option<usize>,
))
    requires
        from < s.len(),
        s[from as int] == '[',
    ensures
        r == spec_ipv6_authority_end(s@, from as int, port_allowed),
        r.0 matches Some(e) ==> from < e <= s.len() && authority_end_ok(s@, from as int, e as int),
        r.1 is None,
{
    let close = match find_ipv6_close(s, from + 1) {
        None => {
            return (None, None);
        },
        Some(close) => close,
    };
    let end = close + 1;
    if port_allowed && end < s.len() && s[end] == ':' {
        let port_start = end + 1;
        let mut j: usize = port_start;
        while j < s.len() && is_ascii_digit(s[j])
            invariant
                port_start <= j <= s.len(),
                port_start == end + 1,
                end == close + 1,
                ipv6_close(s@, from + 1) == Some(close as int),
                digits_end(s@, port_start as int) == digits_end(s@, j as int),
                j > port_start ==> spec_is_ascii_digit(s@[j - 1]),
                s@[close as int] == ']',
            decreases s.len() - j,
        {
            j = j + 1;
        }
        assert(digits_end(s@, j as int) == j as int);
        if j > port_start {
            return (Some(j), None);
        }
    }
    (Some(end), None)
}

/// Runs the reg-name scanner over the authority that starts at `from`.
fn run_authority(
    s: &[char],
    from: usize,
    userinfo_allowed: bool,
    require_host: bool,
    port_allowed: bool,
    iri_parsing_enabled: bool,
) -> (r: Option<AuthorityState>)
    requires
        from <= s.len(),
    ensures
        r == authority_run(
            s@,
            from as int,
            initial_authority_state(from, userinfo_allowed),
            require_host,
            port_allowed,
            iri_parsing_enabled,
        ),
        r matches Some(st) ==> state_bounded(st, from as int, s.len() as int) && authority_end_ok(
            s@,
            from as int,
            st.end as int,
        ),
{
    let ghost init = initial_authority_state(from, userinfo_allowed);
    let mut st = AuthorityState {
        end: from,
        maybe_last_dot: None,
        last_dot: None,
        number_dots: 0,
        dot_allowed: false,
        hyphen_allowed: false,
        all_numeric: true,
        maybe_host: true,
        host_ended: false,
        userinfo_allowed,
    };
    let mut i: usize = from;
    while i < s.len()
        invariant
            from <= i <= s.len(),
            init == initial_authority_state(from, userinfo_allowed),
            state_bounded(st, from as int, i as int),
            authority_end_ok(s@, from as int, st.end as int),
            authority_run(s@, from as int, init, require_host, port_allowed, iri_parsing_enabled)
                == authority_run(
                s@,
                i as int,
                st,
                require_host,
                port_allowed,
                iri_parsing_enabled,
            ),
        decreases s.len() - i,
    {
        let r = step(s[i], from, i, &st, require_host, port_allowed, iri_parsing_enabled);
        assert(authority_run(s@, i as int, st, require_host, port_allowed, iri_parsing_enabled)
            == match r {
            AuthorityStep::Next(n) => authority_run(
                s@,
                i + 1,
                n,
                require_host,
                port_allowed,
                iri_parsing_enabled,
            ),
            AuthorityStep::Stop(n) => Some(n),
            AuthorityStep::Reject => None,
        });
        match r {
            AuthorityStep::Next(n) => {
                st = n;
                i = i + 1;
            },
            AuthorityStep::Stop(n) => {
                return Some(n);
            },
            AuthorityStep::Reject => {
                return None;
            },
        }
    }
    Some(st)
}

/// Finds the end of the authority that starts at `from`, and the last dot of
/// its host that a label follows.
///
/// `userinfo_allowed`: an `@` may end a userinfo, after which the host starts.
/// `require_host`: the authority must hold a plausible host name or IPv4
/// address, with a top-level domain of two letters or more.
/// `port_allowed`: `:digits` may follow the host.
/// `iri_parsing_enabled`: non-ASCII code points may stand in labels.
pub fn find_authority_end(
    s: &[char],
    from: usize,
    userinfo_allowed: bool,
    require_host: bool,
    port_allowed: bool,
    iri_parsing_enabled: bool,
) -> (r: (Option<usize>, Option<usize>))
    requires
        from <= s.len(),
    ensures
        r == spec_authority_end(
            s@,
            from as int,
            userinfo_allowed,
            require_host,
            port_allowed,
            iri_parsing_enabled,
        ),
        r.0 matches Some(e) ==> from <= e <= s.len() && authority_end_ok(s@, from as int, e as int),
        r.1 matches Some(d) ==> from <= d < s.len(),
{
    if from < s.len() && s[from] == '[' {
        return find_ipv6_authority_end(s, from, port_allowed);
    }
    let st = match run_authority(
        s,
        from,
        userinfo_allowed,
        require_host,
        port_allowed,
        iri_parsing_enabled,
    ) {
        None => {
            return (None, None);
        },
        Some(st) => st,
    };
    if !require_host {
        (Some(st.end), st.last_dot)
    } else if !st.maybe_host {
        (None, None)
    } else if st.all_numeric && st.number_dots != 3 {
        (None, None)
    } else if !st.all_numeric && st.last_dot.is_some() && !valid_tld(
        s,
        st.last_dot.unwrap() + 1,
    ) {
        (None, None)
    } else {
        (Some(st.end), st.last_dot)
    }
}

} // verus!
