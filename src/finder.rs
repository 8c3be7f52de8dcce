//! The dispatcher: one forward pass over the text that tries a sub-scanner
//! at each trigger character and keeps the matches apart.
use crate::chars::spec_is_unicode_whitespace;
use crate::email::{scan_email, spec_scan_email};
use crate::url::{scan_domain, scan_url, spec_scan_domain, spec_scan_url, url_span_laws};
use vstd::prelude::*;
use crate::offsets::{byte_offset, byte_offsets, lemma_bytes_between, text_chars};
use vstd::utf8::encode_utf8;
use vstd::string::StringSliceAdditionalSpecFns;

verus! {

/// The kind of a link.
#[derive(Clone, Copy, Debug, PartialEq, Eq, Structural)]
pub enum LinkKind {
    Url,
    Email,
}

/// A match, by positions in the text's characters: `start..end`.
#[derive(Clone, Copy, Debug)]
pub struct Span {
    pub kind: LinkKind,
    pub start: usize,
    pub end: usize,
}

/// A match, by byte offsets in the UTF-8 text: `start..end`.
#[derive(Clone, Copy, Debug)]
pub struct Link {
    pub kind: LinkKind,
    pub start: usize,
    pub end: usize,
}

/// The options of a scan. `LinkFinder::new` gives the defaults.
#[derive(Clone, Copy, Debug)]
pub struct LinkFinder {
    /// Look for email addresses.
    pub email: bool,
    /// Look for URLs.
    pub url: bool,
    /// URLs need a scheme; otherwise `example.org/path` is a URL too.
    pub require_scheme: bool,
    /// URLs may hold non-ASCII code points.
    pub iri: bool,
    /// The domain of an email address needs a dot.
    pub domain_must_have_dot: bool,
}

/// A character at which the dispatcher tries a sub-scanner.
pub open spec fn is_trigger(c: char, f: LinkFinder) -> bool {
    (c == ':' && f.url) || (c == '@' && f.email) || (c == '.' && f.url && !f.require_scheme)
}

pub open spec fn kind_of_trigger(c: char) -> LinkKind {
    if c == '@' {
        LinkKind::Email
    } else {
        LinkKind::Url
    }
}

/// The candidate of the sub-scanner for the trigger at `i`, in the text
/// from `lo` on.
#[verifier::opaque]
pub open spec fn scan_at(s: Seq<char>, lo: int, i: int, f: LinkFinder) -> Option<(int, int)> {
    if s[i] == '@' {
        spec_scan_email(s, lo, i, f.domain_must_have_dot)
    } else if s[i] == ':' {
        spec_scan_url(s, lo, i, f.iri)
    } else {
        spec_scan_domain(s, lo, i, f.iri)
    }
}

/// The matches found from position `i` on, where the text before `lo`
/// belongs to earlier matches. A candidate is kept only if it reaches past
/// its trigger.
pub open spec fn spans_from(s: Seq<char>, lo: int, i: int, f: LinkFinder) -> Seq<Span>
    decreases s.len() - i,
{
    if i < 0 || i >= s.len() {
        seq![]
    } else if is_trigger(s[i], f) {
        match scan_at(s, lo, i, f) {
            Some((a, b)) => if i < b <= s.len() {
                seq![Span { kind: kind_of_trigger(s[i]), start: a as usize, end: b as usize }]
                    + spans_from(s, b, b, f)
            } else {
                spans_from(s, lo, i + 1, f)
            },
            None => spans_from(s, lo, i + 1, f),
        }
    } else {
        spans_from(s, lo, i + 1, f)
    }
}

/// All matches in the text, left to right.
pub open spec fn spec_find_spans(s: Seq<char>, f: LinkFinder) -> Seq<Span> {
    spans_from(s, 0, 0, f)
}

/// No whitespace and no trigger character.
pub open spec fn is_clean_start(c: char) -> bool {
    !spec_is_unicode_whitespace(c) && c != '@' && c != ':' && c != '.'
}

/// Every span is non-empty and inside the text, and each ends at or before
/// the start of the next.
pub open spec fn spans_ordered(spans: Seq<Span>, len: int) -> bool {
    &&& forall|k: int| 0 <= k < spans.len() ==> #[trigger] spans[k].start < spans[k].end <= len
    &&& forall|k: int| 0 <= k < spans.len() - 1 ==> spans[k].end <= #[trigger] spans[k + 1].start
}

/// The links of `spans` in byte offsets.
pub open spec fn links_of(s: Seq<char>, spans: Seq<Span>) -> Seq<Link> {
    spans.map_values(
        |sp: Span|
            Link {
                kind: sp.kind,
                start: byte_offset(s, sp.start as int) as usize,
                end: byte_offset(s, sp.end as int) as usize,
            },
    )
}

/// The candidate at position `i` where a trigger stands there, else `None`.
fn scan_trigger(s: &[char], lo: usize, i: usize, f: &LinkFinder) -> (r: Option<(usize, usize)>)
    requires
        lo <= i < s.len(),
    ensures
        r is None ==> !is_trigger(s@[i as int], *f) || scan_at(s@, lo as int, i as int, *f) is None,
        r matches Some((a, b)) ==> is_trigger(s@[i as int], *f) && scan_at(
            s@,
            lo as int,
            i as int,
            *f,
        ) == Some((a as int, b as int)) && lo <= a < i && b <= s.len() && is_clean_start(
            s@[a as int],
        ) && (s@[i as int] != '@' ==> url_span_laws(s@, a as int, b as int)),
{
    reveal(scan_at);
    let c = s[i];
    if c == '@' && f.email {
        scan_email(s, lo, i, f.domain_must_have_dot)
    } else if c == ':' && f.url {
        scan_url(s, lo, i, f.iri)
    } else if c == '.' && f.url && !f.require_scheme {
        scan_domain(s, lo, i, f.iri)
    } else {
        None
    }
}

/// Scans the characters `s` for links; returns their spans, left to right.
pub fn find_spans(s: &[char], f: &LinkFinder) -> (r: Vec<Span>)
    ensures
        r@ == spec_find_spans(s@, *f),
        spans_ordered(r@, s@.len() as int),
        forall|k: int| 0 <= k < r@.len() ==> is_clean_start(#[trigger] s@[r@[k].start as int]),
        forall|k: int|
            0 <= k < r@.len() && #[trigger] r@[k].kind == LinkKind::Url ==> url_span_laws(
                s@,
                r@[k].start as int,
                r@[k].end as int,
            ),
{
    let mut out: Vec<Span> = Vec::new();
    let mut lo: usize = 0;
    let mut i: usize = 0;
    while i < s.len()
        invariant
            lo <= i <= s.len(),
            spec_find_spans(s@, *f) == out@ + spans_from(s@, lo as int, i as int, *f),
            spans_ordered(out@, s@.len() as int),
            out@.len() > 0 ==> out@.last().end <= lo,
            forall|k: int|
                0 <= k < out@.len() ==> is_clean_start(#[trigger] s@[out@[k].start as int]),
            forall|k: int|
                0 <= k < out@.len() && #[trigger] out@[k].kind == LinkKind::Url ==> url_span_laws(
                    s@,
                    out@[k].start as int,
                    out@[k].end as int,
                ),
        decreases s.len() - i,
    {
        let c = s[i];
        let found = scan_trigger(s, lo, i, f);
        match found {
            Some((a, b)) => {
                if i < b {
                    let kind = if c == '@' {
                        LinkKind::Email
                    } else {
                        LinkKind::Url
                    };
                    let sp = Span { kind, start: a, end: b };
                    proof {
                        assert(spans_from(s@, lo as int, i as int, *f) == seq![sp] + spans_from(
                            s@,
                            b as int,
                            b as int,
                            *f,
                        ));
                        assert(out@.push(sp) + spans_from(s@, b as int, b as int, *f) == out@
                            + spans_from(s@, lo as int, i as int, *f));
                    }
                    let ghost prev = out@;
                    out.push(sp);
                    proof {
                        assert(out@ == prev.push(sp));
                        assert forall|k: int| 0 <= k < out@.len() implies #[trigger] out@[k].start
                            < out@[k].end <= s@.len() by {
                            if k < prev.len() {
                                assert(out@[k] == prev[k]);
                            }
                        }
                        assert forall|k: int| 0 <= k < out@.len() - 1 implies out@[k].end
                            <= #[trigger] out@[k + 1].start by {
                            assert(out@[k] == prev[k]);
                            if k + 1 < prev.len() {
                                assert(out@[k + 1] == prev[k + 1]);
                            }
                        }
                        assert forall|k: int|
                            0 <= k < out@.len() && #[trigger] out@[k].kind
                                == LinkKind::Url implies url_span_laws(
                            s@,
                            out@[k].start as int,
                            out@[k].end as int,
                        ) by {
                            if k < prev.len() {
                                assert(out@[k] == prev[k]);
                            }
                        }
                    }
                    lo = b;
                    i = b;
                } else {
                    proof {
                        assert(spans_from(s@, lo as int, i as int, *f) == spans_from(
                            s@,
                            lo as int,
                            i + 1,
                            *f,
                        ));
                    }
                    i = i + 1;
                }
            },
            None => {
                proof {
                    assert(spans_from(s@, lo as int, i as int, *f) == spans_from(
                        s@,
                        lo as int,
                        i + 1,
                        *f,
                    ));
                }
                i = i + 1;
            },
        }
    }
    proof {
        assert(out@ + spans_from(s@, lo as int, i as int, *f) == out@);
    }
    out
}

/// A scan depends on nothing but the text and the options: two scans of the
/// same text with the same options give the same links.
pub proof fn lemma_scan_deterministic(
    s1: Seq<char>,
    s2: Seq<char>,
    f1: LinkFinder,
    f2: LinkFinder,
)
    requires
        s1 == s2,
        f1 == f2,
    ensures
        spec_find_spans(s1, f1) == spec_find_spans(s2, f2),
        links_of(s1, spec_find_spans(s1, f1)) == links_of(s2, spec_find_spans(s2, f2)),
{
}

/// The default options: URLs and email addresses; URLs with a scheme, which
/// may hold non-ASCII code points; email domains with a dot.
pub open spec fn default_finder() -> LinkFinder {
    LinkFinder {
        email: true,
        url: true,
        require_scheme: true,
        iri: true,
        domain_must_have_dot: true,
    }
}

impl LinkFinder {
    pub fn new() -> (r: LinkFinder)
        ensures
            r == default_finder(),
    {
        LinkFinder {
            email: true,
            url: true,
            require_scheme: true,
            iri: true,
            domain_must_have_dot: true,
        }
    }

    /// Looks for the given kinds of links only.
    pub fn kinds(&mut self, kinds: &[LinkKind])
        ensures
            final(self).email == kinds@.contains(LinkKind::Email),
            final(self).url == kinds@.contains(LinkKind::Url),
            final(self).require_scheme == old(self).require_scheme,
            final(self).iri == old(self).iri,
            final(self).domain_must_have_dot == old(self).domain_must_have_dot,
    {
        let mut email = false;
        let mut url = false;
        let mut i: usize = 0;
        while i < kinds.len()
            invariant
                i <= kinds@.len(),
                email == kinds@.take(i as int).contains(LinkKind::Email),
                url == kinds@.take(i as int).contains(LinkKind::Url),
            decreases kinds.len() - i,
        {
            let k = kinds[i];
            proof {
                let t0 = kinds@.take(i as int);
                let t1 = kinds@.take(i + 1);
                assert(t1 =~= t0.push(k));
                assert(t1[i as int] == k);
                assert forall|e: LinkKind| t1.contains(e) == (t0.contains(e) || e == k) by {
                    if t0.contains(e) {
                        let j = choose|j: int| 0 <= j < t0.len() && t0[j] == e;
                        assert(t1[j] == e);
                    }
                    if t1.contains(e) && e != k {
                        let j = choose|j: int| 0 <= j < t1.len() && t1[j] == e;
                        assert(t0[j] == e);
                    }
                }
            }
            if k == LinkKind::Email {
                email = true;
            } else {
                url = true;
            }
            i = i + 1;
        }
        proof {
            assert(kinds@.take(i as int) =~= kinds@);
        }
        self.email = email;
        self.url = url;
    }

    /// Whether URLs need a scheme; where not, `example.org/path` is a URL too.
    pub fn url_must_have_scheme(&mut self, yes: bool)
        ensures
            *final(self) == (LinkFinder { require_scheme: yes, ..*old(self) }),
    {
        self.require_scheme = yes;
    }

    /// Whether URLs may hold non-ASCII code points.
    pub fn url_can_be_iri(&mut self, yes: bool)
        ensures
            *final(self) == (LinkFinder { iri: yes, ..*old(self) }),
    {
        self.iri = yes;
    }

    /// Whether the domain of an email address needs a dot.
    pub fn email_domain_must_have_dot(&mut self, yes: bool)
        ensures
            *final(self) == (LinkFinder { domain_must_have_dot: yes, ..*old(self) }),
    {
        self.domain_must_have_dot = yes;
    }

    /// The links in the characters `s`, by character positions.
    pub fn spans(&self, s: &[char]) -> (r: Vec<Span>)
        ensures
            r@ == spec_find_spans(s@, *self),
            spans_ordered(r@, s@.len() as int),
            forall|k: int|
                0 <= k < r@.len() ==> is_clean_start(#[trigger] s@[r@[k].start as int]),
            forall|k: int|
                0 <= k < r@.len() && #[trigger] r@[k].kind == LinkKind::Url ==> url_span_laws(
                    s@,
                    r@[k].start as int,
                    r@[k].end as int,
                ),
    {
        find_spans(s, self)
    }

    /// The links in `text`, left to right, by byte offsets. The bytes of
    /// each link are the encoding of the characters of its span.
    pub fn links(&self, text: &str) -> (r: Vec<Link>)
        ensures
            r@ == links_of(text@, spec_find_spans(text@, *self)),
            forall|k: int|
                0 <= k < r@.len() ==> #[trigger] r@[k].start < r@[k].end <= text.spec_bytes().len(),
            forall|k: int|
                0 <= k < r@.len() - 1 ==> r@[k].end <= #[trigger] r@[k + 1].start,
            forall|k: int|
                0 <= k < r@.len() ==> text.spec_bytes().subrange(
                    #[trigger] r@[k].start as int,
                    r@[k].end as int,
                ) == encode_utf8(
                    text@.subrange(
                        spec_find_spans(text@, *self)[k].start as int,
                        spec_find_spans(text@, *self)[k].end as int,
                    ),
                ),
    {
        let cs = text_chars(text);
        let spans = find_spans(cs.as_slice(), self);
        let total = text.as_bytes().len();
        let offsets = byte_offsets(cs.as_slice(), total);
        let ghost sp = spans@;
        let ghost s = text@;
        let mut out: Vec<Link> = Vec::new();
        let mut k: usize = 0;
        while k < spans.len()
            invariant
                cs@ == s,
                s == text@,
                sp == spans@,
                sp == spec_find_spans(s, *self),
                spans_ordered(sp, s.len() as int),
                offsets@.len() == s.len() + 1,
                forall|j: int| 0 <= j <= s.len() ==> #[trigger] offsets@[j] as int == byte_offset(s, j),
                k <= sp.len(),
                out@ == links_of(s, sp).take(k as int),
            decreases spans.len() - k,
        {
            let span = spans[k];
            let link = Link { kind: span.kind, start: offsets[span.start], end: offsets[span.end] };
            proof {
                assert(out@.push(link) =~= links_of(s, sp).take(k + 1));
            }
            out.push(link);
            k = k + 1;
        }
        proof {
            assert(out@ =~= links_of(s, sp));
            assert(text.spec_bytes() == encode_utf8(s));
            assert forall|k: int| 0 <= k < out@.len() implies #[trigger] out@[k].start < out@[k].end
                <= text.spec_bytes().len() && text.spec_bytes().subrange(
                out@[k].start as int,
                out@[k].end as int,
            ) == encode_utf8(s.subrange(sp[k].start as int, sp[k].end as int)) by {
                lemma_bytes_between(s, sp[k].start as int, sp[k].end as int);
                lemma_bytes_between(s, sp[k].end as int, s.len() as int);
                assert(s.take(s.len() as int) =~= s);
            }
            assert forall|k: int| 0 <= k < out@.len() - 1 implies out@[k].end
                <= #[trigger] out@[k + 1].start by {
                lemma_bytes_between(s, sp[k].end as int, sp[k + 1].start as int);
            }
        }
        out
    }
}

} // verus!
