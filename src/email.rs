//! Email addresses, found from their `@`.
use crate::chars::{is_email_local_char, spec_is_email_local_char};
use crate::domains::{find_authority_end, spec_authority_end};
use vstd::prelude::*;

verus! {

/// The start of the local part that ends before position `i`, read leftwards
/// down to `lo`. `first` is the leftmost local-part character found so far;
/// `atom_boundary` holds where a `.` would start an empty atom.
pub open spec fn local_part_start(
    s: Seq<char>,
    lo: int,
    i: int,
    first: Option<int>,
    atom_boundary: bool,
) -> Option<int>
    decreases i - lo,
{
    if i <= lo || i > s.len() {
        first
    } else {
        let c = s[i - 1];
        if spec_is_email_local_char(c) {
            local_part_start(s, lo, i - 1, Some(i - 1), false)
        } else if c == '.' {
            if atom_boundary {
                first
            } else {
                local_part_start(s, lo, i - 1, first, true)
            }
        } else if c == '@' {
            // In `@me@a.com`, `me@a.com` is no address.
            None
        } else {
            first
        }
    }
}

/// The email address around the `@` at `at`, in the text from `lo` on.
pub open spec fn spec_scan_email(s: Seq<char>, lo: int, at: int, domain_must_have_dot: bool) -> Option<
    (int, int),
> {
    match local_part_start(s, lo, at, None, true) {
        None => None,
        Some(start) => {
            let (end, last_dot) = spec_authority_end(
                s,
                at + 1,
                false,
                domain_must_have_dot,
                false,
                true,
            );
            match end {
                Some(e) => if !domain_must_have_dot || last_dot is Some {
                    Some((start, e as int))
                } else {
                    None
                },
                None => None,
            }
        },
    }
}

/// Finds the start of the local part that ends at `at`.
fn find_local_part_start(s: &[char], lo: usize, at: usize) -> (r: Option<usize>)
    requires
        lo <= at <= s.len(),
    ensures
        r is None ==> local_part_start(s@, lo as int, at as int, None, true) is None,
        r matches Some(f) ==> local_part_start(s@, lo as int, at as int, None, true) == Some(
            f as int,
        ) && lo <= f < at && spec_is_email_local_char(s@[f as int]),
{
    let mut first: Option<usize> = None;
    let mut atom_boundary = true;
    let mut i: usize = at;
    while i > lo
        invariant
            lo <= i <= at <= s.len(),
            local_part_start(s@, lo as int, at as int, None, true) == local_part_start(
                s@,
                lo as int,
                i as int,
                match first {
                    Some(f) => Some(f as int),
                    None => None,
                },
                atom_boundary,
            ),
            first matches Some(f) ==> i <= f < at && spec_is_email_local_char(s@[f as int]),
        decreases i,
    {
        let c = s[i - 1];
        if is_email_local_char(c) {
            first = Some(i - 1);
            atom_boundary = false;
        } else if c == '.' {
            if atom_boundary {
                return first;
            }
            atom_boundary = true;
        } else if c == '@' {
            return None;
        } else {
            return first;
        }
        i = i - 1;
    }
    first
}

/// Scans for an email address around the `@` at `at`, in the text from `lo`
/// on; returns its start and end.
pub fn scan_email(s: &[char], lo: usize, at: usize, domain_must_have_dot: bool) -> (r: Option<
    (usize, usize),
>)
    requires
        lo <= at < s.len(),
    ensures
        r is None ==> spec_scan_email(s@, lo as int, at as int, domain_must_have_dot) is None,
        r matches Some((a, b)) ==> spec_scan_email(s@, lo as int, at as int, domain_must_have_dot)
            == Some((a as int, b as int)),
        r matches Some((a, b)) ==> lo <= a < at < b <= s.len() && spec_is_email_local_char(
            s@[a as int],
        ),
{
    let start = match find_local_part_start(s, lo, at) {
        None => {
            return None;
        },
        Some(start) => start,
    };
    let (end, last_dot) = find_authority_end(s, at + 1, false, domain_must_have_dot, false, true);
    match end {
        Some(e) => if !domain_must_have_dot || last_dot.is_some() {
            Some((start, e))
        } else {
            None
        },
        None => None,
    }
}

} // verus!
