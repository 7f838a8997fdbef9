//! The flat-list normalizer: reads one dependency per line, already without tree
//! art, and lists the distinct coordinates.

use vstd::prelude::*;
use crate::coordinate::{normalize, normalize_chars};
use crate::error::ParseError;
use crate::order::{insert_sorted, listing_of, sorted_listing, strictly_sorted};
use crate::text::{chars_of, lines_of, rows, split_chars, split_lines, split_on, trim, trim_chars};

verus! {

/// What one line of a flat listing contributes: nothing for a blank line; the
/// normalized coordinate for a line of three colon-separated segments; the
/// trimmed line itself otherwise.
pub open spec fn flat_entry(line: Seq<char>) -> Option<Result<Seq<char>, ParseError>> {
    let t = trim(line);
    if t.len() == 0 {
        None
    } else if split_on(t, ':').len() == 3 {
        Some(normalize(t))
    } else {
        Some(Ok(t))
    }
}

/// The coordinates of the first `n` lines, or the first error.
pub open spec fn flat_scan(lines: Seq<Seq<char>>, n: nat) -> Result<Set<Seq<char>>, ParseError>
    decreases n,
{
    if n == 0 {
        Ok(Set::empty())
    } else {
        match flat_scan(lines, (n - 1) as nat) {
            Ok(found) => match flat_entry(lines[n - 1]) {
                None => Ok(found),
                Some(Ok(c)) => Ok(found.insert(c)),
                Some(Err(e)) => Err(e),
            },
            Err(e) => Err(e),
        }
    }
}

/// The coordinates that a flat listing declares, or why it is rejected.
pub open spec fn listed_dependencies(text: Seq<char>) -> Result<Set<Seq<char>>, ParseError> {
    flat_scan(lines_of(text), lines_of(text).len())
}

proof fn lemma_flat_error_persists(lines: Seq<Seq<char>>, n: nat, m: nat)
    requires
        n <= m <= lines.len(),
        flat_scan(lines, n) is Err,
    ensures
        flat_scan(lines, m) == flat_scan(lines, n),
    decreases m - n,
{
    if n < m {
        lemma_flat_error_persists(lines, n, (m - 1) as nat);
    }
}

/// The listing of the distinct coordinates of a flat listing, one per line.
pub fn parse_prettied_dependencies_string(text: &str) -> (r: Result<Vec<String>, ParseError>)
    ensures
        match listed_dependencies(text@) {
            Ok(set) => r matches Ok(v) && sorted_listing(v@, set),
            Err(e) => r == Err::<Vec<String>, ParseError>(e),
        },
{
    let chars = chars_of(text);
    let lines = split_lines(&chars);
    let ghost ls = lines_of(text@);
    let mut out: Vec<Vec<char>> = Vec::new();
    let mut i: usize = 0;
    assert(rows(out@).to_set() =~= Set::<Seq<char>>::empty());
    while i < lines.len()
        invariant
            rows(lines@) == ls,
            ls == lines_of(text@),
            i <= lines.len(),
            strictly_sorted(rows(out@)),
            flat_scan(ls, i as nat) == Ok::<Set<Seq<char>>, ParseError>(rows(out@).to_set()),
        decreases lines.len() - i,
    {
        assert(lines[i as int]@ == ls[i as int]);
        let t = trim_chars(&lines[i]);
        if t.len() > 0 {
            let segs = split_chars(&t, ':');
            assert(segs@.len() == split_on(t@, ':').len());
            if segs.len() == 3 {
                match normalize_chars(&t) {
                    Ok(c) => insert_sorted(&mut out, c),
                    Err(e) => {
                        proof {
                            lemma_flat_error_persists(ls, (i + 1) as nat, ls.len());
                        }
                        return Err(e);
                    },
                }
            } else {
                insert_sorted(&mut out, t);
            }
        }
        i = i + 1;
    }
    Ok(listing_of(&out, Ghost(rows(out@).to_set())))
}

} // verus!
