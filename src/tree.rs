//! The tree extractor: reads the indented dependency report of one build
//! configuration and lists its direct dependencies, looking through project
//! references.

use vstd::prelude::*;
use crate::coordinate::{chars_result, lemma_malformed_token, normalize, normalize_chars, string_result};
use crate::error::ParseError;
use crate::order::{insert_sorted, listing_of, sorted_listing, strictly_sorted};
use crate::text::{chars_of, find_chars, find_from, lines_of, rows, split_lines, split_on, string_of};
use crate::text::lemma_lines_lack_newline;

verus! {

/// The connector that follows the tree art of a line: `--- `.
pub open spec fn marker() -> Seq<char> {
    seq!['-', '-', '-', ' ']
}

/// What a line that references a sibling project holds: `--- project `.
pub open spec fn project_marker() -> Seq<char> {
    seq!['-', '-', '-', ' ', 'p', 'r', 'o', 'j', 'e', 'c', 't', ' ']
}

/// The nesting depth of a line: `None` for a line without the connector; for one
/// with it, the index of its art character (one before the connector) divided by
/// five, which must divide it.
pub open spec fn level_of(line: Seq<char>) -> Result<Option<nat>, ParseError> {
    match find_from(line, marker(), 0) {
        None => Ok(None),
        Some(m) => if m >= 1 && (m - 1) % 5 == 0 {
            Ok(Some(((m - 1) / 5) as nat))
        } else {
            Err(ParseError::UnexpectedIndent)
        },
    }
}

/// The line references a sibling project rather than a published artifact.
pub open spec fn is_project(line: Seq<char>) -> bool {
    find_from(line, project_marker(), 0) is Some
}

/// A branch (`+` or `\`) followed by the connector starts at index `p`.
pub open spec fn branch_at(line: Seq<char>, p: int) -> bool {
    0 <= p && p + 5 <= line.len() && (line[p] == '+' || line[p] == '\\') && line.subrange(
        p + 1,
        p + 5,
    ) == marker()
}

/// The first index at or after `from` where a branch starts.
pub open spec fn first_branch_from(line: Seq<char>, from: nat) -> Option<nat>
    decreases line.len() - from,
{
    if from >= line.len() {
        None
    } else if branch_at(line, from as int) {
        Some(from)
    } else {
        first_branch_from(line, from + 1)
    }
}

/// The dependency token of a line: what follows its first branch.
pub open spec fn dependency_token(line: Seq<char>) -> Option<Seq<char>> {
    match first_branch_from(line, 0) {
        Some(p) => Some(line.subrange(p + 5int, line.len() as int)),
        None => None,
    }
}

/// The coordinate that a tree line declares.
pub open spec fn line_coordinate(line: Seq<char>) -> Result<Seq<char>, ParseError> {
    match dependency_token(line) {
        Some(t) => normalize(t),
        None => Err(ParseError::MalformedCoordinate),
    }
}

/// What the extractor knows after some lines: whether the tree has begun, whether
/// it has ended, the depth up to which lines are taken, and the coordinates taken.
pub struct ScanState {
    pub found_start: bool,
    pub end: bool,
    pub level: nat,
    pub found: Set<Seq<char>>,
}

/// The state before the first line.
pub open spec fn initial_state() -> ScanState {
    ScanState { found_start: false, end: false, level: 0, found: Set::empty() }
}

/// One line of the report read in state `st`.
pub open spec fn scan_step(st: ScanState, line: Seq<char>) -> Result<ScanState, ParseError> {
    match level_of(line) {
        Err(e) => Err(e),
        Ok(None) => if st.found_start && !st.end {
            Ok(ScanState { end: true, ..st })
        } else {
            Ok(st)
        },
        Ok(Some(d)) => if st.end {
            if d == 0 {
                Err(ParseError::MissingConfiguration)
            } else {
                Err(ParseError::UnexpectedIndent)
            }
        } else if !st.found_start && d != 0 {
            Err(ParseError::UnexpectedIndent)
        } else if is_project(line) {
            Ok(ScanState { found_start: true, level: d + 1, ..st })
        } else if st.level < d {
            Ok(ScanState { found_start: true, ..st })
        } else {
            match line_coordinate(line) {
                Ok(c) => Ok(
                    ScanState { found_start: true, end: false, level: d, found: st.found.insert(c) },
                ),
                Err(e) => Err(e),
            }
        },
    }
}

/// The state after the first `n` lines, or the first error.
pub open spec fn scan(lines: Seq<Seq<char>>, n: nat) -> Result<ScanState, ParseError>
    decreases n,
{
    if n == 0 {
        Ok(initial_state())
    } else {
        match scan(lines, (n - 1) as nat) {
            Ok(st) => scan_step(st, lines[n - 1]),
            Err(e) => Err(e),
        }
    }
}

/// The coordinates that a report declares, or why it is rejected.
pub open spec fn tree_dependencies(text: Seq<char>) -> Result<Set<Seq<char>>, ParseError> {
    let lines = lines_of(text);
    match scan(lines, lines.len()) {
        Ok(st) => Ok(st.found),
        Err(e) => Err(e),
    }
}

/// Relies on `regex::Regex::captures` with the pattern `[+\\]--- (.*)$`: on a
/// line without a line feed its leftmost match starts at the first branch, and
/// its group is the rest of the line.
#[verifier::external_body]
fn captured_token(line: &str) -> (r: Option<String>)
    requires
        !line@.contains('\n'),
    ensures
        r matches Some(t) ==> dependency_token(line@) == Some(t@),
        r is None ==> dependency_token(line@) is None,
{
    let re = regex::Regex::new(r"[+\\]--- (.*)$").expect("the pattern is valid");
    let caps = re.captures(line)?;
    Some(caps.get(1)?.as_str().to_string())
}

/// The nesting depth of a line, as `level_of` states it.
pub fn calculate_level(line: &Vec<char>) -> (r: Result<Option<usize>, ParseError>)
    ensures
        match level_of(line@) {
            Ok(Some(d)) => r == Ok::<Option<usize>, ParseError>(Some(d as usize)) && d < line.len(),
            Ok(None) => r == Ok::<Option<usize>, ParseError>(None),
            Err(e) => r == Err::<Option<usize>, ParseError>(e),
        },
{
    let pat = vec!['-', '-', '-', ' '];
    assert(pat@ =~= marker());
    match find_chars(line, &pat) {
        None => Ok(None),
        Some(m) => {
            if m >= 1 && (m - 1) % 5 == 0 {
                Ok(Some((m - 1) / 5))
            } else {
                Err(ParseError::UnexpectedIndent)
            }
        },
    }
}

fn is_project_line(line: &Vec<char>) -> (r: bool)
    ensures
        r == is_project(line@),
{
    let pat = vec!['-', '-', '-', ' ', 'p', 'r', 'o', 'j', 'e', 'c', 't', ' '];
    assert(pat@ =~= project_marker());
    find_chars(line, &pat).is_some()
}

/// The coordinate that one line declares, on characters.
fn coordinate_of_line(line: &Vec<char>) -> (r: Result<Vec<char>, ParseError>)
    requires
        !line@.contains('\n'),
    ensures
        chars_result(r) == line_coordinate(line@),
{
    let s = string_of(line);
    match captured_token(s.as_str()) {
        Some(t) => normalize_chars(&chars_of(t.as_str())),
        None => Err(ParseError::MalformedCoordinate),
    }
}

/// The canonical coordinate that one report line declares after its tree art.
pub fn pretty_name(line: &str) -> (r: Result<String, ParseError>)
    requires
        !line@.contains('\n'),
    ensures
        string_result(r) == line_coordinate(line@),
{
    match coordinate_of_line(&chars_of(line)) {
        Ok(v) => Ok(string_of(&v)),
        Err(e) => Err(e),
    }
}

/// Once the scan fails it stays failed with the same error.
pub proof fn lemma_scan_error_persists(lines: Seq<Seq<char>>, n: nat, m: nat)
    requires
        n <= m <= lines.len(),
        scan(lines, n) is Err,
    ensures
        scan(lines, m) == scan(lines, n),
    decreases m - n,
{
    if n < m {
        lemma_scan_error_persists(lines, n, (m - 1) as nat);
    }
}

/// The listing of the direct dependencies declared by a dependency report.
///
/// Lines before the first top-level line are skipped; the first line without tree
/// art after it ends the tree. Dependencies nested under another dependency are
/// left out; the children of a project reference count as direct ones.
pub fn parse_dependencies_string(gradle_output: &str) -> (r: Result<Vec<String>, ParseError>)
    ensures
        match tree_dependencies(gradle_output@) {
            Ok(set) => r matches Ok(v) && sorted_listing(v@, set),
            Err(e) => r == Err::<Vec<String>, ParseError>(e),
        },
{
    let text = chars_of(gradle_output);
    let lines = split_lines(&text);
    let ghost ls = lines_of(gradle_output@);
    proof {
        lemma_lines_lack_newline(gradle_output@);
    }
    let mut found_start = false;
    let mut end = false;
    let mut current_level: usize = 0;
    let mut out: Vec<Vec<char>> = Vec::new();
    let mut i: usize = 0;
    assert(rows(out@).to_set() =~= Set::<Seq<char>>::empty());
    while i < lines.len()
        invariant
            rows(lines@) == ls,
            ls == lines_of(gradle_output@),
            forall|k: int| 0 <= k < ls.len() ==> !(#[trigger] ls[k]).contains('\n'),
            i <= lines.len(),
            strictly_sorted(rows(out@)),
            scan(ls, i as nat) == Ok::<ScanState, ParseError>(
                ScanState {
                    found_start,
                    end,
                    level: current_level as nat,
                    found: rows(out@).to_set(),
                },
            ),
        decreases lines.len() - i,
    {
        let line = &lines[i];
        assert(line@ == ls[i as int]);
        let ghost st = ScanState {
            found_start,
            end,
            level: current_level as nat,
            found: rows(out@).to_set(),
        };
        assert(scan(ls, (i + 1) as nat) == scan_step(st, ls[i as int]));
        let level = calculate_level(line);
        match level {
            Err(e) => {
                proof {
                    lemma_scan_error_persists(ls, (i + 1) as nat, ls.len());
                }
                return Err(e);
            },
            Ok(None) => {
                if found_start && !end {
                    end = true;
                }
            },
            Ok(Some(d)) => {
                if end {
                    proof {
                        lemma_scan_error_persists(ls, (i + 1) as nat, ls.len());
                    }
                    if d == 0 {
                        return Err(ParseError::MissingConfiguration);
                    } else {
                        return Err(ParseError::UnexpectedIndent);
                    }
                }
                if !found_start && d != 0 {
                    proof {
                        lemma_scan_error_persists(ls, (i + 1) as nat, ls.len());
                    }
                    return Err(ParseError::UnexpectedIndent);
                }
                found_start = true;
                if is_project_line(line) {
                    current_level = d + 1;
                } else if current_level < d {
                } else {
                    match coordinate_of_line(line) {
                        Ok(c) => {
                            current_level = d;
                            insert_sorted(&mut out, c);
                        },
                        Err(e) => {
                            proof {
                                lemma_scan_error_persists(ls, (i + 1) as nat, ls.len());
                            }
                            return Err(e);
                        },
                    }
                }
            },
        }
        i = i + 1;
    }
    Ok(listing_of(&out, Ghost(rows(out@).to_set())))
}

/// The line carries tree art at a depth greater than `d`.
pub open spec fn deeper_than(line: Seq<char>, d: nat) -> bool {
    match level_of(line) {
        Ok(Some(e)) => e > d,
        _ => false,
    }
}

/// The line is nested deeper than `d` and is not a project reference.
pub open spec fn nested_under(line: Seq<char>, d: nat) -> bool {
    !is_project(line) && deeper_than(line, d)
}

/// A scan that succeeds over `m` lines succeeded over every shorter prefix, and
/// what it had found, and whether the tree had begun, is kept.
pub proof fn lemma_scan_grows(lines: Seq<Seq<char>>, n: nat, m: nat)
    requires
        n <= m <= lines.len(),
        scan(lines, m) is Ok,
    ensures
        scan(lines, n) is Ok,
        scan(lines, n)->Ok_0.found.subset_of(scan(lines, m)->Ok_0.found),
        scan(lines, n)->Ok_0.found_start ==> scan(lines, m)->Ok_0.found_start,
    decreases m - n,
{
    if n < m {
        lemma_scan_grows(lines, n, (m - 1) as nat);
    }
}

/// Lines deeper than the level taken, none a project reference, leave the state
/// as it is.
proof fn lemma_skip_deeper(lines: Seq<Seq<char>>, d: nat, start: nat, k: nat)
    requires
        start <= k <= lines.len(),
        scan(lines, start) is Ok,
        scan(lines, start)->Ok_0.found_start,
        !scan(lines, start)->Ok_0.end,
        scan(lines, start)->Ok_0.level <= d,
        forall|m: int| start <= m < k ==> #[trigger] nested_under(lines[m], d),
    ensures
        scan(lines, k) == scan(lines, start),
    decreases k - start,
{
    if start < k {
        lemma_skip_deeper(lines, d, start, (k - 1) as nat);
        assert(nested_under(lines[k - 1], d));
    }
}

/// Depth gating: after a dependency that is not a project reference, a line
/// nested below it, reached through dependencies that are not project references
/// either, is skipped: the scan state after it is the state before it, so it adds
/// nothing to the result. A top-level dependency itself is always in the result.
pub proof fn lemma_depth_gating(lines: Seq<Seq<char>>, a: int, b: int, d: nat)
    requires
        0 <= a < b < lines.len(),
        level_of(lines[a]) == Ok::<Option<nat>, ParseError>(Some(d)),
        !is_project(lines[a]),
        forall|k: int| a < k <= b ==> #[trigger] nested_under(lines[k], d),
    ensures
        scan(lines, (b + 1) as nat) == scan(lines, b as nat),
        d == 0 && scan(lines, lines.len()) is Ok ==> line_coordinate(lines[a]) is Ok
            && scan(lines, lines.len())->Ok_0.found.contains(line_coordinate(lines[a])->Ok_0),
{
    let start = (a + 1) as nat;
    if scan(lines, start) is Err {
        lemma_scan_error_persists(lines, start, b as nat);
        lemma_scan_error_persists(lines, start, (b + 1) as nat);
    } else {
        assert(scan(lines, a as nat) is Ok);
        lemma_skip_deeper(lines, d, start, b as nat);
        lemma_skip_deeper(lines, d, start, (b + 1) as nat);
    }
    if d == 0 && scan(lines, lines.len()) is Ok {
        lemma_scan_grows(lines, start, lines.len());
        assert(scan(lines, a as nat) is Ok);
    }
}

/// From just after a project reference at depth `d` up to line `k`, every line
/// being deeper than `d`, the tree is open and lines at depth `d + 1` are taken.
proof fn lemma_inside_project(lines: Seq<Seq<char>>, p: int, k: int, d: nat)
    requires
        0 <= p < k <= lines.len(),
        level_of(lines[p]) == Ok::<Option<nat>, ParseError>(Some(d)),
        is_project(lines[p]),
        forall|m: int| p < m < k ==> #[trigger] deeper_than(lines[m], d),
        scan(lines, k as nat) is Ok,
    ensures
        scan(lines, k as nat)->Ok_0.found_start,
        !scan(lines, k as nat)->Ok_0.end,
        scan(lines, k as nat)->Ok_0.level >= d + 1,
    decreases k - p,
{
    lemma_scan_grows(lines, (k - 1) as nat, k as nat);
    if k - 1 > p {
        lemma_inside_project(lines, p, k - 1, d);
        assert(deeper_than(lines[k - 1], d));
    }
}

/// Project transparency: a line at depth `d + 1` below a project reference at
/// depth `d`, with only deeper lines between them, is taken whatever the level
/// was before the project reference, as a top-level line would be.
pub proof fn lemma_project_transparency(lines: Seq<Seq<char>>, p: int, j: int, d: nat)
    requires
        0 <= p < j < lines.len(),
        level_of(lines[p]) == Ok::<Option<nat>, ParseError>(Some(d)),
        is_project(lines[p]),
        forall|k: int| p < k < j ==> #[trigger] deeper_than(lines[k], d),
        level_of(lines[j]) == Ok::<Option<nat>, ParseError>(Some(d + 1)),
        !is_project(lines[j]),
    ensures
        scan(lines, lines.len()) is Ok ==> line_coordinate(lines[j]) is Ok && scan(
            lines,
            lines.len(),
        )->Ok_0.found.contains(line_coordinate(lines[j])->Ok_0),
{
    if scan(lines, lines.len()) is Ok {
        lemma_scan_grows(lines, (j + 1) as nat, lines.len());
        lemma_scan_grows(lines, j as nat, (j + 1) as nat);
        lemma_inside_project(lines, p, j, d);
    }
}

/// Lines without tree art after an ended tree keep it ended.
proof fn lemma_after_end(lines: Seq<Seq<char>>, k: nat, b: nat)
    requires
        k <= b <= lines.len(),
        scan(lines, k) is Ok,
        scan(lines, k)->Ok_0.end,
        forall|m: int| k <= m < b ==> #[trigger] level_of(lines[m]) == Ok::<Option<nat>, ParseError>(None),
    ensures
        scan(lines, b) == scan(lines, k),
    decreases b - k,
{
    if k < b {
        lemma_after_end(lines, k, (b - 1) as nat);
        assert(level_of(lines[b - 1]) == Ok::<Option<nat>, ParseError>(None));
    }
}

/// A report that holds a second tree, started after the first one ended, is
/// rejected with the missing-configuration error, unless an earlier line was
/// already rejected.
pub proof fn lemma_second_tree_rejected(lines: Seq<Seq<char>>, a: int, k: int, b: int)
    requires
        0 <= a < k < b < lines.len(),
        level_of(lines[a]) == Ok::<Option<nat>, ParseError>(Some(0)),
        level_of(lines[k]) == Ok::<Option<nat>, ParseError>(None),
        forall|m: int| k < m < b ==> #[trigger] level_of(lines[m]) == Ok::<Option<nat>, ParseError>(None),
        level_of(lines[b]) == Ok::<Option<nat>, ParseError>(Some(0)),
    ensures
        scan(lines, k as nat) is Ok ==> scan(lines, lines.len()) == Err::<ScanState, ParseError>(
            ParseError::MissingConfiguration,
        ),
{
    if scan(lines, k as nat) is Ok {
        lemma_scan_grows(lines, (a + 1) as nat, k as nat);
        assert(scan(lines, a as nat) is Ok);
        let after_k = (k + 1) as nat;
        assert(scan(lines, after_k) is Ok);
        lemma_after_end(lines, after_k, b as nat);
        assert(scan(lines, (b + 1) as nat) == Err::<ScanState, ParseError>(
            ParseError::MissingConfiguration,
        ));
        lemma_scan_error_persists(lines, (b + 1) as nat, lines.len());
    }
}

/// A top-level line of an open tree whose token is malformed (for instance one
/// of four colon-separated segments) rejects the report with the
/// malformed-coordinate error.
pub proof fn lemma_malformed_line_rejected(lines: Seq<Seq<char>>, j: int)
    requires
        0 <= j < lines.len(),
        level_of(lines[j]) == Ok::<Option<nat>, ParseError>(Some(0)),
        !is_project(lines[j]),
        dependency_token(lines[j]) is Some,
        split_on(dependency_token(lines[j])->Some_0, ':').len() != 2,
        split_on(dependency_token(lines[j])->Some_0, ':').len() != 3,
    ensures
        scan(lines, j as nat) is Ok && !scan(lines, j as nat)->Ok_0.end ==> scan(lines, lines.len())
            == Err::<ScanState, ParseError>(ParseError::MalformedCoordinate),
{
    lemma_malformed_token(dependency_token(lines[j])->Some_0);
    if scan(lines, j as nat) is Ok && !scan(lines, j as nat)->Ok_0.end {
        assert(scan(lines, (j + 1) as nat) == Err::<ScanState, ParseError>(
            ParseError::MalformedCoordinate,
        ));
        lemma_scan_error_persists(lines, (j + 1) as nat, lines.len());
    }
}

} // verus!
