//! Character-sequence helpers shared by the parsers.

use vstd::prelude::*;

verus! {

/// Relies on `String::push`: appends one character at the end.
#[verifier::external_body]
fn push_char(s: &mut String, c: char)
    ensures
        final(s)@ == old(s)@.push(c),
{
    s.push(c);
}

/// The characters of `s`, in order.
pub fn chars_of(s: &str) -> (r: Vec<char>)
    ensures
        r@ == s@,
{
    let mut r: Vec<char> = Vec::new();
    for c in it: s.chars()
        invariant
            r@ == it.seq().subrange(0, it.index() as int),
    {
        r.push(c);
    }
    r
}

/// A `String` holding exactly the characters of `cs`.
pub fn string_of(cs: &Vec<char>) -> (r: String)
    ensures
        r@ == cs@,
{
    let mut r = String::new();
    let mut i: usize = 0;
    while i < cs.len()
        invariant
            i <= cs.len(),
            r@ == cs@.subrange(0, i as int),
        decreases cs.len() - i,
    {
        push_char(&mut r, cs[i]);
        assert(cs@.subrange(0, i + 1) =~= cs@.subrange(0, i as int).push(cs@[i as int]));
        i = i + 1;
    }
    assert(cs@.subrange(0, cs.len() as int) =~= cs@);
    r
}

/// The character sequences held by a vector of character vectors.
pub open spec fn rows(v: Seq<Vec<char>>) -> Seq<Seq<char>> {
    v.map_values(|x: Vec<char>| x@)
}

/// The pieces of `s` between occurrences of `sep`, as `str::split` yields them:
/// one more piece than there are separators, empty pieces included.
pub open spec fn split_on(s: Seq<char>, sep: char) -> Seq<Seq<char>>
    decreases s.len(),
{
    if s.len() == 0 {
        seq![Seq::empty()]
    } else {
        let init = split_on(s.drop_last(), sep);
        if s.last() == sep {
            init.push(Seq::empty())
        } else {
            init.update(init.len() - 1, init.last().push(s.last()))
        }
    }
}

pub proof fn lemma_split_nonempty(s: Seq<char>, sep: char)
    ensures
        split_on(s, sep).len() >= 1,
    decreases s.len(),
{
    if s.len() > 0 {
        lemma_split_nonempty(s.drop_last(), sep);
    }
}

/// Splits `s` at every occurrence of `sep`.
pub fn split_chars(s: &Vec<char>, sep: char) -> (r: Vec<Vec<char>>)
    ensures
        rows(r@) == split_on(s@, sep),
{
    let mut pieces: Vec<Vec<char>> = Vec::new();
    let mut cur: Vec<char> = Vec::new();
    let mut i: usize = 0;
    assert(s@.subrange(0, 0) =~= Seq::<char>::empty());
    assert(rows(pieces@).push(cur@) =~= split_on(s@.subrange(0, 0), sep));
    while i < s.len()
        invariant
            i <= s.len(),
            split_on(s@.subrange(0, i as int), sep) == rows(pieces@).push(cur@),
        decreases s.len() - i,
    {
        let c = s[i];
        let ghost before = s@.subrange(0, i as int);
        let ghost after = s@.subrange(0, i + 1);
        assert(after.drop_last() =~= before);
        assert(after.last() == c);
        let ghost old_pieces = rows(pieces@);
        if c == sep {
            let done = cur;
            let ghost done_view = done@;
            pieces.push(done);
            cur = Vec::new();
            assert(rows(pieces@) =~= old_pieces.push(done_view));
            assert(rows(pieces@).push(cur@) =~= split_on(after, sep));
        } else {
            cur.push(c);
            assert(rows(pieces@) =~= old_pieces);
            assert(rows(pieces@).push(cur@) =~= split_on(after, sep));
        }
        i = i + 1;
    }
    assert(s@.subrange(0, s.len() as int) =~= s@);
    let ghost old_pieces = rows(pieces@);
    let ghost cur_view = cur@;
    pieces.push(cur);
    assert(rows(pieces@) =~= old_pieces.push(cur_view));
    pieces
}

/// `s` without one trailing carriage return.
pub open spec fn strip_cr(s: Seq<char>) -> Seq<char> {
    if s.len() > 0 && s.last() == '\r' {
        s.drop_last()
    } else {
        s
    }
}

/// The lines of `text`, as `str::lines` yields them: a line ends at `\n` or
/// `\r\n`, and a final line ending is optional.
pub open spec fn lines_of(text: Seq<char>) -> Seq<Seq<char>> {
    let p = split_on(text, '\n');
    let n = if p.last().len() == 0 { p.len() - 1 } else { p.len() as int };
    Seq::new(n as nat, |i: int| line_piece(p, i))
}

/// The `i`-th piece of `p` with its carriage return removed, unless it is the last piece.
pub open spec fn line_piece(p: Seq<Seq<char>>, i: int) -> Seq<char> {
    if i + 1 < p.len() {
        strip_cr(p[i])
    } else {
        p[i]
    }
}

/// A copy of `s[from..to]`.
pub fn sub_chars(s: &Vec<char>, from: usize, to: usize) -> (r: Vec<char>)
    requires
        from <= to <= s.len(),
    ensures
        r@ == s@.subrange(from as int, to as int),
{
    let mut r: Vec<char> = Vec::new();
    let mut i: usize = from;
    while i < to
        invariant
            from <= i <= to <= s.len(),
            r@ == s@.subrange(from as int, i as int),
        decreases to - i,
    {
        r.push(s[i]);
        assert(s@.subrange(from as int, i + 1) =~= s@.subrange(from as int, i as int).push(
            s@[i as int],
        ));
        i = i + 1;
    }
    r
}

/// Splits `text` into its lines.
pub fn split_lines(text: &Vec<char>) -> (r: Vec<Vec<char>>)
    ensures
        rows(r@) == lines_of(text@),
{
    let pieces = split_chars(text, '\n');
    proof {
        lemma_split_nonempty(text@, '\n');
    }
    let n_pieces = pieces.len();
    let n = if pieces[n_pieces - 1].len() == 0 {
        n_pieces - 1
    } else {
        n_pieces
    };
    let ghost p = split_on(text@, '\n');
    assert(p.last() == pieces[n_pieces - 1]@);
    let mut r: Vec<Vec<char>> = Vec::new();
    let mut i: usize = 0;
    while i < n
        invariant
            n <= n_pieces == pieces.len() == p.len(),
            p == split_on(text@, '\n'),
            rows(pieces@) == p,
            i <= n,
            r.len() == i,
            forall|k: int| 0 <= k < i ==> #[trigger] r@[k]@ == lines_of(text@)[k],
            n == lines_of(text@).len(),
        decreases n - i,
    {
        let piece = &pieces[i];
        assert(piece@ == p[i as int]);
        let line = if i + 1 < n_pieces && piece.len() > 0 && piece[piece.len() - 1] == '\r' {
            let l = sub_chars(piece, 0, piece.len() - 1);
            assert(l@ =~= piece@.drop_last());
            l
        } else {
            let l = sub_chars(piece, 0, piece.len());
            assert(l@ =~= piece@);
            l
        };
        assert(piece@.len() > 0 ==> piece@.last() == piece[piece.len() - 1]);
        assert(lines_of(text@)[i as int] == line_piece(p, i as int));
        assert(line@ == lines_of(text@)[i as int]);
        r.push(line);
        i = i + 1;
    }
    assert(rows(r@) =~= lines_of(text@));
    r
}

/// The Unicode `White_Space` characters, those for which `char::is_whitespace` holds.
pub open spec fn is_ws(c: char) -> bool {
    ('\t' <= c <= '\r') || c == ' ' || c == '\u{85}' || c == '\u{A0}' || c == '\u{1680}' || (
    '\u{2000}' <= c <= '\u{200A}') || c == '\u{2028}' || c == '\u{2029}' || c == '\u{202F}'
        || c == '\u{205F}' || c == '\u{3000}'
}

pub fn is_whitespace(c: char) -> (r: bool)
    ensures
        r == is_ws(c),
{
    ('\t' <= c && c <= '\r') || c == ' ' || c == '\u{85}' || c == '\u{A0}' || c == '\u{1680}'
        || ('\u{2000}' <= c && c <= '\u{200A}') || c == '\u{2028}' || c == '\u{2029}' || c
        == '\u{202F}' || c == '\u{205F}' || c == '\u{3000}'
}

pub open spec fn trim_start(s: Seq<char>) -> Seq<char>
    decreases s.len(),
{
    if s.len() > 0 && is_ws(s[0]) {
        trim_start(s.drop_first())
    } else {
        s
    }
}

pub open spec fn trim_end(s: Seq<char>) -> Seq<char>
    decreases s.len(),
{
    if s.len() > 0 && is_ws(s.last()) {
        trim_end(s.drop_last())
    } else {
        s
    }
}

/// `s` without leading and trailing whitespace, as `str::trim` gives it.
pub open spec fn trim(s: Seq<char>) -> Seq<char> {
    trim_end(trim_start(s))
}

pub fn trim_chars(s: &Vec<char>) -> (r: Vec<char>)
    ensures
        r@ == trim(s@),
{
    let n = s.len();
    let mut i: usize = 0;
    assert(s@.subrange(0, n as int) =~= s@);
    while i < n && is_whitespace(s[i])
        invariant
            i <= n == s.len(),
            trim_start(s@) == trim_start(s@.subrange(i as int, n as int)),
        decreases n - i,
    {
        assert(s@.subrange(i as int, n as int).drop_first() =~= s@.subrange(i + 1, n as int));
        i = i + 1;
    }
    let mut j: usize = n;
    while j > i && is_whitespace(s[j - 1])
        invariant
            i <= j <= n == s.len(),
            trim_start(s@) == s@.subrange(i as int, n as int),
            trim_end(s@.subrange(i as int, n as int)) == trim_end(s@.subrange(i as int, j as int)),
        decreases j - i,
    {
        assert(s@.subrange(i as int, j as int).drop_last() =~= s@.subrange(i as int, j - 1));
        j = j - 1;
    }
    sub_chars(s, i, j)
}

/// `pat` occurs in `s` at index `p`.
pub open spec fn occurs_at(s: Seq<char>, pat: Seq<char>, p: int) -> bool {
    0 <= p && p + pat.len() <= s.len() && s.subrange(p, p + pat.len()) == pat
}

/// The first index at or after `from` where `pat` occurs in `s`.
pub open spec fn find_from(s: Seq<char>, pat: Seq<char>, from: nat) -> Option<nat>
    decreases s.len() + 1 - from,
{
    if from + pat.len() > s.len() {
        None
    } else if occurs_at(s, pat, from as int) {
        Some(from)
    } else {
        find_from(s, pat, from + 1)
    }
}

fn occurs_at_exec(s: &Vec<char>, pat: &Vec<char>, p: usize) -> (r: bool)
    requires
        p + pat.len() <= s.len(),
    ensures
        r == occurs_at(s@, pat@, p as int),
{
    let mut k: usize = 0;
    while k < pat.len()
        invariant
            p + pat.len() <= s.len(),
            k <= pat.len(),
            s@.subrange(p as int, p + k) == pat@.subrange(0, k as int),
        decreases pat.len() - k,
    {
        if s[p + k] != pat[k] {
            assert(s@.subrange(p as int, p + pat.len())[k as int] != pat@[k as int]);
            return false;
        }
        assert(s@.subrange(p as int, p + k + 1) =~= s@.subrange(p as int, p + k).push(s@[p + k]));
        assert(pat@.subrange(0, k + 1) =~= pat@.subrange(0, k as int).push(pat@[k as int]));
        k = k + 1;
    }
    assert(pat@.subrange(0, pat.len() as int) =~= pat@);
    true
}

/// The first index where `pat` occurs in `s`, as `str::find` gives it, counted in
/// characters.
pub fn find_chars(s: &Vec<char>, pat: &Vec<char>) -> (r: Option<usize>)
    ensures
        r matches Some(p) ==> find_from(s@, pat@, 0) == Some(p as nat) && p + pat.len() <= s.len(),
        r is None ==> find_from(s@, pat@, 0) is None,
{
    if pat.len() > s.len() {
        return None;
    }
    let last = s.len() - pat.len();
    let mut p: usize = 0;
    while p <= last
        invariant
            last + pat.len() == s.len(),
            p <= last + 1,
            find_from(s@, pat@, 0) == find_from(s@, pat@, p as nat),
        decreases last + 1 - p,
    {
        if occurs_at_exec(s, pat, p) {
            return Some(p);
        }
        if p == last {
            assert(find_from(s@, pat@, (p + 1) as nat) is None);
            return None;
        }
        p = p + 1;
    }
    None
}

} // verus!

verus! {

/// Appends the characters of `src` to `dst`.
pub fn push_all(dst: &mut Vec<char>, src: &Vec<char>)
    ensures
        final(dst)@ == old(dst)@ + src@,
{
    let mut i: usize = 0;
    while i < src.len()
        invariant
            i <= src.len(),
            dst@ == old(dst)@ + src@.subrange(0, i as int),
        decreases src.len() - i,
    {
        dst.push(src[i]);
        assert(src@.subrange(0, i + 1) =~= src@.subrange(0, i as int).push(src@[i as int]));
        i = i + 1;
    }
    assert(src@.subrange(0, src.len() as int) =~= src@);
}

/// Splitting at a separator distributes over a concatenation around one separator.
pub proof fn lemma_split_concat(x: Seq<char>, sep: char, y: Seq<char>)
    ensures
        split_on(x + seq![sep] + y, sep) == split_on(x, sep) + split_on(y, sep),
    decreases y.len(),
{
    let z = x + seq![sep] + y;
    if y.len() == 0 {
        assert(z.drop_last() =~= x);
        assert(split_on(y, sep) =~= seq![Seq::<char>::empty()]);
        assert(split_on(z, sep) =~= split_on(x, sep) + split_on(y, sep));
    } else {
        assert(z.drop_last() =~= x + seq![sep] + y.drop_last());
        lemma_split_concat(x, sep, y.drop_last());
        lemma_split_nonempty(y.drop_last(), sep);
        lemma_split_nonempty(x, sep);
        assert(split_on(z, sep) =~= split_on(x, sep) + split_on(y, sep));
    }
}

/// A sequence without the separator is a single piece.
pub proof fn lemma_split_single(s: Seq<char>, sep: char)
    requires
        !s.contains(sep),
    ensures
        split_on(s, sep) == seq![s],
    decreases s.len(),
{
    if s.len() == 0 {
        assert(s =~= Seq::<char>::empty());
    } else {
        assert(!s.drop_last().contains(sep)) by {
            if s.drop_last().contains(sep) {
                let k = choose|k: int| 0 <= k < s.drop_last().len() && s.drop_last()[k] == sep;
                assert(s[k] == sep);
            }
        }
        lemma_split_single(s.drop_last(), sep);
        assert(s.last() != sep) by {
            assert(s[s.len() - 1] == s.last());
        }
        assert(s.drop_last().push(s.last()) =~= s);
        assert(split_on(s, sep) =~= seq![s]);
    }
}

/// No piece of a split holds the separator.
pub proof fn lemma_split_pieces_lack_sep(s: Seq<char>, sep: char)
    ensures
        forall|k: int| 0 <= k < split_on(s, sep).len() ==> !(#[trigger] split_on(s, sep)[k]).contains(sep),
    decreases s.len(),
{
    if s.len() > 0 {
        lemma_split_pieces_lack_sep(s.drop_last(), sep);
        lemma_split_nonempty(s.drop_last(), sep);
        let init = split_on(s.drop_last(), sep);
        if s.last() != sep {
            let q = init.last().push(s.last());
            assert(!q.contains(sep)) by {
                if q.contains(sep) {
                    let m = choose|m: int| 0 <= m < q.len() && q[m] == sep;
                    assert(init[init.len() - 1] == init.last());
                    if m < q.len() - 1 {
                        assert(init.last()[m] == sep);
                    }
                }
            }
        }
        assert forall|k: int| 0 <= k < split_on(s, sep).len() implies !(#[trigger] split_on(s, sep)[k]).contains(sep) by {
            if k < init.len() - 1 || (k == init.len() - 1 && s.last() == sep) {
                assert(split_on(s, sep)[k] == init[k]);
            } else if k == init.len() {
                assert(split_on(s, sep)[k] =~= Seq::<char>::empty());
            }
        }
    }
}

/// No line holds a line feed.
pub proof fn lemma_lines_lack_newline(text: Seq<char>)
    ensures
        forall|k: int| 0 <= k < lines_of(text).len() ==> !(#[trigger] lines_of(text)[k]).contains('\n'),
{
    let p = split_on(text, '\n');
    lemma_split_nonempty(text, '\n');
    lemma_split_pieces_lack_sep(text, '\n');
    assert forall|k: int| 0 <= k < lines_of(text).len() implies !(#[trigger] lines_of(text)[k]).contains('\n') by {
        assert(lines_of(text)[k] == line_piece(p, k));
        assert(!p[k].contains('\n'));
        if line_piece(p, k) != p[k] {
            let l = p[k].drop_last();
            if l.contains('\n') {
                let m = choose|m: int| 0 <= m < l.len() && l[m] == '\n';
                assert(p[k][m] == '\n');
            }
        }
    }
}

/// `prefix` is a prefix of `s`.
pub open spec fn starts_with(s: Seq<char>, prefix: Seq<char>) -> bool {
    prefix.len() <= s.len() && s.subrange(0, prefix.len() as int) == prefix
}

/// Whether `s` starts with `prefix`.
pub fn starts_with_str(s: &str, prefix: &str) -> (r: bool)
    ensures
        r == starts_with(s@, prefix@),
{
    let sc = chars_of(s);
    let pc = chars_of(prefix);
    if pc.len() > sc.len() {
        return false;
    }
    let mut k: usize = 0;
    while k < pc.len()
        invariant
            pc.len() <= sc.len(),
            k <= pc.len(),
            sc@ == s@,
            pc@ == prefix@,
            sc@.subrange(0, k as int) == pc@.subrange(0, k as int),
        decreases pc.len() - k,
    {
        if sc[k] != pc[k] {
            assert(sc@.subrange(0, pc.len() as int)[k as int] != pc@[k as int]);
            return false;
        }
        assert(sc@.subrange(0, k + 1) =~= sc@.subrange(0, k as int).push(sc@[k as int]));
        assert(pc@.subrange(0, k + 1) =~= pc@.subrange(0, k as int).push(pc@[k as int]));
        k = k + 1;
    }
    assert(pc@.subrange(0, pc.len() as int) =~= pc@);
    true
}

/// Every `.` of `s` turned into `/`, as `str::replace('.', "/")` gives it.
pub open spec fn dots_to_slashes(s: Seq<char>) -> Seq<char> {
    s.map_values(|c: char| if c == '.' { '/' } else { c })
}

pub fn replace_dots(s: &Vec<char>) -> (r: Vec<char>)
    ensures
        r@ == dots_to_slashes(s@),
{
    let mut r: Vec<char> = Vec::new();
    let mut i: usize = 0;
    while i < s.len()
        invariant
            i <= s.len(),
            r@ == dots_to_slashes(s@.subrange(0, i as int)),
        decreases s.len() - i,
    {
        let c = if s[i] == '.' { '/' } else { s[i] };
        r.push(c);
        assert(dots_to_slashes(s@.subrange(0, i + 1)) =~= dots_to_slashes(s@.subrange(0, i as int)).push(c));
        i = i + 1;
    }
    assert(s@.subrange(0, s.len() as int) =~= s@);
    r
}

} // verus!
