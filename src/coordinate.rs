//! Reduction of one dependency token to a `group:artifact:version` coordinate.

use vstd::prelude::*;
use crate::error::ParseError;
use crate::text::{chars_of, push_all, rows, split_chars, split_on, string_of};
use crate::text::{lemma_split_concat, lemma_split_single};

verus! {

/// `group:artifact:version`.
pub open spec fn join3(group: Seq<char>, artifact: Seq<char>, version: Seq<char>) -> Seq<char> {
    group + seq![':'] + artifact + seq![':'] + version
}

/// The canonical coordinate of a dependency token.
///
/// With three colon-separated segments the last one is `version`,
/// `version (*)`, `old -> version` or `old -> version (*)`: of one or two
/// space-separated words the first is the version, of three or four the third.
/// With two segments the version came from elsewhere and the second segment is
/// `artifact -> version`, possibly followed by more words: the first word is the
/// artifact and the third the version.
pub open spec fn normalize(token: Seq<char>) -> Result<Seq<char>, ParseError> {
    let segs = split_on(token, ':');
    if segs.len() == 3 {
        let words = split_on(segs[2], ' ');
        if words.len() == 1 || words.len() == 2 {
            Ok(join3(segs[0], segs[1], words[0]))
        } else if words.len() == 3 || words.len() == 4 {
            Ok(join3(segs[0], segs[1], words[2]))
        } else {
            Err(ParseError::MalformedCoordinate)
        }
    } else if segs.len() == 2 {
        let words = split_on(segs[1], ' ');
        if words.len() >= 3 {
            Ok(join3(segs[0], words[0], words[2]))
        } else {
            Err(ParseError::MalformedCoordinate)
        }
    } else {
        Err(ParseError::MalformedCoordinate)
    }
}

pub open spec fn chars_result(r: Result<Vec<char>, ParseError>) -> Result<Seq<char>, ParseError> {
    match r {
        Ok(v) => Ok(v@),
        Err(e) => Err(e),
    }
}

pub open spec fn string_result(r: Result<String, ParseError>) -> Result<Seq<char>, ParseError> {
    match r {
        Ok(s) => Ok(s@),
        Err(e) => Err(e),
    }
}

fn join3_chars(group: &Vec<char>, artifact: &Vec<char>, version: &Vec<char>) -> (r: Vec<char>)
    ensures
        r@ == join3(group@, artifact@, version@),
{
    let mut r: Vec<char> = Vec::new();
    push_all(&mut r, group);
    r.push(':');
    push_all(&mut r, artifact);
    r.push(':');
    push_all(&mut r, version);
    assert(r@ =~= join3(group@, artifact@, version@));
    r
}

/// The canonical coordinate of `token`, on characters.
pub fn normalize_chars(token: &Vec<char>) -> (r: Result<Vec<char>, ParseError>)
    ensures
        chars_result(r) == normalize(token@),
{
    let segs = split_chars(token, ':');
    assert(segs@.len() == rows(segs@).len());
    if segs.len() == 3 {
        assert(segs[2]@ == rows(segs@)[2]);
        let words = split_chars(&segs[2], ' ');
        if words.len() == 1 || words.len() == 2 {
            assert(words[0]@ == rows(words@)[0]);
            Ok(join3_chars(&segs[0], &segs[1], &words[0]))
        } else if words.len() == 3 || words.len() == 4 {
            assert(words[2]@ == rows(words@)[2]);
            Ok(join3_chars(&segs[0], &segs[1], &words[2]))
        } else {
            Err(ParseError::MalformedCoordinate)
        }
    } else if segs.len() == 2 {
        assert(segs[1]@ == rows(segs@)[1]);
        let words = split_chars(&segs[1], ' ');
        if words.len() >= 3 {
            assert(words[0]@ == rows(words@)[0]);
            assert(words[2]@ == rows(words@)[2]);
            Ok(join3_chars(&segs[0], &words[0], &words[2]))
        } else {
            Err(ParseError::MalformedCoordinate)
        }
    } else {
        Err(ParseError::MalformedCoordinate)
    }
}

/// Reduces one dependency token, without tree art, to `group:artifact:version`.
pub fn pretty_version(token: &str) -> (r: Result<String, ParseError>)
    ensures
        string_result(r) == normalize(token@),
{
    let cs = chars_of(token);
    match normalize_chars(&cs) {
        Ok(v) => Ok(string_of(&v)),
        Err(e) => Err(e),
    }
}

/// Normalizing a coordinate that is already canonical (no colon in its parts, no
/// space in its version) gives it back unchanged.
pub proof fn lemma_normalize_canonical(group: Seq<char>, artifact: Seq<char>, version: Seq<char>)
    requires
        !group.contains(':'),
        !artifact.contains(':'),
        !version.contains(':'),
        !version.contains(' '),
    ensures
        normalize(join3(group, artifact, version)) == Ok::<Seq<char>, ParseError>(
            join3(group, artifact, version),
        ),
{
    let c = join3(group, artifact, version);
    assert(c =~= group + seq![':'] + (artifact + seq![':'] + version));
    lemma_split_concat(group, ':', artifact + seq![':'] + version);
    lemma_split_concat(artifact, ':', version);
    lemma_split_single(group, ':');
    lemma_split_single(artifact, ':');
    lemma_split_single(version, ':');
    lemma_split_single(version, ' ');
    let segs = split_on(c, ':');
    assert(segs =~= seq![group, artifact, version]);
}

/// A token with other than two or three colon-separated segments is malformed.
pub proof fn lemma_malformed_token(token: Seq<char>)
    requires
        split_on(token, ':').len() != 2,
        split_on(token, ':').len() != 3,
    ensures
        normalize(token) == Err::<Seq<char>, ParseError>(ParseError::MalformedCoordinate),
{
}

/// The `group:artifact` name of a coordinate and its version, empty when it has
/// none; `None` when it has no artifact part.
pub open spec fn name_and_version_of(coordinate: Seq<char>) -> Option<(Seq<char>, Seq<char>)> {
    let segs = split_on(coordinate, ':');
    if segs.len() < 2 {
        None
    } else {
        Some(
            (
                segs[0] + seq![':'] + segs[1],
                if segs.len() > 2 {
                    segs[2]
                } else {
                    Seq::empty()
                },
            ),
        )
    }
}

/// Splits a coordinate into its `group:artifact` name and its version.
pub fn name_and_version(coordinate: &str) -> (r: Option<(String, String)>)
    ensures
        match name_and_version_of(coordinate@) {
            None => r is None,
            Some((n, v)) => r matches Some((a, b)) && a@ == n && b@ == v,
        },
{
    let cs = chars_of(coordinate);
    let segs = split_chars(&cs, ':');
    if segs.len() < 2 {
        return None;
    }
    assert(segs[0]@ == rows(segs@)[0]);
    assert(segs[1]@ == rows(segs@)[1]);
    let mut name = Vec::new();
    push_all(&mut name, &segs[0]);
    name.push(':');
    push_all(&mut name, &segs[1]);
    assert(name@ =~= segs[0]@ + seq![':'] + segs[1]@);
    let version = if segs.len() > 2 {
        assert(segs[2]@ == rows(segs@)[2]);
        string_of(&segs[2])
    } else {
        String::new()
    };
    Some((string_of(&name), version))
}

} // verus!
