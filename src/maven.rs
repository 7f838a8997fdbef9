//! The Maven repository side: where an artifact's files live, and the records
//! read from them.

use vstd::prelude::*;
use crate::error::ParseError;
use crate::spdx::SPDX;
use crate::text::{chars_of, dots_to_slashes, push_all, replace_dots, split_chars, split_on};
use crate::text::{starts_with, starts_with_str, string_of, trim, trim_chars, rows};

verus! {

/// What a repository's `maven-metadata.xml` says of an artifact.
#[derive(Debug)]
pub struct Dependency {
    pub group_id: String,
    pub artifact_id: String,
    pub version: Option<String>,
    pub latest_version: Option<String>,
    pub release_version: Option<String>,
}

/// What an artifact's POM says of it.
#[derive(Debug, PartialEq, Eq)]
pub struct POM {
    pub group_id: Option<String>,
    pub artifact_id: String,
    pub version: Option<String>,
    pub packaging: Option<String>,
    pub name: Option<String>,
    pub description: Option<String>,
    pub licenses: Vec<SPDX>,
}

/// The Google Maven repository, which serves the AndroidX and Google Android
/// artifacts.
pub fn get_google_maven_repo() -> (r: &'static str)
    ensures
        r@ == "https://dl.google.com/android/maven2"@,
{
    "https://dl.google.com/android/maven2"
}

/// Maven Central, which serves the other artifacts.
pub fn get_maven_central_repo() -> (r: &'static str)
    ensures
        r@ == "https://repo1.maven.org/maven2"@,
{
    "https://repo1.maven.org/maven2"
}

/// The repository that serves the artifact `dependency_name`.
pub open spec fn repo_for(dependency_name: Seq<char>) -> Seq<char> {
    if starts_with(dependency_name, "androidx"@) || starts_with(
        dependency_name,
        "com.google.android"@,
    ) {
        "https://dl.google.com/android/maven2"@
    } else {
        "https://repo1.maven.org/maven2"@
    }
}

/// The repository to ask for the artifact `dependency_name`.
pub fn maven_repo_for(dependency_name: &str) -> (r: &'static str)
    ensures
        r@ == repo_for(dependency_name@),
{
    if starts_with_str(dependency_name, "androidx") || starts_with_str(
        dependency_name,
        "com.google.android",
    ) {
        get_google_maven_repo()
    } else {
        get_maven_central_repo()
    }
}

/// The directory of an artifact in a repository: the group id with its dots
/// turned into slashes, then the artifact id, both trimmed; a version is ignored.
pub open spec fn artifact_path(dependency_name: Seq<char>) -> Result<Seq<char>, ParseError> {
    let segs = split_on(dependency_name, ':');
    let group = dots_to_slashes(trim(segs[0]));
    if group.len() == 0 {
        Err(ParseError::MissingGroupId)
    } else if segs.len() < 2 || trim(segs[1]).len() == 0 {
        Err(ParseError::MissingArtifactId)
    } else {
        Ok(group + seq!['/'] + trim(segs[1]))
    }
}

/// The directory of the artifact `dependency_name` (`group:artifact[:version]`)
/// relative to a repository's root.
pub fn split_dependency_name_to_path(dependency_name: &str) -> (r: Result<String, ParseError>)
    ensures
        match artifact_path(dependency_name@) {
            Ok(p) => r matches Ok(s) && s@ == p,
            Err(e) => r == Err::<String, ParseError>(e),
        },
{
    let name = chars_of(dependency_name);
    let segs = split_chars(&name, ':');
    proof {
        crate::text::lemma_split_nonempty(name@, ':');
    }
    assert(segs[0]@ == rows(segs@)[0]);
    let group = replace_dots(&trim_chars(&segs[0]));
    if group.len() == 0 {
        return Err(ParseError::MissingGroupId);
    }
    if segs.len() < 2 {
        return Err(ParseError::MissingArtifactId);
    }
    assert(segs[1]@ == rows(segs@)[1]);
    let artifact = trim_chars(&segs[1]);
    if artifact.len() == 0 {
        return Err(ParseError::MissingArtifactId);
    }
    let mut path = group;
    path.push('/');
    push_all(&mut path, &artifact);
    Ok(string_of(&path))
}

/// The root URL of an artifact: the repository root, a slash, and the artifact's
/// directory.
pub fn artifact_root_url(repo_root: &str, dependency_name: &str) -> (r: Result<String, ParseError>)
    ensures
        match artifact_path(dependency_name@) {
            Ok(p) => r matches Ok(s) && s@ == repo_root@ + "/"@ + p,
            Err(e) => r == Err::<String, ParseError>(e),
        },
{
    match split_dependency_name_to_path(dependency_name) {
        Ok(path) => {
            let mut url = String::from_str(repo_root);
            url.append("/");
            url.append(path.as_str());
            Ok(url)
        },
        Err(e) => Err(e),
    }
}

/// The URL of the `maven-metadata.xml` under an artifact's root URL.
pub fn metadata_url(artifact_root: &str) -> (r: String)
    ensures
        r@ == artifact_root@ + "/maven-metadata.xml"@,
{
    let mut url = String::from_str(artifact_root);
    url.append("/maven-metadata.xml");
    url
}

/// The version whose POM is fetched: the release version, else the latest one,
/// else the plain version.
pub open spec fn chosen_version(metadata: Dependency) -> Option<Seq<char>> {
    match metadata.release_version {
        Some(v) => Some(v@),
        None => match metadata.latest_version {
            Some(v) => Some(v@),
            None => match metadata.version {
                Some(v) => Some(v@),
                None => None,
            },
        },
    }
}

/// The URL of the POM of the chosen version, `root/version/artifact-version.pom`,
/// or `None` when the metadata names no version at all.
pub fn pom_url(artifact_root: &str, metadata: &Dependency) -> (r: Option<String>)
    ensures
        match chosen_version(*metadata) {
            Some(v) => r matches Some(s) && s@ == artifact_root@ + "/"@ + v + "/"@
                + metadata.artifact_id@ + "-"@ + v + ".pom"@,
            None => r is None,
        },
{
    let version = match &metadata.release_version {
        Some(v) => v,
        None => match &metadata.latest_version {
            Some(v) => v,
            None => match &metadata.version {
                Some(v) => v,
                None => {
                    return None;
                },
            },
        },
    };
    let mut url = String::from_str(artifact_root);
    url.append("/");
    url.append(version.as_str());
    url.append("/");
    url.append(metadata.artifact_id.as_str());
    url.append("-");
    url.append(version.as_str());
    url.append(".pom");
    Some(url)
}

} // verus!
