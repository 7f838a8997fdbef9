//! License identifiers, after <https://spdx.org/licenses/>.

use vstd::prelude::*;

verus! {

/// A license, by its SPDX identifier where one is known.
#[derive(Debug, PartialEq, Eq)]
pub enum SPDX {
    Apache20,
    BSD2,
    BSD3,
    ISC,
    MIT,
    Other(String),
}

/// The license names that POMs use for the Apache License 2.0.
pub open spec fn is_apache_name(s: Seq<char>) -> bool {
    s == "The Apache Software License, Version 2.0"@ || s == "The Apache License, Version 2.0"@
        || s == "Apache 2.0"@
}

/// A license name with a known identifier.
pub open spec fn is_known_name(s: Seq<char>) -> bool {
    is_apache_name(s) || s == "Simplified BSD License"@ || s == "ISC License"@ || s
        == "MIT License"@
}

/// `license` is what the license name `s` stands for.
pub open spec fn names_license(license: SPDX, s: Seq<char>) -> bool {
    match license {
        SPDX::Apache20 => is_apache_name(s),
        SPDX::BSD2 => s == "Simplified BSD License"@,
        SPDX::BSD3 => false,
        SPDX::ISC => s == "ISC License"@,
        SPDX::MIT => s == "MIT License"@,
        SPDX::Other(t) => t@ == s && !is_known_name(s),
    }
}

/// The text that stands for a license: its SPDX identifier, or the name itself.
pub open spec fn license_text(license: SPDX) -> Seq<char> {
    match license {
        SPDX::Apache20 => "Apache-2.0"@,
        SPDX::BSD2 => "BSD-2-Clause"@,
        SPDX::BSD3 => "BSD-3-Clause"@,
        SPDX::ISC => "ISC"@,
        SPDX::MIT => "MIT"@,
        SPDX::Other(t) => t@,
    }
}

impl SPDX {
    /// The license that a POM's license name stands for.
    pub fn from_name(s: &str) -> (r: SPDX)
        ensures
            names_license(r, s@),
    {
        let name = String::from_str(s);
        if name == String::from_str("The Apache Software License, Version 2.0") || name
            == String::from_str("The Apache License, Version 2.0") || name == String::from_str(
            "Apache 2.0",
        ) {
            SPDX::Apache20
        } else if name == String::from_str("Simplified BSD License") {
            SPDX::BSD2
        } else if name == String::from_str("ISC License") {
            SPDX::ISC
        } else if name == String::from_str("MIT License") {
            SPDX::MIT
        } else {
            SPDX::Other(name)
        }
    }

    /// The licenses that a list of license names stands for, in the same order.
    pub fn from_names(names: &Vec<String>) -> (r: Vec<SPDX>)
        ensures
            r.len() == names.len(),
            forall|i: int| 0 <= i < names.len() ==> names_license(#[trigger] r[i], names[i]@),
    {
        let mut r: Vec<SPDX> = Vec::new();
        let mut i: usize = 0;
        while i < names.len()
            invariant
                i <= names.len(),
                r.len() == i,
                forall|k: int| 0 <= k < i ==> names_license(#[trigger] r[k], names[k]@),
            decreases names.len() - i,
        {
            r.push(SPDX::from_name(names[i].as_str()));
            i = i + 1;
        }
        r
    }

    /// The text that stands for the license, as it is displayed.
    pub fn to_text(&self) -> (r: String)
        ensures
            r@ == license_text(*self),
    {
        match self {
            SPDX::Apache20 => String::from_str("Apache-2.0"),
            SPDX::BSD2 => String::from_str("BSD-2-Clause"),
            SPDX::BSD3 => String::from_str("BSD-3-Clause"),
            SPDX::ISC => String::from_str("ISC"),
            SPDX::MIT => String::from_str("MIT"),
            SPDX::Other(t) => t.clone(),
        }
    }
}

/// The texts of `licenses` joined by `/`.
pub open spec fn joined_texts(licenses: Seq<SPDX>) -> Seq<char>
    decreases licenses.len(),
{
    if licenses.len() == 0 {
        Seq::empty()
    } else if licenses.len() == 1 {
        license_text(licenses[0])
    } else {
        joined_texts(licenses.drop_last()) + "/"@ + license_text(licenses.last())
    }
}

/// The texts of `licenses` joined by `/`, as one cell of a report.
pub fn licenses_text(licenses: &Vec<SPDX>) -> (r: String)
    ensures
        r@ == joined_texts(licenses@),
{
    let mut r = String::new();
    let mut i: usize = 0;
    while i < licenses.len()
        invariant
            i <= licenses.len(),
            r@ == joined_texts(licenses@.subrange(0, i as int)),
        decreases licenses.len() - i,
    {
        let ghost done = licenses@.subrange(0, i + 1);
        assert(done.drop_last() =~= licenses@.subrange(0, i as int));
        if i > 0 {
            r.append("/");
        } else {
            assert(licenses@.subrange(0, 0) =~= Seq::<SPDX>::empty());
        }
        let t = licenses[i].to_text();
        r.append(t.as_str());
        assert(done.last() == licenses@[i as int]);
        i = i + 1;
    }
    assert(licenses@.subrange(0, licenses.len() as int) =~= licenses@);
    r
}

impl std::str::FromStr for SPDX {
    type Err = std::convert::Infallible;

    fn from_str(s: &str) -> Result<SPDX, std::convert::Infallible> {
        Ok(SPDX::from_name(s))
    }
}

} // verus!
