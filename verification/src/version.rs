//! The version that the daemon reports: a release tag, else a description of the working tree,
//! else the package version.

use vstd::prelude::*;

use crate::chars;

verus! {

/// Whether a name is a release tag: `v` and a digit.
pub open spec fn release_tag(tag: Seq<char>) -> bool {
    tag.len() >= 2 && tag[0] == 'v' && 48 <= tag[1] as u32 <= 57
}

/// The version that is reported.
pub open spec fn version_of(
    tag: Option<Seq<char>>,
    described: Option<Seq<char>>,
    package: Option<Seq<char>>,
) -> Seq<char> {
    if tag is Some && release_tag(tag->0) {
        tag->0
    } else if described is Some && chars::trimmed(described->0).len() > 0 {
        chars::trimmed(described->0)
    } else if package is Some {
        package->0
    } else {
        "unknown"@
    }
}

/// An optional text as its characters.
pub open spec fn text_view(s: Option<&str>) -> Option<Seq<char>> {
    match s {
        Some(s) => Some(s@),
        None => None,
    }
}

/// The version to report, from the tag being built, the description of the working tree and the
/// package version, as far as each is known.
#[must_use]
pub fn version(tag: Option<&str>, described: Option<&str>, package: Option<&str>) -> (r: String)
    ensures
        r@ == version_of(text_view(tag), text_view(described), text_view(package)),
{
    if let Some(tag) = tag {
        let t = chars::chars_of(tag);
        if t.len() >= 2 && t[0] == 'v' && 48 <= t[1] as u32 && t[1] as u32 <= 57 {
            return tag.to_owned();
        }
    }
    if let Some(described) = described {
        let d = chars::chars_of(described);
        let t = chars::trim(d.as_slice());
        if t.len() > 0 {
            return chars::string_of(t);
        }
    }
    match package {
        Some(p) => p.to_owned(),
        None => "unknown".to_owned(),
    }
}

} // verus!
