//! What holds of the nft table spec and of the reported version.

use vstd::prelude::*;

use crate::chars;
use crate::laws::chars as chars_laws;
use crate::nft;
use crate::nft::Family;
use crate::version;

verus! {

/// A table spec is a family and a table, whatever whitespace is around and between them. `ip` and
/// `ip6` name their families, and everything else both. Where no table is named, it is `filter`.
pub proof fn table_spec_names_family_and_table(
    before: Seq<char>,
    first: Seq<char>,
    between: Seq<char>,
    second: Seq<char>,
    after: Seq<char>,
)
    requires
        chars_laws::blank(before),
        chars_laws::solid(first),
        first.len() > 0,
        chars_laws::blank(between),
        between.len() > 0,
        chars_laws::solid(second),
        second.len() > 0,
        chars_laws::blank(after),
    ensures
        ({
            let spec = before + first + between + second + after;
            let family = if first == "ip"@ {
                Family::Ipv4
            } else if first == "ip6"@ {
                Family::Ipv6
            } else {
                Family::Inet
            };
            &&& nft::family_of(spec) == family
            &&& nft::table_of(spec) == second
            &&& nft::family_of(before + first) == family
            &&& nft::table_of(before + first) == "filter"@
        }),
{
    if after.len() > 0 {
        assert(chars::white(after[0]));
    }
    chars_laws::two_words_are_found(before, first, between, second, after);
}

/// A tag that is `v` and a digit is the version, as it is. Without one it is the description of
/// the working tree, bared, then the package version, then `unknown`; a blank description counts
/// as none.
pub proof fn version_is_the_first_known(
    tag: Seq<char>,
    before: Seq<char>,
    described: Seq<char>,
    after: Seq<char>,
    package: Seq<char>,
)
    requires
        chars_laws::blank(before),
        chars_laws::bare(described),
        described.len() > 0,
        chars_laws::blank(after),
    ensures
        ({
            let released = tag.len() >= 2 && tag[0] == 'v' && 0x30 <= tag[1] as u32 <= 0x39;
            let padded = before + described + after;
            &&& version::version_of(Some(tag), Some(padded), Some(package)) == (if released {
                tag
            } else {
                described
            })
            &&& version::version_of(None, Some(padded), Some(package)) == described
            &&& version::version_of(None, Some(before), Some(package)) == package
            &&& version::version_of(None, None, Some(package)) == package
            &&& version::version_of(None, None, None) == "unknown"@
        }),
{
    chars_laws::trimming_bares(before, described, after);
    let none: Seq<char> = Seq::empty();
    chars_laws::trimming_bares(before, none, none);
    assert(before + none + none =~= before);
}

} // verus!
