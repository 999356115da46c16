//! Where bans go: the nft table and the set for an address.
//!
//! A ban adds the source address as an element of an auto-expiring set (`flags timeout`), so
//! nftables removes it on its own when the set's default timeout lapses; the firewall defines the
//! sets.

use vstd::prelude::*;

use crate::addr::{IpAddr, IpView};
use crate::chars;

verus! {

/// An nft table family.
#[derive(Debug, Clone, Copy, PartialEq, Eq, Structural)]
pub enum Family {
    /// IPv4 only.
    Ipv4,
    /// IPv6 only.
    Ipv6,
    /// Both.
    Inet,
}

/// The table family that a table spec names (e.g. `"inet filter"`).
pub open spec fn family_of(spec: Seq<char>) -> Family {
    let word = chars::two_words(spec).0;
    if word == "ip"@ {
        Family::Ipv4
    } else if word == "ip6"@ {
        Family::Ipv6
    } else {
        Family::Inet
    }
}

/// The table that a table spec names: its second word, or `filter`.
pub open spec fn table_of(spec: Seq<char>) -> Seq<char> {
    let word = chars::two_words(spec).1;
    if word.len() == 0 {
        "filter"@
    } else {
        word
    }
}

/// The nft sets that bans are added to.
#[derive(Debug, Clone, PartialEq, Eq)]
pub struct BanSets {
    /// Family of the table.
    pub family: Family,
    /// Name of the table.
    pub table: String,
    /// Set for IPv4 addresses.
    pub set4: String,
    /// Set for IPv6 addresses.
    pub set6: String,
}

impl BanSets {
    /// The sets of the given nft table spec (e.g. `"inet filter"`) with the given names.
    #[must_use]
    pub fn new(table: &str, set4: String, set6: String) -> (r: Self)
        ensures
            r.family == family_of(table@),
            r.table@ == table_of(table@),
            r.set4@ == set4@,
            r.set6@ == set6@,
    {
        let all = chars::chars_of(table);
        let (first, second) = chars::split_two_words(all.as_slice());
        let family = if chars::is(first, "ip") {
            Family::Ipv4
        } else if chars::is(first, "ip6") {
            Family::Ipv6
        } else {
            Family::Inet
        };
        let table = if second.len() == 0 {
            "filter".to_owned()
        } else {
            chars::string_of(second)
        };
        BanSets { family, table, set4, set6 }
    }

    /// The set for an address.
    #[must_use]
    pub fn set_for(&self, ip: IpAddr) -> (r: &str)
        ensures
            r@ == (match ip@ {
                IpView::V4(_) => self.set4@,
                IpView::V6(_) => self.set6@,
            }),
    {
        match ip {
            IpAddr::V4(_) => self.set4.as_str(),
            IpAddr::V6(_) => self.set6.as_str(),
        }
    }
}

} // verus!
