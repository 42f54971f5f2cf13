//! Provider identities and their stored names.
use vstd::prelude::*;

use crate::text::chars_of;
use crate::clean::eq_str;

verus! {

#[derive(Debug, Clone, Copy, PartialEq, Eq, Hash, Structural)]
pub enum ProviderKind {
    Zee5,
    Jio,
    IptvOrg,
    SonyLiv,
    Unknown,
}

/// The stored name of each provider kind.
pub open spec fn kind_name(k: ProviderKind) -> Seq<char> {
    match k {
        ProviderKind::Zee5 => "zee5"@,
        ProviderKind::Jio => "jio"@,
        ProviderKind::IptvOrg => "iptv_org"@,
        ProviderKind::SonyLiv => "sonyliv"@,
        ProviderKind::Unknown => "unknown"@,
    }
}

/// The provider kind a stored name stands for; any other name is `Unknown`.
pub open spec fn kind_from_name(s: Seq<char>) -> ProviderKind {
    if s == "zee5"@ {
        ProviderKind::Zee5
    } else if s == "jio"@ {
        ProviderKind::Jio
    } else if s == "iptv_org"@ {
        ProviderKind::IptvOrg
    } else if s == "sonyliv"@ {
        ProviderKind::SonyLiv
    } else {
        ProviderKind::Unknown
    }
}

impl ProviderKind {
    pub fn as_str(&self) -> (res: &'static str)
        ensures
            res@ == kind_name(*self),
    {
        match self {
            ProviderKind::Zee5 => "zee5",
            ProviderKind::Jio => "jio",
            ProviderKind::IptvOrg => "iptv_org",
            ProviderKind::SonyLiv => "sonyliv",
            ProviderKind::Unknown => "unknown",
        }
    }
}

/// Reads back a provider kind from its stored name.
pub fn provider_kind_from_str(value: &str) -> (res: ProviderKind)
    ensures
        res == kind_from_name(value@),
{
    let v = chars_of(value);
    if eq_str(&v, "zee5") {
        ProviderKind::Zee5
    } else if eq_str(&v, "jio") {
        ProviderKind::Jio
    } else if eq_str(&v, "iptv_org") {
        ProviderKind::IptvOrg
    } else if eq_str(&v, "sonyliv") {
        ProviderKind::SonyLiv
    } else {
        ProviderKind::Unknown
    }
}

/// Reading back the stored name of a kind gives the kind again.
pub proof fn law_kind_name_round_trip(k: ProviderKind)
    ensures
        kind_from_name(kind_name(k)) == k,
{
    reveal_strlit("zee5");
    reveal_strlit("jio");
    reveal_strlit("iptv_org");
    reveal_strlit("sonyliv");
    reveal_strlit("unknown");
    assert("zee5"@[0] == 'z' && "jio"@[0] == 'j' && "iptv_org"@[0] == 'i' && "sonyliv"@[0] == 's'
        && "unknown"@[0] == 'u');
    match k {
        ProviderKind::Zee5 => {},
        ProviderKind::Jio => {
            assert("jio"@ != "zee5"@);
        },
        ProviderKind::IptvOrg => {
            assert("iptv_org"@ != "zee5"@);
            assert("iptv_org"@ != "jio"@);
        },
        ProviderKind::SonyLiv => {
            assert("sonyliv"@ != "zee5"@);
            assert("sonyliv"@ != "jio"@);
            assert("sonyliv"@ != "iptv_org"@);
        },
        ProviderKind::Unknown => {
            assert("unknown"@ != "zee5"@);
            assert("unknown"@ != "jio"@);
            assert("unknown"@ != "iptv_org"@);
            assert("unknown"@ != "sonyliv"@);
        },
    }
}

pub struct ProviderInfo {
    pub kind: ProviderKind,
    pub name: String,
    pub enabled: bool,
    pub base_url: Option<String>,
    pub priority: u8,
}

impl ProviderInfo {
    /// An enabled provider with no base URL and priority 100.
    pub fn new(kind: ProviderKind, name: &str) -> (res: Self)
        ensures
            res.kind == kind,
            res.name@ == name@,
            res.enabled,
            res.base_url is None,
            res.priority == 100,
    {
        ProviderInfo { kind, name: String::from_str(name), enabled: true, base_url: None, priority: 100 }
    }
}

} // verus!
