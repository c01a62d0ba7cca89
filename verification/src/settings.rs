use vstd::prelude::*;

verus! {

/// One profile's connection settings: an API credential, the organization the
/// credential acts in, and the server's base URL.
///
/// The organization identifier is held as the 128-bit value of the UUID it is
/// displayed as; the all-zero value is the nil identifier.  Equality of
/// settings is structural: all three fields agree.
#[derive(Debug, Clone, PartialEq, Eq)]
pub struct TrieveConfiguration {
    pub api_key: String,
    pub organization_id: u128,
    pub api_url: String,
}

/// Structural equality of two settings values, at the level of their contents.
pub open spec fn settings_equal(a: TrieveConfiguration, b: TrieveConfiguration) -> bool {
    a.api_key@ == b.api_key@ && a.organization_id == b.organization_id && a.api_url@ == b.api_url@
}

/// A profile never produced by a successful login: its credential is empty and
/// its organization identifier is nil.  Such profiles may be overwritten
/// without confirmation.
pub open spec fn spec_unprovisioned(s: TrieveConfiguration) -> bool {
    s.api_key@.len() == 0 && s.organization_id == 0
}

impl TrieveConfiguration {
    /// Assembles a settings value from its parts.
    pub fn new(api_key: String, organization_id: u128, api_url: String) -> (r: Self)
        ensures
            r.api_key == api_key,
            r.organization_id == organization_id,
            r.api_url == api_url,
    {
        TrieveConfiguration { api_key, organization_id, api_url }
    }

    /// An exact copy; unlike the derived `Clone`, its effect is visible to
    /// callers' proofs.
    pub fn duplicate(&self) -> (r: Self)
        ensures
            r == *self,
    {
        TrieveConfiguration {
            api_key: self.api_key.clone(),
            organization_id: self.organization_id,
            api_url: self.api_url.clone(),
        }
    }

    /// Structural equality test, content by content.
    pub fn same_settings(&self, other: &TrieveConfiguration) -> (r: bool)
        ensures
            r == settings_equal(*self, *other),
    {
        self.api_key == other.api_key && self.organization_id == other.organization_id
            && self.api_url == other.api_url
    }

    /// Whether these settings mark the profile as never provisioned by a login.
    pub fn is_unprovisioned(&self) -> (r: bool)
        ensures
            r == spec_unprovisioned(*self),
    {
        self.api_key.as_str().is_empty() && self.organization_id == 0
    }
}

impl Default for TrieveConfiguration {
    /// Empty credential, nil organization, and the hosted server's URL.
    fn default() -> (r: Self)
        ensures
            r.api_key@ == Seq::<char>::empty(),
            r.organization_id == 0,
            r.api_url@ == "https://api.trieve.ai"@,
            spec_unprovisioned(r),
    {
        TrieveConfiguration {
            api_key: String::new(),
            organization_id: 0,
            api_url: "https://api.trieve.ai".to_owned(),
        }
    }
}

} // verus!
