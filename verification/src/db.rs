//! The keyed properties of the store, and what an election's entry in it
//! must hold.

use vstd::prelude::*;

verus! {

/// A keyed property of the store.
#[derive(Clone, Copy, Debug, PartialEq, Eq, Structural)]
pub enum Property {
    /// The tallier's base address.
    Url,
    /// The election, as JSON.
    Election,
    /// The wallet's key.
    Key,
    /// The height up to which reference data was downloaded.
    Height,
    /// The root of the commitment tree, in hexadecimal.
    CmxRoot,
    /// The root of the nullifier tree, in hexadecimal.
    NfRoot,
    /// The address of the light-wallet server.
    Lwd,
}

/// Why the store cannot be read.
#[derive(Clone, Copy, Debug, PartialEq, Eq, Structural)]
pub enum StoreError {
    /// A property that must be there is not.
    MissingProperty(Property),
}

/// What the store holds of an election.
#[derive(Clone, Debug, PartialEq, Eq)]
pub struct StoredElection {
    /// The tallier's base address.
    pub url: String,
    /// The election, as JSON.
    pub election: String,
    /// The wallet's key.
    pub key: String,
}

impl Property {
    /// The name under which the property is stored.
    pub open spec fn spec_name(self) -> Seq<char> {
        match self {
            Property::Url => "url"@,
            Property::Election => "election"@,
            Property::Key => "key"@,
            Property::Height => "height"@,
            Property::CmxRoot => "cmx_root"@,
            Property::NfRoot => "nf_root"@,
            Property::Lwd => "lwd"@,
        }
    }

    /// The name under which the property is stored.
    pub fn name(&self) -> (n: &'static str)
        ensures
            n@ == self.spec_name(),
    {
        match self {
            Property::Url => "url",
            Property::Election => "election",
            Property::Key => "key",
            Property::Height => "height",
            Property::CmxRoot => "cmx_root",
            Property::NfRoot => "nf_root",
            Property::Lwd => "lwd",
        }
    }
}

/// The properties to write for an election, in the order in which they are
/// written: the address, the election, the key.
pub fn store_election(url: &str, election: &str, key: &str) -> (r: Vec<(Property, String)>)
    ensures
        r@.len() == 3,
        r@[0].0 == Property::Url && r@[0].1@ == url@,
        r@[1].0 == Property::Election && r@[1].1@ == election@,
        r@[2].0 == Property::Key && r@[2].1@ == key@,
{
    let mut r: Vec<(Property, String)> = Vec::new();
    r.push((Property::Url, url.to_owned()));
    r.push((Property::Election, election.to_owned()));
    r.push((Property::Key, key.to_owned()));
    r
}

/// The election's entry from the three properties as they were read. Each
/// must be there; the first that is missing, in the order address, election,
/// key, is the error.
pub fn load_election(url: Option<String>, election: Option<String>, key: Option<String>) -> (r:
    Result<StoredElection, StoreError>)
    ensures
        match r {
            Ok(e) => url == Some(e.url) && election == Some(e.election) && key == Some(e.key),
            Err(e) => e == StoreError::MissingProperty(
                if url.is_none() {
                    Property::Url
                } else if election.is_none() {
                    Property::Election
                } else {
                    Property::Key
                },
            ) && (url.is_none() || election.is_none() || key.is_none()),
        },
{
    let url = match url {
        Some(u) => u,
        None => {
            return Err(StoreError::MissingProperty(Property::Url));
        },
    };
    let election = match election {
        Some(e) => e,
        None => {
            return Err(StoreError::MissingProperty(Property::Election));
        },
    };
    let key = match key {
        Some(k) => k,
        None => {
            return Err(StoreError::MissingProperty(Property::Key));
        },
    };
    Ok(StoredElection { url, election, key })
}

} // verus!
