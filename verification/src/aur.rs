//! The remote package index's data as the engine sees it: one metadata
//! record per package. The network client that fills such records lives
//! outside the library; the engine only reads them (the update evaluator
//! reads the version).

use vstd::prelude::*;
use vstd::string::*;

verus! {

/// One package's metadata as the remote index reports it.
pub struct AurPackage {
    pub name: String,
    pub version: String,
    pub description: Option<String>,
    pub url: Option<String>,
    pub maintainer: Option<String>,
    pub num_votes: u32,
    pub first_submitted: u64,
    pub last_modified: u64,
}

/// The remote index queried when no configuration overrides it.
pub fn default_aur_base_url() -> (r: String)
    ensures
        r@ == "https://aur.archlinux.org"@,
{
    String::from_str("https://aur.archlinux.org")
}

} // verus!
