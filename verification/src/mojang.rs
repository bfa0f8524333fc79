//! The launcher-metadata records the library itself holds: plain values only.
//! The catalog entries that carry URLs and checksums live with the HTTP
//! client outside this crate.

use vstd::prelude::*;

verus! {

/// One launcher build named by the catalog.
pub struct LauncherAsset {
    pub commit: String,
    pub name: String,
}

/// The launcher version block of a catalog entry.
pub struct Versions {
    pub launcher: LauncherAsset,
}

/// The fixed catalog location the launcher metadata is fetched from.
pub fn mojang_launcher_url() -> (r: String)
    ensures
        r@ == "https://launchermeta.mojang.com/mc/launcher.json"@,
{
    "https://launchermeta.mojang.com/mc/launcher.json".to_owned()
}

} // verus!
