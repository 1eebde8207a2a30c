//! The MapleStory regions whose WZ files differ by their encryption IV.
use vstd::prelude::*;
use crate::crypto::{WZ_BMSCLASSIC_IV, WZ_GMSIV, WZ_MSEAIV};
use crate::typed::{unicode_lowercase, lowercase};
use crate::text::{str_chars, chars_eq, push_all, string_from_chars};

verus! {

/// A region's WZ encryption.
#[derive(Clone, Copy, Debug, PartialEq, Eq, Structural)]
pub enum WzMapleVersion {
    /// Global MapleStory.
    Gms,
    /// Europe and MapleSEA.
    Ems,
    /// BMS, Classic and the other regions with the all-zero IV.
    Bms,
}

impl WzMapleVersion {
    /// The IV of the region's key stream.
    pub open spec fn spec_iv(self) -> [u8; 4] {
        match self {
            WzMapleVersion::Gms => WZ_GMSIV,
            WzMapleVersion::Ems => WZ_MSEAIV,
            WzMapleVersion::Bms => WZ_BMSCLASSIC_IV,
        }
    }

    /// The IV of the region's key stream.
    pub fn iv(&self) -> (iv: [u8; 4])
        ensures
            iv == self.spec_iv(),
    {
        match self {
            WzMapleVersion::Gms => WZ_GMSIV,
            WzMapleVersion::Ems => WZ_MSEAIV,
            WzMapleVersion::Bms => WZ_BMSCLASSIC_IV,
        }
    }
}

/// The region a name stands for, case-insensitively: `gms`; `ems` or
/// `msea`; `bms` or `classic`; otherwise the message naming the choices.
pub open spec fn version_outcome(name: Seq<char>) -> Result<WzMapleVersion, Seq<char>> {
    let h = unicode_lowercase(name);
    if h == "gms"@ {
        Ok(WzMapleVersion::Gms)
    } else if h == "ems"@ || h == "msea"@ {
        Ok(WzMapleVersion::Ems)
    } else if h == "bms"@ || h == "classic"@ {
        Ok(WzMapleVersion::Bms)
    } else {
        Err("Unknown version '"@ + h + "'. Use 'gms', 'ems'/'msea', or 'bms'/'classic'."@)
    }
}

fn text_is(s: &str, lit: &str) -> (r: bool)
    ensures
        r == (s@ == lit@),
{
    chars_eq(str_chars(s).as_slice(), str_chars(lit).as_slice())
}

/// The region named by `version` (see [`version_outcome`]).
pub fn version_to_maple(version: &str) -> (r: Result<WzMapleVersion, String>)
    ensures
        match version_outcome(version@) {
            Ok(v) => r matches Ok(w) && w == v,
            Err(m) => r matches Err(e) && e@ == m,
        },
{
    let h = lowercase(version);
    let hs = h.as_str();
    if text_is(hs, "gms") {
        Ok(WzMapleVersion::Gms)
    } else if text_is(hs, "ems") || text_is(hs, "msea") {
        Ok(WzMapleVersion::Ems)
    } else if text_is(hs, "bms") || text_is(hs, "classic") {
        Ok(WzMapleVersion::Bms)
    } else {
        let mut m = str_chars("Unknown version '");
        push_all(&mut m, str_chars(hs).as_slice());
        push_all(&mut m, str_chars("'. Use 'gms', 'ems'/'msea', or 'bms'/'classic'.").as_slice());
        Err(string_from_chars(m.as_slice()))
    }
}

/// The IV of the region named by `version` (see [`version_outcome`]).
pub fn version_to_iv(version: &str) -> (r: Result<[u8; 4], String>)
    ensures
        match version_outcome(version@) {
            Ok(v) => r matches Ok(iv) && iv == v.spec_iv(),
            Err(m) => r matches Err(e) && e@ == m,
        },
{
    match version_to_maple(version) {
        Ok(v) => Ok(v.iv()),
        Err(e) => Err(e),
    }
}

} // verus!
