//! The program's version line and the capabilities built into it.

use vstd::prelude::*;
use vstd::string::StringExecFns;

verus! {

/// The one-line version banner: program name, version, and the enabled
/// capabilities.
pub fn get_version() -> (r: String)
    ensures
        r@ == "ehdl v0.1.0 w/aniyomi,zip,config,cli"@,
{
    String::from_str("ehdl v0.1.0 w/aniyomi,zip,config,cli")
}

/// The capabilities this build carries, in a fixed order.
pub fn get_features() -> (r: Vec<String>)
    ensures
        r@.map_values(|s: String| s@) == seq!["aniyomi"@, "zip"@, "config"@, "cli"@],
{
    let mut v: Vec<String> = Vec::new();
    v.push(String::from_str("aniyomi"));
    v.push(String::from_str("zip"));
    v.push(String::from_str("config"));
    v.push(String::from_str("cli"));
    proof {
        assert(v@.map_values(|s: String| s@) =~= seq!["aniyomi"@, "zip"@, "config"@, "cli"@]);
    }
    v
}

} // verus!
