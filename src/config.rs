use vstd::prelude::*;

pub mod alias;
pub mod local;

verus! {

/// `<base>/config`, where the alias document lives.
pub fn get_config_dir(base: &str) -> (r: String)
    ensures
        r@ == base@ + "/config"@,
{
    let mut r = String::from_str(base);
    r.append("/config");
    r
}

} // verus!
