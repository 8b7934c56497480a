//! Where the config file is looked for. Reading and parsing it is the
//! caller's part.
use vstd::prelude::*;
use vstd::string::*;

verus! {

/// The places a config file is looked for, in order.
pub open spec fn candidates() -> Seq<Seq<char>> {
    seq!["mcpify.yaml"@, "mcpify.yml"@, ".mcpify/mcpify.yaml"@]
}

pub fn config_candidates() -> (r: Vec<&'static str>)
    ensures
        r@.map_values(|s: &str| s@) == candidates(),
{
    let mut r: Vec<&'static str> = Vec::new();
    r.push("mcpify.yaml");
    r.push("mcpify.yml");
    r.push(".mcpify/mcpify.yaml");
    proof {
        assert(r@.map_values(|s: &str| s@) =~= candidates());
    }
    r
}

/// Index of the first candidate at or after `i` that exists.
pub open spec fn first_present(present: Seq<bool>, i: int) -> Option<int>
    decreases 3 - i,
{
    if i < 0 || i >= 3 {
        None
    } else if i < present.len() && present[i] {
        Some(i)
    } else {
        first_present(present, i + 1)
    }
}

/// The config file to use, given which of the candidates exist
/// (`present[i]` for candidate `i`): the first that does.
pub fn find_config_file(present: &Vec<bool>) -> (r: Result<String, String>)
    ensures
        match first_present(present@, 0) {
            Some(i) => r matches Ok(p) && p@ == candidates()[i],
            None => r matches Err(m) && m@ == "config file not found; tried: mcpify.yaml, mcpify.yml, .mcpify/mcpify.yaml"@,
        },
{
    let c = config_candidates();
    proof {
        assert(c@.map_values(|s: &str| s@).len() == c@.len());
    }
    let mut i: usize = 0;
    while i < 3
        invariant
            i <= 3,
            c@.len() == 3,
            c@.map_values(|s: &str| s@) == candidates(),
            first_present(present@, 0) == first_present(present@, i as int),
        decreases 3 - i,
    {
        if i < present.len() && present[i] {
            proof {
                assert(c@.map_values(|s: &str| s@)[i as int] == c@[i as int]@);
            }
            return Ok(String::from_str(c[i]));
        }
        i = i + 1;
    }
    Err(String::from_str("config file not found; tried: mcpify.yaml, mcpify.yml, .mcpify/mcpify.yaml"))
}

} // verus!
