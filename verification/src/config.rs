use vstd::prelude::*;
use std::collections::HashMap;

verus! {

/// Per-run configuration: free-form settings and an optional custom command.
pub struct Config {
    pub settings: HashMap<String, String>,
    pub custom_command: Vec<String>,
}

impl Default for Config {
    fn default() -> (c: Config)
        ensures
            c.custom_command@ == Seq::<String>::empty(),
            c.settings@.dom() == Set::<String>::empty(),
    {
        Config { settings: HashMap::new(), custom_command: Vec::new() }
    }
}

impl Config {
    pub fn new() -> (c: Config)
        ensures
            c.custom_command@ == Seq::<String>::empty(),
            c.settings@.dom() == Set::<String>::empty(),
    {
        Config::default()
    }
}

} // verus!
