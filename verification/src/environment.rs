//! The surroundings of the process, as a value: its variables and where
//! temporary files go.

use crate::ordered::OrderedMap;
use crate::text::opt_text;
use vstd::prelude::*;

verus! {

/// The variables of the process whose values are text, and the directory for
/// temporary files.
pub struct Environment {
    pub vars: OrderedMap<String>,
    pub temp_dir: String,
}

/// The value of a variable.
pub open spec fn env_value(env: Environment, name: Seq<char>) -> Option<Seq<char>> {
    if env.vars@.contains_key(name) {
        Some(env.vars@[name]@)
    } else {
        None
    }
}

impl Environment {
    /// The surroundings without variables.
    pub fn new(temp_dir: &str) -> (r: Environment)
        ensures
            r.temp_dir@ == temp_dir@,
            forall|name: Seq<char>| env_value(r, name) is None,
    {
        Environment { vars: OrderedMap::new(), temp_dir: temp_dir.to_string() }
    }

    /// The surroundings with a variable set.
    pub fn with_var(self, name: &str, value: &str) -> (r: Environment)
        ensures
            r.temp_dir@ == self.temp_dir@,
            env_value(r, name@) == Some(value@),
            forall|other: Seq<char>|
                other != name@ ==> #[trigger] env_value(r, other) == env_value(self, other),
    {
        let mut env = self;
        let _ = env.vars.insert(name.to_string(), value.to_string());
        env
    }

    /// The value of a variable.
    pub fn var(&self, name: &str) -> (r: Option<String>)
        ensures
            opt_text(r) == env_value(*self, name@),
    {
        match self.vars.get(name) {
            Some(value) => Some(value.clone()),
            None => None,
        }
    }
}

} // verus!
