//! The allowed-choices whitelist of a race.
use vstd::prelude::*;
use crate::text::text_eq;

verus! {

/// The choices a race allows.
#[derive(Clone, Debug)]
pub struct Schema {
    pub allowed: Vec<String>,
}

impl View for Schema {
    type V = Seq<Seq<char>>;

    open spec fn view(&self) -> Seq<Seq<char>> {
        self.allowed@.map_values(|s: String| s@)
    }
}

impl Schema {
    /// Whether `choice` is one of the allowed choices.
    pub fn allows(&self, choice: &str) -> (r: bool)
        ensures
            r == self@.contains(choice@),
    {
        let mut i: usize = 0;
        while i < self.allowed.len()
            invariant
                i <= self.allowed.len(),
                forall|k: int| 0 <= k < i ==> self.allowed@[k]@ != choice@,
            decreases self.allowed.len() - i,
        {
            if text_eq(self.allowed[i].as_str(), choice) {
                assert(self@[i as int] == choice@);
                return true;
            }
            i = i + 1;
        }
        proof {
            if self@.contains(choice@) {
                let k = choose|k: int| 0 <= k < self@.len() && self@[k] == choice@;
                assert(self.allowed@[k]@ == choice@);
            }
        }
        false
    }
}

} // verus!
