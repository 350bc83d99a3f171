//! The in-memory module artifact (a DNA): bytecode identity plus the declared
//! callable surface, and the loader capability that materializes one from a
//! file reference.

use vstd::prelude::*;

use crate::error::ConfigError;

verus! {

/// A named group of callable functions a module publishes.
#[derive(Debug, Clone, PartialEq, Eq)]
pub struct Capability {
    pub name: String,
    pub functions: Vec<String>,
}

/// An in-memory module artifact: its name, a uuid, and the declared surface
/// (function names grouped by capability). The bytecode itself is opaque to
/// the container and stays with the execution engine.
#[derive(Debug, Clone, PartialEq, Eq)]
pub struct Dna {
    pub name: String,
    pub uuid: String,
    pub capabilities: Vec<Capability>,
}

/// Whether the module's surface declares `function` under `capability`.
pub open spec fn dna_declares(d: Dna, capability: Seq<char>, function: Seq<char>) -> bool {
    exists|i: int, j: int|
        0 <= i < d.capabilities@.len() && 0 <= j < (#[trigger] d.capabilities@[i]).functions@.len()
            && d.capabilities@[i].name@ == capability && (#[trigger] d.capabilities@[i].functions@[j]@)
            == function
}

impl Dna {
    /// Whether the module's surface declares `function` under `capability`.
    pub fn declares(&self, capability: &str, function: &str) -> (r: bool)
        ensures
            r == dna_declares(*self, capability@, function@),
    {
        let mut i: usize = 0;
        while i < self.capabilities.len()
            invariant
                i <= self.capabilities@.len(),
                forall|a: int, b: int|
                    0 <= a < i && 0 <= b < (#[trigger] self.capabilities@[a]).functions@.len()
                        ==> !(self.capabilities@[a].name@ == capability@ && (
                    #[trigger] self.capabilities@[a].functions@[b]@) == function@),
            decreases self.capabilities@.len() - i,
        {
            if crate::strutil::str_eq(self.capabilities[i].name.as_str(), capability) {
                let cap = &self.capabilities[i];
                let mut j: usize = 0;
                while j < cap.functions.len()
                    invariant
                        i < self.capabilities@.len(),
                        *cap == self.capabilities@[i as int],
                        self.capabilities@[i as int].name@ == capability@,
                        j <= cap.functions@.len(),
                        forall|b: int|
                            0 <= b < j ==> (#[trigger] self.capabilities@[i as int].functions@[b]@)
                                != function@,
                    decreases cap.functions@.len() - j,
                {
                    if crate::strutil::str_eq(cap.functions[j].as_str(), function) {
                        proof {
                            assert(self.capabilities@[i as int].functions@[j as int]@
                                == function@);
                        }
                        return true;
                    }
                    j += 1;
                }
            }
            i += 1;
        }
        false
    }
}

/// The module loader: the one replaceable collaborator that turns a file
/// reference into a module artifact. The default implementation reads the
/// filesystem and therefore lives outside the library; tests supply
/// synthetic artifacts keyed by path.
pub trait DnaLoader {
    /// Resolve `file` to an artifact, or fail with a `ConfigError`.
    fn load_dna(&mut self, file: &str) -> Result<Dna, ConfigError>;
}

} // verus!
