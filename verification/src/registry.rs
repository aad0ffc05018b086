//! The registry: owns the display list that the last successful refresh
//! produced.

use crate::binding::{views, Binding, PortBinding};
use crate::config::Config;
use crate::filter::{apply, display_list};
use crate::scanner::ScanFailure;
use vstd::prelude::*;

verus! {

/// The current display list. It is replaced as a whole by every successful
/// refresh and never patched in place.
#[derive(Debug, PartialEq, Eq)]
pub struct Registry {
    list: Vec<PortBinding>,
}

impl View for Registry {
    type V = Seq<Binding>;

    closed spec fn view(&self) -> Seq<Binding> {
        views(self.list@)
    }
}

impl Registry {
    /// A registry that has not been refreshed yet: its list is empty.
    pub fn new() -> (registry: Registry)
        ensures
            registry@ == Seq::<Binding>::empty(),
    {
        let registry = Registry { list: Vec::new() };
        assert(registry@ =~= Seq::<Binding>::empty());
        registry
    }

    /// Takes in the result of a scan. A successful scan replaces the list by
    /// the display list of its bindings under `config`. A failed scan is
    /// handed on as it is and leaves the registry untouched: no stale or
    /// partial list is put in its place.
    pub fn refresh(&mut self, scan: Result<Vec<PortBinding>, ScanFailure>, config: &Config) -> (done:
        Result<(), ScanFailure>)
        ensures
            match scan {
                Ok(bindings) => done is Ok && final(self)@ == display_list(
                    views(bindings@),
                    config@,
                ),
                Err(failure) => done == Err::<(), ScanFailure>(failure) && *final(self) == *old(self),
            },
    {
        match scan {
            Ok(bindings) => {
                self.list = apply(&bindings, config);
                Ok(())
            },
            Err(failure) => Err(failure),
        }
    }

    /// The display list.
    pub fn list(&self) -> (list: &Vec<PortBinding>)
        ensures
            views(list@) == self@,
    {
        &self.list
    }

    /// The number of bindings in the display list.
    pub fn len(&self) -> (len: usize)
        ensures
            len == self@.len(),
    {
        self.list.len()
    }

    /// The binding at place `index` of the display list.
    pub fn get(&self, index: usize) -> (binding: Option<&PortBinding>)
        ensures
            index < self@.len() ==> (binding matches Some(b) && b@ == self@[index as int]),
            index >= self@.len() ==> binding is None,
    {
        if index < self.list.len() {
            Some(&self.list[index])
        } else {
            None
        }
    }
}

} // verus!
