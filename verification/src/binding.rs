//! A process bound to a listening port, and its mathematical view.

use vstd::prelude::*;

verus! {

/// One process listening on one port, as a scan saw it.
#[derive(Debug, PartialEq, Eq)]
pub struct PortBinding {
    /// Process identifier.
    pub pid: u32,
    /// Name of the process.
    pub name: String,
    /// Port the process listens on.
    pub port: u16,
    /// Command line of the process, empty where it could not be had.
    pub command: String,
}

/// What a `PortBinding` stands for: its numbers, and its texts as sequences of
/// characters.
pub struct Binding {
    pub pid: u32,
    pub name: Seq<char>,
    pub port: u16,
    pub command: Seq<char>,
}

impl View for PortBinding {
    type V = Binding;

    open spec fn view(&self) -> Binding {
        Binding { pid: self.pid, name: self.name@, port: self.port, command: self.command@ }
    }
}

impl Clone for PortBinding {
    fn clone(&self) -> (copy: PortBinding)
        ensures
            copy@ == self@,
    {
        PortBinding {
            pid: self.pid,
            name: self.name.clone(),
            port: self.port,
            command: self.command.clone(),
        }
    }
}

/// The views of a sequence of bindings, in the same order.
pub open spec fn views(bindings: Seq<PortBinding>) -> Seq<Binding> {
    Seq::new(bindings.len(), |i: int| bindings[i]@)
}

/// The view of a binding that may be absent.
pub open spec fn view_of(binding: Option<PortBinding>) -> Option<Binding> {
    match binding {
        Some(b) => Some(b@),
        None => None,
    }
}

/// The view of a borrowed binding that may be absent.
pub open spec fn view_of_ref(binding: Option<&PortBinding>) -> Option<Binding> {
    match binding {
        Some(b) => Some(b@),
        None => None,
    }
}

/// Appending a binding appends its view.
pub proof fn lemma_views_push(bindings: Seq<PortBinding>, binding: PortBinding)
    ensures
        views(bindings.push(binding)) == views(bindings).push(binding@),
{
    assert(views(bindings.push(binding)) =~= views(bindings).push(binding@));
}

} // verus!
