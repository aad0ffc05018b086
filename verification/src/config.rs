//! The filter configuration: the range of ports to show and the process names
//! to leave out.

use crate::sequences::lemma_filter_none;
use vstd::prelude::*;

verus! {

/// Which bindings the operator wants to see.
#[derive(Debug, PartialEq, Eq)]
pub struct Config {
    /// Lowest port to display (inclusive).
    pub min_port: u16,
    /// Highest port to display (inclusive).
    pub max_port: u16,
    /// Texts that exclude every process whose name holds one of them.
    pub filtered_process_names: Vec<String>,
}

/// What a `Config` stands for.
pub struct FilterConfig {
    pub min_port: u16,
    pub max_port: u16,
    pub excluded: Seq<Seq<char>>,
}

/// The test that an entry is another text than `name`.
pub open spec fn differs_from(name: Seq<char>) -> spec_fn(Seq<char>) -> bool {
    |entry: Seq<char>| entry != name
}

/// The test that an entry is the text `name`.
pub open spec fn same_as(name: Seq<char>) -> spec_fn(Seq<char>) -> bool {
    |entry: Seq<char>| entry == name
}

/// The texts of a sequence of strings, in the same order.
pub open spec fn texts(names: Seq<String>) -> Seq<Seq<char>> {
    Seq::new(names.len(), |i: int| names[i]@)
}

impl FilterConfig {
    /// The port range is not inverted.
    pub open spec fn valid(self) -> bool {
        self.min_port <= self.max_port
    }

    /// The configuration with `name` excluded: added at the end, unless it is
    /// excluded already.
    pub open spec fn with(self, name: Seq<char>) -> FilterConfig {
        if self.excluded.contains(name) {
            self
        } else {
            FilterConfig { excluded: self.excluded.push(name), ..self }
        }
    }

    /// The configuration with every entry equal to `name` taken out; the others
    /// keep their order.
    pub open spec fn without(self, name: Seq<char>) -> FilterConfig {
        FilterConfig { excluded: self.excluded.filter(differs_from(name)), ..self }
    }

    /// The configuration of a first start: the unprivileged registered ports,
    /// without two names that are always noise.
    pub open spec fn initial() -> FilterConfig {
        FilterConfig { min_port: 1024, max_port: 49151, excluded: seq!["Browser"@, "ControlCE"@] }
    }
}

impl View for Config {
    type V = FilterConfig;

    open spec fn view(&self) -> FilterConfig {
        FilterConfig {
            min_port: self.min_port,
            max_port: self.max_port,
            excluded: texts(self.filtered_process_names@),
        }
    }
}

impl Default for Config {
    fn default() -> (config: Config)
        ensures
            config@ == FilterConfig::initial(),
    {
        let mut names: Vec<String> = Vec::new();
        names.push("Browser".to_owned());
        names.push("ControlCE".to_owned());
        let config = Config { min_port: 1024, max_port: 49151, filtered_process_names: names };
        assert(config@.excluded =~= FilterConfig::initial().excluded);
        config
    }
}

impl Clone for Config {
    fn clone(&self) -> (copy: Config)
        ensures
            copy@ == self@,
    {
        let n = self.filtered_process_names.len();
        let mut names: Vec<String> = Vec::new();
        let mut i: usize = 0;
        while i < n
            invariant
                i <= n == self.filtered_process_names.len(),
                names.len() == i,
                forall|k: int| 0 <= k < i ==> names@[k] == self.filtered_process_names@[k],
            decreases n - i,
        {
            names.push(self.filtered_process_names[i].clone());
            i += 1;
        }
        let copy = Config {
            min_port: self.min_port,
            max_port: self.max_port,
            filtered_process_names: names,
        };
        assert(copy@.excluded =~= self@.excluded);
        copy
    }
}

impl Config {
    /// The configuration to start with, given what was stored: the stored one
    /// as it is, or the initial one where nothing was stored. The flag tells
    /// whether the configuration is new and has to be stored.
    pub fn load(stored: Option<Config>) -> (loaded: (Config, bool))
        ensures
            stored matches Some(config) ==> loaded.0 == config && !loaded.1,
            stored is None ==> loaded.0@ == FilterConfig::initial() && loaded.1,
    {
        match stored {
            Some(config) => (config, false),
            None => (Config::default(), true),
        }
    }

    /// Tells whether `process_name` is one of the excluded names.
    pub fn is_filtered(&self, process_name: &String) -> (found: bool)
        ensures
            found == self@.excluded.contains(process_name@),
    {
        let n = self.filtered_process_names.len();
        let mut i: usize = 0;
        while i < n
            invariant
                i <= n == self.filtered_process_names.len(),
                forall|k: int| 0 <= k < i ==> self@.excluded[k] != process_name@,
            decreases n - i,
        {
            if self.filtered_process_names[i] == *process_name {
                assert(self@.excluded[i as int] == process_name@);
                return true;
            }
            i += 1;
        }
        false
    }

    /// Excludes `process_name`, unless it is excluded already. Tells whether
    /// the configuration changed, and so has to be stored again.
    pub fn add_filtered_process(&mut self, process_name: String) -> (added: bool)
        ensures
            final(self)@ == old(self)@.with(process_name@),
            added == !old(self)@.excluded.contains(process_name@),
    {
        if self.is_filtered(&process_name) {
            false
        } else {
            self.filtered_process_names.push(process_name);
            assert(self@.excluded =~= old(self)@.excluded.push(process_name@));
            true
        }
    }

    /// Takes every entry equal to `process_name` out of the excluded names.
    /// The configuration has to be stored again afterwards.
    pub fn remove_filtered_process(&mut self, process_name: &str)
        ensures
            final(self)@ == old(self)@.without(process_name@),
    {
        let target = process_name.to_owned();
        let n = self.filtered_process_names.len();
        let ghost before = self@.excluded;
        let ghost differs = differs_from(process_name@);
        let mut kept: Vec<String> = Vec::new();
        let mut i: usize = 0;
        assert(before.take(0).filter(differs) =~= Seq::<Seq<char>>::empty()) by {
            reveal(Seq::filter);
        }
        while i < n
            invariant
                i <= n == self.filtered_process_names.len(),
                before == texts(self.filtered_process_names@),
                target@ == process_name@,
                differs == differs_from(process_name@),
                texts(kept@) == before.take(i as int).filter(differs),
            decreases n - i,
        {
            proof {
                reveal(Seq::filter);
                assert(before.take(i + 1).drop_last() =~= before.take(i as int));
            }
            if self.filtered_process_names[i] != target {
                let ghost entry = self.filtered_process_names@[i as int];
                kept.push(self.filtered_process_names[i].clone());
                assert(texts(kept@) =~= before.take(i as int).filter(differs).push(entry@));
            }
            i += 1;
        }
        assert(before.take(n as int) =~= before);
        self.filtered_process_names = kept;
    }
}

/// Excluding a name that is excluded already changes nothing, so excluding it
/// twice is the same as excluding it once; and after excluding it, it is
/// excluded.
pub proof fn lemma_with_once(config: FilterConfig, name: Seq<char>)
    ensures
        config.with(name).excluded.contains(name),
        config.with(name).with(name) == config.with(name),
        !config.excluded.contains(name) ==> config.with(name).excluded.filter(same_as(name))
            == seq![name],
{
    let same = same_as(name);
    if !config.excluded.contains(name) {
        let grown = config.excluded.push(name);
        assert(grown[config.excluded.len() as int] == name);
        assert(grown.drop_last() =~= config.excluded);
        lemma_filter_none(config.excluded, same);
        reveal(Seq::filter);
        assert(grown.filter(same) =~= seq![name]);
    }
}

/// After taking a name out it is excluded no longer, and the other entries
/// are the ones that were there.
pub proof fn lemma_without_gone(config: FilterConfig, name: Seq<char>)
    ensures
        !config.without(name).excluded.contains(name),
        forall|entry: Seq<char>|
            entry != name ==> (#[trigger] config.without(name).excluded.contains(entry)
                <==> config.excluded.contains(entry)),
        config.without(name).excluded.len() <= config.excluded.len(),
{
    let differs = differs_from(name);
    let left = config.excluded.filter(differs);
    config.excluded.lemma_filter_len(differs);
    if left.contains(name) {
        let i = choose|i: int| 0 <= i < left.len() && left[i] == name;
        config.excluded.lemma_filter_pred(differs, i);
    }
    assert forall|entry: Seq<char>| entry != name implies (#[trigger] left.contains(entry)
        <==> config.excluded.contains(entry)) by {
        if left.contains(entry) {
            config.excluded.lemma_filter_contains_rev(differs, entry);
        }
        if config.excluded.contains(entry) {
            let i = choose|i: int| 0 <= i < config.excluded.len() && config.excluded[i] == entry;
            config.excluded.lemma_filter_contains(differs, i);
        }
    }
}

} // verus!
