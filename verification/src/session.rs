//! The session state machine: which screen is shown, what is selected in each
//! list, and whether the popup for a new filter is open.
//!
//! The session does no outside work itself. An intent of the operator goes in
//! through [`Session::handle`], which changes the state and names the outside
//! work that has to follow, if any. Whoever runs the session does that work
//! and hands its result back through [`Session::resume`], which again names
//! what has to follow. A failure of outside work comes back as a typed value
//! and leaves the session as it was.

use crate::binding::{views, Binding, PortBinding};
use crate::config::{lemma_with_once, Config, FilterConfig};
use crate::filter::display_list;
use crate::mutator::KillFailure;
use crate::registry::Registry;
use crate::scanner::ScanFailure;
use crate::text::{chars_of, trim, trimmed};
use vstd::prelude::*;
use vstd::string::StringExecFns;

verus! {

/// The two screens of the session.
#[derive(Debug, PartialEq, Eq, Clone, Copy, Structural)]
pub enum Screen {
    /// The display list of port bindings.
    ProcessList,
    /// The list of excluded names.
    FilterManagement,
}

/// What the operator can ask of the session.
#[derive(Debug, PartialEq, Eq, Clone, Copy, Structural)]
pub enum Intent {
    /// Switch to the other screen.
    ToggleView,
    /// Move the selection of the shown list one place up.
    NavigateUp,
    /// Move the selection of the shown list one place down.
    NavigateDown,
    /// Scan again.
    Refresh,
    /// Terminate the selected process.
    KillSelected,
    /// Take the selected name out of the excluded names.
    RemoveSelectedFilter,
    /// Exclude the name of the selected process.
    FilterSelectedProcess,
    /// Open the popup for a new excluded name.
    OpenAddFilterPopup,
    /// Close the popup and drop its input.
    CancelPopup,
    /// Type a character into the popup.
    PopupTypeChar(char),
    /// Delete the last character of the popup's input.
    PopupBackspace,
    /// Exclude the name typed into the popup and close it.
    PopupSubmit,
    /// End the session.
    Quit,
}

/// The outside work that has to follow a step of the session.
#[derive(Debug, PartialEq, Eq, Clone, Copy, Structural)]
pub enum Effect {
    /// Nothing.
    Idle,
    /// Scan the host, and resume with the result.
    Scan,
    /// Terminate the process with this identifier, and resume with the result.
    Kill(u32),
    /// Store the configuration, and resume with the result.
    Persist,
}

/// The result of outside work, handed back to the session.
#[derive(Debug, PartialEq, Eq)]
pub enum Reply {
    /// A scan ended.
    Scan(Result<Vec<PortBinding>, ScanFailure>),
    /// A kill ended.
    Kill(Result<(), KillFailure>),
    /// Storing the configuration ended, on failure with a diagnostic.
    Persist(Result<(), String>),
}

/// Outside work that failed. The session goes on after each of them.
#[derive(Debug, PartialEq, Eq)]
pub enum Failure {
    /// The scan failed; the list of the last successful scan stays.
    Scan(ScanFailure),
    /// The process was not terminated; list and selection stay.
    Kill(KillFailure),
    /// The configuration was not stored; the configuration in memory stays as
    /// it is and differs from the stored one until it is stored again.
    Persistence(String),
}

impl Failure {
    /// The message that tells the operator of the failure.
    pub open spec fn text(self) -> Seq<char> {
        match self {
            Failure::Scan(ScanFailure::Unavailable) => "Failed to execute lsof command"@,
            Failure::Scan(ScanFailure::Failed) => "lsof command failed"@,
            Failure::Scan(ScanFailure::Undecodable) => "Failed to parse lsof output as UTF-8"@,
            Failure::Kill(KillFailure::Unavailable) => "Failed to execute kill command"@,
            Failure::Kill(KillFailure::Refused(diagnostic)) => "Failed to kill process: "@
                + diagnostic@,
            Failure::Persistence(diagnostic) => diagnostic@,
        }
    }

    /// The message that tells the operator of the failure.
    pub fn message(&self) -> (text: String)
        ensures
            text@ == self.text(),
    {
        match self {
            Failure::Scan(ScanFailure::Unavailable) => "Failed to execute lsof command".to_owned(),
            Failure::Scan(ScanFailure::Failed) => "lsof command failed".to_owned(),
            Failure::Scan(ScanFailure::Undecodable) => {
                "Failed to parse lsof output as UTF-8".to_owned()
            },
            Failure::Kill(KillFailure::Unavailable) => "Failed to execute kill command".to_owned(),
            Failure::Kill(KillFailure::Refused(diagnostic)) => {
                let mut text = "Failed to kill process: ".to_owned();
                text.append(diagnostic.as_str());
                text
            },
            Failure::Persistence(diagnostic) => diagnostic.clone(),
        }
    }
}

/// A selection as a mathematical index.
pub open spec fn index_of(selection: Option<usize>) -> Option<int> {
    match selection {
        Some(i) => Some(i as int),
        None => None,
    }
}

/// A selection fits a list of `len` entries: nothing is selected exactly if
/// the list is empty, and what is selected is within the list.
pub open spec fn selection_fits(selection: Option<int>, len: int) -> bool {
    match selection {
        Some(i) => 0 <= i < len,
        None => len == 0,
    }
}

/// The selection after the list changed to `len` entries: none in an empty
/// list; the first entry where nothing was selected; the last entry where the
/// selected place is gone; else the selection as it was.
pub open spec fn repaired(selection: Option<int>, len: int) -> Option<int> {
    if len <= 0 {
        None
    } else {
        match selection {
            None => Some(0),
            Some(i) => if i >= len {
                Some(len - 1)
            } else if i < 0 {
                Some(0)
            } else {
                Some(i)
            },
        }
    }
}

/// The selection one place up, stopping at the first entry.
pub open spec fn moved_up(selection: Option<int>) -> Option<int> {
    match selection {
        Some(i) => if i > 0 {
            Some(i - 1)
        } else {
            selection
        },
        None => None,
    }
}

/// The selection one place down, stopping at the last of `len` entries.
pub open spec fn moved_down(selection: Option<int>, len: int) -> Option<int> {
    match selection {
        Some(i) => if i + 1 < len {
            Some(i + 1)
        } else {
            selection
        },
        None => None,
    }
}

/// The state of a session.
pub struct SessionState {
    /// The screen that is shown.
    pub screen: Screen,
    /// The display list.
    pub processes: Seq<Binding>,
    /// The selected place of the display list.
    pub process_selection: Option<int>,
    /// The selected place of the list of excluded names.
    pub filter_selection: Option<int>,
    /// The input of the popup, while it is open.
    pub popup: Option<Seq<char>>,
    /// The configuration in memory.
    pub config: FilterConfig,
    /// The session has ended.
    pub quit: bool,
}

impl SessionState {
    /// Both selections fit their lists.
    pub open spec fn wf(self) -> bool {
        &&& selection_fits(self.process_selection, self.processes.len() as int)
        &&& selection_fits(self.filter_selection, self.config.excluded.len() as int)
    }

    /// The state of a session that starts with `config`: the process screen,
    /// no popup, an empty display list until the first scan.
    pub open spec fn initial(config: FilterConfig) -> SessionState {
        SessionState {
            screen: Screen::ProcessList,
            processes: Seq::empty(),
            process_selection: None,
            filter_selection: repaired(None, config.excluded.len() as int),
            popup: None,
            config,
            quit: false,
        }
    }

    /// The process that `KillSelected` and `FilterSelectedProcess` act on: the
    /// selected one, while the process screen is shown.
    pub open spec fn selected_process(self) -> Option<Binding> {
        match self.process_selection {
            Some(i) => if self.screen == Screen::ProcessList && 0 <= i < self.processes.len() {
                Some(self.processes[i])
            } else {
                None
            },
            None => None,
        }
    }

    /// The name that `RemoveSelectedFilter` acts on: the selected one, while
    /// the filter screen is shown.
    pub open spec fn selected_filter(self) -> Option<Seq<char>> {
        match self.filter_selection {
            Some(i) => if self.screen == Screen::FilterManagement && 0 <= i
                < self.config.excluded.len() {
                Some(self.config.excluded[i])
            } else {
                None
            },
            None => None,
        }
    }

    /// The state with another configuration and the filter selection repaired
    /// for it.
    pub open spec fn reconfigured(self, config: FilterConfig) -> SessionState {
        SessionState {
            config,
            filter_selection: repaired(self.filter_selection, config.excluded.len() as int),
            ..self
        }
    }

    /// The state after a successful scan that found `scan`: the display list
    /// is rebuilt as a whole and the process selection repaired for it.
    pub open spec fn refreshed(self, scan: Seq<Binding>) -> SessionState {
        let processes = display_list(scan, self.config);
        SessionState {
            processes,
            process_selection: repaired(self.process_selection, processes.len() as int),
            ..self
        }
    }

    /// The state after an intent. After `Quit` no intent changes anything.
    pub open spec fn after(self, intent: Intent) -> SessionState {
        if self.quit {
            self
        } else {
            match intent {
                Intent::ToggleView => SessionState {
                    screen: match self.screen {
                        Screen::ProcessList => Screen::FilterManagement,
                        Screen::FilterManagement => Screen::ProcessList,
                    },
                    ..self
                },
                Intent::NavigateUp => match self.screen {
                    Screen::ProcessList => SessionState {
                        process_selection: moved_up(self.process_selection),
                        ..self
                    },
                    Screen::FilterManagement => SessionState {
                        filter_selection: moved_up(self.filter_selection),
                        ..self
                    },
                },
                Intent::NavigateDown => match self.screen {
                    Screen::ProcessList => SessionState {
                        process_selection: moved_down(
                            self.process_selection,
                            self.processes.len() as int,
                        ),
                        ..self
                    },
                    Screen::FilterManagement => SessionState {
                        filter_selection: moved_down(
                            self.filter_selection,
                            self.config.excluded.len() as int,
                        ),
                        ..self
                    },
                },
                Intent::Refresh => self,
                Intent::KillSelected => self,
                Intent::RemoveSelectedFilter => match self.selected_filter() {
                    Some(name) => self.reconfigured(self.config.without(name)),
                    None => self,
                },
                Intent::FilterSelectedProcess => match self.selected_process() {
                    Some(process) => self.reconfigured(self.config.with(process.name)),
                    None => self,
                },
                Intent::OpenAddFilterPopup => SessionState { popup: Some(Seq::empty()), ..self },
                Intent::CancelPopup => SessionState { popup: None, ..self },
                Intent::PopupTypeChar(c) => match self.popup {
                    Some(input) => SessionState { popup: Some(input.push(c)), ..self },
                    None => self,
                },
                Intent::PopupBackspace => match self.popup {
                    Some(input) => SessionState {
                        popup: Some(
                            if input.len() > 0 {
                                input.drop_last()
                            } else {
                                input
                            },
                        ),
                        ..self
                    },
                    None => self,
                },
                Intent::PopupSubmit => match self.popup {
                    Some(input) => {
                        let closed = SessionState { popup: None, ..self };
                        if trim(input).len() > 0 {
                            closed.reconfigured(self.config.with(trim(input)))
                        } else {
                            closed
                        }
                    },
                    None => self,
                },
                Intent::Quit => SessionState { quit: true, ..self },
            }
        }
    }

    /// The outside work that has to follow an intent. A name that is newly
    /// excluded has to be stored before the scan; a name that was excluded
    /// already changes nothing, and the scan follows at once.
    pub open spec fn effect(self, intent: Intent) -> Effect {
        if self.quit {
            Effect::Idle
        } else {
            match intent {
                Intent::Refresh => Effect::Scan,
                Intent::KillSelected => match self.selected_process() {
                    Some(process) => Effect::Kill(process.pid),
                    None => Effect::Idle,
                },
                Intent::RemoveSelectedFilter => match self.selected_filter() {
                    Some(name) => Effect::Persist,
                    None => Effect::Idle,
                },
                Intent::FilterSelectedProcess => match self.selected_process() {
                    Some(process) => self.effect_of_excluding(process.name),
                    None => Effect::Idle,
                },
                Intent::PopupSubmit => match self.popup {
                    Some(input) => if trim(input).len() > 0 {
                        self.effect_of_excluding(trim(input))
                    } else {
                        Effect::Idle
                    },
                    None => Effect::Idle,
                },
                _ => Effect::Idle,
            }
        }
    }

    /// The outside work that has to follow the exclusion of `name`.
    pub open spec fn effect_of_excluding(self, name: Seq<char>) -> Effect {
        if self.config.excluded.contains(name) {
            Effect::Scan
        } else {
            Effect::Persist
        }
    }
}

/// One change of a session's state: an intent of the operator, or the display
/// list rebuilt after a scan that found the given bindings.
pub enum Transition {
    /// An intent was handled.
    Intent(Intent),
    /// A successful scan was taken in.
    Refreshed(Seq<Binding>),
}

/// The state after a sequence of transitions.
pub open spec fn run(state: SessionState, transitions: Seq<Transition>) -> SessionState
    decreases transitions.len(),
{
    if transitions.len() == 0 {
        state
    } else {
        let before = run(state, transitions.drop_last());
        match transitions.last() {
            Transition::Intent(intent) => before.after(intent),
            Transition::Refreshed(scan) => before.refreshed(scan),
        }
    }
}

/// A repaired selection fits the list it was repaired for.
pub proof fn lemma_repaired_fits(selection: Option<int>, len: int)
    requires
        0 <= len,
    ensures
        selection_fits(repaired(selection, len), len),
{
}

/// What repairing does to a selected place `i` when the list changes to
/// `len` entries: a place that the list still has stays selected; a place that
/// is gone gives way to the last entry; in an empty list nothing is selected.
/// And where nothing was selected, the first entry of a list that is not empty
/// is.
pub proof fn lemma_repaired_cases(i: int, len: int)
    requires
        0 <= i,
        0 <= len,
    ensures
        len == 0 ==> repaired(Some(i), len) is None && repaired(None, len) is None,
        i < len ==> repaired(Some(i), len) == Some(i),
        i >= len > 0 ==> repaired(Some(i), len) == Some(len - 1),
        len > 0 ==> repaired(None, len) == Some(0int),
{
}

/// Every intent leaves both selections fitting their lists.
pub proof fn lemma_after_wf(state: SessionState, intent: Intent)
    requires
        state.wf(),
    ensures
        state.after(intent).wf(),
{
}

/// Every successful scan leaves both selections fitting their lists.
pub proof fn lemma_refreshed_wf(state: SessionState, scan: Seq<Binding>)
    requires
        state.wf(),
    ensures
        state.refreshed(scan).wf(),
{
}

/// The selection invariant: after any sequence of intents and scans, each
/// selection is empty exactly if its list is empty, and else within its list.
pub proof fn lemma_run_wf(state: SessionState, transitions: Seq<Transition>)
    requires
        state.wf(),
    ensures
        run(state, transitions).wf(),
    decreases transitions.len(),
{
    if transitions.len() > 0 {
        let before = run(state, transitions.drop_last());
        lemma_run_wf(state, transitions.drop_last());
        match transitions.last() {
            Transition::Intent(intent) => lemma_after_wf(before, intent),
            Transition::Refreshed(scan) => lemma_refreshed_wf(before, scan),
        }
    }
}

/// A scan moves the process selection only as far as it must: a selected
/// place that the new list still has stays selected, whatever the scan found;
/// a place that is gone gives way to the last entry; an empty list has no
/// selection. Nothing but the display list and its selection changes.
pub proof fn lemma_refreshed_selection(state: SessionState, scan: Seq<Binding>)
    requires
        state.wf(),
    ensures
        ({
            let next = state.refreshed(scan);
            let len = next.processes.len() as int;
            &&& next.processes == display_list(scan, state.config)
            &&& next.config == state.config
            &&& next.filter_selection == state.filter_selection
            &&& next.screen == state.screen
            &&& next.popup == state.popup
            &&& next.quit == state.quit
            &&& next.process_selection == match state.process_selection {
                Some(i) => if len == 0 {
                    None
                } else if i < len {
                    Some(i)
                } else {
                    Some(len - 1)
                },
                None => if len == 0 {
                    None
                } else {
                    Some(0int)
                },
            }
        }),
{
}

/// Switching screens touches neither selection, and switching twice leads
/// back.
pub proof fn lemma_toggle_view(state: SessionState)
    requires
        !state.quit,
    ensures
        state.after(Intent::ToggleView).process_selection == state.process_selection,
        state.after(Intent::ToggleView).filter_selection == state.filter_selection,
        state.after(Intent::ToggleView).screen != state.screen,
        state.after(Intent::ToggleView).after(Intent::ToggleView) == state,
{
}

/// Submitting a name through the popup excludes it once: after the popup was
/// submitted with some input, submitting the same input again leaves the
/// configuration as it is.
pub proof fn lemma_submit_once(state: SessionState, input: Seq<char>)
    requires
        !state.quit,
        trim(input).len() > 0,
    ensures
        ({
            let first = SessionState { popup: Some(input), ..state }.after(Intent::PopupSubmit);
            let second = SessionState { popup: Some(input), ..first }.after(Intent::PopupSubmit);
            &&& first.popup is None
            &&& first.config.excluded.contains(trim(input))
            &&& second.config == first.config
            &&& !state.config.excluded.contains(trim(input)) ==> first.config.excluded.filter(
                crate::config::same_as(trim(input)),
            ) == seq![trim(input)]
        }),
{
    lemma_with_once(state.config, trim(input));
}

/// The session.
#[derive(Debug, PartialEq, Eq)]
pub struct Session {
    screen: Screen,
    registry: Registry,
    process_selection: Option<usize>,
    filter_selection: Option<usize>,
    popup: Option<String>,
    config: Config,
    quit: bool,
}

impl View for Session {
    type V = SessionState;

    closed spec fn view(&self) -> SessionState {
        SessionState {
            screen: self.screen,
            processes: self.registry@,
            process_selection: index_of(self.process_selection),
            filter_selection: index_of(self.filter_selection),
            popup: match self.popup {
                Some(input) => Some(input@),
                None => None,
            },
            config: self.config@,
            quit: self.quit,
        }
    }
}

/// Repairs a selection for a list of `len` entries.
pub fn repair(selection: Option<usize>, len: usize) -> (fixed: Option<usize>)
    ensures
        index_of(fixed) == repaired(index_of(selection), len as int),
{
    if len == 0 {
        None
    } else {
        match selection {
            None => Some(0),
            Some(i) => if i >= len {
                Some(len - 1)
            } else {
                Some(i)
            },
        }
    }
}

/// Moves a selection one place up.
fn step_up(selection: Option<usize>) -> (moved: Option<usize>)
    ensures
        index_of(moved) == moved_up(index_of(selection)),
{
    match selection {
        Some(i) => if i > 0 {
            Some(i - 1)
        } else {
            selection
        },
        None => None,
    }
}

/// Moves a selection one place down in a list of `len` entries.
fn step_down(selection: Option<usize>, len: usize) -> (moved: Option<usize>)
    ensures
        index_of(moved) == moved_down(index_of(selection), len as int),
{
    match selection {
        Some(i) => if i < len && i + 1 < len {
            Some(i + 1)
        } else {
            selection
        },
        None => None,
    }
}

impl Session {
    /// Both selections fit their lists.
    pub open spec fn wf(&self) -> bool {
        self@.wf()
    }

    /// A session that starts with `config`: the process screen, no popup, and
    /// an empty display list until the first scan is taken in.
    pub fn new(config: Config) -> (session: Session)
        ensures
            session.wf(),
            session@ == SessionState::initial(config@),
    {
        let filter_selection = repair(None, config.filtered_process_names.len());
        Session {
            screen: Screen::ProcessList,
            registry: Registry::new(),
            process_selection: None,
            filter_selection,
            popup: None,
            config,
            quit: false,
        }
    }

    /// The screen that is shown.
    pub fn screen(&self) -> (screen: Screen)
        ensures
            screen == self@.screen,
    {
        self.screen
    }

    /// The display list.
    pub fn processes(&self) -> (list: &Vec<PortBinding>)
        ensures
            views(list@) == self@.processes,
    {
        self.registry.list()
    }

    /// The selected place of the display list.
    pub fn selected(&self) -> (selection: Option<usize>)
        ensures
            index_of(selection) == self@.process_selection,
    {
        self.process_selection
    }

    /// The selected place of the list of excluded names.
    pub fn filter_selected(&self) -> (selection: Option<usize>)
        ensures
            index_of(selection) == self@.filter_selection,
    {
        self.filter_selection
    }

    /// Whether the popup is open.
    pub fn popup_active(&self) -> (open: bool)
        ensures
            open == self@.popup is Some,
    {
        self.popup.is_some()
    }

    /// What has been typed into the popup; empty while it is closed.
    pub fn popup_input(&self) -> (input: String)
        ensures
            input@ == match self@.popup {
                Some(typed) => typed,
                None => Seq::empty(),
            },
    {
        match &self.popup {
            Some(typed) => typed.clone(),
            None => String::new(),
        }
    }

    /// The configuration in memory.
    pub fn config(&self) -> (config: &Config)
        ensures
            config@ == self@.config,
    {
        &self.config
    }

    /// Whether the session has ended.
    pub fn should_quit(&self) -> (quit: bool)
        ensures
            quit == self@.quit,
    {
        self.quit
    }

    /// Excludes `name` and repairs the filter selection.
    fn exclude(&mut self, name: String) -> (effect: Effect)
        ensures
            final(self)@ == old(self)@.reconfigured(old(self)@.config.with(name@)),
            effect == old(self)@.effect_of_excluding(name@),
    {
        let added = self.config.add_filtered_process(name);
        self.filter_selection = repair(
            self.filter_selection,
            self.config.filtered_process_names.len(),
        );
        if added {
            Effect::Persist
        } else {
            Effect::Scan
        }
    }

    /// Handles one intent of the operator: changes the state as the intent
    /// asks and names the outside work that has to follow.
    pub fn handle(&mut self, intent: Intent) -> (effect: Effect)
        requires
            old(self).wf(),
        ensures
            final(self).wf(),
            final(self)@ == old(self)@.after(intent),
            effect == old(self)@.effect(intent),
    {
        proof {
            lemma_after_wf(self@, intent);
        }
        if self.quit {
            return Effect::Idle;
        }
        match intent {
            Intent::ToggleView => {
                self.screen = match self.screen {
                    Screen::ProcessList => Screen::FilterManagement,
                    Screen::FilterManagement => Screen::ProcessList,
                };
                Effect::Idle
            },
            Intent::NavigateUp => {
                match self.screen {
                    Screen::ProcessList => {
                        self.process_selection = step_up(self.process_selection);
                    },
                    Screen::FilterManagement => {
                        self.filter_selection = step_up(self.filter_selection);
                    },
                }
                Effect::Idle
            },
            Intent::NavigateDown => {
                match self.screen {
                    Screen::ProcessList => {
                        self.process_selection = step_down(
                            self.process_selection,
                            self.registry.len(),
                        );
                    },
                    Screen::FilterManagement => {
                        self.filter_selection = step_down(
                            self.filter_selection,
                            self.config.filtered_process_names.len(),
                        );
                    },
                }
                Effect::Idle
            },
            Intent::Refresh => Effect::Scan,
            Intent::KillSelected => {
                match self.target() {
                    Some(process) => Effect::Kill(process.pid),
                    None => Effect::Idle,
                }
            },
            Intent::RemoveSelectedFilter => {
                match self.filter_selection {
                    Some(i) => {
                        if self.screen == Screen::FilterManagement
                            && i < self.config.filtered_process_names.len() {
                            let name = self.config.filtered_process_names[i].clone();
                            self.config.remove_filtered_process(name.as_str());
                            self.filter_selection = repair(
                                self.filter_selection,
                                self.config.filtered_process_names.len(),
                            );
                            Effect::Persist
                        } else {
                            Effect::Idle
                        }
                    },
                    None => Effect::Idle,
                }
            },
            Intent::FilterSelectedProcess => {
                let name = match self.target() {
                    Some(process) => Some(process.name.clone()),
                    None => None,
                };
                match name {
                    Some(name) => self.exclude(name),
                    None => Effect::Idle,
                }
            },
            Intent::OpenAddFilterPopup => {
                self.popup = Some(String::new());
                Effect::Idle
            },
            Intent::CancelPopup => {
                self.popup = None;
                Effect::Idle
            },
            Intent::PopupTypeChar(c) => {
                match &mut self.popup {
                    Some(input) => {
                        input.push(c);
                    },
                    None => {},
                }
                Effect::Idle
            },
            Intent::PopupBackspace => {
                match &mut self.popup {
                    Some(input) => {
                        input.pop();
                    },
                    None => {},
                }
                Effect::Idle
            },
            Intent::PopupSubmit => {
                let name = match &self.popup {
                    Some(input) => Some(trimmed(&chars_of(input.as_str()))),
                    None => None,
                };
                self.popup = None;
                match name {
                    Some(name) => {
                        if name.as_str().is_empty() {
                            Effect::Idle
                        } else {
                            self.exclude(name)
                        }
                    },
                    None => Effect::Idle,
                }
            },
            Intent::Quit => {
                self.quit = true;
                Effect::Idle
            },
        }
    }

    /// The process that `KillSelected` and `FilterSelectedProcess` act on.
    pub fn target(&self) -> (process: Option<&PortBinding>)
        ensures
            crate::binding::view_of_ref(process) == self@.selected_process(),
    {
        match self.process_selection {
            Some(i) => if self.screen == Screen::ProcessList {
                self.registry.get(i)
            } else {
                None
            },
            None => None,
        }
    }

    /// Takes in the result of outside work and names the work that has to
    /// follow.
    ///
    /// A successful scan rebuilds the display list and repairs the process
    /// selection. A successful kill, and a configuration that was stored, are
    /// followed by a scan. Every failure is handed back as it came, and leaves
    /// the session exactly as it was: after a failed kill the list and the
    /// selection are the ones from before the attempt, and nothing follows.
    pub fn resume(&mut self, reply: Reply) -> (next: Result<Effect, Failure>)
        requires
            old(self).wf(),
        ensures
            final(self).wf(),
            match reply {
                Reply::Scan(Ok(bindings)) => {
                    &&& next == Ok::<Effect, Failure>(Effect::Idle)
                    &&& final(self)@ == old(self)@.refreshed(views(bindings@))
                },
                Reply::Scan(Err(failure)) => {
                    &&& next == Err::<Effect, Failure>(Failure::Scan(failure))
                    &&& *final(self) == *old(self)
                },
                Reply::Kill(Ok(_)) => {
                    &&& next == Ok::<Effect, Failure>(Effect::Scan)
                    &&& *final(self) == *old(self)
                },
                Reply::Kill(Err(failure)) => {
                    &&& next == Err::<Effect, Failure>(Failure::Kill(failure))
                    &&& *final(self) == *old(self)
                },
                Reply::Persist(Ok(_)) => {
                    &&& next == Ok::<Effect, Failure>(Effect::Scan)
                    &&& *final(self) == *old(self)
                },
                Reply::Persist(Err(diagnostic)) => {
                    &&& next == Err::<Effect, Failure>(Failure::Persistence(diagnostic))
                    &&& *final(self) == *old(self)
                },
            },
    {
        match reply {
            Reply::Scan(scan) => {
                proof {
                    if scan is Ok {
                        lemma_refreshed_wf(self@, views(scan->Ok_0@));
                    }
                }
                match self.registry.refresh(scan, &self.config) {
                    Ok(_) => {
                        self.process_selection = repair(
                            self.process_selection,
                            self.registry.len(),
                        );
                        Ok(Effect::Idle)
                    },
                    Err(failure) => Err(Failure::Scan(failure)),
                }
            },
            Reply::Kill(Ok(_)) => Ok(Effect::Scan),
            Reply::Kill(Err(failure)) => Err(Failure::Kill(failure)),
            Reply::Persist(Ok(_)) => Ok(Effect::Scan),
            Reply::Persist(Err(diagnostic)) => Err(Failure::Persistence(diagnostic)),
        }
    }
}

} // verus!
