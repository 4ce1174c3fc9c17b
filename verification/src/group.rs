//! A group is the unit of work: one input directory and its progress.

use vstd::prelude::*;

verus! {

/// Where a group stands in its life. `Done` and `Errored` are final.
#[derive(Clone, Copy, Debug, PartialEq, Eq, Structural)]
pub enum GroupState {
    Pending,
    InProgress,
    Done,
    Errored,
}

/// The mathematical content of a [`Group`].
pub struct GroupView {
    pub name: Seq<char>,
    pub total: nat,
    pub completed: nat,
    pub last_file: Option<Seq<char>>,
    pub last_error: Option<Seq<char>>,
}

impl GroupView {
    /// A group as it is created: nothing finished, nothing to annotate.
    pub open spec fn fresh(name: Seq<char>, total: nat) -> GroupView {
        GroupView { name, total, completed: 0, last_file: None, last_error: None }
    }

    /// The counters are consistent, and the annotations fit the state: an
    /// error is only ever recorded on an unfinished group, and a last file is
    /// only shown while the group is part-way through.
    pub open spec fn wf(self) -> bool {
        &&& self.completed <= self.total
        &&& self.last_error is Some ==> self.completed < self.total
        &&& self.last_file is Some ==> 0 < self.completed < self.total
    }

    pub open spec fn state(self) -> GroupState {
        if self.last_error is Some {
            GroupState::Errored
        } else if self.completed == self.total {
            GroupState::Done
        } else if self.completed == 0 {
            GroupState::Pending
        } else {
            GroupState::InProgress
        }
    }

    /// No further event changes a terminal group.
    pub open spec fn terminal(self) -> bool {
        self.state() == GroupState::Done || self.state() == GroupState::Errored
    }

    /// The group after one more of its files has finished. The last file is
    /// shown only while more files are outstanding.
    pub open spec fn advanced(self, file: Seq<char>) -> GroupView {
        GroupView {
            completed: self.completed + 1,
            last_file: if self.completed + 1 == self.total {
                None
            } else {
                Some(file)
            },
            last_error: None,
            ..self
        }
    }

    /// The group after one of its files has failed.
    pub open spec fn failed(self, error: Seq<char>) -> GroupView {
        GroupView { last_error: Some(error), ..self }
    }

    /// The group with all of its files behind it.
    pub open spec fn finished(self) -> GroupView {
        GroupView { completed: self.total, last_file: None, last_error: None, ..self }
    }
}

/// One input directory's worth of work and how far it has come.
pub struct Group {
    name: String,
    last_file: Option<String>,
    last_error: Option<String>,
    total: usize,
    completed: usize,
}

/// The view of an optional string.
pub open spec fn text_of(s: Option<String>) -> Option<Seq<char>> {
    match s {
        Some(t) => Some(t@),
        None => None,
    }
}

impl View for Group {
    type V = GroupView;

    closed spec fn view(&self) -> GroupView {
        GroupView {
            name: self.name@,
            total: self.total as nat,
            completed: self.completed as nat,
            last_file: text_of(self.last_file),
            last_error: text_of(self.last_error),
        }
    }
}

impl Group {
    /// A group of `total` files, none of them finished yet.
    pub fn new(name: String, total: usize) -> (g: Group)
        ensures
            g@ == GroupView::fresh(name@, total as nat),
            g@.wf(),
    {
        Group { name, last_file: None, last_error: None, total, completed: 0 }
    }

    pub fn name(&self) -> (s: &str)
        ensures
            s@ == self@.name,
    {
        self.name.as_str()
    }

    pub fn total(&self) -> (n: usize)
        ensures
            n == self@.total,
    {
        self.total
    }

    pub fn completed(&self) -> (n: usize)
        ensures
            n == self@.completed,
    {
        self.completed
    }

    pub fn last_file(&self) -> (s: Option<&str>)
        ensures
            s is Some == self@.last_file is Some,
            s is Some ==> s->0@ == self@.last_file->0,
    {
        match &self.last_file {
            Some(f) => Some(f.as_str()),
            None => None,
        }
    }

    pub fn last_error(&self) -> (s: Option<&str>)
        ensures
            s is Some == self@.last_error is Some,
            s is Some ==> s->0@ == self@.last_error->0,
    {
        match &self.last_error {
            Some(e) => Some(e.as_str()),
            None => None,
        }
    }

    pub fn state(&self) -> (s: GroupState)
        ensures
            s == self@.state(),
    {
        if self.last_error.is_some() {
            GroupState::Errored
        } else if self.completed == self.total {
            GroupState::Done
        } else if self.completed == 0 {
            GroupState::Pending
        } else {
            GroupState::InProgress
        }
    }

    pub fn is_terminal(&self) -> (b: bool)
        ensures
            b == self@.terminal(),
    {
        self.last_error.is_some() || self.completed == self.total
    }

    /// Counts one more finished file.
    pub(crate) fn record_progress(&mut self, file: String)
        requires
            old(self)@.wf(),
            !old(self)@.terminal(),
        ensures
            final(self)@ == old(self)@.advanced(file@),
            final(self)@.wf(),
    {
        self.completed = self.completed + 1;
        self.last_error = None;
        if self.completed == self.total {
            self.last_file = None;
        } else {
            self.last_file = Some(file);
        }
    }

    /// Notes the failure of one file.
    pub(crate) fn record_failure(&mut self, error: String)
        requires
            old(self)@.wf(),
            !old(self)@.terminal(),
        ensures
            final(self)@ == old(self)@.failed(error@),
            final(self)@.wf(),
    {
        self.last_error = Some(error);
    }
}

} // verus!
