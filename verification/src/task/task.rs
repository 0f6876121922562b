//! A unit of background work, as the scheduler sees it.

use vstd::prelude::*;
use crate::task::group::GroupId;
use crate::task::status::TaskStatus;

verus! {

/// Unique identifier for a task.
pub type TaskId = u64;

/// A unit of background work: its identity, grouping, dependencies and
/// lifecycle state. The work closure and the timing / progress samples
/// are held by the runtime that executes it.
#[derive(Debug, Clone)]
pub struct Task {
    pub(crate) id: TaskId,
    pub(crate) name: String,
    pub(crate) description: String,
    pub(crate) group: Option<GroupId>,
    pub(crate) dependencies: Vec<TaskId>,
    pub(crate) status: TaskStatus,
    pub(crate) message: String,
}

impl Task {
    pub closed spec fn spec_id(&self) -> TaskId {
        self.id
    }

    pub closed spec fn spec_name(&self) -> Seq<char> {
        self.name@
    }

    pub closed spec fn spec_description(&self) -> Seq<char> {
        self.description@
    }

    pub closed spec fn spec_group(&self) -> Option<GroupId> {
        self.group
    }

    pub closed spec fn spec_deps(&self) -> Seq<TaskId> {
        self.dependencies@
    }

    pub closed spec fn spec_status(&self) -> TaskStatus {
        self.status
    }

    pub closed spec fn spec_message(&self) -> Seq<char> {
        self.message@
    }

    /// The same task with another id.
    pub closed spec fn with_id(self, id: TaskId) -> Task {
        Task { id, ..self }
    }

    /// The same task with another status.
    pub closed spec fn with_status(self, status: TaskStatus) -> Task {
        Task { status, ..self }
    }

    /// The same task with another message.
    pub closed spec fn with_message(self, message: String) -> Task {
        Task { message, ..self }
    }

    pub broadcast proof fn lemma_with_id(self, id: TaskId)
        ensures
            (#[trigger] self.with_id(id)).spec_id() == id,
            self.with_id(id).spec_name() == self.spec_name(),
            self.with_id(id).spec_description() == self.spec_description(),
            self.with_id(id).spec_group() == self.spec_group(),
            self.with_id(id).spec_deps() == self.spec_deps(),
            self.with_id(id).spec_status() == self.spec_status(),
            self.with_id(id).spec_message() == self.spec_message(),
    {
    }

    pub broadcast proof fn lemma_with_status(self, status: TaskStatus)
        ensures
            (#[trigger] self.with_status(status)).spec_status() == status,
            self.with_status(status).spec_id() == self.spec_id(),
            self.with_status(status).spec_name() == self.spec_name(),
            self.with_status(status).spec_description() == self.spec_description(),
            self.with_status(status).spec_group() == self.spec_group(),
            self.with_status(status).spec_deps() == self.spec_deps(),
            self.with_status(status).spec_message() == self.spec_message(),
    {
    }

    pub broadcast proof fn lemma_with_message(self, message: String)
        ensures
            (#[trigger] self.with_message(message)).spec_message() == message@,
            self.with_message(message).spec_id() == self.spec_id(),
            self.with_message(message).spec_name() == self.spec_name(),
            self.with_message(message).spec_description() == self.spec_description(),
            self.with_message(message).spec_group() == self.spec_group(),
            self.with_message(message).spec_deps() == self.spec_deps(),
            self.with_message(message).spec_status() == self.spec_status(),
    {
    }

    pub proof fn lemma_with_status_twice(self, a: TaskStatus, b: TaskStatus)
        ensures
            self.with_status(a).with_status(b) == self.with_status(b),
    {
    }

    pub(crate) fn set_id(&mut self, id: TaskId)
        ensures
            *final(self) == old(self).with_id(id),
    {
        self.id = id;
    }

    pub(crate) fn set_status(&mut self, status: TaskStatus)
        ensures
            *final(self) == old(self).with_status(status),
    {
        self.status = status;
    }

    pub(crate) fn set_message(&mut self, message: String)
        ensures
            *final(self) == old(self).with_message(message),
    {
        self.message = message;
    }

    /// A pending task with a name and description, no group, no
    /// dependencies, an empty message and id 0 (the manager assigns ids).
    pub fn new(name: &str, description: &str) -> (t: Self)
        ensures
            t.spec_id() == 0,
            t.spec_name() == name@,
            t.spec_description() == description@,
            t.spec_group() is None,
            t.spec_deps() == Seq::<TaskId>::empty(),
            t.spec_status() is Pending,
            t.spec_message() == Seq::<char>::empty(),
    {
        Task {
            id: 0,
            name: name.to_string(),
            description: description.to_string(),
            group: None,
            dependencies: Vec::new(),
            status: TaskStatus::Pending,
            message: String::new(),
        }
    }

    /// The same task, assigned to `group`.
    pub fn group(self, group: GroupId) -> (t: Self)
        ensures
            t.spec_group() == Some(group),
            t.spec_id() == self.spec_id(),
            t.spec_name() == self.spec_name(),
            t.spec_description() == self.spec_description(),
            t.spec_deps() == self.spec_deps(),
            t.spec_status() == self.spec_status(),
            t.spec_message() == self.spec_message(),
    {
        Task { group: Some(group), ..self }
    }

    /// The same task, additionally waiting for `dep` to complete.
    pub fn depends_on(self, dep: TaskId) -> (t: Self)
        ensures
            t.spec_deps() == self.spec_deps().push(dep),
            t.spec_id() == self.spec_id(),
            t.spec_name() == self.spec_name(),
            t.spec_description() == self.spec_description(),
            t.spec_group() == self.spec_group(),
            t.spec_status() == self.spec_status(),
            t.spec_message() == self.spec_message(),
    {
        let mut t = self;
        t.dependencies.push(dep);
        t
    }

    /// The same task, additionally waiting for every task of `deps`.
    pub fn depends_on_all(self, deps: &[TaskId]) -> (t: Self)
        ensures
            t.spec_deps() == self.spec_deps() + deps@,
            t.spec_id() == self.spec_id(),
            t.spec_name() == self.spec_name(),
            t.spec_description() == self.spec_description(),
            t.spec_group() == self.spec_group(),
            t.spec_status() == self.spec_status(),
            t.spec_message() == self.spec_message(),
    {
        let mut t = self;
        let ghost start = t.dependencies@;
        let mut i: usize = 0;
        while i < deps.len()
            invariant
                i <= deps@.len(),
                t.dependencies@ == start + deps@.subrange(0, i as int),
                t.id == self.id,
                t.name == self.name,
                t.description == self.description,
                t.group == self.group,
                t.status == self.status,
                t.message == self.message,
            decreases deps@.len() - i,
        {
            t.dependencies.push(deps[i]);
            assert(deps@.subrange(0, i + 1) == deps@.subrange(0, i as int).push(deps@[i as int]));
            i = i + 1;
        }
        assert(deps@.subrange(0, deps@.len() as int) == deps@);
        t
    }

    pub fn id(&self) -> (r: TaskId)
        ensures
            r == self.spec_id(),
    {
        self.id
    }

    pub fn name(&self) -> (r: &str)
        ensures
            r@ == self.spec_name(),
    {
        self.name.as_str()
    }

    pub fn description(&self) -> (r: &str)
        ensures
            r@ == self.spec_description(),
    {
        self.description.as_str()
    }

    pub fn group_id(&self) -> (r: Option<GroupId>)
        ensures
            r == self.spec_group(),
    {
        self.group
    }

    pub fn dependencies(&self) -> (r: &[TaskId])
        ensures
            r@ == self.spec_deps(),
    {
        self.dependencies.as_slice()
    }

    pub fn status(&self) -> (r: &TaskStatus)
        ensures
            *r == self.spec_status(),
    {
        &self.status
    }

    pub fn message(&self) -> (r: &str)
        ensures
            r@ == self.spec_message(),
    {
        self.message.as_str()
    }
}

} // verus!
