use vstd::prelude::*;

use crate::dates;
use crate::text;

verus! {

/// Completion state of a task. The only transition is `Pending` to
/// `Completed`; nothing ever reverts a completed task.
#[derive(Clone, Copy, PartialEq, Eq, Structural, Debug)]
pub enum Status {
    Pending,
    Completed,
}

impl Status {
    /// The display name of the state.
    pub fn label(&self) -> (r: String)
        ensures
            r@ == (match self {
                Status::Pending => "Pending"@,
                Status::Completed => "Completed"@,
            }),
    {
        match self {
            Status::Pending => "Pending".to_owned(),
            Status::Completed => "Completed".to_owned(),
        }
    }
}

/// Urgency of a task, orderable by severity through `severity`.
#[derive(Clone, Copy, PartialEq, Eq, Structural, Debug)]
pub enum Priority {
    Low,
    Medium,
    High,
    Critical,
}

impl Priority {
    /// Rank by severity: `Low` lowest, `Critical` highest.
    pub open spec fn spec_severity(self) -> u8 {
        match self {
            Priority::Low => 0,
            Priority::Medium => 1,
            Priority::High => 2,
            Priority::Critical => 3,
        }
    }

    pub fn severity(&self) -> (r: u8)
        ensures
            r == self.spec_severity(),
    {
        match self {
            Priority::Low => 0,
            Priority::Medium => 1,
            Priority::High => 2,
            Priority::Critical => 3,
        }
    }

    /// The priority a name denotes, compared without regard to ASCII case:
    /// `low`/`l`, `medium`/`med` and `high`/`h` are accepted.
    pub open spec fn spec_of_name(s: Seq<char>) -> Option<Priority> {
        if text::ieq(s, "low"@) || text::ieq(s, "l"@) {
            Some(Priority::Low)
        } else if text::ieq(s, "medium"@) || text::ieq(s, "med"@) {
            Some(Priority::Medium)
        } else if text::ieq(s, "high"@) || text::ieq(s, "h"@) {
            Some(Priority::High)
        } else {
            None
        }
    }

    /// Read a priority from its name, ignoring ASCII case.
    pub fn from_str(s: &str) -> (r: Result<Priority, String>)
        ensures
            match Priority::spec_of_name(s@) {
                Some(p) => r == Ok::<Priority, String>(p),
                None => r matches Err(m) && m@ == "Invalid priority"@,
            },
    {
        if text::eq_ignore_ascii_case(s, "low") || text::eq_ignore_ascii_case(s, "l") {
            Ok(Priority::Low)
        } else if text::eq_ignore_ascii_case(s, "medium") || text::eq_ignore_ascii_case(s, "med") {
            Ok(Priority::Medium)
        } else if text::eq_ignore_ascii_case(s, "high") || text::eq_ignore_ascii_case(s, "h") {
            Ok(Priority::High)
        } else {
            Err("Invalid priority".to_owned())
        }
    }

    /// The display name of the priority.
    pub fn label(&self) -> (r: String)
        ensures
            r@ == (match self {
                Priority::Low => "Low"@,
                Priority::Medium => "Medium"@,
                Priority::High => "High"@,
                Priority::Critical => "Critical"@,
            }),
    {
        match self {
            Priority::Low => "Low".to_owned(),
            Priority::Medium => "Medium".to_owned(),
            Priority::High => "High".to_owned(),
            Priority::Critical => "Critical".to_owned(),
        }
    }
}

/// One tracked task. Timestamps are whole seconds since the Unix epoch.
pub struct Task {
    pub id: u64,
    pub name: String,
    pub status: Status,
    pub priority: Priority,
    pub category: String,
    pub create_at: i64,
    pub update_at: i64,
    pub completed_at: Option<i64>,
    pub due_date: Option<i64>,
    pub tags: Vec<String>,
}

impl Task {
    /// A task is overdue at `now` exactly when it is still pending and its
    /// due date lies strictly in the past.
    pub open spec fn spec_is_overdue(self, now: i64) -> bool {
        &&& self.status is Pending
        &&& match self.due_date {
            Some(d) => d < now,
            None => false,
        }
    }

    /// The task after completion at `now`.
    pub open spec fn spec_complete(self, now: i64) -> Task {
        Task { status: Status::Completed, completed_at: Some(now), update_at: now, ..self }
    }

    pub open spec fn spec_with_name(self, name: String, now: i64) -> Task {
        Task { name: name, update_at: now, ..self }
    }

    pub open spec fn spec_with_priority(self, priority: Priority, now: i64) -> Task {
        Task { priority: priority, update_at: now, ..self }
    }

    pub open spec fn spec_with_category(self, category: String, now: i64) -> Task {
        Task { category: category, update_at: now, ..self }
    }

    pub open spec fn spec_with_due(self, due_date: Option<i64>, now: i64) -> Task {
        Task { due_date: due_date, update_at: now, ..self }
    }

    /// The task after an edit: each supplied field replaced, each absent
    /// field untouched, and `update_at` stamped when anything was supplied.
    /// A supplied due date of `Some(None)` clears the due date.
    pub open spec fn spec_edited(
        self,
        name: Option<String>,
        priority: Option<Priority>,
        category: Option<String>,
        due: Option<Option<i64>>,
        now: i64,
    ) -> Task {
        let t1 = match name {
            Some(n) => self.spec_with_name(n, now),
            None => self,
        };
        let t2 = match priority {
            Some(p) => t1.spec_with_priority(p, now),
            None => t1,
        };
        let t3 = match category {
            Some(c) => t2.spec_with_category(c, now),
            None => t2,
        };
        match due {
            Some(d) => t3.spec_with_due(d, now),
            None => t3,
        }
    }

    /// A freshly created task: pending, medium priority, category
    /// `"General"`, no due date, no tags, both timestamps at `now`.
    pub open spec fn spec_is_new(self, id: u64, name: String, now: i64) -> bool {
        &&& self.id == id
        &&& self.name == name
        &&& self.status is Pending
        &&& self.priority == Priority::Medium
        &&& self.category@ == "General"@
        &&& self.create_at == now
        &&& self.update_at == now
        &&& self.completed_at is None
        &&& self.due_date is None
        &&& self.tags@ =~= Seq::<String>::empty()
    }

    /// Build a task with the given creation time.
    pub fn new_at(id: u64, name: String, now: i64) -> (r: Task)
        ensures
            r.spec_is_new(id, name, now),
    {
        Task {
            id,
            name,
            status: Status::Pending,
            priority: Priority::Medium,
            category: "General".to_owned(),
            create_at: now,
            update_at: now,
            completed_at: None,
            due_date: None,
            tags: Vec::new(),
        }
    }

    /// Build a task created at the current time.
    pub fn new(id: u64, name: String) -> (r: Task)
        ensures
            exists|t: i64| r.spec_is_new(id, name, t),
    {
        let now = dates::now_timestamp();
        let r = Task::new_at(id, name, now);
        proof {
            assert(r.spec_is_new(id, r.name, now));
        }
        r
    }

    /// Mark the task completed at `now`, stamping `completed_at` and
    /// `update_at`. Completing an already completed task re-stamps both.
    pub fn complete_at(&mut self, now: i64)
        ensures
            *final(self) == old(self).spec_complete(now),
    {
        self.status = Status::Completed;
        self.completed_at = Some(now);
        self.update_at = now;
    }

    /// Mark the task completed at the current time.
    pub fn complete(&mut self)
        ensures
            exists|t: i64| *final(self) == old(self).spec_complete(t),
    {
        let now = dates::now_timestamp();
        self.complete_at(now);
    }

    pub fn set_priority_at(&mut self, priority: Priority, now: i64)
        ensures
            *final(self) == old(self).spec_with_priority(priority, now),
    {
        self.priority = priority;
        self.update_at = now;
    }

    pub fn set_priority(&mut self, priority: Priority)
        ensures
            exists|t: i64| *final(self) == old(self).spec_with_priority(priority, t),
    {
        let now = dates::now_timestamp();
        self.set_priority_at(priority, now);
    }

    pub fn set_category_at(&mut self, category: String, now: i64)
        ensures
            *final(self) == old(self).spec_with_category(category, now),
    {
        self.category = category;
        self.update_at = now;
    }

    pub fn set_category(&mut self, category: String)
        ensures
            exists|t: i64| *final(self) == old(self).spec_with_category(category, t),
    {
        let now = dates::now_timestamp();
        self.set_category_at(category, now);
    }

    /// Set the due date to the given timestamp.
    pub fn set_due_date_at(&mut self, due_date: i64, now: i64)
        ensures
            *final(self) == old(self).spec_with_due(Some(due_date), now),
    {
        self.due_date = Some(due_date);
        self.update_at = now;
    }

    pub fn set_due_date(&mut self, due_date: i64)
        ensures
            exists|t: i64| *final(self) == old(self).spec_with_due(Some(due_date), t),
    {
        let now = dates::now_timestamp();
        self.set_due_date_at(due_date, now);
    }

    /// What an actual tag addition does: the tag is appended and
    /// `update_at` is stamped; every other field keeps its value.
    pub open spec fn spec_added_tag(self, post: Task, tag: String, now: i64) -> bool {
        &&& post == (Task { tags: post.tags, update_at: now, ..self })
        &&& post.tags@ == self.tags@.push(tag)
    }

    /// Append the tag unless an equal tag is already present; only an actual
    /// addition stamps `update_at`.
    pub fn add_tag_at(&mut self, tag: String, now: i64)
        ensures
            old(self).tags.deep_view().contains(tag@) ==> *final(self) == *old(self),
            !old(self).tags.deep_view().contains(tag@) ==> old(self).spec_added_tag(
                *final(self),
                tag,
                now,
            ),
    {
        let n = self.tags.len();
        let mut j: usize = 0;
        while j < n
            invariant
                j <= n,
                n == self.tags@.len(),
                *self == *old(self),
                forall|k: int| 0 <= k < j ==> self.tags@[k]@ != tag@,
            decreases n - j,
        {
            if self.tags[j] == tag {
                assert(self.tags.deep_view()[j as int] == tag@);
                return ;
            }
            j += 1;
        }
        assert(forall|k: int| 0 <= k < self.tags.deep_view().len()
            ==> self.tags.deep_view()[k] != tag@);
        self.tags.push(tag);
        self.update_at = now;
    }

    pub fn add_tag(&mut self, tag: String)
        ensures
            old(self).tags.deep_view().contains(tag@) ==> *final(self) == *old(self),
            !old(self).tags.deep_view().contains(tag@) ==> exists|t: i64|
                old(self).spec_added_tag(*final(self), tag, t),
    {
        let now = dates::now_timestamp();
        self.add_tag_at(tag, now);
    }

    /// Whether the task is overdue at `now`.
    pub fn is_overdue_at(&self, now: i64) -> (r: bool)
        ensures
            r == self.spec_is_overdue(now),
    {
        match self.due_date {
            Some(due) => matches!(self.status, Status::Pending) && due < now,
            None => false,
        }
    }

    /// Whether the task is overdue at the current time. A completed task, or
    /// one with no due date, is never overdue.
    pub fn is_overdue(&self) -> (r: bool)
        ensures
            self.status is Completed ==> r == false,
            self.due_date is None ==> r == false,
            exists|t: i64| r == self.spec_is_overdue(t),
    {
        let now = dates::now_timestamp();
        self.is_overdue_at(now)
    }

    /// Whole days from `now` until the due date, truncated toward zero;
    /// nothing when the task has no due date.
    pub fn days_until_due_at(&self, now: i64) -> (r: Option<i64>)
        ensures
            r == (match self.due_date {
                Some(d) => Some(
                    dates::spec_days_between(now as int, d as int) as i64,
                ),
                None => None::<i64>,
            }),
    {
        match self.due_date {
            Some(due) => Some(dates::days_between(now, due)),
            None => None,
        }
    }

    pub fn days_until_due(&self) -> (r: Option<i64>)
        ensures
            r is Some <==> self.due_date is Some,
            match (self.due_date, r) {
                (Some(d), Some(days)) => exists|t: i64| days == dates::spec_days_between(
                    t as int,
                    d as int,
                ) as i64,
                (None, None) => true,
                _ => false,
            },
    {
        let now = dates::now_timestamp();
        self.days_until_due_at(now)
    }
}

/// Law: completing a task a second time leaves it completed, with the
/// completion stamp of the later completion; it never reverts to pending.
pub proof fn lemma_complete_twice(t: Task, t1: i64, t2: i64)
    ensures
        t.spec_complete(t1).spec_complete(t2).status is Completed,
        t.spec_complete(t1).spec_complete(t2).completed_at == Some(t2),
{
}

/// Law: a completed task is never overdue, nor is a task without a due
/// date, whatever the time of evaluation.
pub proof fn lemma_completed_never_overdue(t: Task, now: i64)
    requires
        t.status is Completed || t.due_date is None,
    ensures
        !t.spec_is_overdue(now),
{
}

} // verus!
