use vstd::prelude::*;

use crate::cli::StatusFilter;
use crate::dates;
use crate::error::TodoError;
use crate::task::{Priority, Status, Task};

verus! {

/// The character view of an optional string argument.
pub open spec fn opt_str_view(o: Option<&str>) -> Option<Seq<char>> {
    match o {
        Some(s) => Some(s@),
        None => None,
    }
}

/// The owning collection of all tasks. Tasks are held sorted by ascending
/// id, and `next_id` stays strictly above every stored id, so every id
/// handed out is fresh.
pub struct TodoManager {
    tasks: Vec<Task>,
    next_id: u64,
}

impl TodoManager {
    /// The stored tasks, in ascending id order.
    pub closed spec fn spec_tasks(&self) -> Seq<Task> {
        self.tasks@
    }

    /// The id the next added task will receive.
    pub closed spec fn spec_next_id(&self) -> u64 {
        self.next_id
    }

    /// The store's invariant: ids strictly increase along the sequence, and
    /// `next_id` is above them all.
    pub open spec fn wf(&self) -> bool {
        &&& forall|i: int, j: int|
            0 <= i < j < self.spec_tasks().len() ==> #[trigger] self.spec_tasks()[i].id
                < #[trigger] self.spec_tasks()[j].id
        &&& forall|i: int|
            0 <= i < self.spec_tasks().len() ==> #[trigger] self.spec_tasks()[i].id
                < self.spec_next_id()
        &&& self.spec_next_id() >= 1
    }

    /// An empty store; loading persisted tasks into it is the caller's
    /// business, through `from_entries`.
    pub fn new() -> (r: TodoManager)
        ensures
            r.wf(),
            r.spec_tasks().len() == 0,
            r.spec_next_id() == 1,
    {
        TodoManager { tasks: Vec::new(), next_id: 1 }
    }

    /// Whether another id can still be handed out.
    pub fn can_add(&self) -> (r: bool)
        ensures
            r == (self.spec_next_id() < u64::MAX),
    {
        self.next_id < u64::MAX
    }

    /// Where the task with this id sits, if anywhere.
    fn index_of_id(&self, id: u64) -> (r: Option<usize>)
        ensures
            match r {
                Some(i) => i < self.spec_tasks().len() && self.spec_tasks()[i as int].id == id,
                None => forall|i: int|
                    0 <= i < self.spec_tasks().len() ==> #[trigger] self.spec_tasks()[i].id != id,
            },
    {
        let mut i: usize = 0;
        while i < self.tasks.len()
            invariant
                i <= self.tasks@.len(),
                forall|k: int| 0 <= k < i ==> #[trigger] self.tasks@[k].id != id,
            decreases self.tasks@.len() - i,
        {
            if self.tasks[i].id == id {
                return Some(i);
            }
            i += 1;
        }
        None
    }

    /// Read-only access to one task; absence is a normal empty result.
    pub fn get_task(&self, id: u64) -> (r: Option<&Task>)
        ensures
            match r {
                Some(t) => t.id == id && exists|i: int|
                    0 <= i < self.spec_tasks().len() && #[trigger] self.spec_tasks()[i] == *t,
                None => forall|i: int|
                    0 <= i < self.spec_tasks().len() ==> #[trigger] self.spec_tasks()[i].id != id,
            },
    {
        match self.index_of_id(id) {
            Some(i) => Some(&self.tasks[i]),
            None => None,
        }
    }

    /// All tasks, in ascending id order.
    pub fn list_tasks(&self) -> (r: Vec<&Task>)
        ensures
            r@.len() == self.spec_tasks().len(),
            forall|i: int| 0 <= i < r@.len() ==> *(#[trigger] r@[i]) == self.spec_tasks()[i],
    {
        let mut out: Vec<&Task> = Vec::new();
        let mut i: usize = 0;
        while i < self.tasks.len()
            invariant
                i <= self.tasks@.len(),
                out@.len() == i,
                forall|k: int| 0 <= k < i ==> *(#[trigger] out@[k]) == self.tasks@[k],
            decreases self.tasks@.len() - i,
        {
            out.push(&self.tasks[i]);
            i += 1;
        }
        out
    }

    /// What a successful addition does: the freshly built task is appended,
    /// it carries the old `next_id`, and `next_id` moves past it.
    pub open spec fn spec_add_transition(
        pre: TodoManager,
        post: TodoManager,
        r: Result<u64, TodoError>,
        name: Seq<char>,
        priority: Option<Priority>,
        category: Option<Seq<char>>,
        due_date: Option<Seq<char>>,
        tags: Option<Seq<char>>,
        now: i64,
    ) -> bool {
        match r {
            Ok(id) => {
                let t = post.spec_tasks().last();
                &&& id == pre.spec_next_id()
                &&& post.spec_next_id() == pre.spec_next_id() + 1
                &&& post.spec_tasks() == pre.spec_tasks().push(t)
                &&& t.id == id
                &&& t.name@ == name
                &&& t.status is Pending
                &&& t.priority == (match priority {
                    Some(p) => p,
                    None => Priority::Medium,
                })
                &&& t.category@ == (match category {
                    Some(c) => c,
                    None => "General"@,
                })
                &&& t.create_at == now
                &&& t.update_at == now
                &&& t.completed_at is None
                &&& (match due_date {
                    Some(d) => dates::parse_due_result(d, now) == Some(t.due_date),
                    None => t.due_date is None,
                })
                &&& t.tags.deep_view() == (match tags {
                    Some(x) => crate::text::tags_of_text(x),
                    None => Seq::<Seq<char>>::empty(),
                })
            },
            Err(e) => {
                &&& post == pre
                &&& due_date matches Some(d) && dates::parse_due_result(d, now) is None && (
                e matches TodoError::InvalidDate(t) && t@ == d)
            },
        }
    }

    /// Add a task built from the given fields at time `now`. Malformed
    /// due-date text fails the whole call and leaves the store unchanged.
    pub fn add_task_at(
        &mut self,
        name: &str,
        priority: Option<Priority>,
        category: Option<&str>,
        due_date: Option<&str>,
        tags: Option<&str>,
        now: i64,
    ) -> (r: Result<u64, TodoError>)
        requires
            old(self).wf(),
            old(self).spec_next_id() < u64::MAX,
        ensures
            final(self).wf(),
            TodoManager::spec_add_transition(
                *old(self),
                *final(self),
                r,
                name@,
                priority,
                opt_str_view(category),
                opt_str_view(due_date),
                opt_str_view(tags),
                now,
            ),
    {
        let due_val: Option<i64> = match due_date {
            Some(d) => match dates::parse_due_date(d, now) {
                Ok(v) => v,
                Err(e) => {
                    return Err(e);
                },
            },
            None => None,
        };
        let id = self.next_id;
        let mut task = Task::new_at(id, name.to_owned(), now);
        if let Some(p) = priority {
            task.set_priority_at(p, now);
        }
        if let Some(c) = category {
            task.set_category_at(c.to_owned(), now);
        }
        if let Some(dv) = due_val {
            task.set_due_date_at(dv, now);
        }
        proof {
            assert(task.tags.deep_view() =~= Seq::<Seq<char>>::empty());
        }
        if let Some(ts) = tags {
            let segs = crate::text::split_commas(ts);
            let ghost segs_view = crate::text::split_commas_spec(ts@);
            let mut k: usize = 0;
            while k < segs.len()
                invariant
                    k <= segs@.len(),
                    segs.deep_view() == segs_view,
                    task.tags.deep_view() =~= crate::text::fold_tags_view(
                        Seq::<Seq<char>>::empty(),
                        segs_view.take(k as int),
                    ),
                    task.id == id,
                    task.name@ == name@,
                    task.status is Pending,
                    task.priority == (match priority {
                        Some(p) => p,
                        None => Priority::Medium,
                    }),
                    task.category@ == (match category {
                        Some(c) => c@,
                        None => "General"@,
                    }),
                    task.create_at == now,
                    task.update_at == now,
                    task.completed_at is None,
                    task.due_date == due_val,
                decreases segs@.len() - k,
            {
                let seg = text_trim_of(&segs, k);
                proof {
                    assert(segs_view.take(k + 1).drop_last() =~= segs_view.take(k as int));
                    assert(segs_view.take(k + 1).last() == segs.deep_view()[k as int]);
                }
                task.add_tag_at(seg, now);
                proof {
                    assert(task.tags.deep_view() =~= crate::text::fold_tags_view(
                        Seq::<Seq<char>>::empty(),
                        segs_view.take(k + 1),
                    ));
                }
                k += 1;
            }
            proof {
                assert(segs_view.take(segs_view.len() as int) =~= segs_view);
            }
        }
        self.tasks.push(task);
        self.next_id = self.next_id + 1;
        proof {
            assert forall|i: int, j: int|
                0 <= i < j < self.spec_tasks().len() implies #[trigger] self.spec_tasks()[i].id
                < #[trigger] self.spec_tasks()[j].id by {
                if j < self.spec_tasks().len() - 1 {
                    assert(old(self).spec_tasks()[i].id < old(self).spec_tasks()[j].id);
                }
            }
        }
        Ok(id)
    }
    /// Add a task at the current time; the assigned id is returned.
    pub fn add_task(
        &mut self,
        name: &str,
        priority: Option<Priority>,
        category: Option<&str>,
        due_date: Option<&str>,
        tags: Option<&str>,
    ) -> (r: Result<u64, TodoError>)
        requires
            old(self).wf(),
            old(self).spec_next_id() < u64::MAX,
        ensures
            final(self).wf(),
            exists|t: i64|
                TodoManager::spec_add_transition(
                    *old(self),
                    *final(self),
                    r,
                    name@,
                    priority,
                    opt_str_view(category),
                    opt_str_view(due_date),
                    opt_str_view(tags),
                    t,
                ),
    {
        let now = dates::now_timestamp();
        self.add_task_at(name, priority, category, due_date, tags, now)
    }

    /// What completing a task does: the task keeps its place and identity,
    /// its status becomes `Completed`, and both stamps are set to `now`.
    pub open spec fn spec_complete_transition(
        pre: TodoManager,
        post: TodoManager,
        r: Result<(), TodoError>,
        id: u64,
        now: i64,
    ) -> bool {
        match r {
            Ok(u) => {
                &&& post.spec_next_id() == pre.spec_next_id()
                &&& exists|i: int|
                    #![trigger pre.spec_tasks()[i]]
                    {
                        &&& 0 <= i < pre.spec_tasks().len()
                        &&& pre.spec_tasks()[i].id == id
                        &&& post.spec_tasks() == pre.spec_tasks().update(
                            i,
                            pre.spec_tasks()[i].spec_complete(now),
                        )
                    }
            },
            Err(e) => {
                &&& post == pre
                &&& e matches TodoError::TaskNotFound(x) && x == id
                &&& forall|i: int|
                    0 <= i < pre.spec_tasks().len() ==> #[trigger] pre.spec_tasks()[i].id != id
            },
        }
    }

    /// Complete the task with this id at time `now`.
    pub fn complete_task_at(&mut self, id: u64, now: i64) -> (r: Result<(), TodoError>)
        requires
            old(self).wf(),
        ensures
            final(self).wf(),
            TodoManager::spec_complete_transition(*old(self), *final(self), r, id, now),
    {
        match self.index_of_id(id) {
            Some(i) => {
                let mut t = self.tasks.remove(i);
                t.complete_at(now);
                self.tasks.insert(i, t);
                proof {
                    assert(self.tasks@ =~= old(self).tasks@.update(
                        i as int,
                        old(self).tasks@[i as int].spec_complete(now),
                    ));
                }
                Ok(())
            },
            None => Err(TodoError::TaskNotFound(id)),
        }
    }

    /// Complete the task with this id at the current time.
    pub fn complete_task(&mut self, id: u64) -> (r: Result<(), TodoError>)
        requires
            old(self).wf(),
        ensures
            final(self).wf(),
            exists|t: i64|
                TodoManager::spec_complete_transition(*old(self), *final(self), r, id, t),
    {
        let now = dates::now_timestamp();
        self.complete_task_at(id, now)
    }

    /// What removing a task does: it leaves the sequence, and everything
    /// else, `next_id` included, stays.
    pub open spec fn spec_remove_transition(
        pre: TodoManager,
        post: TodoManager,
        r: Result<(), TodoError>,
        id: u64,
    ) -> bool {
        match r {
            Ok(u) => {
                &&& post.spec_next_id() == pre.spec_next_id()
                &&& exists|i: int|
                    #![trigger pre.spec_tasks()[i]]
                    {
                        &&& 0 <= i < pre.spec_tasks().len()
                        &&& pre.spec_tasks()[i].id == id
                        &&& post.spec_tasks() == pre.spec_tasks().remove(i)
                    }
            },
            Err(e) => {
                &&& post == pre
                &&& e matches TodoError::TaskNotFound(x) && x == id
                &&& forall|i: int|
                    0 <= i < pre.spec_tasks().len() ==> #[trigger] pre.spec_tasks()[i].id != id
            },
        }
    }

    /// Remove the task with this id.
    pub fn remove_task(&mut self, id: u64) -> (r: Result<(), TodoError>)
        requires
            old(self).wf(),
        ensures
            final(self).wf(),
            TodoManager::spec_remove_transition(*old(self), *final(self), r, id),
    {
        match self.index_of_id(id) {
            Some(i) => {
                self.tasks.remove(i);
                proof {
                    assert(self.tasks@ =~= old(self).tasks@.remove(i as int));
                    assert forall|a: int, b: int|
                        0 <= a < b < self.spec_tasks().len() implies #[trigger] self.spec_tasks()[a].id
                        < #[trigger] self.spec_tasks()[b].id by {
                        let pa = if a < i as int {
                            a
                        } else {
                            a + 1
                        };
                        let pb = if b < i as int {
                            b
                        } else {
                            b + 1
                        };
                        assert(old(self).spec_tasks()[pa].id < old(self).spec_tasks()[pb].id);
                    }
                }
                Ok(())
            },
            None => Err(TodoError::TaskNotFound(id)),
        }
    }

    /// What a successful edit does: the task keeps its place and id, each
    /// supplied field is replaced, and supplied due-date text is read by the
    /// grammar, the empty string clearing the due date.
    pub open spec fn spec_edit_transition(
        pre: TodoManager,
        post: TodoManager,
        r: Result<(), TodoError>,
        id: u64,
        name: Option<String>,
        priority: Option<Priority>,
        category: Option<String>,
        due_date: Option<String>,
        now: i64,
    ) -> bool {
        match r {
            Ok(u) => {
                &&& post.spec_next_id() == pre.spec_next_id()
                &&& exists|i: int|
                    #![trigger pre.spec_tasks()[i]]
                    {
                        &&& 0 <= i < pre.spec_tasks().len()
                        &&& pre.spec_tasks()[i].id == id
                        &&& match due_date {
                            None => post.spec_tasks() == pre.spec_tasks().update(
                                i,
                                pre.spec_tasks()[i].spec_edited(
                                    name,
                                    priority,
                                    category,
                                    None::<Option<i64>>,
                                    now,
                                ),
                            ),
                            Some(d) => dates::parse_due_result(d@, now) matches Some(v)
                                && post.spec_tasks() == pre.spec_tasks().update(
                                i,
                                pre.spec_tasks()[i].spec_edited(
                                    name,
                                    priority,
                                    category,
                                    Some(v),
                                    now,
                                ),
                            ),
                        }
                    }
            },
            Err(e) => {
                &&& post == pre
                &&& {
                    ||| (e matches TodoError::TaskNotFound(x) && x == id) && (forall|i: int|
                        0 <= i < pre.spec_tasks().len() ==> #[trigger] pre.spec_tasks()[i].id != id)
                    ||| (exists|i: int|
                        0 <= i < pre.spec_tasks().len() && #[trigger] pre.spec_tasks()[i].id == id)
                        && (due_date matches Some(d) && dates::parse_due_result(d@, now) is None
                        && (e matches TodoError::InvalidDate(t) && t@ == d@))
                }
            },
        }
    }

    /// Apply the supplied fields to the task with this id at time `now`.
    /// Malformed due-date text fails the call with the task entirely
    /// unchanged; an absent field is left as it was.
    pub fn edit_task_at(
        &mut self,
        id: u64,
        name: Option<String>,
        priority: Option<Priority>,
        category: Option<String>,
        due_date: Option<String>,
        now: i64,
    ) -> (r: Result<(), TodoError>)
        requires
            old(self).wf(),
        ensures
            final(self).wf(),
            TodoManager::spec_edit_transition(
                *old(self),
                *final(self),
                r,
                id,
                name,
                priority,
                category,
                due_date,
                now,
            ),
    {
        let i = match self.index_of_id(id) {
            Some(i) => i,
            None => {
                return Err(TodoError::TaskNotFound(id));
            },
        };
        let due_edit: Option<Option<i64>> = match &due_date {
            Some(d) => match dates::parse_due_date(d.as_str(), now) {
                Ok(v) => Some(v),
                Err(e) => {
                    return Err(e);
                },
            },
            None => None,
        };
        let mut t = self.tasks.remove(i);
        let ghost t0 = t;
        if let Some(n) = name {
            t.name = n;
            t.update_at = now;
        }
        if let Some(p) = priority {
            t.set_priority_at(p, now);
        }
        if let Some(c) = category {
            t.set_category_at(c, now);
        }
        if let Some(v) = due_edit {
            t.due_date = v;
            t.update_at = now;
        }
        self.tasks.insert(i, t);
        proof {
            assert(self.tasks@ =~= old(self).tasks@.update(
                i as int,
                old(self).tasks@[i as int].spec_edited(name, priority, category, due_edit, now),
            ));
        }
        Ok(())
    }

    /// Apply the supplied fields to the task with this id at the current
    /// time.
    pub fn edit_task(
        &mut self,
        id: u64,
        name: Option<String>,
        priority: Option<Priority>,
        category: Option<String>,
        due_date: Option<String>,
    ) -> (r: Result<(), TodoError>)
        requires
            old(self).wf(),
        ensures
            final(self).wf(),
            exists|t: i64|
                TodoManager::spec_edit_transition(
                    *old(self),
                    *final(self),
                    r,
                    id,
                    name,
                    priority,
                    category,
                    due_date,
                    t,
                ),
    {
        let now = dates::now_timestamp();
        self.edit_task_at(id, name, priority, category, due_date, now)
    }
}

/// Holding a given category, as a filter predicate.
pub open spec fn cat_pred(category: Seq<char>) -> spec_fn(Task) -> bool {
    |t: Task| t.category@ == category
}

/// Holding a given category and already completed.
pub open spec fn completed_cat_pred(category: Seq<char>) -> spec_fn(Task) -> bool {
    |t: Task| t.category@ == category && t.status is Completed
}

/// The tasks a sequence of references points at.
pub open spec fn deref_tasks(s: Seq<&Task>) -> Seq<Task> {
    s.map_values(|t: &Task| *t)
}

impl TodoManager {
    /// The tasks whose category matches exactly, in ascending id order.
    pub fn get_tasks_by_category(&self, category: &str) -> (r: Vec<&Task>)
        ensures
            deref_tasks(r@) == self.spec_tasks().filter(cat_pred(category@)),
    {
        let ghost p = cat_pred(category@);
        let mut out: Vec<&Task> = Vec::new();
        let mut i: usize = 0;
        proof {
            reveal(Seq::filter);
            assert(deref_tasks(out@) =~= self.tasks@.take(0).filter(p));
        }
        while i < self.tasks.len()
            invariant
                i <= self.tasks@.len(),
                p == cat_pred(category@),
                deref_tasks(out@) == self.tasks@.take(i as int).filter(p),
            decreases self.tasks@.len() - i,
        {
            let ghost pre = deref_tasks(out@);
            let ghost cur = self.tasks@[i as int];
            proof {
                assert(self.tasks@.take(i + 1).drop_last() =~= self.tasks@.take(i as int));
                assert(self.tasks@.take(i + 1).last() == cur);
                assert(p(cur) == (cur.category@ == category@));
            }
            if crate::text::str_eq(self.tasks[i].category.as_str(), category) {
                out.push(&self.tasks[i]);
                proof {
                    assert(deref_tasks(out@) =~= pre.push(cur));
                }
            }
            proof {
                reveal(Seq::filter);
                assert(self.tasks@.take(i + 1).filter(p) == (if p(cur) {
                    self.tasks@.take(i as int).filter(p).push(cur)
                } else {
                    self.tasks@.take(i as int).filter(p)
                }));
            }
            i += 1;
        }
        proof {
            assert(self.tasks@.take(self.tasks@.len() as int) =~= self.tasks@);
        }
        out
    }

    /// How many tasks hold the category, and how many of those are
    /// completed.
    pub fn category_stats(&self, category: &str) -> (r: (usize, usize))
        ensures
            r.0 == self.spec_tasks().filter(cat_pred(category@)).len(),
            r.1 == self.spec_tasks().filter(completed_cat_pred(category@)).len(),
    {
        let ghost p = cat_pred(category@);
        let ghost q = completed_cat_pred(category@);
        let mut total: usize = 0;
        let mut done: usize = 0;
        let mut i: usize = 0;
        proof {
            reveal(Seq::filter);
            assert(self.tasks@.take(0).filter(p).len() == 0);
            assert(self.tasks@.take(0).filter(q).len() == 0);
        }
        while i < self.tasks.len()
            invariant
                i <= self.tasks@.len(),
                p == cat_pred(category@),
                q == completed_cat_pred(category@),
                total == self.tasks@.take(i as int).filter(p).len(),
                done == self.tasks@.take(i as int).filter(q).len(),
                total <= i,
                done <= i,
            decreases self.tasks@.len() - i,
        {
            let ghost cur = self.tasks@[i as int];
            proof {
                reveal(Seq::filter);
                assert(self.tasks@.take(i + 1).drop_last() =~= self.tasks@.take(i as int));
                assert(self.tasks@.take(i + 1).last() == cur);
                assert(p(cur) == (cur.category@ == category@));
                assert(q(cur) == (cur.category@ == category@ && cur.status is Completed));
                assert(self.tasks@.take(i + 1).filter(p) == (if p(cur) {
                    self.tasks@.take(i as int).filter(p).push(cur)
                } else {
                    self.tasks@.take(i as int).filter(p)
                }));
                assert(self.tasks@.take(i + 1).filter(q) == (if q(cur) {
                    self.tasks@.take(i as int).filter(q).push(cur)
                } else {
                    self.tasks@.take(i as int).filter(q)
                }));
            }
            if crate::text::str_eq(self.tasks[i].category.as_str(), category) {
                total += 1;
                if matches!(self.tasks[i].status, Status::Completed) {
                    done += 1;
                }
            }
            i += 1;
        }
        proof {
            assert(self.tasks@.take(self.tasks@.len() as int) =~= self.tasks@);
        }
        (total, done)
    }

    /// Every category in use, each once, sorted lexicographically by code
    /// point as `sort` on strings orders them.
    pub fn get_categories(&self) -> (r: Vec<String>)
        ensures
            forall|a: int, b: int|
                0 <= a < b < r@.len() ==> crate::text::lex_lt(
                    (#[trigger] r@[a])@,
                    (#[trigger] r@[b])@,
                ),
            forall|k: int|
                0 <= k < r@.len() ==> tasks_have_cat(
                    self.spec_tasks(),
                    self.spec_tasks().len() as int,
                    (#[trigger] r@[k])@,
                ),
            forall|j: int|
                0 <= j < self.spec_tasks().len() ==> cats_contains_view(
                    r@,
                    (#[trigger] self.spec_tasks()[j]).category@,
                ),
    {
        let mut out: Vec<String> = Vec::new();
        let mut i: usize = 0;
        while i < self.tasks.len()
            invariant
                i <= self.tasks@.len(),
                forall|a: int, b: int|
                    0 <= a < b < out@.len() ==> crate::text::lex_lt(
                        (#[trigger] out@[a])@,
                        (#[trigger] out@[b])@,
                    ),
                forall|k: int|
                    0 <= k < out@.len() ==> tasks_have_cat(
                        self.spec_tasks(),
                        i as int,
                        (#[trigger] out@[k])@,
                    ),
                forall|j: int|
                    0 <= j < i ==> cats_contains_view(
                        out@,
                        (#[trigger] self.spec_tasks()[j]).category@,
                    ),
            decreases self.tasks@.len() - i,
        {
            let ghost pre = out@;
            let ghost cat_view = self.tasks@[i as int].category@;
            insert_category(&mut out, &self.tasks[i].category);
            proof {
                assert(tasks_have_cat(self.spec_tasks(), i + 1, cat_view)) by {
                    assert((self.spec_tasks()[i as int]).category@ == cat_view);
                }
                assert forall|k: int| 0 <= k < out@.len() implies tasks_have_cat(
                    self.spec_tasks(),
                    i + 1,
                    (#[trigger] out@[k])@,
                ) by {
                    if out@[k]@ != cat_view {
                        assert(cats_contains_view(pre, out@[k]@));
                        let k2 = choose|k2: int|
                            0 <= k2 < pre.len() && (#[trigger] pre[k2])@ == out@[k]@;
                        assert(tasks_have_cat(self.spec_tasks(), i as int, pre[k2]@));
                        let j = choose|j: int|
                            0 <= j < i && (#[trigger] self.spec_tasks()[j]).category@ == pre[k2]@;
                        assert((self.spec_tasks()[j]).category@ == out@[k]@);
                    }
                }
                assert forall|j: int| 0 <= j < i + 1 implies cats_contains_view(
                    out@,
                    (#[trigger] self.spec_tasks()[j]).category@,
                ) by {
                    if j == i {
                        assert(cats_contains_view(out@, cat_view));
                    } else {
                        assert(cats_contains_view(pre, self.spec_tasks()[j].category@));
                        let k2 = choose|k2: int|
                            0 <= k2 < pre.len() && (#[trigger] pre[k2])@ == self.spec_tasks()[j].category@;
                        assert(cats_contains_view(out@, pre[k2]@));
                    }
                }
            }
            i += 1;
        }
        out
    }
}

/// Whether some of the first `upto` tasks holds this category.
pub open spec fn tasks_have_cat(tasks: Seq<Task>, upto: int, c: Seq<char>) -> bool {
    exists|j: int| 0 <= j < upto && j < tasks.len() && (#[trigger] tasks[j]).category@ == c
}

/// Whether the category list holds this category, by view.
pub open spec fn cats_contains_view(cats: Seq<String>, c: Seq<char>) -> bool {
    exists|k: int| 0 <= k < cats.len() && (#[trigger] cats[k])@ == c
}

/// Insert a category into a strictly sorted list, keeping it sorted and
/// duplicate-free.
fn insert_category(out: &mut Vec<String>, cat: &String)
    requires
        forall|a: int, b: int|
            0 <= a < b < old(out)@.len() ==> crate::text::lex_lt(
                (#[trigger] old(out)@[a])@,
                (#[trigger] old(out)@[b])@,
            ),
    ensures
        forall|a: int, b: int|
            0 <= a < b < final(out)@.len() ==> crate::text::lex_lt(
                (#[trigger] final(out)@[a])@,
                (#[trigger] final(out)@[b])@,
            ),
        forall|k: int|
            0 <= k < final(out)@.len() ==> (#[trigger] final(out)@[k])@ == cat@
                || cats_contains_view(old(out)@, final(out)@[k]@),
        cats_contains_view(final(out)@, cat@),
        forall|k2: int|
            0 <= k2 < old(out)@.len() ==> cats_contains_view(
                final(out)@,
                (#[trigger] old(out)@[k2])@,
            ),
{
    let n = out.len();
    let mut p: usize = 0;
    while p < n
        invariant
            p <= n,
            n == out@.len(),
            *out == *old(out),
            forall|a: int, b: int|
                0 <= a < b < out@.len() ==> crate::text::lex_lt(
                    (#[trigger] out@[a])@,
                    (#[trigger] out@[b])@,
                ),
            forall|k: int| 0 <= k < p ==> crate::text::lex_lt((#[trigger] out@[k])@, cat@),
        decreases n - p,
    {
        if crate::text::str_eq(out[p].as_str(), cat.as_str()) {
            proof {
                assert(0 <= p < out@.len() && out@[p as int]@ == cat@);
                assert(cats_contains_view(out@, cat@));
                assert forall|k2: int| 0 <= k2 < old(out)@.len() implies cats_contains_view(
                    out@,
                    (#[trigger] old(out)@[k2])@,
                ) by {
                    assert(out@[k2]@ == old(out)@[k2]@);
                }
                assert forall|k: int| 0 <= k < out@.len() implies (#[trigger] out@[k])@ == cat@
                    || cats_contains_view(old(out)@, out@[k]@) by {
                    assert(out@[k]@ == old(out)@[k]@);
                }
            }
            return ;
        }
        if crate::text::str_lex_le(out[p].as_str(), cat.as_str()) {
            p += 1;
        } else {
            proof {
                crate::text::lemma_lex_total(out@[p as int]@, cat@);
                assert(crate::text::lex_lt(cat@, out@[p as int]@));
            }
            let ghost pre = out@;
            let item = cat.clone();
            out.insert(p, item);
            proof {
                assert(out@[p as int]@ == cat@);
                assert(forall|k: int| 0 <= k < p ==> out@[k] == pre[k]);
                assert(forall|k: int| p < k < out@.len() ==> out@[k] == pre[k - 1]);
                assert(cats_contains_view(out@, cat@));
                assert forall|a: int, b: int| 0 <= a < b < out@.len() implies crate::text::lex_lt(
                    (#[trigger] out@[a])@,
                    (#[trigger] out@[b])@,
                ) by {
                    if b < p {
                    } else if b == p {
                        assert(crate::text::lex_lt(pre[a]@, cat@));
                    } else {
                        if a < p {
                            assert(out@[a] == pre[a]);
                            assert(crate::text::lex_lt(pre[a]@, pre[b - 1]@));
                        } else if a == p {
                            if b > p + 1 {
                                crate::text::lemma_lex_lt_trans(cat@, pre[p as int]@, pre[b - 1]@);
                            }
                        } else {
                            assert(out@[a] == pre[a - 1]);
                        }
                    }
                }
                assert forall|k2: int| 0 <= k2 < old(out)@.len() implies cats_contains_view(
                    out@,
                    (#[trigger] old(out)@[k2])@,
                ) by {
                    if k2 < p {
                        assert(out@[k2]@ == old(out)@[k2]@);
                    } else {
                        assert(out@[k2 + 1]@ == old(out)@[k2]@);
                    }
                }
                assert forall|k: int| 0 <= k < out@.len() implies (#[trigger] out@[k])@ == cat@
                    || cats_contains_view(old(out)@, out@[k]@) by {
                    if k < p {
                        assert(out@[k]@ == old(out)@[k]@);
                    } else if k > p {
                        assert(out@[k]@ == old(out)@[k - 1]@);
                    }
                }
            }
            return ;
        }
    }
    let ghost pre = out@;
    let item = cat.clone();
    out.push(item);
    proof {
        assert(out@[out@.len() - 1]@ == cat@);
        assert(cats_contains_view(out@, cat@));
        assert forall|a: int, b: int| 0 <= a < b < out@.len() implies crate::text::lex_lt(
            (#[trigger] out@[a])@,
            (#[trigger] out@[b])@,
        ) by {
            if b == out@.len() - 1 {
                assert(out@[a] == pre[a]);
                assert(crate::text::lex_lt(pre[a]@, cat@));
            }
        }
        assert forall|k2: int| 0 <= k2 < old(out)@.len() implies cats_contains_view(
            out@,
            (#[trigger] old(out)@[k2])@,
        ) by {
            assert(out@[k2]@ == old(out)@[k2]@);
        }
        assert forall|k: int| 0 <= k < out@.len() implies (#[trigger] out@[k])@ == cat@
            || cats_contains_view(old(out)@, out@[k]@) by {
            if k < out@.len() - 1 {
                assert(out@[k]@ == old(out)@[k]@);
            }
        }
    }
}

/// Ids pairwise distinct.
pub open spec fn distinct_ids(s: Seq<Task>) -> bool {
    forall|i: int, j: int| 0 <= i < j < s.len() ==> #[trigger] s[i].id != #[trigger] s[j].id
}

/// Ids strictly increasing along the sequence.
pub open spec fn sorted_by_id(s: Seq<Task>) -> bool {
    forall|i: int, j: int| 0 <= i < j < s.len() ==> #[trigger] s[i].id < #[trigger] s[j].id
}

/// Every id leaves room for a successor.
pub open spec fn ids_below_max(s: Seq<Task>) -> bool {
    forall|i: int| 0 <= i < s.len() ==> #[trigger] s[i].id < u64::MAX
}

/// What the tasks of the listing command keep: each filter that is supplied
/// must pass.
pub open spec fn spec_matches_filters(
    t: Task,
    status: Option<StatusFilter>,
    priority: Option<Priority>,
    category: Option<Seq<char>>,
    overdue: bool,
    today: bool,
    now: i64,
) -> bool {
    &&& match status {
        Some(StatusFilter::Pending) => t.status is Pending,
        Some(StatusFilter::Completed) => t.status is Completed,
        Some(StatusFilter::All) => true,
        None => true,
    }
    &&& match priority {
        Some(p) => t.priority == p,
        None => true,
    }
    &&& match category {
        Some(c) => t.category@ == c,
        None => true,
    }
    &&& (overdue ==> t.spec_is_overdue(now))
    &&& (today ==> match t.due_date {
        Some(d) => dates::spec_day_of(d) == dates::spec_day_of(now),
        None => false,
    })
}

/// The listing filters, as one predicate.
pub open spec fn filters_pred(
    status: Option<StatusFilter>,
    priority: Option<Priority>,
    category: Option<Seq<char>>,
    overdue: bool,
    today: bool,
    now: i64,
) -> spec_fn(Task) -> bool {
    |t: Task| spec_matches_filters(t, status, priority, category, overdue, today, now)
}

impl TodoManager {
    /// The tasks that pass every supplied listing filter, in ascending id
    /// order. `overdue` keeps only tasks overdue at `now`; `today` keeps
    /// only tasks whose due date falls on the same UTC calendar day as
    /// `now`.
    pub fn filter_tasks(
        &self,
        status: Option<StatusFilter>,
        priority: Option<Priority>,
        category: Option<&str>,
        overdue: bool,
        today: bool,
        now: i64,
    ) -> (r: Vec<&Task>)
        ensures
            deref_tasks(r@) == self.spec_tasks().filter(
                filters_pred(status, priority, opt_str_view(category), overdue, today, now),
            ),
    {
        let ghost p = filters_pred(status, priority, opt_str_view(category), overdue, today, now);
        let mut out: Vec<&Task> = Vec::new();
        let mut i: usize = 0;
        proof {
            reveal(Seq::filter);
            assert(deref_tasks(out@) =~= self.tasks@.take(0).filter(p));
        }
        while i < self.tasks.len()
            invariant
                i <= self.tasks@.len(),
                p == filters_pred(status, priority, opt_str_view(category), overdue, today, now),
                deref_tasks(out@) == self.tasks@.take(i as int).filter(p),
            decreases self.tasks@.len() - i,
        {
            let ghost pre = deref_tasks(out@);
            let ghost cur = self.tasks@[i as int];
            proof {
                assert(self.tasks@.take(i + 1).drop_last() =~= self.tasks@.take(i as int));
                assert(self.tasks@.take(i + 1).last() == cur);
                assert(p(cur) == spec_matches_filters(
                    cur,
                    status,
                    priority,
                    opt_str_view(category),
                    overdue,
                    today,
                    now,
                ));
            }
            let t = &self.tasks[i];
            let mut keep = match status {
                Some(StatusFilter::Pending) => matches!(t.status, Status::Pending),
                Some(StatusFilter::Completed) => matches!(t.status, Status::Completed),
                Some(StatusFilter::All) => true,
                None => true,
            };
            if keep {
                if let Some(p2) = priority {
                    keep = t.priority == p2;
                }
            }
            if keep {
                if let Some(c) = category {
                    keep = crate::text::str_eq(t.category.as_str(), c);
                }
            }
            if keep && overdue {
                keep = t.is_overdue_at(now);
            }
            if keep && today {
                keep = match t.due_date {
                    Some(d) => dates::day_of(d) == dates::day_of(now),
                    None => false,
                };
            }
            if keep {
                out.push(&self.tasks[i]);
                proof {
                    assert(deref_tasks(out@) =~= pre.push(cur));
                }
            }
            proof {
                reveal(Seq::filter);
                assert(self.tasks@.take(i + 1).filter(p) == (if p(cur) {
                    self.tasks@.take(i as int).filter(p).push(cur)
                } else {
                    self.tasks@.take(i as int).filter(p)
                }));
            }
            i += 1;
        }
        proof {
            assert(self.tasks@.take(self.tasks@.len() as int) =~= self.tasks@);
        }
        out
    }

    /// Rebuild a store from persisted entries: the tasks are ordered by id,
    /// and `next_id` becomes the greatest stored id plus one, or 1 when
    /// nothing was stored. Entries with a repeated id, or with the one id
    /// that leaves no room for a successor, are rejected as corrupt.
    pub fn from_entries(entries: Vec<Task>) -> (r: Option<TodoManager>)
        ensures
            r is Some <==> distinct_ids(entries@) && ids_below_max(entries@),
            match r {
                Some(m) => {
                    &&& m.wf()
                    &&& m.spec_tasks().len() == entries@.len()
                    &&& forall|t: Task| #[trigger] m.spec_tasks().contains(t)
                        <==> entries@.contains(t)
                    &&& (if entries@.len() == 0 {
                        m.spec_next_id() == 1
                    } else {
                        m.spec_next_id() == m.spec_tasks().last().id + 1
                    })
                },
                None => true,
            },
    {
        let n = entries.len();
        let mut i: usize = 0;
        while i < n
            invariant
                i <= n,
                n == entries@.len(),
                forall|a: int| 0 <= a < i ==> #[trigger] entries@[a].id < u64::MAX,
                forall|a: int, b: int|
                    0 <= a < i && a < b < n ==> #[trigger] entries@[a].id != #[trigger] entries@[b].id,
            decreases n - i,
        {
            if entries[i].id == u64::MAX {
                return None;
            }
            let mut j: usize = i + 1;
            while j < n
                invariant
                    i < n,
                    i + 1 <= j <= n,
                    n == entries@.len(),
                    forall|b: int|
                        i < b < j ==> entries@[i as int].id != #[trigger] entries@[b].id,
                decreases n - j,
            {
                if entries[j].id == entries[i].id {
                    return None;
                }
                j += 1;
            }
            i += 1;
        }
        let mut rem = entries;
        let ghost all = rem@;
        let mut out: Vec<Task> = Vec::new();
        while rem.len() > 0
            invariant
                distinct_ids(rem@),
                sorted_by_id(out@),
                ids_below_max(out@),
                ids_below_max(rem@),
                forall|k: int, j: int|
                    0 <= k < out@.len() && 0 <= j < rem@.len() ==> #[trigger] out@[k].id
                        < #[trigger] rem@[j].id,
                forall|t: Task|
                    #![trigger out@.contains(t)]
                    #![trigger rem@.contains(t)]
                    #![trigger all.contains(t)]
                    (out@.contains(t) || rem@.contains(t)) <==> all.contains(t),
                out@.len() + rem@.len() == all.len(),
            decreases rem@.len(),
        {
            let mut best: usize = 0;
            let mut k: usize = 1;
            while k < rem.len()
                invariant
                    rem@.len() > 0,
                    best < k,
                    k <= rem@.len(),
                    forall|a: int| 0 <= a < k ==> rem@[best as int].id <= #[trigger] rem@[a].id,
                decreases rem@.len() - k,
            {
                if rem[k].id < rem[best].id {
                    best = k;
                }
                k += 1;
            }
            let ghost rem_pre = rem@;
            let ghost out_pre = out@;
            let t = rem.swap_remove(best);
            out.push(t);
            proof {
                let m = rem_pre.len() - 1;
                assert(rem@ =~= rem_pre.update(best as int, rem_pre[m]).drop_last());
                assert forall|j: int| 0 <= j < rem@.len() implies #[trigger] rem@[j].id > t.id by {
                    let src = if j == best as int { m } else { j };
                    assert(rem_pre[src].id >= t.id);
                    assert(src != best ==> rem_pre[src].id != t.id);
                    if j == best as int {
                        assert(best < m);
                    }
                }
                assert forall|j: int| 0 <= j < rem@.len() implies #[trigger] rem@[j].id
                    < u64::MAX by {
                    let src = if j == best as int { m } else { j };
                    assert(rem_pre[src].id < u64::MAX);
                }
                assert forall|a: int, b: int| 0 <= a < b < rem@.len() implies #[trigger] rem@[a].id
                    != #[trigger] rem@[b].id by {
                    let sa = if a == best as int { m } else { a };
                    let sb = if b == best as int { m } else { b };
                    assert(sa != sb);
                    if sa < sb {
                        assert(rem_pre[sa].id != rem_pre[sb].id);
                    } else {
                        assert(rem_pre[sb].id != rem_pre[sa].id);
                    }
                }
                assert forall|t2: Task| (#[trigger] out@.contains(t2) || rem@.contains(t2))
                    implies all.contains(t2) by {
                    if out@.contains(t2) {
                        let k2 = choose|k2: int| 0 <= k2 < out@.len() && out@[k2] == t2;
                        if k2 < out_pre.len() {
                            assert(out_pre.contains(t2));
                        } else {
                            assert(t2 == t);
                            assert(rem_pre.contains(t2)) by {
                                assert(rem_pre[best as int] == t2);
                            }
                        }
                    } else {
                        let j = choose|j: int| 0 <= j < rem@.len() && rem@[j] == t2;
                        let src = if j == best as int { m } else { j };
                        assert(rem_pre[src] == t2);
                        assert(rem_pre.contains(t2));
                    }
                }
                assert forall|t2: Task| #[trigger] all.contains(t2) implies (out@.contains(t2)
                    || rem@.contains(t2)) by {
                    if out_pre.contains(t2) {
                        let k2 = choose|k2: int| 0 <= k2 < out_pre.len() && out_pre[k2] == t2;
                        assert(out@[k2] == t2);
                        assert(out@.contains(t2));
                    } else {
                        assert(rem_pre.contains(t2));
                        let a = choose|a: int| 0 <= a < rem_pre.len() && rem_pre[a] == t2;
                        if a == best as int {
                            assert(out@[out@.len() - 1] == t2);
                            assert(out@.contains(t2));
                        } else if a == m {
                            if best as int == m {
                                assert(false);
                            } else {
                                assert(rem@[best as int] == t2);
                                assert(rem@.contains(t2));
                            }
                        } else {
                            assert(rem@[a] == t2);
                            assert(rem@.contains(t2));
                        }
                    }
                }
            }
        }
        let next: u64 = if out.len() == 0 {
            1
        } else {
            out[out.len() - 1].id + 1
        };
        let m = TodoManager { tasks: out, next_id: next };
        proof {
            assert forall|i2: int| 0 <= i2 < m.spec_tasks().len() implies (
            #[trigger] m.spec_tasks()[i2]).id < m.spec_next_id() by {
                if i2 < m.spec_tasks().len() - 1 {
                    assert(m.spec_tasks()[i2].id < m.spec_tasks()[m.spec_tasks().len() - 1].id);
                }
            }
        }
        Some(m)
    }
}

/// Law: every id a well-formed store has handed out or stored lies strictly
/// below `next_id`, and additions hand out `next_id` itself, so the ids of
/// consecutive additions strictly increase and never collide with stored
/// tasks.
pub proof fn lemma_assigned_ids_strictly_increase(
    s0: TodoManager,
    s1: TodoManager,
    s2: TodoManager,
    id1: u64,
    id2: u64,
)
    requires
        s0.wf(),
        id1 == s0.spec_next_id(),
        s1.spec_next_id() == id1 + 1,
        id2 == s1.spec_next_id(),
        s2.spec_next_id() == id2 + 1,
    ensures
        id2 > id1,
        forall|i: int| 0 <= i < s0.spec_tasks().len() ==> #[trigger] s0.spec_tasks()[i].id < id1,
{
}

/// Law: in a well-formed store the last task carries the greatest id, so
/// `next_id` rebuilt as "last id plus one" is "greatest id plus one".
pub proof fn lemma_last_id_is_greatest(m: TodoManager)
    requires
        m.wf(),
        m.spec_tasks().len() > 0,
    ensures
        forall|i: int|
            0 <= i < m.spec_tasks().len() ==> #[trigger] m.spec_tasks()[i].id <= m.spec_tasks().last().id,
{
    assert forall|i: int| 0 <= i < m.spec_tasks().len() implies #[trigger] m.spec_tasks()[i].id
        <= m.spec_tasks().last().id by {
        if i < m.spec_tasks().len() - 1 {
            assert(m.spec_tasks()[i].id < m.spec_tasks()[m.spec_tasks().len() - 1].id);
        }
    }
}

/// Law: two sequences of tasks that are both strictly sorted by id and hold
/// the same tasks are the same sequence; reloading a store's tasks therefore
/// reproduces them exactly.
pub proof fn lemma_sorted_same_tasks_equal(a: Seq<Task>, b: Seq<Task>)
    requires
        sorted_by_id(a),
        sorted_by_id(b),
        forall|t: Task| #[trigger] a.contains(t) <==> b.contains(t),
    ensures
        a == b,
    decreases a.len(),
{
    if a.len() == 0 {
        if b.len() > 0 {
            assert(b.contains(b[0]));
            assert(a.contains(b[0]));
            assert(false);
        }
        assert(a =~= b);
    } else {
        assert(a.contains(a[0]));
        assert(b.contains(a[0]));
        let j = choose|j: int| 0 <= j < b.len() && b[j] == a[0];
        assert(b.contains(b[0]));
        assert(a.contains(b[0]));
        let i = choose|i: int| 0 <= i < a.len() && a[i] == b[0];
        assert(a[0].id <= a[i].id) by {
            if i > 0 {
                assert(a[0].id < a[i].id);
            }
        }
        assert(b[0].id <= b[j].id) by {
            if j > 0 {
                assert(b[0].id < b[j].id);
            }
        }
        assert(a[0].id == b[0].id);
        assert(j == 0) by {
            if j > 0 {
                assert(b[0].id < b[j].id);
            }
        }
        assert(a[0] == b[0]);
        let ta = a.skip(1);
        let tb = b.skip(1);
        assert forall|t: Task| #[trigger] ta.contains(t) implies tb.contains(t) by {
            let k = choose|k: int| 0 <= k < ta.len() && ta[k] == t;
            assert(a[k + 1] == t);
            assert(a.contains(t));
            assert(b.contains(t));
            let k2 = choose|k2: int| 0 <= k2 < b.len() && b[k2] == t;
            if k2 == 0 {
                assert(a[k + 1] == a[0]);
                assert(a[0].id < a[k + 1].id);
                assert(false);
            }
            assert(tb[k2 - 1] == t);
            assert(tb.contains(t));
        }
        assert forall|t: Task| #[trigger] tb.contains(t) implies ta.contains(t) by {
            let k = choose|k: int| 0 <= k < tb.len() && tb[k] == t;
            assert(b[k + 1] == t);
            assert(b.contains(t));
            assert(a.contains(t));
            let k2 = choose|k2: int| 0 <= k2 < a.len() && a[k2] == t;
            if k2 == 0 {
                assert(b[k + 1] == b[0]);
                assert(b[0].id < b[k + 1].id);
                assert(false);
            }
            assert(ta[k2 - 1] == t);
            assert(ta.contains(t));
        }
        assert(sorted_by_id(ta)) by {
            assert forall|x: int, y: int| 0 <= x < y < ta.len() implies #[trigger] ta[x].id
                < #[trigger] ta[y].id by {
                assert(a[x + 1].id < a[y + 1].id);
            }
        }
        assert(sorted_by_id(tb)) by {
            assert forall|x: int, y: int| 0 <= x < y < tb.len() implies #[trigger] tb[x].id
                < #[trigger] tb[y].id by {
                assert(b[x + 1].id < b[y + 1].id);
            }
        }
        lemma_sorted_same_tasks_equal(ta, tb);
        assert(b.len() > 0);
        assert(ta.len() == a.len() - 1);
        assert(tb.len() == b.len() - 1);
        assert(a.len() == b.len());
        assert forall|x: int| 0 <= x < a.len() implies a[x] == b[x] by {
            if x > 0 {
                assert(a[x] == ta[x - 1]);
                assert(b[x] == tb[x - 1]);
            }
        }
        assert(a =~= b);
    }
}

/// The `k`-th segment, trimmed and owned.
fn text_trim_of(segs: &Vec<String>, k: usize) -> (r: String)
    requires
        k < segs@.len(),
    ensures
        r@ == crate::text::trim_spec(segs.deep_view()[k as int]),
{
    crate::text::trim(segs[k].as_str()).to_owned()
}

} // verus!
