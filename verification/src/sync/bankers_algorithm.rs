//! The banker's algorithm.
//!
//! A [`BankersAlgorithm`] keeps how many units of every resource are free
//! and, for every task, how many units it holds and how many more it has
//! announced it may still ask for.  A grant is only made when the state it
//! leads to is safe: there is an order in which every task can obtain the
//! rest of its announced need and run to completion.

use super::deadlock_avoidance::{
    NumberOfResource, RequestResult, ResourceIdentifier, TaskIdentifier,
};
use std::collections::BTreeMap;
use vstd::prelude::*;

verus! {

broadcast use vstd::std_specs::btree::group_btree_axioms;

/// What one task holds of, and may still ask for, one resource kind.
#[derive(Debug, Clone, Copy, PartialEq, Eq, Structural)]
pub struct TaskResourcesState {
    /// The resource kind.
    pub resource: ResourceIdentifier,
    /// Units currently held.
    pub allocation: NumberOfResource,
    /// Units that may still be asked for.
    pub need: NumberOfResource,
}

/// The resource usage of one task.
#[derive(Debug)]
struct TaskRow {
    task: TaskIdentifier,
    uses: Vec<TaskResourcesState>,
}

/// Mathematical model of the resource usage of one task.
pub struct TaskView {
    /// The task.
    pub task: TaskIdentifier,
    /// What the task holds and may still ask for, resource by resource.
    pub uses: Seq<TaskResourcesState>,
}

/// Mathematical model of a [`BankersAlgorithm`].
pub struct BankersView {
    /// Free units by resource kind; a kind that is absent has none.
    pub available: Map<ResourceIdentifier, NumberOfResource>,
    /// The registered tasks, in the order of registration.
    pub tasks: Seq<TaskView>,
}

impl View for TaskRow {
    type V = TaskView;

    closed spec fn view(&self) -> TaskView {
        TaskView { task: self.task, uses: self.uses@ }
    }
}

impl BankersView {
    /// Row `i` is the row of task `t`, and its entry `j` is about resource `r`.
    pub open spec fn holds(self, t: TaskIdentifier, r: ResourceIdentifier, i: int, j: int) -> bool {
        &&& 0 <= i < self.tasks.len()
        &&& self.tasks[i].task == t
        &&& 0 <= j < self.tasks[i].uses.len()
        &&& self.tasks[i].uses[j].resource == r
    }

    /// The entry of task `t` for resource `r`; all zero when there is none.
    pub open spec fn entry(self, t: TaskIdentifier, r: ResourceIdentifier) -> TaskResourcesState {
        if exists|i: int, j: int| self.holds(t, r, i, j) {
            let (i, j) = choose|i: int, j: int| self.holds(t, r, i, j);
            self.tasks[i].uses[j]
        } else {
            TaskResourcesState { resource: r, allocation: 0, need: 0 }
        }
    }

    /// Free units of resource `r`.
    pub open spec fn available(self, r: ResourceIdentifier) -> nat {
        if self.available.contains_key(r) {
            self.available[r] as nat
        } else {
            0
        }
    }

    /// Units of resource `r` held by task `t`.
    pub open spec fn allocation(self, t: TaskIdentifier, r: ResourceIdentifier) -> nat {
        self.entry(t, r).allocation as nat
    }

    /// Units of resource `r` that task `t` may still ask for.
    pub open spec fn need(self, t: TaskIdentifier, r: ResourceIdentifier) -> nat {
        self.entry(t, r).need as nat
    }

    /// The identifiers of the registered tasks, in the order of registration.
    pub open spec fn task_ids(self) -> Seq<TaskIdentifier> {
        Seq::new(self.tasks.len(), |i: int| self.tasks[i].task)
    }

    /// Units of resource `r` held by the tasks listed in `ids`, taken together.
    pub open spec fn sum_allocation(self, ids: Seq<TaskIdentifier>, r: ResourceIdentifier) -> nat
        decreases ids.len(),
    {
        if ids.len() == 0 {
            0
        } else {
            self.sum_allocation(ids.drop_last(), r) + self.allocation(ids.last(), r)
        }
    }

    /// All units of resource `r` that exist: the free ones and those held by any task.
    pub open spec fn capacity(self, r: ResourceIdentifier) -> nat {
        self.available(r) + self.sum_allocation(self.task_ids(), r)
    }

    /// Units of resource `r` that are free once the tasks in `done` have
    /// completed and given back what they hold.
    pub open spec fn work_after(self, done: Seq<TaskIdentifier>, r: ResourceIdentifier) -> nat {
        self.available(r) + self.sum_allocation(done, r)
    }

    /// Task `t` can obtain all it may still ask for once the tasks in `done` have completed.
    pub open spec fn can_finish(self, t: TaskIdentifier, done: Seq<TaskIdentifier>) -> bool {
        forall|r: ResourceIdentifier|
            #![trigger self.need(t, r)]
            #![trigger self.work_after(done, r)]
            self.need(t, r) <= self.work_after(done, r)
    }

    /// `order` lists every registered task once, and each task in it can
    /// finish once those before it have completed.
    pub open spec fn is_safe_order(self, order: Seq<TaskIdentifier>) -> bool {
        &&& order.no_duplicates()
        &&& forall|k: int| 0 <= k < order.len() ==> self.task_ids().contains(#[trigger] order[k])
        &&& forall|i: int|
            0 <= i < self.tasks.len() ==> order.contains(#[trigger] self.tasks[i].task)
        &&& forall|k: int|
            0 <= k < order.len() ==> #[trigger] self.can_finish(order[k], order.take(k))
    }

    /// The state is safe: the tasks can complete in some order.
    pub open spec fn is_safe(self) -> bool {
        exists|order: Seq<TaskIdentifier>| self.is_safe_order(order)
    }

    /// No task has two rows and no row has two entries for one resource.
    pub open spec fn unique(self) -> bool {
        &&& forall|i: int, k: int|
            0 <= i < k < self.tasks.len() ==> self.tasks[i].task != self.tasks[k].task
        &&& forall|i: int, j: int, l: int|
            0 <= i < self.tasks.len() && 0 <= j < l < self.tasks[i].uses.len()
                ==> self.tasks[i].uses[j].resource != self.tasks[i].uses[l].resource
    }

    /// Well-formedness: entries are unique and the units of every resource can be counted.
    pub open spec fn wf(self) -> bool {
        &&& self.unique()
        &&& forall|r: ResourceIdentifier| #[trigger] self.capacity(r) <= usize::MAX
    }

    /// Under uniqueness an entry that is found is the entry.
    pub proof fn lemma_entry_found(self, t: TaskIdentifier, r: ResourceIdentifier, i: int, j: int)
        requires
            self.unique(),
            self.holds(t, r, i, j),
        ensures
            self.entry(t, r) == self.tasks[i].uses[j],
    {
        let (i2, j2) = choose|i: int, j: int| self.holds(t, r, i, j);
        assert(self.holds(t, r, i2, j2));
        assert(i2 == i) by {
            if i2 < i {
                assert(self.tasks[i2].task != self.tasks[i].task);
            } else if i < i2 {
                assert(self.tasks[i].task != self.tasks[i2].task);
            }
        }
        assert(j2 == j) by {
            if j2 < j {
                assert(self.tasks[i].uses[j2].resource != self.tasks[i].uses[j].resource);
            } else if j < j2 {
                assert(self.tasks[i].uses[j].resource != self.tasks[i].uses[j2].resource);
            }
        }
    }

    /// Taking one task out of a list takes what it holds out of the sum.
    pub proof fn lemma_sum_remove(self, ids: Seq<TaskIdentifier>, j: int, r: ResourceIdentifier)
        requires
            0 <= j < ids.len(),
        ensures
            self.sum_allocation(ids, r) == self.sum_allocation(ids.remove(j), r)
                + self.allocation(ids[j], r),
        decreases ids.len(),
    {
        if j == ids.len() - 1 {
            assert(ids.remove(j) =~= ids.drop_last());
        } else {
            self.lemma_sum_remove(ids.drop_last(), j, r);
            assert(ids.remove(j).drop_last() =~= ids.drop_last().remove(j));
            assert(ids.remove(j).last() == ids.last());
        }
    }

    /// What some of the tasks hold is no more than what a larger set of tasks holds.
    pub proof fn lemma_sum_subset(
        self,
        part: Seq<TaskIdentifier>,
        whole: Seq<TaskIdentifier>,
        r: ResourceIdentifier,
    )
        requires
            part.no_duplicates(),
            forall|k: int| 0 <= k < part.len() ==> whole.contains(#[trigger] part[k]),
        ensures
            self.sum_allocation(part, r) <= self.sum_allocation(whole, r),
        decreases part.len(),
    {
        if part.len() > 0 {
            let x = part.last();
            assert(whole.contains(part[part.len() - 1]));
            let j = choose|j: int| 0 <= j < whole.len() && whole[j] == x;
            let rest = whole.remove(j);
            let front = part.drop_last();
            assert forall|k: int| 0 <= k < front.len() implies rest.contains(
                #[trigger] front[k],
            ) by {
                assert(front[k] == part[k]);
                assert(whole.contains(part[k]));
                let p = choose|p: int| 0 <= p < whole.len() && whole[p] == part[k];
                assert(part[k] != part[part.len() - 1]);
                if p < j {
                    assert(rest[p] == whole[p]);
                } else {
                    assert(rest[p - 1] == whole[p]);
                }
            }
            self.lemma_sum_subset(front, rest, r);
            self.lemma_sum_remove(whole, j, r);
        }
    }

    /// The sum over a list of tasks follows a change made to one task that is listed once.
    pub proof fn lemma_sum_change(
        self,
        other: BankersView,
        ids: Seq<TaskIdentifier>,
        t: TaskIdentifier,
        r: ResourceIdentifier,
    )
        requires
            ids.no_duplicates(),
            forall|u: TaskIdentifier| u != t ==> other.allocation(u, r) == self.allocation(u, r),
        ensures
            ids.contains(t) ==> other.sum_allocation(ids, r) - other.allocation(t, r)
                == self.sum_allocation(ids, r) - self.allocation(t, r),
            !ids.contains(t) ==> other.sum_allocation(ids, r) == self.sum_allocation(ids, r),
        decreases ids.len(),
    {
        if ids.len() > 0 {
            let front = ids.drop_last();
            self.lemma_sum_change(other, front, t, r);
            if ids.last() == t {
                assert(!front.contains(t)) by {
                    if front.contains(t) {
                        let p = choose|p: int| 0 <= p < front.len() && front[p] == t;
                        assert(ids[p] == ids[ids.len() - 1]);
                    }
                }
                assert(ids.contains(t)) by {
                    assert(ids[ids.len() - 1] == t);
                }
            } else {
                assert(ids.contains(t) == front.contains(t)) by {
                    if ids.contains(t) {
                        let p = choose|p: int| 0 <= p < ids.len() && ids[p] == t;
                        assert(front[p] == t);
                    }
                    if front.contains(t) {
                        let p = choose|p: int| 0 <= p < front.len() && front[p] == t;
                        assert(ids[p] == t);
                    }
                }
            }
        }
    }
}


impl BankersView {
    /// Two states with the same rows have the same entries.
    pub proof fn lemma_same_rows(self, other: BankersView)
        requires
            self.tasks == other.tasks,
            self.unique(),
        ensures
            forall|t: TaskIdentifier, r: ResourceIdentifier|
                #![trigger other.entry(t, r)]
                #![trigger self.entry(t, r)]
                other.entry(t, r) == self.entry(t, r),
            other.task_ids() == self.task_ids(),
            other.unique(),
    {
        assert forall|t: TaskIdentifier, r: ResourceIdentifier|
            #![trigger other.entry(t, r)]
            #![trigger self.entry(t, r)]
            other.entry(t, r) == self.entry(t, r) by {
            if exists|i: int, j: int| self.holds(t, r, i, j) {
                let (i, j) = choose|i: int, j: int| self.holds(t, r, i, j);
                assert(other.holds(t, r, i, j));
                other.lemma_entry_found(t, r, i, j);
            } else {
                assert forall|i: int, j: int| !other.holds(t, r, i, j) by {
                    assert(!self.holds(t, r, i, j));
                }
            }
        }
        assert(other.task_ids() =~= self.task_ids());
    }

    /// The sums of two states whose tasks hold the same are the same.
    pub proof fn lemma_sum_same(
        self,
        other: BankersView,
        ids: Seq<TaskIdentifier>,
        r: ResourceIdentifier,
    )
        requires
            forall|u: TaskIdentifier| other.allocation(u, r) == self.allocation(u, r),
        ensures
            other.sum_allocation(ids, r) == self.sum_allocation(ids, r),
        decreases ids.len(),
    {
        if ids.len() > 0 {
            self.lemma_sum_same(other, ids.drop_last(), r);
        }
    }

    /// The registered tasks are listed once each.
    pub proof fn lemma_task_ids_unique(self)
        requires
            self.unique(),
        ensures
            self.task_ids().no_duplicates(),
    {
    }
}

/// Banker's algorithm state of one process.
#[derive(Debug)]
pub struct BankersAlgorithm {
    available: BTreeMap<ResourceIdentifier, NumberOfResource>,
    task_state: Vec<TaskRow>,
}

impl View for BankersAlgorithm {
    type V = BankersView;

    closed spec fn view(&self) -> BankersView {
        BankersView {
            available: self.available@,
            tasks: Seq::new(self.task_state@.len(), |i: int| self.task_state@[i]@),
        }
    }
}

/// Index of the entry for resource `r`, if there is one.
fn find_use(uses: &Vec<TaskResourcesState>, r: ResourceIdentifier) -> (found: Option<usize>)
    ensures
        match found {
            Some(j) => j < uses.len() && uses[j as int].resource == r,
            None => forall|j: int| 0 <= j < uses.len() ==> uses[j].resource != r,
        },
{
    let mut j: usize = 0;
    while j < uses.len()
        invariant
            j <= uses.len(),
            forall|k: int| 0 <= k < j ==> uses[k].resource != r,
        decreases uses.len() - j,
    {
        if uses[j].resource == r {
            return Some(j);
        }
        j += 1;
    }
    None
}

impl BankersAlgorithm {
    /// The invariant of the state: see [`BankersView::wf`].
    pub open spec fn wf(&self) -> bool {
        self@.wf()
    }

    /// A state without resources and without tasks.
    pub fn new() -> (s: Self)
        ensures
            s.wf(),
            s@.tasks.len() == 0,
            forall|r: ResourceIdentifier| s@.available(r) == 0,
            forall|t: TaskIdentifier, r: ResourceIdentifier|
                s@.allocation(t, r) == 0 && s@.need(t, r) == 0,
            forall|r: ResourceIdentifier| s@.capacity(r) == 0,
    {
        let s = BankersAlgorithm { available: BTreeMap::new(), task_state: Vec::new() };
        proof {
            assert(s@.task_ids() =~= Seq::<TaskIdentifier>::empty());
            assert forall|r: ResourceIdentifier| s@.capacity(r) == 0 by {}
        }
        s
    }

    /// Index of the row of task `t`, if it is registered.
    fn find_row(&self, t: TaskIdentifier) -> (found: Option<usize>)
        ensures
            match found {
                Some(i) => i < self@.tasks.len() && self@.tasks[i as int].task == t
                    && i < self.task_state.len()
                    && self.task_state[i as int]@ == self@.tasks[i as int],
                None => forall|i: int| 0 <= i < self@.tasks.len() ==> self@.tasks[i].task != t,
            },
    {
        let mut i: usize = 0;
        while i < self.task_state.len()
            invariant
                i <= self.task_state.len(),
                self@.tasks.len() == self.task_state.len(),
                forall|k: int| 0 <= k < i ==> self@.tasks[k].task != t,
            decreases self.task_state.len() - i,
        {
            if self.task_state[i].task == t {
                return Some(i);
            }
            i += 1;
        }
        None
    }

    /// Where the entry of task `t` for resource `r` is, if there is one.
    fn locate(&self, t: TaskIdentifier, r: ResourceIdentifier) -> (pos: Option<(usize, usize)>)
        requires
            self@.unique(),
        ensures
            match pos {
                Some((i, j)) => {
                    &&& self@.holds(t, r, i as int, j as int)
                    &&& i < self.task_state.len()
                    &&& j < self.task_state[i as int].uses.len()
                    &&& self.task_state[i as int].uses[j as int] == self@.entry(t, r)
                },
                None => self@.entry(t, r) == no_use(r),
            },
    {
        match self.find_row(t) {
            Some(i) => match find_use(&self.task_state[i].uses, r) {
                Some(j) => {
                    proof {
                        self@.lemma_entry_found(t, r, i as int, j as int);
                    }
                    Some((i, j))
                },
                None => {
                    proof {
                        assert forall|i2: int, j2: int| !self@.holds(t, r, i2, j2) by {
                            if self@.holds(t, r, i2, j2) {
                                if i2 != i {
                                    assert(self@.tasks[i2].task == self@.tasks[i as int].task);
                                }
                            }
                        }
                    }
                    None
                },
            },
            None => None,
        }
    }

    /// The entry of task `t` for resource `r`; all zero when there is none.
    fn entry(&self, t: TaskIdentifier, r: ResourceIdentifier) -> (e: TaskResourcesState)
        requires
            self.wf(),
        ensures
            e == self@.entry(t, r),
    {
        match self.locate(t, r) {
            Some((i, j)) => self.task_state[i].uses[j],
            None => TaskResourcesState { resource: r, allocation: 0, need: 0 },
        }
    }

    /// Free units of resource `resource`.
    pub fn available(&self, resource: ResourceIdentifier) -> (n: NumberOfResource)
        ensures
            n == self@.available(resource),
    {
        match self.available.get(&resource) {
            Some(n) => *n,
            None => 0,
        }
    }

    /// Units of `resource` held by `task`.
    pub fn allocation(&self, task: TaskIdentifier, resource: ResourceIdentifier) -> (n:
        NumberOfResource)
        requires
            self.wf(),
        ensures
            n == self@.allocation(task, resource),
    {
        self.entry(task, resource).allocation
    }

    /// Units of `resource` that `task` may still ask for.
    pub fn need(&self, task: TaskIdentifier, resource: ResourceIdentifier) -> (n: NumberOfResource)
        requires
            self.wf(),
        ensures
            n == self@.need(task, resource),
    {
        self.entry(task, resource).need
    }

    /// Add `n` free units of `resource`.
    pub fn add_resource(&mut self, resource: ResourceIdentifier, n: NumberOfResource)
        requires
            old(self).wf(),
            old(self)@.capacity(resource) + n <= usize::MAX,
        ensures
            final(self).wf(),
            final(self)@.tasks == old(self)@.tasks,
            final(self)@.available(resource) == old(self)@.available(resource) + n,
            forall|r: ResourceIdentifier|
                r != resource ==> final(self)@.available(r) == old(self)@.available(r),
            final(self)@.capacity(resource) == old(self)@.capacity(resource) + n,
            forall|r: ResourceIdentifier|
                r != resource ==> final(self)@.capacity(r) == old(self)@.capacity(r),
    {
        let free = self.available(resource);
        self.available.insert(resource, free + n);
        proof {
            let pre = old(self)@;
            let post = self@;
            assert(post.tasks =~= pre.tasks);
            pre.lemma_same_rows(post);
            assert forall|r: ResourceIdentifier|
                post.sum_allocation(post.task_ids(), r) == pre.sum_allocation(
                    pre.task_ids(),
                    r,
                ) by {
                pre.lemma_sum_same(post, pre.task_ids(), r);
            }
            assert forall|r: ResourceIdentifier| #[trigger] post.capacity(r) <= usize::MAX by {
                assert(pre.capacity(r) <= usize::MAX);
            }
        }
    }
}


/// Units recorded in `work` for resource `r`; none when the resource is absent.
pub open spec fn units(work: Map<ResourceIdentifier, NumberOfResource>, r: ResourceIdentifier) -> nat {
    if work.contains_key(r) {
        work[r] as nat
    } else {
        0
    }
}

/// Every need listed in `uses` is covered by `work`.
pub open spec fn row_fits(
    uses: Seq<TaskResourcesState>,
    work: Map<ResourceIdentifier, NumberOfResource>,
) -> bool {
    forall|j: int| 0 <= j < uses.len() ==> (#[trigger] uses[j]).need <= units(work, uses[j].resource)
}

/// Number of entries of `flags` that are still `false`.
pub open spec fn count_false(flags: Seq<bool>) -> nat
    decreases flags.len(),
{
    if flags.len() == 0 {
        0
    } else {
        count_false(flags.drop_last()) + if flags.last() {
            0nat
        } else {
            1nat
        }
    }
}

/// Raising one flag leaves one flag less to raise.
proof fn lemma_count_false_raise(flags: Seq<bool>, i: int)
    requires
        0 <= i < flags.len(),
        !flags[i],
    ensures
        count_false(flags.update(i, true)) + 1 == count_false(flags),
    decreases flags.len(),
{
    let raised = flags.update(i, true);
    if i == flags.len() - 1 {
        assert(raised.drop_last() =~= flags.drop_last());
    } else {
        lemma_count_false_raise(flags.drop_last(), i);
        assert(raised.drop_last() =~= flags.drop_last().update(i, true));
    }
}

/// The first position of `s` whose element is not in `done`.
proof fn lemma_first_missing(s: Seq<TaskIdentifier>, done: Seq<TaskIdentifier>, upto: int) -> (k:
    int)
    requires
        0 <= upto < s.len(),
        !done.contains(s[upto]),
    ensures
        0 <= k <= upto,
        !done.contains(s[k]),
        forall|j: int| 0 <= j < k ==> done.contains(#[trigger] s[j]),
    decreases upto,
{
    if exists|j: int| 0 <= j < upto && !done.contains(s[j]) {
        let j = choose|j: int| 0 <= j < upto && !done.contains(s[j]);
        lemma_first_missing(s, done, j)
    } else {
        upto
    }
}

impl BankersView {
    /// A row is covered by the free units exactly when its task can finish.
    pub proof fn lemma_fits_is_can_finish(
        self,
        i: int,
        work: Map<ResourceIdentifier, NumberOfResource>,
        done: Seq<TaskIdentifier>,
    )
        requires
            self.unique(),
            0 <= i < self.tasks.len(),
            forall|r: ResourceIdentifier| units(work, r) == self.work_after(done, r),
        ensures
            row_fits(self.tasks[i].uses, work) <==> self.can_finish(self.tasks[i].task, done),
    {
        let t = self.tasks[i].task;
        let uses = self.tasks[i].uses;
        if row_fits(uses, work) {
            assert forall|r: ResourceIdentifier|
                #![trigger self.need(t, r)]
                #![trigger self.work_after(done, r)]
                self.need(t, r) <= self.work_after(done, r) by {
                if exists|i2: int, j2: int| self.holds(t, r, i2, j2) {
                    let (i2, j2) = choose|i2: int, j2: int| self.holds(t, r, i2, j2);
                    if i2 < i {
                        assert(self.tasks[i2].task != self.tasks[i].task);
                    } else if i < i2 {
                        assert(self.tasks[i].task != self.tasks[i2].task);
                    }
                    self.lemma_entry_found(t, r, i2, j2);
                    assert(uses[j2].need <= units(work, uses[j2].resource));
                }
            }
        }
        if self.can_finish(t, done) {
            assert forall|j: int| 0 <= j < uses.len() implies (#[trigger] uses[j]).need <= units(
                work,
                uses[j].resource,
            ) by {
                let r = uses[j].resource;
                assert(self.holds(t, r, i, j));
                self.lemma_entry_found(t, r, i, j);
                assert(self.need(t, r) <= self.work_after(done, r));
            }
        }
    }

    /// When no task that is left can finish, no order lets all tasks complete.
    pub proof fn lemma_stuck_is_unsafe(self, done: Seq<TaskIdentifier>, i: int)
        requires
            0 <= i < self.tasks.len(),
            !done.contains(self.tasks[i].task),
            forall|k: int|
                0 <= k < self.tasks.len() && !done.contains(self.tasks[k].task)
                    ==> !self.can_finish(#[trigger] self.tasks[k].task, done),
        ensures
            !self.is_safe(),
    {
        if self.is_safe() {
            let order = choose|order: Seq<TaskIdentifier>| self.is_safe_order(order);
            assert(order.contains(self.tasks[i].task));
            let at = choose|at: int| 0 <= at < order.len() && order[at] == self.tasks[i].task;
            let k = lemma_first_missing(order, done, at);
            let t = order[k];
            let before = order.take(k);
            assert(self.can_finish(order[k], order.take(k)));
            assert(self.task_ids().contains(order[k]));
            let row = choose|row: int|
                0 <= row < self.task_ids().len() && self.task_ids()[row] == t;
            assert(self.tasks[row].task == t);
            assert forall|r: ResourceIdentifier|
                #![trigger self.need(t, r)]
                #![trigger self.work_after(done, r)]
                self.need(t, r) <= self.work_after(done, r) by {
                assert forall|j: int| 0 <= j < before.len() implies done.contains(
                    #[trigger] before[j],
                ) by {
                    assert(before[j] == order[j]);
                }
                self.lemma_sum_subset(before, done, r);
                assert(self.need(t, r) <= self.work_after(before, r));
            }
            assert(self.can_finish(self.tasks[row].task, done));
        }
    }
}


/// Whether `work` covers every need listed in `uses`.
fn covers(uses: &Vec<TaskResourcesState>, work: &BTreeMap<ResourceIdentifier, NumberOfResource>) -> (fits:
    bool)
    ensures
        fits == row_fits(uses@, work@),
{
    let mut j: usize = 0;
    while j < uses.len()
        invariant
            j <= uses.len(),
            forall|k: int| 0 <= k < j ==> (#[trigger] uses[k]).need <= units(work@, uses[k].resource),
        decreases uses.len() - j,
    {
        let free: usize = match work.get(&uses[j].resource) {
            Some(n) => *n,
            None => 0,
        };
        if uses[j].need > free {
            return false;
        }
        j += 1;
    }
    true
}

/// Gives back to `work` everything that `uses` lists as held.
fn give_back(uses: &Vec<TaskResourcesState>, work: &mut BTreeMap<ResourceIdentifier, NumberOfResource>)
    requires
        forall|j: int, l: int| 0 <= j < l < uses.len() ==> uses[j].resource != uses[l].resource,
        forall|j: int|
            0 <= j < uses.len() ==> units(old(work)@, (#[trigger] uses[j]).resource)
                + uses[j].allocation <= usize::MAX,
    ensures
        forall|j: int|
            0 <= j < uses.len() ==> units(final(work)@, (#[trigger] uses[j]).resource) == units(
                old(work)@,
                uses[j].resource,
            ) + uses[j].allocation,
        forall|r: ResourceIdentifier|
            (forall|j: int| 0 <= j < uses.len() ==> (#[trigger] uses[j]).resource != r) ==> units(
                final(work)@,
                r,
            ) == units(old(work)@, r),
{
    let mut j: usize = 0;
    while j < uses.len()
        invariant
            j <= uses.len(),
            forall|a: int, b: int| 0 <= a < b < uses.len() ==> uses[a].resource != uses[b].resource,
            forall|k: int|
                0 <= k < uses.len() ==> units(old(work)@, (#[trigger] uses[k]).resource)
                    + uses[k].allocation <= usize::MAX,
            forall|k: int|
                0 <= k < j ==> units(work@, (#[trigger] uses[k]).resource) == units(
                    old(work)@,
                    uses[k].resource,
                ) + uses[k].allocation,
            forall|r: ResourceIdentifier|
                (forall|k: int| 0 <= k < j ==> (#[trigger] uses[k]).resource != r) ==> units(
                    work@,
                    r,
                ) == units(old(work)@, r),
        decreases uses.len() - j,
    {
        let resource = uses[j].resource;
        let free: usize = match work.get(&resource) {
            Some(n) => *n,
            None => 0,
        };
        proof {
            assert forall|k: int| 0 <= k < j implies (#[trigger] uses[k]).resource != resource by {
                assert(uses[k].resource != uses[j as int].resource);
            }
            assert(units(work@, resource) == units(old(work)@, resource));
            assert(units(old(work)@, uses[j as int].resource) + uses[j as int].allocation
                <= usize::MAX);
        }
        let ghost before = work@;
        work.insert(resource, free + uses[j].allocation);
        proof {
            assert forall|k: int| 0 <= k < j + 1 implies units(
                work@,
                (#[trigger] uses[k]).resource,
            ) == units(old(work)@, uses[k].resource) + uses[k].allocation by {
                if k < j {
                    assert(uses[k].resource != uses[j as int].resource);
                    assert(units(work@, uses[k].resource) == units(before, uses[k].resource));
                }
            }
            assert forall|r: ResourceIdentifier|
                (forall|k: int| 0 <= k < j + 1 ==> (#[trigger] uses[k]).resource != r) implies units(
                work@,
                r,
            ) == units(old(work)@, r) by {
                assert(uses[j as int].resource != r);
                assert(units(work@, r) == units(before, r));
                assert forall|k: int| 0 <= k < j implies (#[trigger] uses[k]).resource != r by {}
            }
        }
        j += 1;
    }
}

impl BankersAlgorithm {
    /// The first task that has not finished and whose needs `work` covers.
    fn find_candidate(
        &self,
        finish: &Vec<bool>,
        work: &BTreeMap<ResourceIdentifier, NumberOfResource>,
    ) -> (found: Option<usize>)
        requires
            finish.len() == self.task_state.len(),
        ensures
            match found {
                Some(i) => i < finish.len() && !finish[i as int] && row_fits(
                    self@.tasks[i as int].uses,
                    work@,
                ),
                None => forall|i: int|
                    0 <= i < finish.len() ==> finish[i] || !row_fits(
                        (#[trigger] self@.tasks[i]).uses,
                        work@,
                    ),
            },
    {
        let mut i: usize = 0;
        while i < self.task_state.len()
            invariant
                i <= self.task_state.len(),
                finish.len() == self.task_state.len(),
                self@.tasks.len() == self.task_state.len(),
                forall|k: int|
                    0 <= k < i ==> finish[k] || !row_fits((#[trigger] self@.tasks[k]).uses, work@),
            decreases self.task_state.len() - i,
        {
            if !finish[i] && covers(&self.task_state[i].uses, work) {
                return Some(i);
            }
            i += 1;
        }
        None
    }

    /// The safety check: whether the tasks can still complete in some order.
    ///
    /// Starting from the free units, a task whose announced needs are covered
    /// is taken as completed and what it holds is counted as free; this is
    /// repeated until all tasks have completed or none of those left can.
    pub fn security_check(&self) -> (safe: bool)
        requires
            self.wf(),
        ensures
            safe == self@.is_safe(),
    {
        let n = self.task_state.len();
        let mut work = self.available.clone();
        let mut finish: Vec<bool> = Vec::new();
        while finish.len() < n
            invariant
                finish.len() <= n,
                forall|i: int| 0 <= i < finish.len() ==> !finish[i],
            decreases n - finish.len(),
        {
            finish.push(false);
        }
        let ghost mut order: Seq<TaskIdentifier> = Seq::empty();
        loop
            invariant
                self.wf(),
                n == self.task_state.len(),
                finish.len() == n,
                order.no_duplicates(),
                forall|k: int| 0 <= k < order.len() ==> self@.task_ids().contains(#[trigger] order[k]),
                forall|i: int|
                    0 <= i < n ==> (finish[i] <==> order.contains((#[trigger] self@.tasks[i]).task)),
                forall|k: int|
                    0 <= k < order.len() ==> #[trigger] self@.can_finish(order[k], order.take(k)),
                forall|r: ResourceIdentifier| units(work@, r) == self@.work_after(order, r),
            decreases count_false(finish@),
        {
            match self.find_candidate(&finish, &work) {
                None => {
                    let mut all_done = true;
                    let mut i: usize = 0;
                    while i < n
                        invariant
                            i <= n,
                            finish.len() == n,
                            all_done <==> forall|k: int| 0 <= k < i ==> finish[k],
                        decreases n - i,
                    {
                        if !finish[i] {
                            all_done = false;
                        }
                        i += 1;
                    }
                    proof {
                        if all_done {
                            assert(self@.is_safe_order(order));
                        } else {
                            let i = choose|i: int| 0 <= i < n && !finish[i];
                            assert forall|k: int|
                                0 <= k < self@.tasks.len() && !order.contains(
                                    self@.tasks[k].task,
                                ) implies !self@.can_finish(
                                #[trigger] self@.tasks[k].task,
                                order,
                            ) by {
                                self@.lemma_fits_is_can_finish(k, work@, order);
                            }
                            self@.lemma_stuck_is_unsafe(order, i);
                        }
                    }
                    return all_done;
                },
                Some(i) => {
                    let ghost t = self@.tasks[i as int].task;
                    let ghost next = order.push(t);
                    proof {
                        self@.lemma_fits_is_can_finish(i as int, work@, order);
                        assert(self@.task_ids()[i as int] == t);
                        assert(next.drop_last() =~= order);
                        assert forall|k: int| 0 <= k < next.len() implies self@.task_ids().contains(
                            #[trigger] next[k],
                        ) by {
                            if k < order.len() {
                                assert(next[k] == order[k]);
                            }
                        }
                        assert forall|j: int| 0 <= j < self@.tasks[i as int].uses.len() implies units(
                            work@,
                            (#[trigger] self@.tasks[i as int].uses[j]).resource,
                        ) + self@.tasks[i as int].uses[j].allocation <= usize::MAX by {
                            let r = self@.tasks[i as int].uses[j].resource;
                            assert(self@.holds(t, r, i as int, j));
                            self@.lemma_entry_found(t, r, i as int, j);
                            self@.lemma_sum_subset(next, self@.task_ids(), r);
                            assert(self@.capacity(r) <= usize::MAX);
                        }
                    }
                    let ghost before = work@;
                    give_back(&self.task_state[i].uses, &mut work);
                    proof {
                        lemma_count_false_raise(finish@, i as int);
                    }
                    finish[i] = true;
                    proof {
                        assert forall|r: ResourceIdentifier| units(work@, r) == self@.work_after(
                            next,
                            r,
                        ) by {
                            if exists|i2: int, j2: int| self@.holds(t, r, i2, j2) {
                                let (i2, j2) = choose|i2: int, j2: int| self@.holds(t, r, i2, j2);
                                if i2 < i {
                                    assert(self@.tasks[i2].task != self@.tasks[i as int].task);
                                } else if i < i2 {
                                    assert(self@.tasks[i as int].task != self@.tasks[i2].task);
                                }
                                self@.lemma_entry_found(t, r, i2, j2);
                                assert(units(work@, self@.tasks[i as int].uses[j2].resource)
                                    == units(before, r) + self@.tasks[i as int].uses[j2].allocation);
                            } else {
                                assert forall|j: int|
                                    0 <= j < self@.tasks[i as int].uses.len() implies (
                                #[trigger] self@.tasks[i as int].uses[j]).resource != r by {
                                    assert(!self@.holds(t, r, i as int, j));
                                }
                            }
                        }
                        assert forall|k: int| 0 <= k < next.len() implies #[trigger] self@.can_finish(
                            next[k],
                            next.take(k),
                        ) by {
                            if k < order.len() {
                                assert(next.take(k) =~= order.take(k));
                                assert(self@.can_finish(order[k], order.take(k)));
                            } else {
                                assert(next.take(k) =~= order);
                            }
                        }
                        assert forall|i2: int| 0 <= i2 < n implies (finish[i2] <==> next.contains(
                            (#[trigger] self@.tasks[i2]).task,
                        )) by {
                            let u = self@.tasks[i2].task;
                            if i2 == i {
                                assert(next[order.len() as int] == u);
                            } else {
                                if i2 < i {
                                    assert(self@.tasks[i2].task != self@.tasks[i as int].task);
                                } else {
                                    assert(self@.tasks[i as int].task != self@.tasks[i2].task);
                                }
                                if order.contains(u) {
                                    let p = choose|p: int| 0 <= p < order.len() && order[p] == u;
                                    assert(next[p] == u);
                                }
                                if next.contains(u) {
                                    let p = choose|p: int| 0 <= p < next.len() && next[p] == u;
                                    assert(order[p] == u);
                                }
                            }
                        }
                        assert(next.no_duplicates()) by {
                            assert(!order.contains(t));
                        }
                        order = next;
                    }
                },
            }
        }
    }
}


/// The entry that stands for no use of resource `r`.
pub open spec fn no_use(r: ResourceIdentifier) -> TaskResourcesState {
    TaskResourcesState { resource: r, allocation: 0, need: 0 }
}

impl BankersView {
    /// The task list once task `t` is registered.
    pub open spec fn registered(self, t: TaskIdentifier) -> Seq<TaskIdentifier> {
        if self.task_ids().contains(t) {
            self.task_ids()
        } else {
            self.task_ids().push(t)
        }
    }

    /// `post` has the tasks `ids` and differs from `self` at most in the
    /// free units of resource `r` and in what task `t` holds and needs of it.
    pub open spec fn changed_only_at(
        self,
        post: BankersView,
        t: TaskIdentifier,
        r: ResourceIdentifier,
        ids: Seq<TaskIdentifier>,
    ) -> bool {
        &&& post.task_ids() == ids
        &&& forall|q: ResourceIdentifier| q != r ==> post.available(q) == self.available(q)
        &&& forall|u: TaskIdentifier, q: ResourceIdentifier|
            (u != t || q != r) ==> post.entry(u, q) == self.entry(u, q)
    }

    /// `post` is `self` after task `t` has announced that it may ask for `n`
    /// more units of resource `r`.
    pub open spec fn declares(
        self,
        post: BankersView,
        t: TaskIdentifier,
        r: ResourceIdentifier,
        n: NumberOfResource,
    ) -> bool {
        &&& self.changed_only_at(post, t, r, self.registered(t))
        &&& post.available(r) == self.available(r)
        &&& post.allocation(t, r) == self.allocation(t, r)
        &&& post.need(t, r) == self.need(t, r) + n
    }

    /// `post` is `self` after `n` free units of resource `r` have gone to
    /// task `t` out of what it announced.
    pub open spec fn grants(
        self,
        post: BankersView,
        t: TaskIdentifier,
        r: ResourceIdentifier,
        n: NumberOfResource,
    ) -> bool {
        &&& self.changed_only_at(post, t, r, self.task_ids())
        &&& post.available(r) + n == self.available(r)
        &&& post.allocation(t, r) == self.allocation(t, r) + n
        &&& post.need(t, r) + n == self.need(t, r)
    }

    /// `post` is `self` after task `t` has given back `n` units of resource `r`.
    pub open spec fn gives_back(
        self,
        post: BankersView,
        t: TaskIdentifier,
        r: ResourceIdentifier,
        n: NumberOfResource,
    ) -> bool {
        &&& self.changed_only_at(post, t, r, self.task_ids())
        &&& post.available(r) == self.available(r) + n
        &&& post.allocation(t, r) + n == self.allocation(t, r)
        &&& post.need(t, r) == self.need(t, r)
    }

    /// What one registered task holds of a resource is part of the resource's units.
    pub proof fn lemma_held_within_capacity(self, t: TaskIdentifier, r: ResourceIdentifier)
        requires
            self.wf(),
        ensures
            self.available(r) + self.allocation(t, r) <= self.capacity(r) <= usize::MAX,
    {
        if self.task_ids().contains(t) {
            let one = seq![t];
            assert(one.drop_last() =~= Seq::<TaskIdentifier>::empty());
            assert(one.last() == t);
            assert(self.sum_allocation(one.drop_last(), r) == 0);
            assert(self.sum_allocation(one, r) == self.allocation(t, r));
            self.lemma_sum_subset(one, self.task_ids(), r);
        } else {
            self.lemma_unregistered(t, r);
        }
        assert(self.capacity(r) <= usize::MAX);
    }

    /// An entry is about the resource it is asked for.
    pub proof fn lemma_entry_resource(self, t: TaskIdentifier, r: ResourceIdentifier)
        ensures
            self.entry(t, r).resource == r,
    {
        if exists|i: int, j: int| self.holds(t, r, i, j) {
            let (i, j) = choose|i: int, j: int| self.holds(t, r, i, j);
            assert(self.holds(t, r, i, j));
        }
    }

    /// A task without an entry for a resource holds nothing and needs nothing of it.
    pub proof fn lemma_entry_absent(self, t: TaskIdentifier, r: ResourceIdentifier)
        requires
            forall|i: int, j: int| !self.holds(t, r, i, j),
        ensures
            self.entry(t, r) == no_use(r),
    {
    }

    /// A task that is not registered holds nothing and needs nothing.
    pub proof fn lemma_unregistered(self, t: TaskIdentifier, r: ResourceIdentifier)
        requires
            !self.task_ids().contains(t),
        ensures
            self.entry(t, r) == no_use(r),
    {
        if exists|i: int, j: int| self.holds(t, r, i, j) {
            let (i, j) = choose|i: int, j: int| self.holds(t, r, i, j);
            assert(self.holds(t, r, i, j));
            assert(self.task_ids()[i] == t);
        }
    }

    /// The entries of a state whose rows were changed at one entry only.
    pub proof fn lemma_entries_after(
        self,
        post: BankersView,
        t: TaskIdentifier,
        r: ResourceIdentifier,
        i: int,
        j: int,
    )
        requires
            self.unique(),
            post.unique(),
            post.holds(t, r, i, j),
            forall|u: TaskIdentifier, q: ResourceIdentifier, a: int, b: int|
                #![trigger self.holds(u, q, a, b)]
                (u != t || q != r) && self.holds(u, q, a, b) ==> post.holds(u, q, a, b)
                    && post.tasks[a].uses[b] == self.tasks[a].uses[b],
            forall|u: TaskIdentifier, q: ResourceIdentifier, a: int, b: int|
                #![trigger post.holds(u, q, a, b)]
                (u != t || q != r) && post.holds(u, q, a, b) ==> self.holds(u, q, a, b),
        ensures
            post.entry(t, r) == post.tasks[i].uses[j],
            forall|u: TaskIdentifier, q: ResourceIdentifier|
                (u != t || q != r) ==> post.entry(u, q) == self.entry(u, q),
    {
        post.lemma_entry_found(t, r, i, j);
        assert forall|u: TaskIdentifier, q: ResourceIdentifier|
            (u != t || q != r) implies post.entry(u, q) == self.entry(u, q) by {
            if exists|a: int, b: int| self.holds(u, q, a, b) {
                let (a, b) = choose|a: int, b: int| self.holds(u, q, a, b);
                assert(self.holds(u, q, a, b));
                assert(post.holds(u, q, a, b));
                post.lemma_entry_found(u, q, a, b);
                self.lemma_entry_found(u, q, a, b);
            } else {
                assert forall|a: int, b: int| !post.holds(u, q, a, b) by {
                    if post.holds(u, q, a, b) {
                        assert(self.holds(u, q, a, b));
                    }
                }
            }
        }
    }

    /// Conservation: a change that moves units between the free ones and
    /// those held by one task leaves the number of units of every resource as it was.
    pub proof fn lemma_capacity_kept(
        self,
        post: BankersView,
        t: TaskIdentifier,
        r: ResourceIdentifier,
    )
        requires
            self.unique(),
            self.changed_only_at(post, t, r, self.task_ids()) || self.changed_only_at(
                post,
                t,
                r,
                self.registered(t),
            ),
            post.available(r) + post.allocation(t, r) == self.available(r) + self.allocation(t, r),
        ensures
            forall|q: ResourceIdentifier| #[trigger] post.capacity(q) == self.capacity(q),
    {
        let ids = self.task_ids();
        self.lemma_task_ids_unique();
        assert forall|q: ResourceIdentifier| #[trigger] post.capacity(q) == self.capacity(q) by {
            assert forall|u: TaskIdentifier| u != t implies post.allocation(u, q)
                == self.allocation(u, q) by {
                assert(post.entry(u, q) == self.entry(u, q));
            }
            self.lemma_sum_change(post, ids, t, q);
            if q != r {
                assert(post.entry(t, q) == self.entry(t, q));
            }
            if post.task_ids() == ids {
                if !ids.contains(t) {
                    self.lemma_unregistered(t, q);
                    post.lemma_unregistered(t, q);
                }
            } else {
                assert(post.task_ids() == ids.push(t));
                assert(ids.push(t).drop_last() =~= ids);
                assert(ids.push(t).last() == t);
                self.lemma_unregistered(t, q);
                assert(post.sum_allocation(ids.push(t), q) == post.sum_allocation(ids, q)
                    + post.allocation(t, q));
            }
        }
    }

    /// Whether a state is safe depends only on its tasks and on what is free, held and needed.
    pub proof fn lemma_safety_by_values(self, other: BankersView)
        requires
            self.task_ids() == other.task_ids(),
            forall|q: ResourceIdentifier| self.available(q) == other.available(q),
            forall|u: TaskIdentifier, q: ResourceIdentifier| self.entry(u, q) == other.entry(u, q),
        ensures
            self.is_safe() == other.is_safe(),
    {
        if self.is_safe() {
            let order = choose|order: Seq<TaskIdentifier>| self.is_safe_order(order);
            self.lemma_order_by_values(other, order);
        }
        if other.is_safe() {
            let order = choose|order: Seq<TaskIdentifier>| other.is_safe_order(order);
            other.lemma_order_by_values(self, order);
        }
    }

    /// An order that is safe in one state is safe in a state with the same values.
    pub proof fn lemma_order_by_values(self, other: BankersView, order: Seq<TaskIdentifier>)
        requires
            self.task_ids() == other.task_ids(),
            forall|q: ResourceIdentifier| self.available(q) == other.available(q),
            forall|u: TaskIdentifier, q: ResourceIdentifier| self.entry(u, q) == other.entry(u, q),
            self.is_safe_order(order),
        ensures
            other.is_safe_order(order),
    {
        assert(self.tasks.len() == self.task_ids().len());
        assert(other.tasks.len() == other.task_ids().len());
        assert forall|i: int| 0 <= i < other.tasks.len() implies order.contains(
            #[trigger] other.tasks[i].task,
        ) by {
            assert(other.tasks[i].task == other.task_ids()[i]);
            assert(self.tasks[i].task == self.task_ids()[i]);
        }
        assert forall|k: int| 0 <= k < order.len() implies #[trigger] other.can_finish(
            order[k],
            order.take(k),
        ) by {
            assert(self.can_finish(order[k], order.take(k)));
            assert forall|q: ResourceIdentifier|
                #![trigger other.need(order[k], q)]
                #![trigger other.work_after(order.take(k), q)]
                other.need(order[k], q) <= other.work_after(order.take(k), q) by {
                assert(self.need(order[k], q) <= self.work_after(order.take(k), q));
                assert(other.entry(order[k], q) == self.entry(order[k], q));
                assert forall|u: TaskIdentifier| other.allocation(u, q) == self.allocation(
                    u,
                    q,
                ) by {
                    assert(other.entry(u, q) == self.entry(u, q));
                }
                self.lemma_sum_same(other, order.take(k), q);
            }
        }
    }
}


/// What had to be added so that a task has an entry for a resource.
#[derive(Clone, Copy)]
enum Created {
    Nothing,
    Entry,
    Row,
}

impl BankersAlgorithm {
    /// Makes sure that task `t` has an entry for resource `r` and says where it is.
    fn touch(&mut self, t: TaskIdentifier, r: ResourceIdentifier) -> (pos: (usize, usize, Created))
        requires
            old(self)@.unique(),
        ensures
            final(self)@.unique(),
            final(self)@.available == old(self)@.available,
            final(self)@.holds(t, r, pos.0 as int, pos.1 as int),
            pos.0 < final(self).task_state.len(),
            pos.1 < final(self).task_state[pos.0 as int].uses.len(),
            forall|u: TaskIdentifier, q: ResourceIdentifier|
                final(self)@.entry(u, q) == old(self)@.entry(u, q),
            final(self)@.task_ids() == old(self)@.registered(t),
            match pos.2 {
                Created::Nothing => final(self)@.tasks == old(self)@.tasks,
                Created::Entry => {
                    &&& pos.0 < old(self)@.tasks.len()
                    &&& old(self)@.tasks[pos.0 as int].task == t
                    &&& pos.1 == old(self)@.tasks[pos.0 as int].uses.len()
                    &&& final(self)@.tasks == old(self)@.tasks.update(
                        pos.0 as int,
                        TaskView { task: t, uses: old(self)@.tasks[pos.0 as int].uses.push(no_use(r)) },
                    )
                },
                Created::Row => {
                    &&& pos.0 == old(self)@.tasks.len()
                    &&& pos.1 == 0
                    &&& final(self)@.tasks == old(self)@.tasks.push(
                        TaskView { task: t, uses: seq![no_use(r)] },
                    )
                },
            },
    {
        let ghost pre = self@;
        match self.find_row(t) {
            Some(i) => match find_use(&self.task_state[i].uses, r) {
                Some(j) => {
                    proof {
                        assert(pre.task_ids()[i as int] == t);
                    }
                    (i, j, Created::Nothing)
                },
                None => {
                    self.task_state[i].uses.push(
                        TaskResourcesState { resource: r, allocation: 0, need: 0 },
                    );
                    let j = self.task_state[i].uses.len() - 1;
                    proof {
                        let post = self@;
                        assert(post.tasks =~= pre.tasks.update(
                            i as int,
                            TaskView { task: t, uses: pre.tasks[i as int].uses.push(no_use(r)) },
                        ));
                        assert(pre.task_ids()[i as int] == t);
                        assert(post.task_ids() =~= pre.task_ids());
                        assert forall|a: int| 0 <= a < pre.tasks.len() && a != i implies !pre.holds(
                            t,
                            r,
                            a,
                            0,
                        ) && pre.tasks[a].task != t by {
                            if a < i {
                                assert(pre.tasks[a].task != pre.tasks[i as int].task);
                            } else {
                                assert(pre.tasks[i as int].task != pre.tasks[a].task);
                            }
                        }
                        assert(post.unique());
                        assert forall|a: int, b: int| !pre.holds(t, r, a, b) by {
                            if pre.holds(t, r, a, b) {
                                assert(a == i);
                            }
                        }
                        pre.lemma_entries_after(post, t, r, i as int, j as int);
                    }
                    (i, j, Created::Entry)
                },
            },
            None => {
                let mut uses: Vec<TaskResourcesState> = Vec::new();
                uses.push(TaskResourcesState { resource: r, allocation: 0, need: 0 });
                self.task_state.push(TaskRow { task: t, uses });
                let i = self.task_state.len() - 1;
                proof {
                    let post = self@;
                    assert(post.tasks =~= pre.tasks.push(
                        TaskView { task: t, uses: seq![no_use(r)] },
                    ));
                    assert(post.tasks[i as int].uses =~= seq![no_use(r)]);
                    assert(!pre.task_ids().contains(t)) by {
                        if pre.task_ids().contains(t) {
                            let a = choose|a: int|
                                0 <= a < pre.task_ids().len() && pre.task_ids()[a] == t;
                            assert(pre.tasks[a].task == t);
                        }
                    }
                    assert(post.task_ids() =~= pre.task_ids().push(t));
                    assert(post.unique());
                    assert forall|a: int, b: int| !pre.holds(t, r, a, b) by {}
                    pre.lemma_entries_after(post, t, r, i as int, 0);
                }
                (i, 0, Created::Row)
            },
        }
    }

    /// Takes away again what [`Self::touch`] added.
    fn untouch(&mut self, created: Created, i: usize)
        requires
            match created {
                Created::Nothing => true,
                Created::Entry => i < old(self).task_state.len() && old(self).task_state[i as int].uses.len()
                    > 0,
                Created::Row => old(self).task_state.len() > 0,
            },
        ensures
            final(self)@.available == old(self)@.available,
            match created {
                Created::Nothing => final(self)@.tasks == old(self)@.tasks,
                Created::Entry => final(self)@.tasks == old(self)@.tasks.update(
                    i as int,
                    TaskView {
                        task: old(self)@.tasks[i as int].task,
                        uses: old(self)@.tasks[i as int].uses.drop_last(),
                    },
                ),
                Created::Row => final(self)@.tasks == old(self)@.tasks.drop_last(),
            },
    {
        match created {
            Created::Nothing => {},
            Created::Entry => {
                self.task_state[i].uses.pop();
                proof {
                    assert(self@.tasks =~= old(self)@.tasks.update(
                        i as int,
                        TaskView {
                            task: old(self)@.tasks[i as int].task,
                            uses: old(self)@.tasks[i as int].uses.drop_last(),
                        },
                    ));
                }
            },
            Created::Row => {
                self.task_state.pop();
                proof {
                    assert(self@.tasks =~= old(self)@.tasks.drop_last());
                }
            },
        }
    }

    /// Writes what is held and needed into entry `j` of row `i`.
    fn set_state(&mut self, i: usize, j: usize, allocation: NumberOfResource, need: NumberOfResource)
        requires
            old(self)@.unique(),
            i < old(self).task_state.len(),
            j < old(self).task_state[i as int].uses.len(),
        ensures
            final(self)@.unique(),
            final(self)@.available == old(self)@.available,
            final(self)@.task_ids() == old(self)@.task_ids(),
            final(self).task_state.len() == old(self).task_state.len(),
            final(self).task_state[i as int].uses.len() == old(self).task_state[i as int].uses.len(),
            final(self)@.tasks == old(self)@.tasks.update(
                i as int,
                TaskView {
                    task: old(self)@.tasks[i as int].task,
                    uses: old(self)@.tasks[i as int].uses.update(
                        j as int,
                        TaskResourcesState {
                            resource: old(self)@.tasks[i as int].uses[j as int].resource,
                            allocation,
                            need,
                        },
                    ),
                },
            ),
            forall|u: TaskIdentifier, q: ResourceIdentifier|
                final(self)@.entry(u, q) == if u == old(self)@.tasks[i as int].task && q == old(
                    self,
                )@.tasks[i as int].uses[j as int].resource {
                    TaskResourcesState { resource: q, allocation, need }
                } else {
                    old(self)@.entry(u, q)
                },
    {
        let ghost pre = self@;
        self.task_state[i].uses[j].allocation = allocation;
        self.task_state[i].uses[j].need = need;
        proof {
            let post = self@;
            let t = pre.tasks[i as int].task;
            let r = pre.tasks[i as int].uses[j as int].resource;
            assert(post.tasks[i as int].uses =~= pre.tasks[i as int].uses.update(
                j as int,
                TaskResourcesState { resource: r, allocation, need },
            ));
            assert(post.tasks =~= pre.tasks.update(
                i as int,
                TaskView {
                    task: t,
                    uses: pre.tasks[i as int].uses.update(
                        j as int,
                        TaskResourcesState { resource: r, allocation, need },
                    ),
                },
            ));
            assert(post.task_ids() =~= pre.task_ids());
            assert(post.unique());
            pre.lemma_entries_after(post, t, r, i as int, j as int);
        }
    }
}


impl BankersAlgorithm {
    /// Announces that `task` may ask for `n` more units of `resource`.
    pub fn record(&mut self, task: TaskIdentifier, resource: ResourceIdentifier, n: NumberOfResource)
        requires
            old(self).wf(),
            old(self)@.need(task, resource) + n <= usize::MAX,
        ensures
            final(self).wf(),
            old(self)@.declares(final(self)@, task, resource, n),
            forall|r: ResourceIdentifier| #[trigger]
                final(self)@.capacity(r) == old(self)@.capacity(r),
    {
        let ghost pre = self@;
        let (i, j, _) = self.touch(task, resource);
        let ghost mid = self@;
        let held = self.task_state[i].uses[j];
        proof {
            mid.lemma_entry_found(task, resource, i as int, j as int);
        }
        self.set_state(i, j, held.allocation, held.need + n);
        proof {
            let post = self@;
            pre.lemma_capacity_kept(post, task, resource);
            assert forall|r: ResourceIdentifier| #[trigger] post.capacity(r) <= usize::MAX by {
                assert(pre.capacity(r) <= usize::MAX);
            }
        }
    }

    /// Announces that `task` may ask for `n` more units of `resource`, unless
    /// that would leave the state unsafe.
    ///
    /// `Success`: the need is recorded and the state is safe.
    /// `Deadlock`: with the need recorded not all tasks could complete, and
    /// nothing has changed.
    pub fn request(
        &mut self,
        task: TaskIdentifier,
        resource: ResourceIdentifier,
        n: NumberOfResource,
    ) -> (result: RequestResult)
        requires
            old(self).wf(),
            old(self)@.need(task, resource) + n <= usize::MAX,
        ensures
            final(self).wf(),
            result == RequestResult::Success || result == RequestResult::Deadlock,
            result == RequestResult::Success ==> old(self)@.declares(
                final(self)@,
                task,
                resource,
                n,
            ) && final(self)@.is_safe(),
            result == RequestResult::Deadlock ==> final(self)@ == old(self)@,
            result == RequestResult::Deadlock ==> forall|post: BankersView|
                old(self)@.declares(post, task, resource, n) ==> !post.is_safe(),
            forall|r: ResourceIdentifier| #[trigger]
                final(self)@.capacity(r) == old(self)@.capacity(r),
    {
        let ghost pre = self@;
        let (i, j, created) = self.touch(task, resource);
        let ghost mid = self@;
        let held = self.task_state[i].uses[j];
        proof {
            mid.lemma_entry_found(task, resource, i as int, j as int);
        }
        self.set_state(i, j, held.allocation, held.need + n);
        let ghost tried = self@;
        proof {
            pre.lemma_capacity_kept(tried, task, resource);
            assert forall|r: ResourceIdentifier| #[trigger] tried.capacity(r) <= usize::MAX by {
                assert(pre.capacity(r) <= usize::MAX);
            }
        }
        if self.security_check() {
            RequestResult::Success
        } else {
            self.set_state(i, j, held.allocation, held.need);
            let ghost restored = self@;
            proof {
                assert(mid.tasks[i as int].uses[j as int] == held);
                assert(restored.tasks[i as int].uses =~= mid.tasks[i as int].uses);
                assert(restored.tasks =~= mid.tasks);
            }
            self.untouch(created, i);
            proof {
                let post = self@;
                match created {
                    Created::Nothing => {},
                    Created::Entry => {
                        assert(mid.tasks[i as int].uses.drop_last() =~= pre.tasks[i as int].uses);
                        assert(post.tasks[i as int] == pre.tasks[i as int]);
                        assert(post.tasks =~= pre.tasks);
                    },
                    Created::Row => {
                        assert(post.tasks =~= pre.tasks);
                    },
                }
                assert(post.available == pre.available);
                assert(post == pre);
                assert forall|other: BankersView|
                    pre.declares(other, task, resource, n) implies !other.is_safe() by {
                    assert forall|u: TaskIdentifier, q: ResourceIdentifier|
                        other.entry(u, q) == tried.entry(u, q) by {
                        if u == task && q == resource {
                            other.lemma_entry_resource(u, q);
                            tried.lemma_entry_resource(u, q);
                        }
                    }
                    assert forall|q: ResourceIdentifier| other.available(q) == tried.available(
                        q,
                    ) by {}
                    other.lemma_safety_by_values(tried);
                }
            }
            RequestResult::Deadlock
        }
    }

    /// Asks for `n` units of `resource` on behalf of `task`.
    ///
    /// `Exceeded`: `n` is more than the task announced; nothing changes.
    /// `Wait`: fewer than `n` units are free; nothing changes.
    /// `Success`: the units have gone to the task and the state is safe.
    /// `Deadlock`: with the units granted not all tasks could complete; the
    /// grant is taken back and nothing has changed.
    pub fn acquire(
        &mut self,
        task: TaskIdentifier,
        resource: ResourceIdentifier,
        n: NumberOfResource,
    ) -> (result: RequestResult)
        requires
            old(self).wf(),
        ensures
            final(self).wf(),
            n > old(self)@.need(task, resource) <==> result == RequestResult::Exceeded,
            n <= old(self)@.need(task, resource) && n > old(self)@.available(resource) <==> result
                == RequestResult::Wait,
            result == RequestResult::Success ==> old(self)@.grants(final(self)@, task, resource, n)
                && final(self)@.is_safe(),
            result != RequestResult::Success ==> final(self)@ == old(self)@,
            result == RequestResult::Deadlock ==> forall|post: BankersView|
                old(self)@.grants(post, task, resource, n) ==> !post.is_safe(),
            forall|r: ResourceIdentifier| #[trigger]
                final(self)@.capacity(r) == old(self)@.capacity(r),
    {
        let ghost pre = self@;
        let held = self.entry(task, resource);
        if n > held.need {
            return RequestResult::Exceeded;
        }
        let free = self.available(resource);
        if n > free {
            return RequestResult::Wait;
        }
        if n == 0 {
            let safe = self.security_check();
            proof {
                if safe {
                    assert(pre.grants(pre, task, resource, n));
                } else {
                    assert forall|other: BankersView|
                        pre.grants(other, task, resource, n) implies !other.is_safe() by {
                        assert forall|u: TaskIdentifier, q: ResourceIdentifier|
                            other.entry(u, q) == pre.entry(u, q) by {
                            if u == task && q == resource {
                                other.lemma_entry_resource(u, q);
                                pre.lemma_entry_resource(u, q);
                            }
                        }
                        other.lemma_safety_by_values(pre);
                    }
                }
            }
            return if safe {
                RequestResult::Success
            } else {
                RequestResult::Deadlock
            };
        }
        // `n > 0`: the task has an entry for the resource, and the resource has free units.
        let (i, j) = match self.locate(task, resource) {
            Some(pos) => pos,
            None => {
                return RequestResult::Exceeded;
            },
        };
        proof {
            pre.lemma_held_within_capacity(task, resource);
        }
        self.set_state(i, j, held.allocation + n, held.need - n);
        let ghost moved = self@;
        self.available.insert(resource, free - n);
        let ghost tried = self@;
        proof {
            moved.lemma_same_rows(tried);
            pre.lemma_capacity_kept(tried, task, resource);
            assert forall|r: ResourceIdentifier| #[trigger] tried.capacity(r) <= usize::MAX by {
                assert(pre.capacity(r) <= usize::MAX);
            }
        }
        if self.security_check() {
            RequestResult::Success
        } else {
            self.set_state(i, j, held.allocation, held.need);
            self.available.insert(resource, free);
            proof {
                let post = self@;
                assert(post.available =~= pre.available);
                assert(post.tasks[i as int].uses =~= pre.tasks[i as int].uses);
                assert(post.tasks =~~= pre.tasks);
                assert(post == pre);
                assert forall|other: BankersView|
                    pre.grants(other, task, resource, n) implies !other.is_safe() by {
                    assert forall|u: TaskIdentifier, q: ResourceIdentifier|
                        other.entry(u, q) == tried.entry(u, q) by {
                        if u == task && q == resource {
                            other.lemma_entry_resource(u, q);
                            tried.lemma_entry_resource(u, q);
                        }
                    }
                    assert forall|q: ResourceIdentifier| other.available(q) == tried.available(
                        q,
                    ) by {}
                    other.lemma_safety_by_values(tried);
                }
            }
            RequestResult::Deadlock
        }
    }

    /// Gives `n` units of `resource` that `task` holds back to the free ones.
    pub fn release(&mut self, task: TaskIdentifier, resource: ResourceIdentifier, n: NumberOfResource)
        requires
            old(self).wf(),
            n <= old(self)@.allocation(task, resource),
        ensures
            final(self).wf(),
            old(self)@.gives_back(final(self)@, task, resource, n),
            forall|r: ResourceIdentifier| #[trigger]
                final(self)@.capacity(r) == old(self)@.capacity(r),
    {
        let ghost pre = self@;
        if n == 0 {
            return ;
        }
        let free = self.available(resource);
        let (i, j) = match self.locate(task, resource) {
            Some(pos) => pos,
            None => {
                return ;
            },
        };
        let held = self.task_state[i].uses[j];
        proof {
            pre.lemma_held_within_capacity(task, resource);
        }
        self.set_state(i, j, held.allocation - n, held.need);
        let ghost moved = self@;
        self.available.insert(resource, free + n);
        proof {
            let post = self@;
            moved.lemma_same_rows(post);
            pre.lemma_capacity_kept(post, task, resource);
            assert forall|r: ResourceIdentifier| #[trigger] post.capacity(r) <= usize::MAX by {
                assert(pre.capacity(r) <= usize::MAX);
            }
        }
    }

    /// All units of `resource` that exist: the free ones and those held by any task.
    pub fn capacity(&self, resource: ResourceIdentifier) -> (total: NumberOfResource)
        requires
            self.wf(),
        ensures
            total == self@.capacity(resource),
    {
        let mut total = self.available(resource);
        let mut i: usize = 0;
        let ghost ids = self@.task_ids();
        proof {
            assert(ids.take(0) =~= Seq::<TaskIdentifier>::empty());
            self@.lemma_task_ids_unique();
        }
        while i < self.task_state.len()
            invariant
                self.wf(),
                ids == self@.task_ids(),
                ids.no_duplicates(),
                i <= self.task_state.len(),
                self.task_state.len() == ids.len(),
                total == self@.available(resource) + self@.sum_allocation(ids.take(i as int), resource),
            decreases self.task_state.len() - i,
        {
            let found = find_use(&self.task_state[i].uses, resource);
            let held: usize = match found {
                Some(j) => self.task_state[i].uses[j].allocation,
                None => 0,
            };
            proof {
                let t = ids[i as int];
                assert(self@.tasks[i as int].task == t);
                assert(held == self@.allocation(t, resource)) by {
                    if let Some(j) = found {
                        assert(self@.holds(t, resource, i as int, j as int));
                        self@.lemma_entry_found(t, resource, i as int, j as int);
                    } else {
                        assert forall|a: int, b: int| !self@.holds(t, resource, a, b) by {
                            if self@.holds(t, resource, a, b) {
                                if a < i {
                                    assert(self@.tasks[a].task != self@.tasks[i as int].task);
                                } else if i < a {
                                    assert(self@.tasks[i as int].task != self@.tasks[a].task);
                                }
                            }
                        }
                    }
                }
                let next = ids.take(i + 1);
                assert(next.drop_last() =~= ids.take(i as int));
                assert(next.last() == t);
                assert forall|k: int| 0 <= k < next.len() implies ids.contains(#[trigger] next[k]) by {
                    assert(ids[k] == next[k]);
                }
                self@.lemma_sum_subset(next, ids, resource);
                assert(self@.capacity(resource) <= usize::MAX);
            }
            total = total + held;
            i += 1;
        }
        proof {
            assert(ids.take(i as int) =~= ids);
        }
        total
    }
}


impl BankersView {
    /// `post` is `self` after task `t` has left: what it held is free, what
    /// it announced is forgotten, and it is no longer registered.
    pub open spec fn forgets(self, post: BankersView, t: TaskIdentifier) -> bool {
        &&& forall|r: ResourceIdentifier|
            post.available(r) == self.available(r) + self.allocation(t, r)
        &&& forall|r: ResourceIdentifier| post.entry(t, r) == no_use(r)
        &&& forall|u: TaskIdentifier, r: ResourceIdentifier|
            u != t ==> post.entry(u, r) == self.entry(u, r)
        &&& !post.task_ids().contains(t)
        &&& forall|u: TaskIdentifier|
            u != t ==> post.task_ids().contains(u) == self.task_ids().contains(u)
    }

    /// The entries of a state from which one row was taken.
    pub proof fn lemma_entries_without_row(self, post: BankersView, i: int)
        requires
            self.unique(),
            0 <= i < self.tasks.len(),
            post.tasks == self.tasks.remove(i),
        ensures
            post.unique(),
            post.task_ids() == self.task_ids().remove(i),
            !post.task_ids().contains(self.tasks[i].task),
            forall|r: ResourceIdentifier| post.entry(self.tasks[i].task, r) == no_use(r),
            forall|u: TaskIdentifier, r: ResourceIdentifier|
                u != self.tasks[i].task ==> post.entry(u, r) == self.entry(u, r),
    {
        let t = self.tasks[i].task;
        assert(post.task_ids() =~= self.task_ids().remove(i));
        assert forall|a: int| 0 <= a < post.tasks.len() implies #[trigger] post.tasks[a].task
            != t by {
            if a < i {
                assert(post.tasks[a] == self.tasks[a]);
                assert(self.tasks[a].task != self.tasks[i].task);
            } else {
                assert(post.tasks[a] == self.tasks[a + 1]);
                assert(self.tasks[i].task != self.tasks[a + 1].task);
            }
        }
        assert(post.unique()) by {
            assert forall|a: int, b: int| 0 <= a < b < post.tasks.len() implies post.tasks[a].task
                != post.tasks[b].task by {
                let a0 = if a < i {
                    a
                } else {
                    a + 1
                };
                let b0 = if b < i {
                    b
                } else {
                    b + 1
                };
                assert(post.tasks[a] == self.tasks[a0]);
                assert(post.tasks[b] == self.tasks[b0]);
                assert(self.tasks[a0].task != self.tasks[b0].task);
            }
            assert forall|a: int, j: int, l: int|
                0 <= a < post.tasks.len() && 0 <= j < l < post.tasks[a].uses.len() implies post.tasks[a].uses[j].resource
                != post.tasks[a].uses[l].resource by {
                let a0 = if a < i {
                    a
                } else {
                    a + 1
                };
                assert(post.tasks[a] == self.tasks[a0]);
                assert(self.tasks[a0].uses[j].resource != self.tasks[a0].uses[l].resource);
            }
        }
        assert(!post.task_ids().contains(t)) by {
            if post.task_ids().contains(t) {
                let a = choose|a: int| 0 <= a < post.task_ids().len() && post.task_ids()[a] == t;
                assert(post.tasks[a].task == t);
            }
        }
        assert forall|r: ResourceIdentifier| post.entry(t, r) == no_use(r) by {
            post.lemma_unregistered(t, r);
        }
        assert forall|u: TaskIdentifier, r: ResourceIdentifier| u != t implies post.entry(u, r)
            == self.entry(u, r) by {
            if exists|a: int, b: int| self.holds(u, r, a, b) {
                let (a, b) = choose|a: int, b: int| self.holds(u, r, a, b);
                assert(self.holds(u, r, a, b));
                let a1 = if a < i {
                    a
                } else {
                    a - 1
                };
                assert(post.tasks[a1] == self.tasks[a]);
                assert(post.holds(u, r, a1, b));
                post.lemma_entry_found(u, r, a1, b);
                self.lemma_entry_found(u, r, a, b);
            } else {
                assert forall|a: int, b: int| !post.holds(u, r, a, b) by {
                    if post.holds(u, r, a, b) {
                        let a0 = if a < i {
                            a
                        } else {
                            a + 1
                        };
                        assert(post.tasks[a] == self.tasks[a0]);
                        assert(self.holds(u, r, a0, b));
                    }
                }
            }
        }
    }
}

impl BankersAlgorithm {
    /// Task `task` leaves, as when it exits or is terminated: what it holds
    /// goes back to the free units, what it announced is forgotten, and it
    /// is no longer registered.  The units of every resource stay as many as
    /// they were.
    pub fn remove_task(&mut self, task: TaskIdentifier)
        requires
            old(self).wf(),
        ensures
            final(self).wf(),
            old(self)@.forgets(final(self)@, task),
            forall|r: ResourceIdentifier| #[trigger]
                final(self)@.capacity(r) == old(self)@.capacity(r),
    {
        let ghost pre = self@;
        let i = match self.find_row(task) {
            Some(i) => i,
            None => {
                proof {
                    assert(!pre.task_ids().contains(task)) by {
                        if pre.task_ids().contains(task) {
                            let a = choose|a: int|
                                0 <= a < pre.task_ids().len() && pre.task_ids()[a] == task;
                            assert(pre.tasks[a].task == task);
                        }
                    }
                    assert forall|r: ResourceIdentifier| pre.entry(task, r) == no_use(r) by {
                        pre.lemma_unregistered(task, r);
                    }
                }
                return ;
            },
        };
        let row = self.task_state.remove(i);
        let ghost mid = self@;
        proof {
            assert(mid.tasks =~= pre.tasks.remove(i as int));
            pre.lemma_entries_without_row(mid, i as int);
            assert(row@ == pre.tasks[i as int]);
            assert(row.uses@ == pre.tasks[i as int].uses);
            assert forall|j: int, l: int| 0 <= j < l < row.uses@.len() implies row.uses@[j].resource
                != row.uses@[l].resource by {
                assert(pre.tasks[i as int].uses[j].resource != pre.tasks[i as int].uses[l].resource);
            }
            assert forall|j: int| 0 <= j < row.uses@.len() implies units(
                self.available@,
                (#[trigger] row.uses@[j]).resource,
            ) + row.uses@[j].allocation <= usize::MAX by {
                let r = row.uses@[j].resource;
                assert(pre.holds(task, r, i as int, j));
                pre.lemma_entry_found(task, r, i as int, j);
                pre.lemma_held_within_capacity(task, r);
            }
        }
        give_back(&row.uses, &mut self.available);
        proof {
            let post = self@;
            mid.lemma_same_rows(post);
            assert forall|r: ResourceIdentifier| post.available(r) == pre.available(r)
                + pre.allocation(task, r) by {
                if exists|a: int, b: int| pre.holds(task, r, a, b) {
                    let (a, b) = choose|a: int, b: int| pre.holds(task, r, a, b);
                    assert(pre.holds(task, r, a, b));
                    if a < i {
                        assert(pre.tasks[a].task != pre.tasks[i as int].task);
                    } else if i < a {
                        assert(pre.tasks[i as int].task != pre.tasks[a].task);
                    }
                    pre.lemma_entry_found(task, r, a, b);
                    assert(a == i);
                    assert(row.uses[b] == pre.tasks[i as int].uses[b]);
                    assert(units(post.available, row.uses[b].resource) == units(
                        mid.available,
                        row.uses[b].resource,
                    ) + row.uses[b].allocation);
                } else {
                    assert forall|j: int| 0 <= j < row.uses.len() implies (
                    #[trigger] row.uses[j]).resource != r by {
                        assert(row.uses[j] == pre.tasks[i as int].uses[j]);
                        assert(!pre.holds(task, r, i as int, j));
                    }
                    assert(units(post.available, r) == units(mid.available, r));
                    pre.lemma_entry_absent(task, r);
                }
            }
            assert forall|u: TaskIdentifier|
                u != task implies post.task_ids().contains(u) == pre.task_ids().contains(u) by {
                if pre.task_ids().contains(u) {
                    let a = choose|a: int| 0 <= a < pre.task_ids().len() && pre.task_ids()[a] == u;
                    if a < i {
                        assert(post.task_ids()[a] == u);
                    } else {
                        assert(post.task_ids()[a - 1] == u);
                    }
                }
                if post.task_ids().contains(u) {
                    let a = choose|a: int|
                        0 <= a < post.task_ids().len() && post.task_ids()[a] == u;
                    if a < i {
                        assert(pre.task_ids()[a] == u);
                    } else {
                        assert(pre.task_ids()[a + 1] == u);
                    }
                }
            }
            assert forall|r: ResourceIdentifier| #[trigger] post.capacity(r) == pre.capacity(r) by {
                pre.lemma_task_ids_unique();
                pre.lemma_sum_remove(pre.task_ids(), i as int, r);
                assert forall|u: TaskIdentifier| u != task implies post.allocation(u, r)
                    == pre.allocation(u, r) by {
                    assert(post.entry(u, r) == pre.entry(u, r));
                }
                assert(post.task_ids().no_duplicates());
                pre.lemma_sum_change(post, post.task_ids(), task, r);
            }
            assert forall|r: ResourceIdentifier| #[trigger] post.capacity(r) <= usize::MAX by {
                assert(pre.capacity(r) <= usize::MAX);
            }
        }
    }
}

impl BankersView {
    /// `post` is `self` after task `t` has taken back the announcement of
    /// `n` units of resource `r`.
    pub open spec fn withdraws(
        self,
        post: BankersView,
        t: TaskIdentifier,
        r: ResourceIdentifier,
        n: NumberOfResource,
    ) -> bool {
        &&& self.changed_only_at(post, t, r, self.task_ids())
        &&& post.available(r) == self.available(r)
        &&& post.allocation(t, r) == self.allocation(t, r)
        &&& post.need(t, r) + n == self.need(t, r)
    }
}

impl BankersAlgorithm {
    /// Takes back the announcement that `task` may ask for `n` units of
    /// `resource`, which it must have announced and not been granted.
    pub fn withdraw(&mut self, task: TaskIdentifier, resource: ResourceIdentifier, n: NumberOfResource)
        requires
            old(self).wf(),
            n <= old(self)@.need(task, resource),
        ensures
            final(self).wf(),
            old(self)@.withdraws(final(self)@, task, resource, n),
            forall|r: ResourceIdentifier| #[trigger]
                final(self)@.capacity(r) == old(self)@.capacity(r),
    {
        let ghost pre = self@;
        let (i, j) = match self.locate(task, resource) {
            Some(pos) => pos,
            None => {
                return ;
            },
        };
        let held = self.task_state[i].uses[j];
        self.set_state(i, j, held.allocation, held.need - n);
        proof {
            let post = self@;
            pre.lemma_capacity_kept(post, task, resource);
            assert forall|r: ResourceIdentifier| #[trigger] post.capacity(r) <= usize::MAX by {
                assert(pre.capacity(r) <= usize::MAX);
            }
        }
    }

    /// Books `n` free units of `resource` to `task` out of what it
    /// announced.  This is the bookkeeping of a grant that has been made:
    /// whether the state stays safe is not asked.
    pub fn grant(&mut self, task: TaskIdentifier, resource: ResourceIdentifier, n: NumberOfResource)
        requires
            old(self).wf(),
            n <= old(self)@.available(resource),
            n <= old(self)@.need(task, resource),
        ensures
            final(self).wf(),
            old(self)@.grants(final(self)@, task, resource, n),
            forall|r: ResourceIdentifier| #[trigger]
                final(self)@.capacity(r) == old(self)@.capacity(r),
    {
        let ghost pre = self@;
        if n == 0 {
            return ;
        }
        let free = self.available(resource);
        let (i, j) = match self.locate(task, resource) {
            Some(pos) => pos,
            None => {
                return ;
            },
        };
        let held = self.task_state[i].uses[j];
        proof {
            pre.lemma_held_within_capacity(task, resource);
        }
        self.set_state(i, j, held.allocation + n, held.need - n);
        let ghost moved = self@;
        self.available.insert(resource, free - n);
        proof {
            let post = self@;
            moved.lemma_same_rows(post);
            pre.lemma_capacity_kept(post, task, resource);
            assert forall|r: ResourceIdentifier| #[trigger] post.capacity(r) <= usize::MAX by {
                assert(pre.capacity(r) <= usize::MAX);
            }
        }
    }
}

impl BankersView {
    /// `post` is `self` after `n` free units of resource `r` have gone to
    /// task `t` beyond what it had announced: it holds `n` more and may
    /// still ask for what it might before.
    pub open spec fn takes(
        self,
        post: BankersView,
        t: TaskIdentifier,
        r: ResourceIdentifier,
        n: NumberOfResource,
    ) -> bool {
        &&& self.changed_only_at(post, t, r, self.registered(t))
        &&& post.available(r) + n == self.available(r)
        &&& post.allocation(t, r) == self.allocation(t, r) + n
        &&& post.need(t, r) == self.need(t, r)
    }
}

impl BankersAlgorithm {
    /// Asks for `n` units of `resource` on behalf of `task`, announcing the
    /// need and taking the units in one step.
    ///
    /// `Wait`: fewer than `n` units are free; nothing changes.
    /// `Success`: the units have gone to the task and the state is safe.
    /// `Deadlock`: with the units granted not all tasks could complete;
    /// nothing has changed.
    pub fn take(
        &mut self,
        task: TaskIdentifier,
        resource: ResourceIdentifier,
        n: NumberOfResource,
    ) -> (result: RequestResult)
        requires
            old(self).wf(),
        ensures
            final(self).wf(),
            n > old(self)@.available(resource) <==> result == RequestResult::Wait,
            result == RequestResult::Wait || result == RequestResult::Success || result
                == RequestResult::Deadlock,
            result == RequestResult::Success ==> old(self)@.takes(final(self)@, task, resource, n)
                && final(self)@.is_safe(),
            result != RequestResult::Success ==> final(self)@ == old(self)@,
            result == RequestResult::Deadlock ==> forall|post: BankersView|
                old(self)@.takes(post, task, resource, n) ==> !post.is_safe(),
            forall|r: ResourceIdentifier| #[trigger]
                final(self)@.capacity(r) == old(self)@.capacity(r),
    {
        let ghost pre = self@;
        let free = self.available(resource);
        if n > free {
            return RequestResult::Wait;
        }
        let (i, j, created) = self.touch(task, resource);
        let ghost mid = self@;
        let held = self.task_state[i].uses[j];
        proof {
            mid.lemma_entry_found(task, resource, i as int, j as int);
            pre.lemma_held_within_capacity(task, resource);
        }
        self.set_state(i, j, held.allocation + n, held.need);
        let ghost moved = self@;
        if n > 0 {
            self.available.insert(resource, free - n);
        }
        let ghost tried = self@;
        proof {
            moved.lemma_same_rows(tried);
            pre.lemma_capacity_kept(tried, task, resource);
            assert forall|r: ResourceIdentifier| #[trigger] tried.capacity(r) <= usize::MAX by {
                assert(pre.capacity(r) <= usize::MAX);
            }
        }
        if self.security_check() {
            RequestResult::Success
        } else {
            self.set_state(i, j, held.allocation, held.need);
            let ghost restored = self@;
            proof {
                assert(mid.tasks[i as int].uses[j as int] == held);
                assert(restored.tasks[i as int].uses =~= mid.tasks[i as int].uses);
                assert(restored.tasks =~= mid.tasks);
            }
            self.untouch(created, i);
            if n > 0 {
                self.available.insert(resource, free);
            }
            proof {
                let post = self@;
                match created {
                    Created::Nothing => {},
                    Created::Entry => {
                        assert(mid.tasks[i as int].uses.drop_last() =~= pre.tasks[i as int].uses);
                        assert(post.tasks[i as int] == pre.tasks[i as int]);
                        assert(post.tasks =~= pre.tasks);
                    },
                    Created::Row => {
                        assert(post.tasks =~= pre.tasks);
                    },
                }
                assert(post.tasks == pre.tasks);
                assert(post.available =~= pre.available);
                assert(post == pre);
                assert forall|other: BankersView|
                    pre.takes(other, task, resource, n) implies !other.is_safe() by {
                    assert forall|u: TaskIdentifier, q: ResourceIdentifier|
                        other.entry(u, q) == tried.entry(u, q) by {
                        if u == task && q == resource {
                            other.lemma_entry_resource(u, q);
                            tried.lemma_entry_resource(u, q);
                        }
                    }
                    assert forall|q: ResourceIdentifier| other.available(q) == tried.available(
                        q,
                    ) by {}
                    other.lemma_safety_by_values(tried);
                }
            }
            RequestResult::Deadlock
        }
    }
}


impl BankersView {
    /// `post` comes from `self` by a step that concerns `n` units of
    /// resource `r` and task `t`: the task announces them or withdraws the
    /// announcement, is granted them, or gives them back.
    pub open spec fn step(
        self,
        post: BankersView,
        t: TaskIdentifier,
        r: ResourceIdentifier,
        n: NumberOfResource,
    ) -> bool {
        ||| self.declares(post, t, r, n)
        ||| self.withdraws(post, t, r, n)
        ||| self.grants(post, t, r, n)
        ||| self.takes(post, t, r, n)
        ||| self.gives_back(post, t, r, n)
    }

    /// `post` comes from `self` by one step: see [`Self::step`].
    pub open spec fn steps_to(self, post: BankersView) -> bool {
        exists|t: TaskIdentifier, r: ResourceIdentifier, n: NumberOfResource| #[trigger]
            self.step(post, t, r, n)
    }
}

/// Conservation: along any series of announcements, grants and releases the
/// units of every resource, free or held, stay as many as they were.
pub proof fn lemma_conservation(states: Seq<BankersView>, r: ResourceIdentifier)
    requires
        states.len() > 0,
        forall|i: int| 0 <= i < states.len() ==> (#[trigger] states[i]).unique(),
        forall|i: int| 0 <= i < states.len() - 1 ==> (#[trigger] states[i]).steps_to(states[i + 1]),
    ensures
        states.last().capacity(r) == states[0].capacity(r),
    decreases states.len(),
{
    if states.len() > 1 {
        let front = states.drop_last();
        assert forall|i: int| 0 <= i < front.len() - 1 implies (#[trigger] front[i]).steps_to(
            front[i + 1],
        ) by {
            assert(states[i].steps_to(states[i + 1]));
        }
        lemma_conservation(front, r);
        let pre = states[states.len() - 2];
        let post = states.last();
        assert(front.last() == pre);
        assert(pre.steps_to(post));
        let (t, q, n) = choose|t: TaskIdentifier, q: ResourceIdentifier, n: NumberOfResource| #[trigger]
            pre.step(post, t, q, n);
        assert(pre.step(post, t, q, n));
        pre.lemma_capacity_kept(post, t, q);
        assert(post.capacity(r) == pre.capacity(r));
    }
}

} // verus!
