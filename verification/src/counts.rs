//! How many services and tasks are in which state, for the status bar.
use crate::client::{ServiceState, TaskState};
use crate::names::{lemma_take_set, NameMap};
use vstd::prelude::*;

verus! {

/// Counts derived from the states of services and tasks.
#[derive(Debug, Clone, Copy, PartialEq, Eq, Structural)]
pub struct StatusCounts {
    pub services_total: usize,
    pub services_ready: usize,
    pub services_failed: usize,
    pub services_unhealthy: usize,
    /// Services on their way from one state to another.
    pub services_active: usize,
    pub tasks_running: usize,
    pub tasks_pending_run: usize,
    pub tasks_failed: usize,
}

/// How the bar counts a service.
pub enum ServiceGroup {
    /// Not started, and maybe never: not counted at all.
    Uncounted,
    Ready,
    Failed,
    Unhealthy,
    Active,
    /// Counted in the total only.
    Idle,
}

/// How the bar counts a service in a state.
pub open spec fn service_group(state: ServiceState) -> ServiceGroup {
    match state {
        ServiceState::Lazy => ServiceGroup::Uncounted,
        ServiceState::Ready => ServiceGroup::Ready,
        ServiceState::Failed | ServiceState::DependencyFailed => ServiceGroup::Failed,
        ServiceState::Unhealthy => ServiceGroup::Unhealthy,
        ServiceState::Pending | ServiceState::Building | ServiceState::Starting
        | ServiceState::Running | ServiceState::Stopping => ServiceGroup::Active,
        ServiceState::Stopped => ServiceGroup::Idle,
    }
}

/// How the bar counts a task.
pub enum TaskGroup {
    Running,
    PendingRun,
    Failed,
    Uncounted,
}

/// How the bar counts a task in a state.
pub open spec fn task_group(state: TaskState) -> TaskGroup {
    match state {
        TaskState::Running => TaskGroup::Running,
        TaskState::PendingRun => TaskGroup::PendingRun,
        TaskState::Failed | TaskState::DependencyFailed => TaskGroup::Failed,
        _ => TaskGroup::Uncounted,
    }
}

/// The services of a set that the bar counts in a group.
pub open spec fn services_grouped(
    names: Set<Seq<char>>,
    services: Map<Seq<char>, ServiceState>,
    group: ServiceGroup,
) -> Set<Seq<char>> {
    names.filter(|n: Seq<char>| service_group(services[n]) == group)
}

/// The services of a set that the bar counts.
pub open spec fn services_counted(
    names: Set<Seq<char>>,
    services: Map<Seq<char>, ServiceState>,
) -> Set<Seq<char>> {
    names.filter(|n: Seq<char>| service_group(services[n]) != ServiceGroup::Uncounted)
}

/// The tasks of a set that the bar counts in a group.
pub open spec fn tasks_grouped(
    names: Set<Seq<char>>,
    tasks: Map<Seq<char>, TaskState>,
    group: TaskGroup,
) -> Set<Seq<char>> {
    names.filter(|n: Seq<char>| task_group(tasks[n]) == group)
}

/// Whether counts are those of the services in a set.
pub open spec fn counts_services(
    counts: StatusCounts,
    names: Set<Seq<char>>,
    services: Map<Seq<char>, ServiceState>,
) -> bool {
    &&& counts.services_total == services_counted(names, services).len()
    &&& counts.services_ready == services_grouped(names, services, ServiceGroup::Ready).len()
    &&& counts.services_failed == services_grouped(names, services, ServiceGroup::Failed).len()
    &&& counts.services_unhealthy == services_grouped(
        names,
        services,
        ServiceGroup::Unhealthy,
    ).len()
    &&& counts.services_active == services_grouped(names, services, ServiceGroup::Active).len()
}

/// Whether counts are those of the tasks in a set.
pub open spec fn counts_tasks(
    counts: StatusCounts,
    names: Set<Seq<char>>,
    tasks: Map<Seq<char>, TaskState>,
) -> bool {
    &&& counts.tasks_running == tasks_grouped(names, tasks, TaskGroup::Running).len()
    &&& counts.tasks_pending_run == tasks_grouped(names, tasks, TaskGroup::PendingRun).len()
    &&& counts.tasks_failed == tasks_grouped(names, tasks, TaskGroup::Failed).len()
}

/// Whether counts are those of all services and tasks.
pub open spec fn counts_all(
    counts: StatusCounts,
    services: Map<Seq<char>, ServiceState>,
    tasks: Map<Seq<char>, TaskState>,
) -> bool {
    counts_services(counts, services.dom(), services) && counts_tasks(counts, tasks.dom(), tasks)
}

/// One more name of a list adds one to a count of them exactly if it is counted.
pub proof fn lemma_filter_step(
    order: Seq<Seq<char>>,
    i: int,
    keep: spec_fn(Seq<char>) -> bool,
)
    requires
        0 <= i < order.len(),
        order.no_duplicates(),
    ensures
        order.take(i).to_set().filter(keep).finite(),
        order.take(i + 1).to_set().filter(keep).len() == order.take(i).to_set().filter(keep).len()
            + (if keep(order[i]) {
            1int
        } else {
            0int
        }),
        order.take(i).to_set().filter(keep).len() <= i,
{
    lemma_take_set(order, i);
    let name = order[i];
    let before = order.take(i).to_set();
    vstd::seq_lib::seq_to_set_is_finite(order.take(i));
    before.lemma_len_filter(keep);
    order.take(i).lemma_cardinality_of_set();
    assert(!before.contains(name)) by {
        if order.take(i).contains(name) {
            let j = order.take(i).index_of(name);
            assert(order[j] == order[i]);
        }
    }
    if keep(name) {
        assert(order.take(i + 1).to_set().filter(keep) =~= before.filter(keep).insert(name));
    } else {
        assert(order.take(i + 1).to_set().filter(keep) =~= before.filter(keep));
    }
}

proof fn lemma_service_step(
    order: Seq<Seq<char>>,
    services: Map<Seq<char>, ServiceState>,
    i: int,
    group: ServiceGroup,
)
    requires
        0 <= i < order.len(),
        order.no_duplicates(),
    ensures
        services_grouped(order.take(i + 1).to_set(), services, group).len() == services_grouped(
            order.take(i).to_set(),
            services,
            group,
        ).len() + (if service_group(services[order[i]]) == group {
            1int
        } else {
            0int
        }),
        services_grouped(order.take(i).to_set(), services, group).len() <= i,
{
    lemma_filter_step(order, i, |n: Seq<char>| service_group(services[n]) == group);
}

proof fn lemma_task_step(
    order: Seq<Seq<char>>,
    tasks: Map<Seq<char>, TaskState>,
    i: int,
    group: TaskGroup,
)
    requires
        0 <= i < order.len(),
        order.no_duplicates(),
    ensures
        tasks_grouped(order.take(i + 1).to_set(), tasks, group).len() == tasks_grouped(
            order.take(i).to_set(),
            tasks,
            group,
        ).len() + (if task_group(tasks[order[i]]) == group {
            1int
        } else {
            0int
        }),
        tasks_grouped(order.take(i).to_set(), tasks, group).len() <= i,
{
    lemma_filter_step(order, i, |n: Seq<char>| task_group(tasks[n]) == group);
}

impl StatusCounts {
    /// Nothing counted.
    pub open spec fn zero() -> StatusCounts {
        StatusCounts {
            services_total: 0,
            services_ready: 0,
            services_failed: 0,
            services_unhealthy: 0,
            services_active: 0,
            tasks_running: 0,
            tasks_pending_run: 0,
            tasks_failed: 0,
        }
    }

    /// Counts the states. A lazy service is not counted until it is started:
    /// it would make the bar look permanently behind.
    pub fn from_state(services: &NameMap<ServiceState>, tasks: &NameMap<TaskState>) -> (r:
        StatusCounts)
        ensures
            counts_all(r, services@, tasks@),
    {
        let mut counts: StatusCounts = StatusCounts::default();
        let n: usize = services.len();
        let mut i: usize = 0;
        let ghost order = services.order();
        proof {
            assert(order.take(0) =~= Seq::<Seq<char>>::empty());
            let none = order.take(0).to_set();
            assert(none =~= Set::<Seq<char>>::empty());
            assert(services_counted(none, services@) =~= Set::<Seq<char>>::empty());
            assert forall|g: ServiceGroup| #[trigger]
                services_grouped(none, services@, g) == Set::<Seq<char>>::empty() by {
                assert(services_grouped(none, services@, g) =~= Set::<Seq<char>>::empty());
            }
        }
        while i < n
            invariant
                i <= n,
                n == order.len(),
                order == services.order(),
                order.no_duplicates(),
                counts_services(counts, order.take(i as int).to_set(), services@),
                counts.tasks_running == 0,
                counts.tasks_pending_run == 0,
                counts.tasks_failed == 0,
            decreases n - i,
        {
            proof {
                let at = i as int;
                lemma_filter_step(
                    order,
                    at,
                    |n: Seq<char>| service_group(services@[n]) != ServiceGroup::Uncounted,
                );
                lemma_service_step(order, services@, at, ServiceGroup::Ready);
                lemma_service_step(order, services@, at, ServiceGroup::Failed);
                lemma_service_step(order, services@, at, ServiceGroup::Unhealthy);
                lemma_service_step(order, services@, at, ServiceGroup::Active);
            }
            let state = *services.value_at(i);
            match state {
                ServiceState::Lazy => {},
                ServiceState::Ready => {
                    counts.services_total += 1;
                    counts.services_ready += 1;
                },
                ServiceState::Failed | ServiceState::DependencyFailed => {
                    counts.services_total += 1;
                    counts.services_failed += 1;
                },
                ServiceState::Unhealthy => {
                    counts.services_total += 1;
                    counts.services_unhealthy += 1;
                },
                ServiceState::Pending | ServiceState::Building | ServiceState::Starting
                | ServiceState::Running | ServiceState::Stopping => {
                    counts.services_total += 1;
                    counts.services_active += 1;
                },
                ServiceState::Stopped => {
                    counts.services_total += 1;
                },
            }
            i += 1;
        }
        assert(order.take(n as int) =~= order);
        let m: usize = tasks.len();
        let mut k: usize = 0;
        let ghost queue = tasks.order();
        proof {
            assert(queue.take(0) =~= Seq::<Seq<char>>::empty());
            let none = queue.take(0).to_set();
            assert(none =~= Set::<Seq<char>>::empty());
            assert forall|g: TaskGroup| #[trigger] tasks_grouped(none, tasks@, g) == Set::<
                Seq<char>,
            >::empty() by {
                assert(tasks_grouped(none, tasks@, g) =~= Set::<Seq<char>>::empty());
            }
        }
        while k < m
            invariant
                k <= m,
                m == queue.len(),
                queue == tasks.order(),
                queue.no_duplicates(),
                counts_services(counts, services@.dom(), services@),
                counts_tasks(counts, queue.take(k as int).to_set(), tasks@),
            decreases m - k,
        {
            proof {
                let at = k as int;
                lemma_task_step(queue, tasks@, at, TaskGroup::Running);
                lemma_task_step(queue, tasks@, at, TaskGroup::PendingRun);
                lemma_task_step(queue, tasks@, at, TaskGroup::Failed);
            }
            let state = *tasks.value_at(k);
            match state {
                TaskState::PendingRun => {
                    counts.tasks_pending_run += 1;
                },
                TaskState::Running => {
                    counts.tasks_running += 1;
                },
                TaskState::Failed | TaskState::DependencyFailed => {
                    counts.tasks_failed += 1;
                },
                _ => {},
            }
            k += 1;
        }
        assert(queue.take(m as int) =~= queue);
        counts
    }

    /// Whether something is on its way, which is what spins the spinner.
    pub open spec fn working(self) -> bool {
        self.services_active > 0 || self.tasks_running > 0
    }

    /// Whether something is on its way.
    pub fn is_working(&self) -> (r: bool)
        ensures
            r == self.working(),
    {
        self.services_active > 0 || self.tasks_running > 0
    }
}

impl Default for StatusCounts {
    fn default() -> (r: StatusCounts)
        ensures
            r == StatusCounts::zero(),
    {
        StatusCounts {
            services_total: 0,
            services_ready: 0,
            services_failed: 0,
            services_unhealthy: 0,
            services_active: 0,
            tasks_running: 0,
            tasks_pending_run: 0,
            tasks_failed: 0,
        }
    }
}

/// Two counts of the same states are the same.
pub proof fn counts_are_determined(
    a: StatusCounts,
    b: StatusCounts,
    services: Map<Seq<char>, ServiceState>,
    tasks: Map<Seq<char>, TaskState>,
)
    requires
        counts_all(a, services, tasks),
        counts_all(b, services, tasks),
    ensures
        a == b,
{
}

/// A service is counted under one heading at most: ready, failed, unhealthy or
/// on its way. Failed are those that failed and those that wait for one that
/// did; one that waits for its first connection is not counted at all, and one
/// that was stopped only in the total.
pub proof fn a_service_is_counted_once(state: ServiceState)
    ensures
        service_group(state) is Ready <==> state == ServiceState::Ready,
        service_group(state) is Failed <==> state == ServiceState::Failed || state
            == ServiceState::DependencyFailed,
        service_group(state) is Unhealthy <==> state == ServiceState::Unhealthy,
        service_group(state) is Uncounted <==> state == ServiceState::Lazy,
        service_group(state) is Idle <==> state == ServiceState::Stopped,
        service_group(state) is Active <==> state == ServiceState::Pending || state
            == ServiceState::Building || state == ServiceState::Starting || state
            == ServiceState::Running || state == ServiceState::Stopping,
{
}

/// Of the tasks those are counted that run, that wait to be run, and that failed
/// or wait for one that did.
pub proof fn a_task_is_counted_once(state: TaskState)
    ensures
        task_group(state) is Running <==> state == TaskState::Running,
        task_group(state) is PendingRun <==> state == TaskState::PendingRun,
        task_group(state) is Failed <==> state == TaskState::Failed || state
            == TaskState::DependencyFailed,
{
}

/// The number of services of a heading is the number of those whose state is
/// under it, so it is nought exactly where there is none.
pub proof fn a_count_is_nought_where_there_is_none(
    counts: StatusCounts,
    services: Map<Seq<char>, ServiceState>,
    tasks: Map<Seq<char>, TaskState>,
    name: Seq<char>,
)
    requires
        counts_all(counts, services, tasks),
        services.dom().finite(),
        tasks.dom().finite(),
    ensures
        services.contains_key(name) && services[name] == ServiceState::Ready
            ==> counts.services_ready > 0,
        services.contains_key(name) && (services[name] == ServiceState::Failed || services[name]
            == ServiceState::DependencyFailed) ==> counts.services_failed > 0,
        services.contains_key(name) && services[name] == ServiceState::Unhealthy
            ==> counts.services_unhealthy > 0,
        services.contains_key(name) && services[name] != ServiceState::Lazy
            ==> counts.services_total > 0,
        tasks.contains_key(name) && tasks[name] == TaskState::Running ==> counts.tasks_running > 0,
        tasks.contains_key(name) && tasks[name] == TaskState::PendingRun
            ==> counts.tasks_pending_run > 0,
        tasks.contains_key(name) && (tasks[name] == TaskState::Failed || tasks[name]
            == TaskState::DependencyFailed) ==> counts.tasks_failed > 0,
        counts.services_failed > 0 ==> exists|n: Seq<char>| #[trigger]
            services.contains_key(n) && (services[n] == ServiceState::Failed || services[n]
                == ServiceState::DependencyFailed),
        counts.tasks_failed > 0 ==> exists|n: Seq<char>| #[trigger]
            tasks.contains_key(n) && (tasks[n] == TaskState::Failed || tasks[n]
                == TaskState::DependencyFailed),
{
    let ready = services_grouped(services.dom(), services, ServiceGroup::Ready);
    let failed = services_grouped(services.dom(), services, ServiceGroup::Failed);
    let unhealthy = services_grouped(services.dom(), services, ServiceGroup::Unhealthy);
    let total = services_counted(services.dom(), services);
    let running = tasks_grouped(tasks.dom(), tasks, TaskGroup::Running);
    let pending = tasks_grouped(tasks.dom(), tasks, TaskGroup::PendingRun);
    let down = tasks_grouped(tasks.dom(), tasks, TaskGroup::Failed);
    assert(ready.subset_of(services.dom()));
    assert(failed.subset_of(services.dom()));
    assert(unhealthy.subset_of(services.dom()));
    assert(total.subset_of(services.dom()));
    assert(running.subset_of(tasks.dom()));
    assert(pending.subset_of(tasks.dom()));
    assert(down.subset_of(tasks.dom()));
    vstd::set_lib::lemma_set_subset_finite(services.dom(), ready);
    vstd::set_lib::lemma_set_subset_finite(services.dom(), failed);
    vstd::set_lib::lemma_set_subset_finite(services.dom(), unhealthy);
    vstd::set_lib::lemma_set_subset_finite(services.dom(), total);
    vstd::set_lib::lemma_set_subset_finite(tasks.dom(), running);
    vstd::set_lib::lemma_set_subset_finite(tasks.dom(), pending);
    vstd::set_lib::lemma_set_subset_finite(tasks.dom(), down);
    lemma_member_counts(ready, name);
    lemma_member_counts(failed, name);
    lemma_member_counts(unhealthy, name);
    lemma_member_counts(total, name);
    lemma_member_counts(running, name);
    lemma_member_counts(pending, name);
    lemma_member_counts(down, name);
    if failed.len() > 0 {
        let n = failed.choose();
        assert(failed.contains(n));
        assert(services.contains_key(n));
    }
    if down.len() > 0 {
        let n = down.choose();
        assert(down.contains(n));
        assert(tasks.contains_key(n));
    }
}

proof fn lemma_member_counts(names: Set<Seq<char>>, name: Seq<char>)
    requires
        names.finite(),
    ensures
        names.contains(name) ==> names.len() > 0,
        names.len() > 0 ==> names.contains(names.choose()),
{
    if names.contains(name) {
        assert(names.remove(name).len() + 1 == names.len());
    }
    if names.len() > 0 && !names.contains(names.choose()) {
        assert(names =~= Set::<Seq<char>>::empty());
    }
}

/// Work is under way while a service is on its way up or down or a task runs.
pub proof fn work_is_under_way_while_something_moves(counts: StatusCounts)
    ensures
        counts.services_active > 0 || counts.tasks_running > 0 ==> counts.working(),
        counts.services_active == 0 && counts.tasks_running == 0 ==> !counts.working(),
{
}

/// The total is of the services that do not wait for their first connection, and
/// each heading is of those under it.
pub proof fn the_total_leaves_out_what_is_not_wanted_yet(
    names: Set<Seq<char>>,
    services: Map<Seq<char>, ServiceState>,
    name: Seq<char>,
)
    ensures
        services_counted(names, services).contains(name) <==> names.contains(name)
            && services[name] != ServiceState::Lazy,
        services_grouped(names, services, ServiceGroup::Ready).contains(name) <==> names.contains(
            name,
        ) && services[name] == ServiceState::Ready,
        services_grouped(names, services, ServiceGroup::Unhealthy).contains(name)
            <==> names.contains(name) && services[name] == ServiceState::Unhealthy,
        services_grouped(names, services, ServiceGroup::Failed).contains(name) <==> names.contains(
            name,
        ) && (services[name] == ServiceState::Failed || services[name]
            == ServiceState::DependencyFailed),
{
}

/// The counts are of every service and every task that is known.
pub proof fn the_counts_are_of_all_that_is_known(
    counts: StatusCounts,
    services: Map<Seq<char>, ServiceState>,
    tasks: Map<Seq<char>, TaskState>,
)
    requires
        counts_all(counts, services, tasks),
    ensures
        counts.services_total == services_counted(services.dom(), services).len(),
        counts.services_ready == services_grouped(
            services.dom(),
            services,
            ServiceGroup::Ready,
        ).len(),
        counts.services_failed == services_grouped(
            services.dom(),
            services,
            ServiceGroup::Failed,
        ).len(),
        counts.services_unhealthy == services_grouped(
            services.dom(),
            services,
            ServiceGroup::Unhealthy,
        ).len(),
        counts.services_active == services_grouped(
            services.dom(),
            services,
            ServiceGroup::Active,
        ).len(),
        counts.tasks_running == tasks_grouped(tasks.dom(), tasks, TaskGroup::Running).len(),
        counts.tasks_pending_run == tasks_grouped(tasks.dom(), tasks, TaskGroup::PendingRun).len(),
        counts.tasks_failed == tasks_grouped(tasks.dom(), tasks, TaskGroup::Failed).len(),
{
}

} // verus!
