//! The summary of what failed, and of what is blocked by it.
use crate::client::{ServiceState, TaskState};
use crate::labels::{dependency_failed_label, dependency_label};
use crate::names::{
    copy_names, insert_sorted, lemma_take_set, strictly_sorted, views, NameMap,
};
use crate::text::has_suffix;
use vstd::prelude::*;

verus! {

/// One line of the summary.
#[derive(Debug)]
pub struct FailureSummaryItem {
    pub name: String,
    /// Whether it never ran because something it needs failed.
    pub blocked: bool,
    /// What it waits for.
    pub failed_dependencies: Vec<String>,
}

/// Whether a service failed, itself or through a dependency.
pub open spec fn service_is_down(state: ServiceState) -> bool {
    state == ServiceState::Failed || state == ServiceState::DependencyFailed
}

/// Whether a task failed, itself or through a dependency.
pub open spec fn task_is_down(state: TaskState) -> bool {
    state == TaskState::Failed || state == TaskState::DependencyFailed
}

/// Whether anything failed.
pub open spec fn anything_failed(
    services: Map<Seq<char>, ServiceState>,
    tasks: Map<Seq<char>, TaskState>,
) -> bool {
    ||| exists|n: Seq<char>| #[trigger]
        services.contains_key(n) && service_is_down(services[n])
    ||| exists|n: Seq<char>| #[trigger] tasks.contains_key(n) && task_is_down(tasks[n])
}

/// Whether anything failed.
pub fn has_failures(services: &NameMap<ServiceState>, tasks: &NameMap<TaskState>) -> (r: bool)
    ensures
        r == anything_failed(services@, tasks@),
{
    let n: usize = services.len();
    let mut i: usize = 0;
    while i < n
        invariant
            i <= n,
            n == services.order().len(),
            services.order().to_set() == services@.dom(),
            forall|j: int|
                0 <= j < i ==> !service_is_down(services@[#[trigger] services.order()[j]]),
        decreases n - i,
    {
        let state = *services.value_at(i);
        if state == ServiceState::Failed || state == ServiceState::DependencyFailed {
            let name = services.key_at(i);
            assert(services@.contains_key(name@));
            return true;
        }
        i += 1;
    }
    let m: usize = tasks.len();
    let mut k: usize = 0;
    while k < m
        invariant
            k <= m,
            m == tasks.order().len(),
            tasks.order().to_set() == tasks@.dom(),
            forall|j: int| 0 <= j < k ==> !task_is_down(tasks@[#[trigger] tasks.order()[j]]),
        decreases m - k,
    {
        let state = *tasks.value_at(k);
        if state == TaskState::Failed || state == TaskState::DependencyFailed {
            let name = tasks.key_at(k);
            assert(tasks@.contains_key(name@));
            return true;
        }
        k += 1;
    }
    proof {
        assert forall|name: Seq<char>| #[trigger]
            services@.contains_key(name) implies !service_is_down(services@[name]) by {
            assert(services.order().to_set().contains(name));
            let j = services.order().index_of(name);
            assert(services.order()[j] == name);
        }
        assert forall|name: Seq<char>| #[trigger] tasks@.contains_key(name) implies !task_is_down(
            tasks@[name],
        ) by {
            assert(tasks.order().to_set().contains(name));
            let j = tasks.order().index_of(name);
            assert(tasks.order()[j] == name);
        }
    }
    false
}

/// The names in a map that have a value.
pub open spec fn names_with<V>(m: Map<Seq<char>, V>, value: V) -> Set<Seq<char>> {
    Set::new(|n: Seq<char>| m.contains_key(n) && m[n] == value)
}

proof fn lemma_names_step<V>(m: Map<Seq<char>, V>, order: Seq<Seq<char>>, value: V, i: int)
    requires
        0 <= i < order.len(),
        order.to_set() == m.dom(),
    ensures
        names_with(m, value).intersect(order.take(i + 1).to_set()) == (if m[order[i]] == value {
            names_with(m, value).intersect(order.take(i).to_set()).insert(order[i])
        } else {
            names_with(m, value).intersect(order.take(i).to_set())
        }),
{
    lemma_take_set(order, i);
    assert(order.to_set().contains(order[i]));
    assert(m.contains_key(order[i]));
    let want = if m[order[i]] == value {
        names_with(m, value).intersect(order.take(i).to_set()).insert(order[i])
    } else {
        names_with(m, value).intersect(order.take(i).to_set())
    };
    assert(names_with(m, value).intersect(order.take(i + 1).to_set()) =~= want);
}

fn services_in(services: &NameMap<ServiceState>, state: ServiceState) -> (r: Vec<String>)
    ensures
        strictly_sorted(views(r@)),
        views(r@).to_set() == names_with(services@, state),
{
    let n: usize = services.len();
    let mut out: Vec<String> = Vec::new();
    let mut i: usize = 0;
    let ghost order = services.order();
    proof {
        assert(views(out@) =~= Seq::<Seq<char>>::empty());
        assert(order.take(0) =~= Seq::<Seq<char>>::empty());
        assert(views(out@).to_set() =~= names_with(services@, state).intersect(
            order.take(0).to_set(),
        ));
    }
    while i < n
        invariant
            i <= n,
            n == order.len(),
            order == services.order(),
            order.to_set() == services@.dom(),
            strictly_sorted(views(out@)),
            views(out@).to_set() == names_with(services@, state).intersect(
                order.take(i as int).to_set(),
            ),
        decreases n - i,
    {
        proof {
            lemma_names_step(services@, order, state, i as int);
        }
        if *services.value_at(i) == state {
            let _new = insert_sorted(&mut out, services.key_at(i).as_str());
        }
        i += 1;
    }
    proof {
        assert(order.take(n as int) =~= order);
        assert(names_with(services@, state).intersect(order.to_set()) =~= names_with(
            services@,
            state,
        ));
    }
    out
}

fn tasks_in(tasks: &NameMap<TaskState>, state: TaskState) -> (r: Vec<String>)
    ensures
        strictly_sorted(views(r@)),
        views(r@).to_set() == names_with(tasks@, state),
{
    let n: usize = tasks.len();
    let mut out: Vec<String> = Vec::new();
    let mut i: usize = 0;
    let ghost order = tasks.order();
    proof {
        assert(views(out@) =~= Seq::<Seq<char>>::empty());
        assert(order.take(0) =~= Seq::<Seq<char>>::empty());
        assert(views(out@).to_set() =~= names_with(tasks@, state).intersect(
            order.take(0).to_set(),
        ));
    }
    while i < n
        invariant
            i <= n,
            n == order.len(),
            order == tasks.order(),
            order.to_set() == tasks@.dom(),
            strictly_sorted(views(out@)),
            views(out@).to_set() == names_with(tasks@, state).intersect(
                order.take(i as int).to_set(),
            ),
        decreases n - i,
    {
        proof {
            lemma_names_step(tasks@, order, state, i as int);
        }
        if *tasks.value_at(i) == state {
            let _new = insert_sorted(&mut out, tasks.key_at(i).as_str());
        }
        i += 1;
    }
    proof {
        assert(order.take(n as int) =~= order);
        assert(names_with(tasks@, state).intersect(order.to_set()) =~= names_with(tasks@, state));
    }
    out
}

/// What a name waits for.
pub open spec fn blockers(failed: Map<Seq<char>, Vec<String>>, name: Seq<char>) -> Seq<Seq<char>> {
    if failed.contains_key(name) {
        views(failed[name]@)
    } else {
        Seq::empty()
    }
}

/// A line of the summary, as contracts speak of it.
pub struct Culprit {
    pub name: Seq<char>,
    pub blocked: bool,
    pub blockers: Seq<Seq<char>>,
}

impl View for FailureSummaryItem {
    type V = Culprit;

    open spec fn view(&self) -> Culprit {
        Culprit {
            name: self.name@,
            blocked: self.blocked,
            blockers: views(self.failed_dependencies@),
        }
    }
}

/// The lines of a summary.
pub open spec fn culprits(items: Seq<FailureSummaryItem>) -> Seq<Culprit> {
    Seq::new(items.len(), |i: int| items[i]@)
}

/// The lines for a list of names.
pub open spec fn lines_for(
    names: Seq<Seq<char>>,
    blocked: bool,
    failed: Map<Seq<char>, Vec<String>>,
) -> Seq<Culprit> {
    Seq::new(
        names.len(),
        |i: int| Culprit { name: names[i], blocked, blockers: blockers(failed, names[i]) },
    )
}

/// What a name waits for.
pub fn blockers_of(failed: &NameMap<Vec<String>>, name: &str) -> (r: Vec<String>)
    ensures
        views(r@) == blockers(failed@, name@),
{
    match failed.get(name) {
        Some(list) => copy_names(list),
        None => {
            let none: Vec<String> = Vec::new();
            assert(views(none@) =~= Seq::<Seq<char>>::empty());
            none
        },
    }
}

fn add_lines(
    items: &mut Vec<FailureSummaryItem>,
    names: &Vec<String>,
    blocked: bool,
    failed: &NameMap<Vec<String>>,
)
    ensures
        culprits(final(items)@) == culprits(old(items)@) + lines_for(
            views(names@),
            blocked,
            failed@,
        ),
{
    let ghost before = items@;
    let ghost wanted = lines_for(views(names@), blocked, failed@);
    let mut i: usize = 0;
    assert(culprits(items@) =~= culprits(before) + wanted.take(0));
    while i < names.len()
        invariant
            i <= names@.len(),
            wanted == lines_for(views(names@), blocked, failed@),
            culprits(items@) == culprits(before) + wanted.take(i as int),
        decreases names@.len() - i,
    {
        let ghost so_far = items@;
        let item = FailureSummaryItem {
            name: names[i].clone(),
            blocked,
            failed_dependencies: blockers_of(failed, names[i].as_str()),
        };
        items.push(item);
        proof {
            assert(item@ == wanted[i as int]);
            assert(culprits(items@) =~= culprits(so_far).push(item@));
            assert(wanted.take(i + 1) =~= wanted.take(i as int).push(wanted[i as int]));
        }
        i += 1;
    }
    assert(wanted.take(names@.len() as int) =~= wanted);
}

/// Whether a summary is complete: the services that failed, the tasks that
/// failed, then the services and the tasks that are blocked, each group sorted
/// by name.
pub open spec fn summarizes(
    summary: Seq<Culprit>,
    services: Map<Seq<char>, ServiceState>,
    tasks: Map<Seq<char>, TaskState>,
    failed: Map<Seq<char>, Vec<String>>,
) -> bool {
    exists|a: Seq<Seq<char>>, b: Seq<Seq<char>>, c: Seq<Seq<char>>, d: Seq<Seq<char>>|
        #![trigger lines_for(a, false, failed), lines_for(b, false, failed), lines_for(c, true, failed), lines_for(d, true, failed)]
        {
            &&& strictly_sorted(a) && a.to_set() == names_with(services, ServiceState::Failed)
            &&& strictly_sorted(b) && b.to_set() == names_with(tasks, TaskState::Failed)
            &&& strictly_sorted(c) && c.to_set() == names_with(
                services,
                ServiceState::DependencyFailed,
            )
            &&& strictly_sorted(d) && d.to_set() == names_with(tasks, TaskState::DependencyFailed)
            &&& summary == lines_for(a, false, failed) + lines_for(b, false, failed) + lines_for(
                c,
                true,
                failed,
            ) + lines_for(d, true, failed)
        }
}

/// The summary of what failed.
pub fn collect(
    services: &NameMap<ServiceState>,
    tasks: &NameMap<TaskState>,
    failed: &NameMap<Vec<String>>,
) -> (r: Vec<FailureSummaryItem>)
    ensures
        summarizes(culprits(r@), services@, tasks@, failed@),
{
    let a = services_in(services, ServiceState::Failed);
    let b = tasks_in(tasks, TaskState::Failed);
    let c = services_in(services, ServiceState::DependencyFailed);
    let d = tasks_in(tasks, TaskState::DependencyFailed);
    let mut items: Vec<FailureSummaryItem> = Vec::new();
    assert(culprits(items@) =~= Seq::<Culprit>::empty());
    add_lines(&mut items, &a, false, failed);
    assert(culprits(items@) =~= lines_for(views(a@), false, failed@));
    add_lines(&mut items, &b, false, failed);
    add_lines(&mut items, &c, true, failed);
    add_lines(&mut items, &d, true, failed);
    items
}

/// A summary is complete in one way only.
pub proof fn a_summary_is_unique(
    x: Seq<Culprit>,
    y: Seq<Culprit>,
    services: Map<Seq<char>, ServiceState>,
    tasks: Map<Seq<char>, TaskState>,
    failed: Map<Seq<char>, Vec<String>>,
)
    requires
        summarizes(x, services, tasks, failed),
        summarizes(y, services, tasks, failed),
    ensures
        x == y,
{
    let (a, b, c, d) = choose|
        a: Seq<Seq<char>>,
        b: Seq<Seq<char>>,
        c: Seq<Seq<char>>,
        d: Seq<Seq<char>>,
    |
        #![trigger lines_for(a, false, failed), lines_for(b, false, failed), lines_for(c, true, failed), lines_for(d, true, failed)]
        {
            &&& strictly_sorted(a) && a.to_set() == names_with(services, ServiceState::Failed)
            &&& strictly_sorted(b) && b.to_set() == names_with(tasks, TaskState::Failed)
            &&& strictly_sorted(c) && c.to_set() == names_with(
                services,
                ServiceState::DependencyFailed,
            )
            &&& strictly_sorted(d) && d.to_set() == names_with(tasks, TaskState::DependencyFailed)
            &&& x == lines_for(a, false, failed) + lines_for(b, false, failed) + lines_for(
                c,
                true,
                failed,
            ) + lines_for(d, true, failed)
        };
    let (p, q, r, s) = choose|
        a: Seq<Seq<char>>,
        b: Seq<Seq<char>>,
        c: Seq<Seq<char>>,
        d: Seq<Seq<char>>,
    |
        #![trigger lines_for(a, false, failed), lines_for(b, false, failed), lines_for(c, true, failed), lines_for(d, true, failed)]
        {
            &&& strictly_sorted(a) && a.to_set() == names_with(services, ServiceState::Failed)
            &&& strictly_sorted(b) && b.to_set() == names_with(tasks, TaskState::Failed)
            &&& strictly_sorted(c) && c.to_set() == names_with(
                services,
                ServiceState::DependencyFailed,
            )
            &&& strictly_sorted(d) && d.to_set() == names_with(tasks, TaskState::DependencyFailed)
            &&& y == lines_for(a, false, failed) + lines_for(b, false, failed) + lines_for(
                c,
                true,
                failed,
            ) + lines_for(d, true, failed)
        };
    crate::names::sorted_names_are_unique(a, p);
    crate::names::sorted_names_are_unique(b, q);
    crate::names::sorted_names_are_unique(c, r);
    crate::names::sorted_names_are_unique(d, s);
}

/// The text of a line of the summary.
pub open spec fn culprit_text(c: Culprit) -> Seq<char> {
    if c.blocked {
        c.name + " "@ + dependency_label(c.blockers)
    } else {
        c.name + " failed"@
    }
}

/// The text of the summary, one line for each item.
pub fn text(items: &Vec<FailureSummaryItem>) -> (r: Vec<String>)
    ensures
        r@.len() == items@.len(),
        forall|i: int| 0 <= i < r@.len() ==> (#[trigger] r@[i])@ == culprit_text(items@[i]@),
{
    let mut out: Vec<String> = Vec::new();
    let mut i: usize = 0;
    while i < items.len()
        invariant
            i <= items@.len(),
            out@.len() == i,
            forall|j: int| 0 <= j < i ==> (#[trigger] out@[j])@ == culprit_text(items@[j]@),
        decreases items@.len() - i,
    {
        let item = &items[i];
        let mut line = item.name.clone();
        if item.blocked {
            line.append(" ");
            line.append(dependency_failed_label(&item.failed_dependencies).as_str());
        } else {
            line.append(" failed");
        }
        out.push(line);
        i += 1;
    }
    out
}

/// The summary names everything that failed or waits for something that did,
/// and nothing else: first what failed by itself, then what was held up, each
/// with what it waits for.
pub proof fn a_summary_names_all_that_failed(
    summary: Seq<Culprit>,
    services: Map<Seq<char>, ServiceState>,
    tasks: Map<Seq<char>, TaskState>,
    failed: Map<Seq<char>, Vec<String>>,
    name: Seq<char>,
)
    requires
        summarizes(summary, services, tasks, failed),
    ensures
        services.contains_key(name) && services[name] == ServiceState::Failed || tasks.contains_key(
            name,
        ) && tasks[name] == TaskState::Failed ==> summary.contains(
            (Culprit { name, blocked: false, blockers: blockers(failed, name) }),
        ),
        services.contains_key(name) && services[name] == ServiceState::DependencyFailed
            || tasks.contains_key(name) && tasks[name] == TaskState::DependencyFailed
            ==> summary.contains(
            (Culprit { name, blocked: true, blockers: blockers(failed, name) }),
        ),
        forall|i: int|
            0 <= i < summary.len() ==> {
                let culprit = #[trigger] summary[i];
                &&& culprit.blockers == blockers(failed, culprit.name)
                &&& culprit.blocked ==> services.contains_key(culprit.name)
                    && services[culprit.name] == ServiceState::DependencyFailed
                    || tasks.contains_key(culprit.name) && tasks[culprit.name]
                    == TaskState::DependencyFailed
                &&& !culprit.blocked ==> services.contains_key(culprit.name)
                    && services[culprit.name] == ServiceState::Failed || tasks.contains_key(
                    culprit.name,
                ) && tasks[culprit.name] == TaskState::Failed
            },
        forall|i: int, j: int|
            0 <= i < j < summary.len() ==> (#[trigger] summary[j]).blocked || !(
            #[trigger] summary[i]).blocked,
{
    let (a, b, c, d) = choose|
        a: Seq<Seq<char>>,
        b: Seq<Seq<char>>,
        c: Seq<Seq<char>>,
        d: Seq<Seq<char>>,
    |
        #![trigger lines_for(a, false, failed), lines_for(b, false, failed), lines_for(c, true, failed), lines_for(d, true, failed)]
        {
            &&& strictly_sorted(a) && a.to_set() == names_with(services, ServiceState::Failed)
            &&& strictly_sorted(b) && b.to_set() == names_with(tasks, TaskState::Failed)
            &&& strictly_sorted(c) && c.to_set() == names_with(
                services,
                ServiceState::DependencyFailed,
            )
            &&& strictly_sorted(d) && d.to_set() == names_with(tasks, TaskState::DependencyFailed)
            &&& summary == lines_for(a, false, failed) + lines_for(b, false, failed) + lines_for(
                c,
                true,
                failed,
            ) + lines_for(d, true, failed)
        };
    let first = lines_for(a, false, failed);
    let second = lines_for(b, false, failed);
    let third = lines_for(c, true, failed);
    let fourth = lines_for(d, true, failed);
    if services.contains_key(name) && services[name] == ServiceState::Failed {
        assert(a.to_set().contains(name));
        let i = choose|i: int| 0 <= i < a.len() && a[i] == name;
        assert(summary[i] == first[i]);
    }
    if tasks.contains_key(name) && tasks[name] == TaskState::Failed {
        assert(b.to_set().contains(name));
        let i = choose|i: int| 0 <= i < b.len() && b[i] == name;
        assert(summary[first.len() + i] == second[i]);
    }
    if services.contains_key(name) && services[name] == ServiceState::DependencyFailed {
        assert(c.to_set().contains(name));
        let i = choose|i: int| 0 <= i < c.len() && c[i] == name;
        assert(summary[first.len() + second.len() + i] == third[i]);
    }
    if tasks.contains_key(name) && tasks[name] == TaskState::DependencyFailed {
        assert(d.to_set().contains(name));
        let i = choose|i: int| 0 <= i < d.len() && d[i] == name;
        assert(summary[first.len() + second.len() + third.len() + i] == fourth[i]);
    }
    assert forall|i: int| 0 <= i < summary.len() implies {
        let culprit = #[trigger] summary[i];
        &&& culprit.blockers == blockers(failed, culprit.name)
        &&& culprit.blocked ==> services.contains_key(culprit.name) && services[culprit.name]
            == ServiceState::DependencyFailed || tasks.contains_key(culprit.name)
            && tasks[culprit.name] == TaskState::DependencyFailed
        &&& !culprit.blocked ==> services.contains_key(culprit.name) && services[culprit.name]
            == ServiceState::Failed || tasks.contains_key(culprit.name) && tasks[culprit.name]
            == TaskState::Failed
    } by {
        if i < first.len() {
            assert(summary[i] == first[i]);
            assert(a.to_set().contains(a[i]));
        } else if i < first.len() + second.len() {
            let k = i - first.len();
            assert(summary[i] == second[k]);
            assert(b.to_set().contains(b[k]));
        } else if i < first.len() + second.len() + third.len() {
            let k = i - first.len() - second.len();
            assert(summary[i] == third[k]);
            assert(c.to_set().contains(c[k]));
        } else {
            let k = i - first.len() - second.len() - third.len();
            assert(summary[i] == fourth[k]);
            assert(d.to_set().contains(d[k]));
        }
    }
}

/// Something failed exactly where a service or a task failed or waits for one
/// that did.
pub proof fn waiting_for_a_failure_counts_as_one(
    services: Map<Seq<char>, ServiceState>,
    tasks: Map<Seq<char>, TaskState>,
    name: Seq<char>,
)
    ensures
        services.contains_key(name) && (services[name] == ServiceState::Failed || services[name]
            == ServiceState::DependencyFailed) ==> anything_failed(services, tasks),
        tasks.contains_key(name) && (tasks[name] == TaskState::Failed || tasks[name]
            == TaskState::DependencyFailed) ==> anything_failed(services, tasks),
        anything_failed(services, tasks) ==> (exists|n: Seq<char>| #[trigger]
            services.contains_key(n) && (services[n] == ServiceState::Failed || services[n]
                == ServiceState::DependencyFailed)) || (exists|n: Seq<char>| #[trigger]
            tasks.contains_key(n) && (tasks[n] == TaskState::Failed || tasks[n]
                == TaskState::DependencyFailed)),
{
}

/// What is said of a failure begins with its name, and of one that was held up
/// names what it waits for.
pub proof fn a_failure_is_told_by_name(c: Culprit)
    ensures
        c.name.is_prefix_of(culprit_text(c)),
        !c.blocked ==> has_suffix(culprit_text(c), " failed"@),
        c.blocked ==> has_suffix(culprit_text(c), dependency_label(c.blockers)),
{
    let text = culprit_text(c);
    if c.blocked {
        let label = dependency_label(c.blockers);
        assert(text.skip(text.len() - label.len()) =~= label);
    } else {
        assert(text.skip(text.len() - " failed"@.len()) =~= " failed"@);
    }
}

} // verus!
