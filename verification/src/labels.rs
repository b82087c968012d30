//! The words and colours for the states of services and tasks.
use crate::client::{ServiceState, TaskRunInfo, TaskState};
use crate::names::views;
use crate::style::Color;
use crate::text::{
    decimal, every_part_has_its_place, has_part, join, joined, place_of_part, push_decimal,
};
use vstd::prelude::*;

verus! {

/// What a blocked process is called, given what it waits for.
pub open spec fn dependency_label(blockers: Seq<Seq<char>>) -> Seq<char> {
    if blockers.len() == 0 {
        "dep failed"@
    } else {
        "dep failed: "@ + joined(blockers, ", "@)
    }
}

/// What a blocked process is called, given what it waits for.
pub fn dependency_failed_label(failed_dependencies: &Vec<String>) -> (r: String)
    ensures
        r@ == dependency_label(views(failed_dependencies@)),
{
    assert(views(failed_dependencies@).len() == failed_dependencies@.len());
    if failed_dependencies.len() == 0 {
        "dep failed".to_owned()
    } else {
        let mut label = "dep failed: ".to_owned();
        label.append(join(failed_dependencies, ", ").as_str());
        label
    }
}

/// What a service's state is called. `live` is whether it still has a process:
/// a service left running after its ready check failed may be serving traffic.
pub open spec fn service_label(
    state: ServiceState,
    live: bool,
    blockers: Seq<Seq<char>>,
) -> Seq<char> {
    match state {
        ServiceState::Pending => "pending"@,
        ServiceState::Building => "building"@,
        ServiceState::Lazy => "lazy"@,
        ServiceState::Starting => "starting"@,
        ServiceState::Running => "running"@,
        ServiceState::Ready => "ready"@,
        ServiceState::Unhealthy => "unhealthy"@,
        ServiceState::Stopping => "stopping"@,
        ServiceState::Stopped => "stopped"@,
        ServiceState::Failed => if live {
            "ready check failed"@
        } else {
            "failed"@
        },
        ServiceState::DependencyFailed => dependency_label(blockers),
    }
}

/// What a service's state is called.
pub fn service_state_label(
    state: ServiceState,
    live: bool,
    failed_dependencies: &Vec<String>,
) -> (r: String)
    ensures
        r@ == service_label(state, live, views(failed_dependencies@)),
{
    match state {
        ServiceState::Pending => "pending".to_owned(),
        ServiceState::Building => "building".to_owned(),
        ServiceState::Lazy => "lazy".to_owned(),
        ServiceState::Starting => "starting".to_owned(),
        ServiceState::Running => "running".to_owned(),
        ServiceState::Ready => "ready".to_owned(),
        ServiceState::Unhealthy => "unhealthy".to_owned(),
        ServiceState::Stopping => "stopping".to_owned(),
        ServiceState::Stopped => "stopped".to_owned(),
        ServiceState::Failed => {
            if live {
                "ready check failed".to_owned()
            } else {
                "failed".to_owned()
            }
        },
        ServiceState::DependencyFailed => dependency_failed_label(failed_dependencies),
    }
}

/// What a task's state is called.
pub open spec fn task_label(state: TaskState, blockers: Seq<Seq<char>>) -> Seq<char> {
    match state {
        TaskState::Pending => "pending"@,
        TaskState::Building => "building"@,
        TaskState::Running => "running"@,
        TaskState::Completed => "completed"@,
        TaskState::Skipped => "skipped"@,
        TaskState::Failed => "failed"@,
        TaskState::DependencyFailed => dependency_label(blockers),
        TaskState::PendingRun => "pending run"@,
    }
}

/// What a task's state is called.
pub fn task_state_label(state: TaskState, failed_dependencies: &Vec<String>) -> (r: String)
    ensures
        r@ == task_label(state, views(failed_dependencies@)),
{
    match state {
        TaskState::Pending => "pending".to_owned(),
        TaskState::Building => "building".to_owned(),
        TaskState::Running => "running".to_owned(),
        TaskState::Completed => "completed".to_owned(),
        TaskState::Skipped => "skipped".to_owned(),
        TaskState::Failed => "failed".to_owned(),
        TaskState::DependencyFailed => dependency_failed_label(failed_dependencies),
        TaskState::PendingRun => "pending run".to_owned(),
    }
}

/// The colour of a service's state. A blocked service is a quieter red than a
/// failed one: it is not the culprit.
pub open spec fn service_color(state: ServiceState) -> Color {
    match state {
        ServiceState::Ready | ServiceState::Running => Color::Green,
        ServiceState::Starting | ServiceState::Building | ServiceState::Pending
        | ServiceState::Stopping => Color::Yellow,
        ServiceState::Lazy => Color::Cyan,
        ServiceState::Stopped => Color::DarkGray,
        ServiceState::Unhealthy => Color::LightRed,
        ServiceState::Failed => Color::Red,
        ServiceState::DependencyFailed => Color::Rgb(150, 60, 60),
    }
}

/// The colour of a service's state.
pub fn service_state_color(state: ServiceState) -> (r: Color)
    ensures
        r == service_color(state),
{
    match state {
        ServiceState::Ready | ServiceState::Running => Color::Green,
        ServiceState::Starting | ServiceState::Building | ServiceState::Pending
        | ServiceState::Stopping => Color::Yellow,
        ServiceState::Lazy => Color::Cyan,
        ServiceState::Stopped => Color::DarkGray,
        ServiceState::Unhealthy => Color::LightRed,
        ServiceState::Failed => Color::Red,
        ServiceState::DependencyFailed => Color::Rgb(150, 60, 60),
    }
}

/// The colour of a task's state.
pub open spec fn task_color(state: TaskState) -> Color {
    match state {
        TaskState::Completed | TaskState::Skipped => Color::Green,
        TaskState::Running | TaskState::Pending | TaskState::Building => Color::Yellow,
        TaskState::PendingRun => Color::Cyan,
        TaskState::Failed => Color::Red,
        TaskState::DependencyFailed => Color::Rgb(150, 60, 60),
    }
}

/// The colour of a task's state.
pub fn task_state_color(state: TaskState) -> (r: Color)
    ensures
        r == task_color(state),
{
    match state {
        TaskState::Completed | TaskState::Skipped => Color::Green,
        TaskState::Running | TaskState::Pending | TaskState::Building => Color::Yellow,
        TaskState::PendingRun => Color::Cyan,
        TaskState::Failed => Color::Red,
        TaskState::DependencyFailed => Color::Rgb(150, 60, 60),
    }
}

/// How a task's last run went.
pub open spec fn result_label(last_run: Option<TaskRunInfo>) -> Seq<char> {
    match last_run {
        Some(run) => if run.success {
            "ok"@
        } else {
            "failed"@
        },
        None => "-"@,
    }
}

/// How a task's last run went.
pub fn format_task_result(last_run: &Option<TaskRunInfo>) -> (r: String)
    ensures
        r@ == result_label(*last_run),
{
    match last_run {
        Some(run) => {
            if run.success {
                "ok".to_owned()
            } else {
                "failed".to_owned()
            }
        },
        None => "-".to_owned(),
    }
}

/// The colour of how a task's last run went.
pub fn task_result_color(last_run: &TaskRunInfo) -> (r: Color)
    ensures
        r == (if last_run.success {
            Color::Green
        } else {
            Color::Red
        }),
{
    if last_run.success {
        Color::Green
    } else {
        Color::Red
    }
}

/// How long ago a moment was. Clocks may disagree by five seconds.
pub open spec fn relative_time(timestamp: u64, now: u64) -> Seq<char> {
    let elapsed = now - timestamp;
    if timestamp > now + 5 {
        "in the future"@
    } else if elapsed <= 4 {
        "just now"@
    } else if elapsed <= 59 {
        decimal(elapsed as nat) + "s ago"@
    } else if elapsed <= 3599 {
        decimal((elapsed / 60) as nat) + "m ago"@
    } else if elapsed <= 86399 {
        decimal((elapsed / 3600) as nat) + "h ago"@
    } else {
        decimal((elapsed / 86400) as nat) + "d ago"@
    }
}

/// How long ago a moment was, both in seconds.
pub fn format_relative_unix_secs(timestamp: u64, now: u64) -> (r: String)
    ensures
        r@ == relative_time(timestamp, now),
{
    if timestamp > now.saturating_add(5) {
        return "in the future".to_owned();
    }
    let elapsed: u64 = now.saturating_sub(timestamp);
    if elapsed <= 4 {
        return "just now".to_owned();
    }
    let mut out = String::new();
    if elapsed <= 59 {
        push_decimal(&mut out, elapsed);
        out.append("s ago");
    } else if elapsed <= 3599 {
        push_decimal(&mut out, elapsed / 60);
        out.append("m ago");
    } else if elapsed <= 86399 {
        push_decimal(&mut out, elapsed / 3600);
        out.append("h ago");
    } else {
        push_decimal(&mut out, elapsed / 86400);
        out.append("d ago");
    }
    proof {
        assert(Seq::<char>::empty() + decimal(elapsed as nat) =~= decimal(elapsed as nat));
        assert(Seq::<char>::empty() + decimal((elapsed / 60) as nat) =~= decimal(
            (elapsed / 60) as nat,
        ));
        assert(Seq::<char>::empty() + decimal((elapsed / 3600) as nat) =~= decimal(
            (elapsed / 3600) as nat,
        ));
        assert(Seq::<char>::empty() + decimal((elapsed / 86400) as nat) =~= decimal(
            (elapsed / 86400) as nat,
        ));
    }
    out
}

/// When a task last finished.
pub fn format_task_last_run_time(last_run: &Option<TaskRunInfo>, now: u64) -> (r: String)
    ensures
        r@ == (match last_run {
            Some(run) => relative_time(run.finished_at_unix_secs, now),
            None => "-"@,
        }),
{
    match last_run {
        Some(run) => format_relative_unix_secs(run.finished_at_unix_secs, now),
        None => "-".to_owned(),
    }
}

/// A duration: milliseconds below a second, seconds and tenths above, the
/// tenths cut off rather than rounded.
pub open spec fn duration_label(duration_ms: Option<u64>) -> Seq<char> {
    match duration_ms {
        None => "-"@,
        Some(ms) => {
            let seconds = decimal((ms / 1000) as nat);
            let tenths = ms % 1000 / 100;
            if ms < 1000 {
                decimal(ms as nat) + "ms"@
            } else if tenths == 0 {
                seconds + "s"@
            } else {
                seconds + "."@ + decimal(tenths as nat) + "s"@
            }
        },
    }
}

/// A duration.
pub fn format_task_duration(duration_ms: Option<u64>) -> (r: String)
    ensures
        r@ == duration_label(duration_ms),
{
    let ms: u64 = match duration_ms {
        Some(ms) => ms,
        None => {
            return "-".to_owned();
        },
    };
    let mut out = String::new();
    if ms < 1000 {
        push_decimal(&mut out, ms);
        out.append("ms");
    } else {
        let tenths: u64 = ms % 1000 / 100;
        push_decimal(&mut out, ms / 1000);
        if tenths != 0 {
            out.append(".");
            push_decimal(&mut out, tenths);
        }
        out.append("s");
    }
    proof {
        assert(Seq::<char>::empty() + decimal(ms as nat) =~= decimal(ms as nat));
        assert(Seq::<char>::empty() + decimal((ms / 1000) as nat) =~= decimal((ms / 1000) as nat));
    }
    out
}

/// Every state is called by its own name, and a service whose process lives on
/// after a failure by what failed.
pub proof fn a_state_is_called_by_its_name(live: bool, blockers: Seq<Seq<char>>)
    ensures
        service_label(ServiceState::Pending, live, blockers) == "pending"@,
        service_label(ServiceState::Building, live, blockers) == "building"@,
        service_label(ServiceState::Starting, live, blockers) == "starting"@,
        service_label(ServiceState::Running, live, blockers) == "running"@,
        service_label(ServiceState::Ready, live, blockers) == "ready"@,
        service_label(ServiceState::Unhealthy, live, blockers) == "unhealthy"@,
        service_label(ServiceState::Stopping, live, blockers) == "stopping"@,
        service_label(ServiceState::Stopped, live, blockers) == "stopped"@,
        service_label(ServiceState::Lazy, live, blockers) == "lazy"@,
        service_label(ServiceState::Failed, false, blockers) == "failed"@,
        service_label(ServiceState::Failed, true, blockers) == "ready check failed"@,
        task_label(TaskState::Pending, blockers) == "pending"@,
        task_label(TaskState::PendingRun, blockers) == "pending run"@,
        task_label(TaskState::Running, blockers) == "running"@,
        task_label(TaskState::Building, blockers) == "building"@,
        task_label(TaskState::Completed, blockers) == "completed"@,
        task_label(TaskState::Failed, blockers) == "failed"@,
        task_label(TaskState::Skipped, blockers) == "skipped"@,
{
}

/// What is held up by failures names every one of them.
pub proof fn every_blocker_is_named(blockers: Seq<Seq<char>>, live: bool, i: int)
    requires
        0 <= i < blockers.len(),
    ensures
        has_part(service_label(ServiceState::DependencyFailed, live, blockers), blockers[i]),
        has_part(task_label(TaskState::DependencyFailed, blockers), blockers[i]),
        "dep failed"@.is_prefix_of(dependency_label(Seq::empty())),
{
    every_part_has_its_place(blockers, ", "@, i);
    let label = dependency_label(blockers);
    let names = joined(blockers, ", "@);
    let at = place_of_part(blockers, ", "@, i);
    let from = "dep failed: "@.len() + at;
    assert(label.subrange(from, from + blockers[i].len()) =~= names.subrange(
        at,
        at + blockers[i].len(),
    ));
}

/// Green is what is up or done, red what failed, and yellow what is on its way.
pub proof fn a_color_tells_how_it_stands(state: ServiceState, task: TaskState)
    ensures
        service_color(state) == Color::Green <==> state == ServiceState::Ready || state
            == ServiceState::Running,
        service_color(state) == Color::Red <==> state == ServiceState::Failed,
        service_color(state) == Color::LightRed <==> state == ServiceState::Unhealthy,
        service_color(state) == Color::Yellow <==> state == ServiceState::Pending || state
            == ServiceState::Building || state == ServiceState::Starting || state
            == ServiceState::Stopping,
        service_color(state) == Color::Cyan <==> state == ServiceState::Lazy,
        service_color(state) == Color::DarkGray <==> state == ServiceState::Stopped,
        task_color(task) == Color::Green <==> task == TaskState::Completed || task
            == TaskState::Skipped,
        task_color(task) == Color::Red <==> task == TaskState::Failed,
        task_color(task) == Color::Yellow <==> task == TaskState::Running || task
            == TaskState::Pending || task == TaskState::Building,
        task_color(task) == Color::Cyan <==> task == TaskState::PendingRun,
        service_color(ServiceState::DependencyFailed) == task_color(TaskState::DependencyFailed),
{
}

/// A run that succeeded is called so, and one that did not is called a failure.
pub proof fn a_result_is_told_as_it_was(run: TaskRunInfo)
    ensures
        run.success ==> result_label(Some(run)) == "ok"@,
        !run.success ==> result_label(Some(run)) == "failed"@,
        result_label(None) == "-"@,
{
}

/// How long ago something was is told in the largest unit that it has lasted,
/// rounded down: seconds up to a minute, then minutes, hours and days.
pub proof fn an_age_is_told_in_its_largest_unit(timestamp: u64, now: u64)
    requires
        timestamp + 5 <= now,
    ensures
        ({
            let elapsed = now - timestamp;
            &&& elapsed < 60 ==> relative_time(timestamp, now) == decimal(elapsed as nat) + "s ago"@
            &&& 60 <= elapsed < 3600 ==> exists|n: nat|
                60 * n <= elapsed < 60 * (n + 1) && relative_time(timestamp, now)
                    == #[trigger] decimal(n) + "m ago"@
            &&& 3600 <= elapsed < 86400 ==> exists|n: nat|
                3600 * n <= elapsed < 3600 * (n + 1) && relative_time(timestamp, now)
                    == #[trigger] decimal(n) + "h ago"@
            &&& 86400 <= elapsed ==> exists|n: nat|
                86400 * n <= elapsed < 86400 * (n + 1) && relative_time(timestamp, now)
                    == #[trigger] decimal(n) + "d ago"@
        }),
{
    let elapsed = now - timestamp;
    let minutes = (elapsed / 60) as nat;
    let hours = (elapsed / 3600) as nat;
    let days = (elapsed / 86400) as nat;
    assert(60 * minutes <= elapsed < 60 * (minutes + 1));
    assert(3600 * hours <= elapsed < 3600 * (hours + 1));
    assert(86400 * days <= elapsed < 86400 * (days + 1));
    assert(decimal(minutes).len() >= 0 && decimal(hours).len() >= 0 && decimal(days).len() >= 0);
}

/// A run that just ended is told as just now, and one that lies ahead of the
/// clock as such.
pub proof fn the_present_is_told_as_such(timestamp: u64, now: u64)
    ensures
        now - 5 < timestamp <= now + 5 ==> relative_time(timestamp, now) == "just now"@,
        timestamp > now + 5 ==> relative_time(timestamp, now) == "in the future"@,
{
}

/// A duration is told in milliseconds below a second, and otherwise in seconds
/// with the tenth that it has reached.
pub proof fn a_duration_is_told_to_a_tenth(ms: u64, seconds: nat, tenth: nat)
    requires
        tenth < 10,
        1000 * seconds + 100 * tenth <= ms < 1000 * seconds + 100 * (tenth + 1),
    ensures
        ms < 1000 ==> duration_label(Some(ms)) == decimal(ms as nat) + "ms"@,
        ms >= 1000 && tenth == 0 ==> duration_label(Some(ms)) == decimal(seconds) + "s"@,
        ms >= 1000 && tenth > 0 ==> duration_label(Some(ms)) == decimal(seconds) + "."@ + decimal(
            tenth,
        ) + "s"@,
        duration_label(None) == "-"@,
{
    assert((ms / 1000) as nat == seconds);
    assert(ms % 1000 / 100 == tenth);
}

} // verus!
