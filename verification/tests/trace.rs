use rusty_rtos_core::handle::{Handle, TaskHandle};
use rusty_rtos_core::trace::{is_suppressible, CountTrace, Event, NoTrace, Scheduling, Trace};

/// A scripted scenario: a tick heartbeat with scheduling decided around it.
/// `ticks` stands for whether the port fired the heartbeat.
fn play<T: Trace>(sink: &mut T, ticks: bool, switch_at_six: bool) {
    let a: TaskHandle = Handle::from_parts(1, 1);
    let b: TaskHandle = Handle::from_parts(2, 1);
    for tick in 0..8u64 {
        if ticks {
            sink.event(tick, Event::TaskIncrementTick { tick });
            sink.event(tick, Event::LowPowerIdleBegin);
            sink.event(tick, Event::LowPowerIdleEnd);
        }
        if tick == 6 && !switch_at_six {
            continue;
        }
        if tick % 2 == 0 {
            sink.event(tick, Event::TaskSwitchedOut { task: a, name: "A" });
            sink.event(tick, Event::TaskSwitchedIn { task: b, name: "B" });
        } else {
            sink.event(tick, Event::MovedTaskToReadyState { task: a, name: "A" });
        }
    }
}

fn projected(ticks: bool, switch_at_six: bool) -> CountTrace {
    let mut sink = Scheduling::new(CountTrace::default());
    play(&mut sink, ticks, switch_at_six);
    sink.into_inner()
}

#[test]
fn the_projection_is_invariant_under_tick_suppression() {
    let with = projected(true, true);
    let without = projected(false, true);

    assert_eq!(
        with, without,
        "suppressing the heartbeat changed the projected schedule"
    );
    assert_eq!(
        with.ticks, 0,
        "a tick reached the sink through the projection"
    );
    assert_eq!(with.switches, 4, "the switches are what must survive");
}

#[test]
fn the_projection_is_not_invariant_under_a_lost_switch() {
    let whole = projected(true, true);
    let poisoned = projected(true, false);

    assert_ne!(
        whole, poisoned,
        "a dropped context switch survived the projection"
    );
}

#[test]
fn exactly_three_event_kinds_are_suppressible() {
    let t: TaskHandle = Handle::from_parts(1, 1);

    for event in [
        Event::TaskIncrementTick { tick: 0 },
        Event::LowPowerIdleBegin,
        Event::LowPowerIdleEnd,
    ] {
        assert!(
            is_suppressible(&event),
            "{} should be suppressible",
            event.name()
        );
    }

    for event in [
        Event::StartingScheduler,
        Event::TaskSwitchedIn { task: t, name: "A" },
        Event::TaskSwitchedOut { task: t, name: "A" },
        Event::MovedTaskToReadyState { task: t, name: "A" },
        Event::MovedTaskToDelayedList { task: t, name: "A" },
        Event::TaskDelete { task: t, name: "A" },
        Event::TaskDelay {
            task: t,
            name: "A",
            ticks: 1,
        },
    ] {
        assert!(
            !is_suppressible(&event),
            "{} is part of the schedule and must not be suppressible",
            event.name()
        );
    }
}

#[test]
fn names_are_the_c_macro_suffixes() {
    let t: TaskHandle = Handle::from_parts(1, 1);
    let e = Event::TaskSwitchedIn {
        task: t,
        name: "IDLE",
    };
    assert_eq!(e.name(), "TASK_SWITCHED_IN");
    assert_eq!(e.subject(), Some("IDLE"));
    assert_eq!(Event::TaskIncrementTick { tick: 3 }.subject(), None);
    assert_eq!(Event::StartingScheduler.name(), "STARTING_SCHEDULER");
}

#[test]
fn the_counting_sink_counts() {
    let t: TaskHandle = Handle::from_parts(1, 1);
    let mut c = CountTrace::default();
    c.event(0, Event::StartingScheduler);
    c.event(0, Event::TaskSwitchedIn { task: t, name: "a" });
    c.event(1, Event::TaskIncrementTick { tick: 1 });
    c.event(1, Event::TaskSwitchedIn { task: t, name: "b" });
    assert_eq!((c.events, c.switches, c.ticks), (4, 2, 1));
    NoTrace.event(0, Event::LowPowerIdleEnd);
}

// ---- laws and edges on concrete values ----

#[test]
fn the_projection_hands_a_scheduling_event_through_and_drops_a_heartbeat() {
    let t: TaskHandle = Handle::from_parts(3, 2);
    let mut s = Scheduling::new(CountTrace::default());
    s.event(5, Event::LowPowerIdleBegin);
    assert_eq!(*s.inner(), CountTrace::default());
    s.event(5, Event::TaskSwitchedIn { task: t, name: "T" });
    assert_eq!(s.inner().events, 1);
    assert_eq!(s.inner().switches, 1);
}

#[test]
fn the_counts_saturate_instead_of_wrapping() {
    let mut c = CountTrace {
        events: u64::MAX,
        switches: u64::MAX,
        ticks: 0,
    };
    let t: TaskHandle = Handle::from_parts(1, 1);
    c.event(0, Event::TaskSwitchedIn { task: t, name: "a" });
    assert_eq!((c.events, c.switches, c.ticks), (u64::MAX, u64::MAX, 0));
}

#[test]
fn a_subject_is_the_name_an_event_carries() {
    let t: TaskHandle = Handle::from_parts(1, 1);
    assert_eq!(Event::TaskDelete { task: t, name: "worker" }.subject(), Some("worker"));
    assert_eq!(Event::LowPowerIdleEnd.subject(), None);
    assert_eq!(Event::TaskIncrementTick { tick: 0 }.name(), "TASK_INCREMENT_TICK");
}

#[test]
fn the_projection_hands_the_exit_count_to_its_sink() {
    let mut s = Scheduling::new(CountTrace::default());
    s.note_exits(7);
    assert_eq!(*s.inner(), CountTrace::default());
    let mut n = NoTrace;
    n.note_exits(3);
    assert_eq!(n, NoTrace);
}

#[test]
fn a_fresh_count_starts_at_zero_and_the_projection_counts_one_start() {
    assert_eq!(CountTrace::default(), CountTrace { events: 0, switches: 0, ticks: 0 });
    let mut s = Scheduling::new(CountTrace::default());
    s.event(7, Event::TaskIncrementTick { tick: 7 });
    s.event(7, Event::StartingScheduler);
    assert_eq!(s.into_inner().events, 1);
}
