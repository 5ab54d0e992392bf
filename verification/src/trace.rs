//! The Trace seam: the oracle instrument.
//!
//! FreeRTOS fires a `trace*` macro at every scheduling and IPC decision. Here
//! the kernel fires [`Trace::event`] with an [`Event`] whose [`Event::name`] is
//! the macro's suffix (`TASK_SWITCHED_IN`, `QUEUE_SEND`, ...), so a sink can
//! print exactly the line the instrumented C kernel prints, and a diff of the
//! two traces is the conformance gate. The default sink is [`NoTrace`].
//!
//! Every sink says, as a specification, what taking an event does to it
//! ([`Trace::takes`]); [`Scheduling`] is the projection that drops exactly the
//! events a tickless sleep may change and passes every other one through.
use vstd::prelude::*;

use crate::handle::{EventGroupHandle, QueueHandle, StreamBufferHandle, TaskHandle, TimerHandle};
use crate::priority::Priority;

verus! {

/// One kernel event, with what the corresponding C macro receives.
///
/// Field names are the C macro's own parameter names in snake case.
#[derive(Debug, Clone, Copy, PartialEq, Eq)]
#[non_exhaustive]
#[allow(missing_docs)]
pub enum Event<'a> {
    /// `traceSTARTING_SCHEDULER`.
    StartingScheduler,
    /// `traceTASK_CREATE`.
    TaskCreate {
        task: TaskHandle,
        name: &'a str,
        priority: Priority,
    },
    /// `traceTASK_CREATE_FAILED`.
    TaskCreateFailed,
    /// `traceTASK_DELETE`.
    TaskDelete {
        task: TaskHandle,
        name: &'a str,
    },
    /// `traceTASK_SWITCHED_IN`.
    TaskSwitchedIn {
        task: TaskHandle,
        name: &'a str,
    },
    /// `traceTASK_SWITCHED_OUT`.
    TaskSwitchedOut {
        task: TaskHandle,
        name: &'a str,
    },
    /// `traceTASK_DELAY`.
    TaskDelay {
        task: TaskHandle,
        name: &'a str,
        ticks: u64,
    },
    /// `traceTASK_DELAY_UNTIL`.
    TaskDelayUntil {
        task: TaskHandle,
        name: &'a str,
        wake_at: u64,
    },
    /// `traceTASK_SUSPEND`.
    TaskSuspend {
        task: TaskHandle,
        name: &'a str,
    },
    /// `traceTASK_RESUME`.
    TaskResume {
        task: TaskHandle,
        name: &'a str,
    },
    /// `traceTASK_RESUME_FROM_ISR`.
    TaskResumeFromIsr {
        task: TaskHandle,
        name: &'a str,
    },
    /// `traceTASK_PRIORITY_SET`.
    TaskPrioritySet {
        task: TaskHandle,
        name: &'a str,
        priority: Priority,
    },
    /// `traceTASK_PRIORITY_INHERIT`.
    TaskPriorityInherit {
        task: TaskHandle,
        name: &'a str,
        priority: Priority,
    },
    /// `traceTASK_PRIORITY_DISINHERIT`.
    TaskPriorityDisinherit {
        task: TaskHandle,
        name: &'a str,
        priority: Priority,
    },
    /// `traceTASK_INCREMENT_TICK`.
    TaskIncrementTick {
        tick: u64,
    },
    /// `traceMOVED_TASK_TO_READY_STATE`.
    MovedTaskToReadyState {
        task: TaskHandle,
        name: &'a str,
    },
    /// `traceMOVED_TASK_TO_DELAYED_LIST`.
    MovedTaskToDelayedList {
        task: TaskHandle,
        name: &'a str,
    },
    /// `traceMOVED_TASK_TO_OVERFLOW_DELAYED_LIST`.
    MovedTaskToOverflowDelayedList {
        task: TaskHandle,
        name: &'a str,
    },
    /// `traceTASK_NOTIFY`.
    TaskNotify {
        task: TaskHandle,
        name: &'a str,
        index: usize,
    },
    /// `traceTASK_NOTIFY_WAIT`.
    TaskNotifyWait {
        task: TaskHandle,
        name: &'a str,
        index: usize,
    },
    /// `traceTASK_NOTIFY_WAIT_BLOCK`.
    TaskNotifyWaitBlock {
        task: TaskHandle,
        name: &'a str,
        index: usize,
    },
    /// `traceTASK_NOTIFY_TAKE`.
    TaskNotifyTake {
        task: TaskHandle,
        name: &'a str,
        index: usize,
    },
    /// `traceTASK_NOTIFY_TAKE_BLOCK`.
    TaskNotifyTakeBlock {
        task: TaskHandle,
        name: &'a str,
        index: usize,
    },
    /// `traceQUEUE_CREATE`.
    QueueCreate {
        queue: QueueHandle,
        name: &'a str,
        length: usize,
    },
    /// `traceQUEUE_SEND`.
    QueueSend {
        queue: QueueHandle,
        name: &'a str,
    },
    /// `traceQUEUE_SEND_FAILED`.
    QueueSendFailed {
        queue: QueueHandle,
        name: &'a str,
    },
    /// `traceQUEUE_SEND_FROM_ISR`.
    QueueSendFromIsr {
        queue: QueueHandle,
        name: &'a str,
    },
    /// `traceQUEUE_RECEIVE`.
    QueueReceive {
        queue: QueueHandle,
        name: &'a str,
    },
    /// `traceQUEUE_RECEIVE_FAILED`.
    QueueReceiveFailed {
        queue: QueueHandle,
        name: &'a str,
    },
    /// `traceQUEUE_RECEIVE_FROM_ISR`.
    QueueReceiveFromIsr {
        queue: QueueHandle,
        name: &'a str,
    },
    /// `traceQUEUE_PEEK`.
    QueuePeek {
        queue: QueueHandle,
        name: &'a str,
    },
    /// `traceBLOCKING_ON_QUEUE_SEND`.
    BlockingOnQueueSend {
        queue: QueueHandle,
        name: &'a str,
    },
    /// `traceBLOCKING_ON_QUEUE_RECEIVE`.
    BlockingOnQueueReceive {
        queue: QueueHandle,
        name: &'a str,
    },
    /// `traceBLOCKING_ON_QUEUE_PEEK`.
    BlockingOnQueuePeek {
        queue: QueueHandle,
        name: &'a str,
    },
    /// `traceTIMER_CREATE`.
    TimerCreate {
        timer: TimerHandle,
        name: &'a str,
    },
    /// `traceTIMER_COMMAND_SEND`.
    TimerCommandSend {
        timer: TimerHandle,
        name: &'a str,
        command: i32,
        value: u64,
    },
    /// `traceTIMER_EXPIRED`.
    TimerExpired {
        timer: TimerHandle,
        name: &'a str,
    },
    /// `traceEVENT_GROUP_CREATE`.
    EventGroupCreate {
        group: EventGroupHandle,
    },
    /// `traceEVENT_GROUP_SET_BITS`.
    EventGroupSetBits {
        group: EventGroupHandle,
        bits: u32,
    },
    /// `traceEVENT_GROUP_WAIT_BITS_BLOCK`.
    EventGroupWaitBitsBlock {
        group: EventGroupHandle,
        bits: u32,
    },
    /// `traceEVENT_GROUP_WAIT_BITS_END`.
    EventGroupWaitBitsEnd {
        group: EventGroupHandle,
        bits: u32,
        timed_out: bool,
    },
    /// `traceSTREAM_BUFFER_CREATE`.
    StreamBufferCreate {
        buffer: StreamBufferHandle,
        is_message_buffer: bool,
    },
    /// `traceSTREAM_BUFFER_SEND`.
    StreamBufferSend {
        buffer: StreamBufferHandle,
        bytes: usize,
    },
    /// `traceSTREAM_BUFFER_RECEIVE`.
    StreamBufferReceive {
        buffer: StreamBufferHandle,
        bytes: usize,
    },
    /// `traceLOW_POWER_IDLE_BEGIN`.
    LowPowerIdleBegin,
    /// `traceLOW_POWER_IDLE_END`.
    LowPowerIdleEnd,
}

impl<'a> Event<'a> {
    /// The C macro's suffix of each event: the second field of a trace line.
    pub open spec fn spec_name(&self) -> &'static str {
        match *self {
            Event::StartingScheduler => "STARTING_SCHEDULER",
            Event::TaskCreate { .. } => "TASK_CREATE",
            Event::TaskCreateFailed => "TASK_CREATE_FAILED",
            Event::TaskDelete { .. } => "TASK_DELETE",
            Event::TaskSwitchedIn { .. } => "TASK_SWITCHED_IN",
            Event::TaskSwitchedOut { .. } => "TASK_SWITCHED_OUT",
            Event::TaskDelay { .. } => "TASK_DELAY",
            Event::TaskDelayUntil { .. } => "TASK_DELAY_UNTIL",
            Event::TaskSuspend { .. } => "TASK_SUSPEND",
            Event::TaskResume { .. } => "TASK_RESUME",
            Event::TaskResumeFromIsr { .. } => "TASK_RESUME_FROM_ISR",
            Event::TaskPrioritySet { .. } => "TASK_PRIORITY_SET",
            Event::TaskPriorityInherit { .. } => "TASK_PRIORITY_INHERIT",
            Event::TaskPriorityDisinherit { .. } => "TASK_PRIORITY_DISINHERIT",
            Event::TaskIncrementTick { .. } => "TASK_INCREMENT_TICK",
            Event::MovedTaskToReadyState { .. } => "MOVED_TASK_TO_READY_STATE",
            Event::MovedTaskToDelayedList { .. } => "MOVED_TASK_TO_DELAYED_LIST",
            Event::MovedTaskToOverflowDelayedList { .. } => "MOVED_TASK_TO_OVERFLOW_DELAYED_LIST",
            Event::TaskNotify { .. } => "TASK_NOTIFY",
            Event::TaskNotifyWait { .. } => "TASK_NOTIFY_WAIT",
            Event::TaskNotifyWaitBlock { .. } => "TASK_NOTIFY_WAIT_BLOCK",
            Event::TaskNotifyTake { .. } => "TASK_NOTIFY_TAKE",
            Event::TaskNotifyTakeBlock { .. } => "TASK_NOTIFY_TAKE_BLOCK",
            Event::QueueCreate { .. } => "QUEUE_CREATE",
            Event::QueueSend { .. } => "QUEUE_SEND",
            Event::QueueSendFailed { .. } => "QUEUE_SEND_FAILED",
            Event::QueueSendFromIsr { .. } => "QUEUE_SEND_FROM_ISR",
            Event::QueueReceive { .. } => "QUEUE_RECEIVE",
            Event::QueueReceiveFailed { .. } => "QUEUE_RECEIVE_FAILED",
            Event::QueueReceiveFromIsr { .. } => "QUEUE_RECEIVE_FROM_ISR",
            Event::QueuePeek { .. } => "QUEUE_PEEK",
            Event::BlockingOnQueueSend { .. } => "BLOCKING_ON_QUEUE_SEND",
            Event::BlockingOnQueueReceive { .. } => "BLOCKING_ON_QUEUE_RECEIVE",
            Event::BlockingOnQueuePeek { .. } => "BLOCKING_ON_QUEUE_PEEK",
            Event::TimerCreate { .. } => "TIMER_CREATE",
            Event::TimerCommandSend { .. } => "TIMER_COMMAND_SEND",
            Event::TimerExpired { .. } => "TIMER_EXPIRED",
            Event::EventGroupCreate { .. } => "EVENT_GROUP_CREATE",
            Event::EventGroupSetBits { .. } => "EVENT_GROUP_SET_BITS",
            Event::EventGroupWaitBitsBlock { .. } => "EVENT_GROUP_WAIT_BITS_BLOCK",
            Event::EventGroupWaitBitsEnd { .. } => "EVENT_GROUP_WAIT_BITS_END",
            Event::StreamBufferCreate { .. } => "STREAM_BUFFER_CREATE",
            Event::StreamBufferSend { .. } => "STREAM_BUFFER_SEND",
            Event::StreamBufferReceive { .. } => "STREAM_BUFFER_RECEIVE",
            Event::LowPowerIdleBegin => "LOW_POWER_IDLE_BEGIN",
            Event::LowPowerIdleEnd => "LOW_POWER_IDLE_END",
        }
    }

    /// The name the C side prints in the third field, for the events that carry one.
    pub open spec fn spec_subject(&self) -> Option<&'a str> {
        match *self {
            Event::TaskCreate { name, .. } => Some(name),
            Event::TaskDelete { name, .. } => Some(name),
            Event::TaskSwitchedIn { name, .. } => Some(name),
            Event::TaskSwitchedOut { name, .. } => Some(name),
            Event::TaskDelay { name, .. } => Some(name),
            Event::TaskDelayUntil { name, .. } => Some(name),
            Event::TaskSuspend { name, .. } => Some(name),
            Event::TaskResume { name, .. } => Some(name),
            Event::TaskResumeFromIsr { name, .. } => Some(name),
            Event::TaskPrioritySet { name, .. } => Some(name),
            Event::TaskPriorityInherit { name, .. } => Some(name),
            Event::TaskPriorityDisinherit { name, .. } => Some(name),
            Event::MovedTaskToReadyState { name, .. } => Some(name),
            Event::MovedTaskToDelayedList { name, .. } => Some(name),
            Event::MovedTaskToOverflowDelayedList { name, .. } => Some(name),
            Event::TaskNotify { name, .. } => Some(name),
            Event::TaskNotifyWait { name, .. } => Some(name),
            Event::TaskNotifyWaitBlock { name, .. } => Some(name),
            Event::TaskNotifyTake { name, .. } => Some(name),
            Event::TaskNotifyTakeBlock { name, .. } => Some(name),
            Event::QueueCreate { name, .. } => Some(name),
            Event::QueueSend { name, .. } => Some(name),
            Event::QueueSendFailed { name, .. } => Some(name),
            Event::QueueSendFromIsr { name, .. } => Some(name),
            Event::QueueReceive { name, .. } => Some(name),
            Event::QueueReceiveFailed { name, .. } => Some(name),
            Event::QueueReceiveFromIsr { name, .. } => Some(name),
            Event::QueuePeek { name, .. } => Some(name),
            Event::BlockingOnQueueSend { name, .. } => Some(name),
            Event::BlockingOnQueueReceive { name, .. } => Some(name),
            Event::BlockingOnQueuePeek { name, .. } => Some(name),
            Event::TimerCreate { name, .. } => Some(name),
            Event::TimerCommandSend { name, .. } => Some(name),
            Event::TimerExpired { name, .. } => Some(name),
            _ => None,
        }
    }

    /// Every event is named by the suffix of its own C trace macro
    /// (`traceTASK_CREATE` names `TASK_CREATE`, and so on for each kind), so
    /// the kernel's sink and the C harness print the same word for it.
    pub proof fn lemma_names_are_the_macro_suffixes(e: Event<'a>)
        ensures
            e is StartingScheduler ==> e.spec_name()@ == "STARTING_SCHEDULER"@,
            e is TaskCreate ==> e.spec_name()@ == "TASK_CREATE"@,
            e is TaskCreateFailed ==> e.spec_name()@ == "TASK_CREATE_FAILED"@,
            e is TaskDelete ==> e.spec_name()@ == "TASK_DELETE"@,
            e is TaskSwitchedIn ==> e.spec_name()@ == "TASK_SWITCHED_IN"@,
            e is TaskSwitchedOut ==> e.spec_name()@ == "TASK_SWITCHED_OUT"@,
            e is TaskDelay ==> e.spec_name()@ == "TASK_DELAY"@,
            e is TaskDelayUntil ==> e.spec_name()@ == "TASK_DELAY_UNTIL"@,
            e is TaskSuspend ==> e.spec_name()@ == "TASK_SUSPEND"@,
            e is TaskResume ==> e.spec_name()@ == "TASK_RESUME"@,
            e is TaskResumeFromIsr ==> e.spec_name()@ == "TASK_RESUME_FROM_ISR"@,
            e is TaskPrioritySet ==> e.spec_name()@ == "TASK_PRIORITY_SET"@,
            e is TaskPriorityInherit ==> e.spec_name()@ == "TASK_PRIORITY_INHERIT"@,
            e is TaskPriorityDisinherit ==> e.spec_name()@ == "TASK_PRIORITY_DISINHERIT"@,
            e is TaskIncrementTick ==> e.spec_name()@ == "TASK_INCREMENT_TICK"@,
            e is MovedTaskToReadyState ==> e.spec_name()@ == "MOVED_TASK_TO_READY_STATE"@,
            e is MovedTaskToDelayedList ==> e.spec_name()@ == "MOVED_TASK_TO_DELAYED_LIST"@,
            e is MovedTaskToOverflowDelayedList ==> e.spec_name()@ == "MOVED_TASK_TO_OVERFLOW_DELAYED_LIST"@,
            e is TaskNotify ==> e.spec_name()@ == "TASK_NOTIFY"@,
            e is TaskNotifyWait ==> e.spec_name()@ == "TASK_NOTIFY_WAIT"@,
            e is TaskNotifyWaitBlock ==> e.spec_name()@ == "TASK_NOTIFY_WAIT_BLOCK"@,
            e is TaskNotifyTake ==> e.spec_name()@ == "TASK_NOTIFY_TAKE"@,
            e is TaskNotifyTakeBlock ==> e.spec_name()@ == "TASK_NOTIFY_TAKE_BLOCK"@,
            e is QueueCreate ==> e.spec_name()@ == "QUEUE_CREATE"@,
            e is QueueSend ==> e.spec_name()@ == "QUEUE_SEND"@,
            e is QueueSendFailed ==> e.spec_name()@ == "QUEUE_SEND_FAILED"@,
            e is QueueSendFromIsr ==> e.spec_name()@ == "QUEUE_SEND_FROM_ISR"@,
            e is QueueReceive ==> e.spec_name()@ == "QUEUE_RECEIVE"@,
            e is QueueReceiveFailed ==> e.spec_name()@ == "QUEUE_RECEIVE_FAILED"@,
            e is QueueReceiveFromIsr ==> e.spec_name()@ == "QUEUE_RECEIVE_FROM_ISR"@,
            e is QueuePeek ==> e.spec_name()@ == "QUEUE_PEEK"@,
            e is BlockingOnQueueSend ==> e.spec_name()@ == "BLOCKING_ON_QUEUE_SEND"@,
            e is BlockingOnQueueReceive ==> e.spec_name()@ == "BLOCKING_ON_QUEUE_RECEIVE"@,
            e is BlockingOnQueuePeek ==> e.spec_name()@ == "BLOCKING_ON_QUEUE_PEEK"@,
            e is TimerCreate ==> e.spec_name()@ == "TIMER_CREATE"@,
            e is TimerCommandSend ==> e.spec_name()@ == "TIMER_COMMAND_SEND"@,
            e is TimerExpired ==> e.spec_name()@ == "TIMER_EXPIRED"@,
            e is EventGroupCreate ==> e.spec_name()@ == "EVENT_GROUP_CREATE"@,
            e is EventGroupSetBits ==> e.spec_name()@ == "EVENT_GROUP_SET_BITS"@,
            e is EventGroupWaitBitsBlock ==> e.spec_name()@ == "EVENT_GROUP_WAIT_BITS_BLOCK"@,
            e is EventGroupWaitBitsEnd ==> e.spec_name()@ == "EVENT_GROUP_WAIT_BITS_END"@,
            e is StreamBufferCreate ==> e.spec_name()@ == "STREAM_BUFFER_CREATE"@,
            e is StreamBufferSend ==> e.spec_name()@ == "STREAM_BUFFER_SEND"@,
            e is StreamBufferReceive ==> e.spec_name()@ == "STREAM_BUFFER_RECEIVE"@,
            e is LowPowerIdleBegin ==> e.spec_name()@ == "LOW_POWER_IDLE_BEGIN"@,
            e is LowPowerIdleEnd ==> e.spec_name()@ == "LOW_POWER_IDLE_END"@,
    {
    }

    /// Every event that carries an object's name reports exactly that name as
    /// its subject, and an event that carries none reports none.
    pub proof fn lemma_subject_is_the_carried_name(e: Event<'a>)
        ensures
            e matches Event::TaskCreate { name, .. } ==> e.spec_subject() == Some(name),
            e matches Event::TaskDelete { name, .. } ==> e.spec_subject() == Some(name),
            e matches Event::TaskSwitchedIn { name, .. } ==> e.spec_subject() == Some(name),
            e matches Event::TaskSwitchedOut { name, .. } ==> e.spec_subject() == Some(name),
            e matches Event::TaskDelay { name, .. } ==> e.spec_subject() == Some(name),
            e matches Event::TaskDelayUntil { name, .. } ==> e.spec_subject() == Some(name),
            e matches Event::TaskSuspend { name, .. } ==> e.spec_subject() == Some(name),
            e matches Event::TaskResume { name, .. } ==> e.spec_subject() == Some(name),
            e matches Event::TaskResumeFromIsr { name, .. } ==> e.spec_subject() == Some(name),
            e matches Event::TaskPrioritySet { name, .. } ==> e.spec_subject() == Some(name),
            e matches Event::TaskPriorityInherit { name, .. } ==> e.spec_subject() == Some(name),
            e matches Event::TaskPriorityDisinherit { name, .. } ==> e.spec_subject() == Some(name),
            e matches Event::MovedTaskToReadyState { name, .. } ==> e.spec_subject() == Some(name),
            e matches Event::MovedTaskToDelayedList { name, .. } ==> e.spec_subject() == Some(name),
            e matches Event::MovedTaskToOverflowDelayedList { name, .. } ==> e.spec_subject() == Some(name),
            e matches Event::TaskNotify { name, .. } ==> e.spec_subject() == Some(name),
            e matches Event::TaskNotifyWait { name, .. } ==> e.spec_subject() == Some(name),
            e matches Event::TaskNotifyWaitBlock { name, .. } ==> e.spec_subject() == Some(name),
            e matches Event::TaskNotifyTake { name, .. } ==> e.spec_subject() == Some(name),
            e matches Event::TaskNotifyTakeBlock { name, .. } ==> e.spec_subject() == Some(name),
            e matches Event::QueueCreate { name, .. } ==> e.spec_subject() == Some(name),
            e matches Event::QueueSend { name, .. } ==> e.spec_subject() == Some(name),
            e matches Event::QueueSendFailed { name, .. } ==> e.spec_subject() == Some(name),
            e matches Event::QueueSendFromIsr { name, .. } ==> e.spec_subject() == Some(name),
            e matches Event::QueueReceive { name, .. } ==> e.spec_subject() == Some(name),
            e matches Event::QueueReceiveFailed { name, .. } ==> e.spec_subject() == Some(name),
            e matches Event::QueueReceiveFromIsr { name, .. } ==> e.spec_subject() == Some(name),
            e matches Event::QueuePeek { name, .. } ==> e.spec_subject() == Some(name),
            e matches Event::BlockingOnQueueSend { name, .. } ==> e.spec_subject() == Some(name),
            e matches Event::BlockingOnQueueReceive { name, .. } ==> e.spec_subject() == Some(name),
            e matches Event::BlockingOnQueuePeek { name, .. } ==> e.spec_subject() == Some(name),
            e matches Event::TimerCreate { name, .. } ==> e.spec_subject() == Some(name),
            e matches Event::TimerCommandSend { name, .. } ==> e.spec_subject() == Some(name),
            e matches Event::TimerExpired { name, .. } ==> e.spec_subject() == Some(name),
            e is StartingScheduler ==> e.spec_subject() is None,
            e is TaskCreateFailed ==> e.spec_subject() is None,
            e is TaskIncrementTick ==> e.spec_subject() is None,
            e is EventGroupCreate ==> e.spec_subject() is None,
            e is EventGroupSetBits ==> e.spec_subject() is None,
            e is EventGroupWaitBitsBlock ==> e.spec_subject() is None,
            e is EventGroupWaitBitsEnd ==> e.spec_subject() is None,
            e is StreamBufferCreate ==> e.spec_subject() is None,
            e is StreamBufferSend ==> e.spec_subject() is None,
            e is StreamBufferReceive ==> e.spec_subject() is None,
            e is LowPowerIdleBegin ==> e.spec_subject() is None,
            e is LowPowerIdleEnd ==> e.spec_subject() is None,
    {
    }

    /// The C macro's suffix: the second field of a trace line.
    pub fn name(&self) -> (r: &'static str)
        ensures
            r == self.spec_name(),
    {
        match self {
            Event::StartingScheduler => "STARTING_SCHEDULER",
            Event::TaskCreate { .. } => "TASK_CREATE",
            Event::TaskCreateFailed => "TASK_CREATE_FAILED",
            Event::TaskDelete { .. } => "TASK_DELETE",
            Event::TaskSwitchedIn { .. } => "TASK_SWITCHED_IN",
            Event::TaskSwitchedOut { .. } => "TASK_SWITCHED_OUT",
            Event::TaskDelay { .. } => "TASK_DELAY",
            Event::TaskDelayUntil { .. } => "TASK_DELAY_UNTIL",
            Event::TaskSuspend { .. } => "TASK_SUSPEND",
            Event::TaskResume { .. } => "TASK_RESUME",
            Event::TaskResumeFromIsr { .. } => "TASK_RESUME_FROM_ISR",
            Event::TaskPrioritySet { .. } => "TASK_PRIORITY_SET",
            Event::TaskPriorityInherit { .. } => "TASK_PRIORITY_INHERIT",
            Event::TaskPriorityDisinherit { .. } => "TASK_PRIORITY_DISINHERIT",
            Event::TaskIncrementTick { .. } => "TASK_INCREMENT_TICK",
            Event::MovedTaskToReadyState { .. } => "MOVED_TASK_TO_READY_STATE",
            Event::MovedTaskToDelayedList { .. } => "MOVED_TASK_TO_DELAYED_LIST",
            Event::MovedTaskToOverflowDelayedList { .. } => "MOVED_TASK_TO_OVERFLOW_DELAYED_LIST",
            Event::TaskNotify { .. } => "TASK_NOTIFY",
            Event::TaskNotifyWait { .. } => "TASK_NOTIFY_WAIT",
            Event::TaskNotifyWaitBlock { .. } => "TASK_NOTIFY_WAIT_BLOCK",
            Event::TaskNotifyTake { .. } => "TASK_NOTIFY_TAKE",
            Event::TaskNotifyTakeBlock { .. } => "TASK_NOTIFY_TAKE_BLOCK",
            Event::QueueCreate { .. } => "QUEUE_CREATE",
            Event::QueueSend { .. } => "QUEUE_SEND",
            Event::QueueSendFailed { .. } => "QUEUE_SEND_FAILED",
            Event::QueueSendFromIsr { .. } => "QUEUE_SEND_FROM_ISR",
            Event::QueueReceive { .. } => "QUEUE_RECEIVE",
            Event::QueueReceiveFailed { .. } => "QUEUE_RECEIVE_FAILED",
            Event::QueueReceiveFromIsr { .. } => "QUEUE_RECEIVE_FROM_ISR",
            Event::QueuePeek { .. } => "QUEUE_PEEK",
            Event::BlockingOnQueueSend { .. } => "BLOCKING_ON_QUEUE_SEND",
            Event::BlockingOnQueueReceive { .. } => "BLOCKING_ON_QUEUE_RECEIVE",
            Event::BlockingOnQueuePeek { .. } => "BLOCKING_ON_QUEUE_PEEK",
            Event::TimerCreate { .. } => "TIMER_CREATE",
            Event::TimerCommandSend { .. } => "TIMER_COMMAND_SEND",
            Event::TimerExpired { .. } => "TIMER_EXPIRED",
            Event::EventGroupCreate { .. } => "EVENT_GROUP_CREATE",
            Event::EventGroupSetBits { .. } => "EVENT_GROUP_SET_BITS",
            Event::EventGroupWaitBitsBlock { .. } => "EVENT_GROUP_WAIT_BITS_BLOCK",
            Event::EventGroupWaitBitsEnd { .. } => "EVENT_GROUP_WAIT_BITS_END",
            Event::StreamBufferCreate { .. } => "STREAM_BUFFER_CREATE",
            Event::StreamBufferSend { .. } => "STREAM_BUFFER_SEND",
            Event::StreamBufferReceive { .. } => "STREAM_BUFFER_RECEIVE",
            Event::LowPowerIdleBegin => "LOW_POWER_IDLE_BEGIN",
            Event::LowPowerIdleEnd => "LOW_POWER_IDLE_END",
        }
    }

    /// The name the C side prints in the third field, when the event has one.
    pub fn subject(&self) -> (r: Option<&'a str>)
        ensures
            r == self.spec_subject(),
    {
        match *self {
            Event::TaskCreate { name, .. } => Some(name),
            Event::TaskDelete { name, .. } => Some(name),
            Event::TaskSwitchedIn { name, .. } => Some(name),
            Event::TaskSwitchedOut { name, .. } => Some(name),
            Event::TaskDelay { name, .. } => Some(name),
            Event::TaskDelayUntil { name, .. } => Some(name),
            Event::TaskSuspend { name, .. } => Some(name),
            Event::TaskResume { name, .. } => Some(name),
            Event::TaskResumeFromIsr { name, .. } => Some(name),
            Event::TaskPrioritySet { name, .. } => Some(name),
            Event::TaskPriorityInherit { name, .. } => Some(name),
            Event::TaskPriorityDisinherit { name, .. } => Some(name),
            Event::MovedTaskToReadyState { name, .. } => Some(name),
            Event::MovedTaskToDelayedList { name, .. } => Some(name),
            Event::MovedTaskToOverflowDelayedList { name, .. } => Some(name),
            Event::TaskNotify { name, .. } => Some(name),
            Event::TaskNotifyWait { name, .. } => Some(name),
            Event::TaskNotifyWaitBlock { name, .. } => Some(name),
            Event::TaskNotifyTake { name, .. } => Some(name),
            Event::TaskNotifyTakeBlock { name, .. } => Some(name),
            Event::QueueCreate { name, .. } => Some(name),
            Event::QueueSend { name, .. } => Some(name),
            Event::QueueSendFailed { name, .. } => Some(name),
            Event::QueueSendFromIsr { name, .. } => Some(name),
            Event::QueueReceive { name, .. } => Some(name),
            Event::QueueReceiveFailed { name, .. } => Some(name),
            Event::QueueReceiveFromIsr { name, .. } => Some(name),
            Event::QueuePeek { name, .. } => Some(name),
            Event::BlockingOnQueueSend { name, .. } => Some(name),
            Event::BlockingOnQueueReceive { name, .. } => Some(name),
            Event::BlockingOnQueuePeek { name, .. } => Some(name),
            Event::TimerCreate { name, .. } => Some(name),
            Event::TimerCommandSend { name, .. } => Some(name),
            Event::TimerExpired { name, .. } => Some(name),
            _ => None,
        }
    }
}
/// Whether a tickless sleep may change this event: the tick heartbeat and
/// the low-power idle markers, and nothing else.
pub open spec fn spec_is_suppressible(event: Event<'_>) -> bool {
    ||| event is TaskIncrementTick
    ||| event is LowPowerIdleBegin
    ||| event is LowPowerIdleEnd
}

/// The events a tickless sleep is allowed to change.
///
/// Suppressing ticks does not change when a task runs: the port winds the
/// tick count forward over the sleep. What it changes is that the per-tick
/// heartbeat stops firing while nothing is due, and that the idle path
/// announces the sleep it took. Those three events, and only those three, are
/// what [`Scheduling`] drops.
pub fn is_suppressible(event: &Event<'_>) -> (r: bool)
    ensures
        r == spec_is_suppressible(*event),
{
    match event {
        Event::TaskIncrementTick { .. } => true,
        Event::LowPowerIdleBegin => true,
        Event::LowPowerIdleEnd => true,
        _ => false,
    }
}

/// Exactly three kinds of event are suppressible: the tick heartbeat and the
/// two low-power idle markers. Every other event, in particular every event the
/// kernel emits for a scheduling, blocking or communication decision, is kept.
pub proof fn lemma_only_the_heartbeat_and_idle_markers_are_suppressible(e: Event<'_>)
    ensures
        spec_is_suppressible(e) <==> (e is TaskIncrementTick || e is LowPowerIdleBegin
            || e is LowPowerIdleEnd),
        !(e is TaskIncrementTick || e is LowPowerIdleBegin || e is LowPowerIdleEnd)
            ==> !spec_is_suppressible(e),
{
}

/// What the projection does with one event: a suppressible one leaves the
/// wrapped sink as it was, and any other one (a scheduling decision) reaches
/// the wrapped sink, which takes it as it would have unprojected.
pub proof fn lemma_projection_passes_every_decision<T: Trace>(
    s: Scheduling<T>,
    after: Scheduling<T>,
    tick: u64,
    e: Event<'_>,
)
    ensures
        (e is TaskIncrementTick || e is LowPowerIdleBegin || e is LowPowerIdleEnd) ==> (s.takes(
            &after,
            tick,
            e,
        ) <==> after.spec_inner() == s.spec_inner()),
        !(e is TaskIncrementTick || e is LowPowerIdleBegin || e is LowPowerIdleEnd) ==> (s.takes(
            &after,
            tick,
            e,
        ) <==> s.spec_inner().takes(&after.spec_inner(), tick, e)),
{
}

/// A trace sink. The kernel calls [`Trace::event`] at every decision the C
/// kernel traces; the sink decides what to do with it.
pub trait Trace: Sized {
    /// What taking `event` at `tick` does to the sink: `after` is a state the
    /// sink may be in once it has taken the event in state `self`.
    spec fn takes(&self, after: &Self, tick: u64, event: Event<'_>) -> bool;

    /// What noting the exit count `exits` does to the sink: `after` is a state
    /// the sink may be in once it has noted the count in state `self`. A sink
    /// that does not care leaves itself as it was.
    spec fn notes(&self, after: &Self, exits: u64) -> bool;

    /// The port's outermost critical-section exit count, as it stands at the
    /// moment of the next [`Trace::event`]. A sink that does not care ignores it.
    fn note_exits(&mut self, exits: u64)
        ensures
            old(self).notes(&*final(self), exits),
    ;

    /// Whether this sink reads the `name` an event carries, so that a kernel
    /// can skip building one for a sink that never looks.
    const WANTS_NAMES: bool = true;

    /// An event, at the kernel's current tick count.
    fn event(&mut self, tick: u64, event: Event<'_>)
        ensures
            old(self).takes(&*final(self), tick, event),
    ;
}

/// The no-op sink: every event is dropped.
#[derive(Debug, Clone, Copy, PartialEq, Eq, Hash, Default)]
pub struct NoTrace;

impl Trace for NoTrace {
    open spec fn takes(&self, after: &Self, tick: u64, event: Event<'_>) -> bool {
        *after == *self
    }

    /// The count is ignored.
    open spec fn notes(&self, after: &Self, exits: u64) -> bool {
        *after == *self
    }

    const WANTS_NAMES: bool = false;

    fn note_exits(&mut self, exits: u64) {
    }

    fn event(&mut self, tick: u64, event: Event<'_>) {
    }
}

/// A [`Trace`] that passes on only the events a schedule is made of.
///
/// Turning tickless idle on changes a trace, so a raw diff against the C
/// kernel's cannot survive it. It does not change the schedule: a task still
/// runs at the tick it would have run at. This projection drops exactly the
/// suppressible events ([`is_suppressible`]) and hands every other event, with
/// its tick stamp, to the wrapped sink untouched.
#[derive(Debug, Clone, Copy, PartialEq, Eq, Hash, Default)]
pub struct Scheduling<T: Trace> {
    inner: T,
}

impl<T: Trace> Scheduling<T> {
    /// The wrapped sink.
    pub closed spec fn spec_inner(&self) -> T {
        self.inner
    }

    /// Project onto `inner`.
    pub fn new(inner: T) -> (r: Self)
        ensures
            r.spec_inner() == inner,
    {
        Scheduling { inner }
    }

    /// The sink back out, to read whatever it collected.
    pub fn into_inner(self) -> (r: T)
        ensures
            r == self.spec_inner(),
    {
        self.inner
    }

    /// The sink, borrowed.
    pub fn inner(&self) -> (r: &T)
        ensures
            *r == self.spec_inner(),
    {
        &self.inner
    }
}

impl<T: Trace> Trace for Scheduling<T> {
    /// A suppressible event leaves the projection as it was; any other event
    /// is taken by the wrapped sink.
    open spec fn takes(&self, after: &Self, tick: u64, event: Event<'_>) -> bool {
        if spec_is_suppressible(event) {
            after.spec_inner() == self.spec_inner()
        } else {
            self.spec_inner().takes(&after.spec_inner(), tick, event)
        }
    }

    /// The count goes to the wrapped sink, which notes it as it does.
    open spec fn notes(&self, after: &Self, exits: u64) -> bool {
        self.spec_inner().notes(&after.spec_inner(), exits)
    }

    const WANTS_NAMES: bool = T::WANTS_NAMES;

    fn note_exits(&mut self, exits: u64) {
        self.inner.note_exits(exits);
    }

    fn event(&mut self, tick: u64, event: Event<'_>) {
        if !is_suppressible(&event) {
            self.inner.event(tick, event);
        }
    }
}

/// A sink that counts events, for tests and for the work-count parity rule
/// ("compare a count before a duration").
#[derive(Debug, Clone, Copy, PartialEq, Eq, Hash)]
pub struct CountTrace {
    /// Events seen.
    pub events: u64,
    /// `TASK_SWITCHED_IN` events seen: the context-switch count.
    pub switches: u64,
    /// `TASK_INCREMENT_TICK` events seen.
    pub ticks: u64,
}

impl Default for CountTrace {
    /// A sink that has counted nothing yet.
    fn default() -> (c: Self)
        ensures
            c.events == 0,
            c.switches == 0,
            c.ticks == 0,
    {
        CountTrace { events: 0, switches: 0, ticks: 0 }
    }
}

/// `n + 1`, saturating at `u64::MAX`.
pub open spec fn bump(n: u64) -> u64 {
    if n < u64::MAX {
        (n + 1) as u64
    } else {
        n
    }
}

impl Trace for CountTrace {
    /// Every event bumps `events`; a switch-in also bumps `switches` and a
    /// tick also bumps `ticks`. The counts saturate.
    open spec fn takes(&self, after: &Self, tick: u64, event: Event<'_>) -> bool {
        &&& after.events == bump(self.events)
        &&& after.switches == if event is TaskSwitchedIn {
            bump(self.switches)
        } else {
            self.switches
        }
        &&& after.ticks == if event is TaskIncrementTick {
            bump(self.ticks)
        } else {
            self.ticks
        }
    }

    /// The count is ignored.
    open spec fn notes(&self, after: &Self, exits: u64) -> bool {
        *after == *self
    }

    const WANTS_NAMES: bool = false;

    fn note_exits(&mut self, exits: u64) {
    }

    fn event(&mut self, tick: u64, event: Event<'_>) {
        self.events = self.events.saturating_add(1);
        match event {
            Event::TaskSwitchedIn { .. } => self.switches = self.switches.saturating_add(1),
            Event::TaskIncrementTick { .. } => self.ticks = self.ticks.saturating_add(1),
            _ => {},
        }
    }
}

/// Whether a sink that starts in `start` and takes `events` in order can end in `end`.
pub open spec fn runs_to<'a, T: Trace>(start: T, events: Seq<(u64, Event<'a>)>, end: T) -> bool
    decreases events.len(),
{
    if events.len() == 0 {
        end == start
    } else {
        exists|mid: T|
            runs_to(start, events.drop_last(), mid) && #[trigger] mid.takes(
                &end,
                events.last().0,
                events.last().1,
            )
    }
}

/// The schedule a trace is made of: the trace without its suppressible events.
pub open spec fn schedule_of<'a>(events: Seq<(u64, Event<'a>)>) -> Seq<(u64, Event<'a>)> {
    events.filter(|e: (u64, Event<'a>)| !spec_is_suppressible(e.1))
}

/// The projection is invariant under tick suppression: a [`Scheduling`]
/// projection that takes a whole trace ends exactly where it would have ended
/// taking only the trace's schedule, whatever sink it wraps. A run that slept
/// through its ticks and one that did not project to the same thing.
pub proof fn lemma_projection_ignores_suppressible<'a, T: Trace>(
    start: Scheduling<T>,
    events: Seq<(u64, Event<'a>)>,
    end: Scheduling<T>,
)
    ensures
        runs_to(start, events, end) <==> runs_to(start, schedule_of(events), end),
    decreases events.len(),
{
    broadcast use vstd::seq::Seq::lemma_filter_push;

    if events.len() > 0 {
        let rest = events.drop_last();
        let last = events.last();
        assert(events =~= rest.push(last));
        assert(schedule_of(events) == if spec_is_suppressible(last.1) {
            schedule_of(rest)
        } else {
            schedule_of(rest).push(last)
        });
        if spec_is_suppressible(last.1) {
            if runs_to(start, events, end) {
                let mid = choose|mid: Scheduling<T>|
                    runs_to(start, rest, mid) && #[trigger] mid.takes(&end, last.0, last.1);
                assert(mid == end);
                lemma_projection_ignores_suppressible(start, rest, end);
            }
            if runs_to(start, schedule_of(events), end) {
                lemma_projection_ignores_suppressible(start, rest, end);
                assert(end.takes(&end, last.0, last.1));
            }
        } else {
            let f = schedule_of(events);
            assert(f.drop_last() =~= schedule_of(rest));
            assert(f.last() == last);
            if runs_to(start, events, end) {
                let mid = choose|mid: Scheduling<T>|
                    runs_to(start, rest, mid) && #[trigger] mid.takes(&end, last.0, last.1);
                lemma_projection_ignores_suppressible(start, rest, mid);
            }
            if runs_to(start, f, end) {
                let mid = choose|mid: Scheduling<T>|
                    runs_to(start, f.drop_last(), mid) && #[trigger] mid.takes(
                        &end,
                        f.last().0,
                        f.last().1,
                    );
                lemma_projection_ignores_suppressible(start, rest, mid);
            }
        }
    } else {
        assert(schedule_of(events) =~= events);
    }
}

} // verus!
