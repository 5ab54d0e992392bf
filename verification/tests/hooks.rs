use rusty_rtos_core::handle::TaskHandle;
use rusty_rtos_core::hooks::{Hooks, NoHooks, NoTickHook, TickHook};

#[test]
fn defaults_pass_the_sleep_length_through() {
    let h = NoHooks;
    assert_eq!(h.pre_sleep(17), 17);
    assert_eq!(h.pre_suppress_ticks(17), 17);
    h.idle();
    h.tick();
    h.malloc_failed();
    h.stack_overflow(TaskHandle::null(), "x");
    h.daemon_startup();
    h.post_sleep(1);
    h.passive_idle();
}

#[test]
fn the_null_tick_hook_returns_itself_and_touches_nothing() {
    let mut kernel = 0_u32;
    let hook = NoTickHook;
    assert_eq!(TickHook::tick(hook, &mut kernel), NoTickHook);
    assert_eq!(kernel, 0);
}
