use tomatxt::pomodoro::{
    is_finished, next_phase, start_break_timer, start_work_timer, tick, to_seconds, to_times,
    PomodoroState, TimerState,
};

#[test]
fn test_to_times() {
    assert_eq!(to_times(1), 60);
    assert_eq!(to_times(5), 300);
}

#[test]
fn test_tick() {
    assert_eq!(tick(10), 9);
    assert_eq!(tick(1), 0);
    assert_eq!(tick(0), 0);
}

#[test]
fn test_is_finished() {
    assert!(is_finished(0));
    assert!(!is_finished(10));
}

#[test]
fn test_next_phase() {
    assert_eq!(next_phase(true), false);
    assert_eq!(next_phase(false), true);
}

#[test]
fn to_seconds_converts_minutes() {
    assert_eq!(to_seconds(25), 1500);
    assert_eq!(to_seconds(0), 0);
}

#[test]
fn state_tick_counts_down_and_respects_pause() {
    let s = start_work_timer(3, 2);
    assert_eq!(s.remaining, 3);
    assert!(!s.is_break);
    assert!(!s.is_paused);
    let s = s.tick();
    assert_eq!(s.remaining, 2);
    let paused = s.pause();
    assert!(paused.is_paused);
    let still = paused.tick();
    assert_eq!(still.remaining, 2);
    let resumed = still.resume();
    assert!(!resumed.is_paused);
    assert_eq!(resumed.tick().remaining, 1);
}

#[test]
fn state_reset_restores_phase_duration_paused() {
    let s = start_break_timer(120, 30);
    let s = s.tick().tick();
    assert_eq!(s.remaining, 28);
    let r = s.reset();
    assert_eq!(r.remaining, 30);
    assert!(r.is_paused);
    assert!(r.is_break);
}

#[test]
fn state_next_state_switches_phase_at_zero() {
    let work = PomodoroState {
        work_duration: 10,
        break_duration: 4,
        remaining: 0,
        is_break: false,
        is_paused: false,
    };
    let after = work.next_state();
    assert!(after.is_break);
    assert_eq!(after.remaining, 4);
    let brk = PomodoroState {
        work_duration: 10,
        break_duration: 4,
        remaining: 0,
        is_break: true,
        is_paused: true,
    };
    let after = brk.next_state();
    assert!(!after.is_break);
    assert_eq!(after.remaining, 10);
    let running = PomodoroState {
        work_duration: 10,
        break_duration: 4,
        remaining: 7,
        is_break: false,
        is_paused: false,
    };
    assert_eq!(running.next_state(), running);
}

#[test]
fn new_work_duration_restarts_only_a_work_phase() {
    let work = start_work_timer(100, 50);
    let w = work.update_work_duration(200);
    assert_eq!(w.work_duration, 200);
    assert_eq!(w.remaining, 200);
    let brk = start_break_timer(100, 50).tick();
    let b = brk.update_work_duration(200);
    assert_eq!(b.work_duration, 200);
    assert_eq!(b.remaining, 49);
}

#[test]
fn new_break_duration_restarts_only_a_break_phase() {
    let brk = start_break_timer(100, 50);
    let b = brk.update_break_duration(80);
    assert_eq!(b.break_duration, 80);
    assert_eq!(b.remaining, 80);
    let work = start_work_timer(100, 50).tick();
    let w = work.update_break_duration(80);
    assert_eq!(w.break_duration, 80);
    assert_eq!(w.remaining, 99);
}

#[test]
fn timer_state_holds_a_timer() {
    let t = TimerState { timer: start_work_timer(to_seconds(25), to_seconds(5)) };
    assert_eq!(t.timer.remaining, 1500);
    assert!(t.timer.is_work_finished() == false);
    assert!(!t.timer.is_break_finished());
}
