use lib::process::{Action, Outcome};
use lib::task::{sys_exit, sys_get_time, sys_trace, sys_yield, TimeVal};

#[test]
fn exit_hands_over_code() {
    assert_eq!(sys_exit(-3), Action::Exit { exit_code: -3 });
}

#[test]
fn yield_returns_zero() {
    assert_eq!(sys_yield(), Outcome { ret: 0, action: Action::Yield });
}

#[test]
fn get_time_splits_microseconds() {
    assert_eq!(sys_get_time(3_500_042, 0), (0, TimeVal { sec: 3, usec: 500_042 }));
    assert_eq!(sys_get_time(999_999, 0), (0, TimeVal { sec: 0, usec: 999_999 }));
    assert_eq!(sys_get_time(0, 0), (0, TimeVal { sec: 0, usec: 0 }));
}

#[test]
fn trace_requests() {
    let counts = vec![4, 0, 17];
    assert_eq!(sys_trace(0, 0x8000, 0, &counts), Outcome { ret: 0x8000, action: Action::ReadByte { addr: 0x8000 } });
    assert_eq!(
        sys_trace(1, 0x8000, 0x1234, &counts),
        Outcome { ret: 0, action: Action::WriteByte { addr: 0x8000, value: 0x34 } }
    );
    assert_eq!(sys_trace(2, 2, 0, &counts), Outcome { ret: 17, action: Action::Nothing });
    assert_eq!(sys_trace(7, 2, 0, &counts), Outcome { ret: -1, action: Action::Nothing });
}
