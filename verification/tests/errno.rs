use lib::errno::SysErr;

#[test]
fn test_errno_roundtrip() {
    assert_eq!(SysErr::NoEnt.errno(), -2);
    assert_eq!(SysErr::BadFd.errno(), -9);
    assert_eq!(SysErr::Intr.errno(), -4);
}

#[test]
fn test_from_code() {
    assert_eq!(SysErr::from_code(2), Some(SysErr::NoEnt));
    assert_eq!(SysErr::from_code(9), Some(SysErr::BadFd));
    assert_eq!(SysErr::from_code(1000), None);
}

#[test]
fn code_values_follow_linux() {
    assert_eq!(SysErr::Perm.code(), 1);
    assert_eq!(SysErr::Loop.code(), 40);
    assert_eq!(SysErr::NoMsg.code(), 42);
    assert_eq!(SysErr::DeadLock.code(), 58);
    assert_eq!(SysErr::HwPoison.code(), 133);
}

#[test]
fn every_code_round_trips() {
    for code in 1..=133i64 {
        match SysErr::from_code(code) {
            Some(err) => {
                assert_ne!(code, 41);
                assert_eq!(err.code(), code);
                assert_eq!(err.errno(), -code);
            }
            None => assert_eq!(code, 41),
        }
    }
}

#[test]
fn codes_outside_the_table_are_unknown() {
    assert_eq!(SysErr::from_code(0), None);
    assert_eq!(SysErr::from_code(41), None);
    assert_eq!(SysErr::from_code(134), None);
    assert_eq!(SysErr::from_code(-2), None);
}
