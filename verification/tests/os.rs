use zerosh::os::{syscall, ErrorKind, SysError};

#[test]
fn interrupted_call_is_made_again() {
    let e = SysError { kind: ErrorKind::Interrupted, errno: 4 };
    assert_eq!(syscall::<i32>(Err(e)), None);
}

#[test]
fn other_outcomes_of_a_call_are_final() {
    assert_eq!(syscall(Ok(7)), Some(Ok(7)));
    let none = SysError { kind: ErrorKind::NoChild, errno: 10 };
    assert_eq!(syscall::<i32>(Err(none)), Some(Err(none)));
    let other = SysError { kind: ErrorKind::Other, errno: 9 };
    assert_eq!(syscall::<i32>(Err(other)), Some(Err(other)));
}
