use std::collections::HashMap;
use std::str::FromStr;
use zerosh::job::{JobId, JobInfo};

#[test]
fn job_number_round_trip() {
    for n in [0usize, 1, 17, usize::MAX] {
        let id = JobId::from(n);
        let back: usize = id.into();
        assert_eq!(back, n);
    }
}

#[test]
fn job_number_is_written_in_decimal() {
    assert_eq!(JobId::from(0).to_string(), "0");
    assert_eq!(JobId::from(1203).to_string(), "1203");
    assert_eq!(JobId::from(usize::MAX).to_string(), format!("{}", usize::MAX));
}

#[test]
fn job_number_is_read_from_text() {
    assert_eq!(JobId::from_str("12"), Ok(JobId::from(12)));
    assert_eq!(JobId::from_str("+12"), Ok(JobId::from(12)));
    assert_eq!("007".parse::<JobId>(), Ok(JobId::from(7)));
    let top = format!("{}", usize::MAX);
    assert_eq!(JobId::from_str(&top), Ok(JobId::from(usize::MAX)));
}

#[test]
fn text_that_is_no_job_number_is_refused() {
    for s in ["", "+", "-1", "-0", " 1", "1 ", "1.0", "x", "+-1", "0x10"] {
        assert!(JobId::from_str(s).is_err(), "{:?}", s);
    }
    let over = format!("{}0", usize::MAX);
    assert!(JobId::from_str(&over).is_err());
}

#[test]
fn job_number_text_reads_back() {
    for n in [0usize, 9, 10, 4711, usize::MAX] {
        let id = JobId::from(n);
        assert_eq!(JobId::from_str(&id.to_string()), Ok(id));
    }
}

#[test]
fn job_numbers_are_equal_by_number_and_ordered() {
    assert_eq!(JobId::from(3), JobId::from(3));
    assert_ne!(JobId::from(3), JobId::from(4));
    assert!(JobId::from(3) < JobId::from(10));
    let mut seen = HashMap::new();
    seen.insert(JobId::from(3), "three");
    assert_eq!(seen.get(&JobId::from(3)), Some(&"three"));
}

#[test]
fn job_info_is_cloned_whole() {
    let info = JobInfo { pgid: 77, command: "sleep 5".to_string() };
    let copy = info.clone();
    assert_eq!(copy.pgid, 77);
    assert_eq!(copy.command, "sleep 5");
}

#[test]
fn refused_text_gives_the_error_of_the_standard_library() {
    let over = format!("{}0", usize::MAX);
    for s in ["", "+", "-1", " 1", "%1", "1x", over.as_str(), "12", "+0"] {
        assert_eq!(JobId::from_str(s), s.parse::<usize>().map(JobId::from), "{:?}", s);
    }
    assert_ne!(JobId::from_str(""), JobId::from_str("x"));
    assert_ne!(JobId::from_str("x"), JobId::from_str(&over));
}
