//! Background jobs.

use filerecovery::job::{cancel, start, status, Registry};
use filerecovery::json::{Fields, Json};

#[test]
fn runs_a_job_to_completion() {
    let mut jobs = Registry::new();
    let id = start(&mut jobs, "test");
    assert_eq!(status(&jobs, id).unwrap().get("running").unwrap().as_bool(), Some(true));
    jobs.begin(id, 10);
    jobs.update(id, 10);
    let mut answer = Fields::new();
    answer.num("answer", 42);
    jobs.complete(id, Ok(answer.done()));
    let st = status(&jobs, id).unwrap();
    assert_eq!(st.get("running").unwrap().as_bool(), Some(false));
    assert_eq!(st.get("kind").unwrap().as_str(), Some("test"));
    assert_eq!(st.get("bytes_total").unwrap().as_u64(), Some(10));
    assert_eq!(
        st.get("result").unwrap().get("answer").unwrap().as_u64(),
        Some(42)
    );
}

#[test]
fn reports_errors() {
    let mut jobs = Registry::new();
    let id = start(&mut jobs, "test");
    jobs.complete(id, Err("boom".to_string()));
    let st = status(&jobs, id).unwrap();
    assert_eq!(st.get("error").unwrap().as_str(), Some("boom"));
}

#[test]
fn cancellation_is_observed() {
    let mut jobs = Registry::new();
    let id = start(&mut jobs, "test");
    assert!(!jobs.job(id).unwrap().cancelled());
    assert!(cancel(&mut jobs, id));
    let seen = jobs.job(id).unwrap().cancelled();
    let mut answer = Fields::new();
    answer.put("cancelled", Json::Bool(seen));
    jobs.complete(id, Ok(answer.done()));
    let st = status(&jobs, id).unwrap();
    assert_eq!(
        st.get("result")
            .unwrap()
            .get("cancelled")
            .unwrap()
            .as_bool(),
        Some(true)
    );
}

#[test]
fn unknown_job_is_none() {
    let mut jobs = Registry::new();
    assert!(status(&jobs, 9_999_999).is_none());
    assert!(!cancel(&mut jobs, 9_999_999));
}

#[test]
fn jobs_do_not_share_state() {
    let mut jobs = Registry::new();
    let a = start(&mut jobs, "scan");
    let b = start(&mut jobs, "image");
    assert_eq!((a, b), (1, 2));
    assert!(cancel(&mut jobs, b));
    assert_eq!(status(&jobs, a).unwrap().get("cancel_requested").unwrap().as_bool(), Some(false));
    assert_eq!(status(&jobs, b).unwrap().get("cancel_requested").unwrap().as_bool(), Some(true));
    assert_eq!(status(&jobs, b).unwrap().get("kind").unwrap().as_str(), Some("image"));
    assert!(status(&jobs, 0).is_none());
}
