use imgpuller::db::{
    claim_next_job, complete_job, fail_job, get_job_by_id, insert_job_with_id, JobStore,
};
use imgpuller::error::AppError;
use imgpuller::routes::job::{
    can_show, create_job, create_job_with_id, get_job, job_detail, list_jobs, truncate,
    truncate_checked, CreateJobRequest, JobDetail, JobListItem, RESULT_LIMIT,
};

fn request(image: &str) -> CreateJobRequest {
    CreateJobRequest { image: image.to_string() }
}

#[test]
fn short_texts_are_left_alone() {
    assert_eq!(truncate("hello", 5), "hello");
    assert_eq!(truncate("hello", 500), "hello");
    assert_eq!(truncate("", 0), "");
    assert_eq!(truncate("日本", 6), "日本");
}

#[test]
fn long_texts_are_cut_with_a_note() {
    assert_eq!(truncate("hello world", 5), "hello… (+6 chars)");
    assert_eq!(truncate("hello", 0), "… (+5 chars)");
    assert_eq!(truncate("日本語", 3), "日… (+6 chars)");
    assert_eq!(truncate("abcdefghijklmnop", 4), "abcd… (+12 chars)");
    let long = "x".repeat(1234);
    let cut = truncate(&long, 500);
    assert_eq!(cut, format!("{}… (+734 chars)", "x".repeat(500)));
}

#[test]
fn a_cut_inside_a_character_is_refused() {
    assert_eq!(truncate_checked("日本語", 3).as_deref(), Some("日… (+6 chars)"));
    assert_eq!(truncate_checked("日本語", 4), None);
    assert_eq!(truncate_checked("日本語", 5), None);
    assert_eq!(truncate_checked("日本語", 9).as_deref(), Some("日本語"));
    assert_eq!(truncate_checked("日本語", 50).as_deref(), Some("日本語"));
    assert_eq!(truncate_checked("a•b", 2), None);
    assert_eq!(truncate_checked("a•b", 1).as_deref(), Some("a… (+4 chars)"));
}

#[test]
fn image_of_a_request() {
    assert_eq!(request("  alpine:3 ").image_name(), Ok("alpine:3".to_string()));
    assert_eq!(request("alpine").image_name(), Ok("alpine".to_string()));
    assert_eq!(request("").image_name(), Err(AppError::bad_request("image is required")));
    assert_eq!(request(" \t\n").image_name(), Err(AppError::bad_request("image is required")));
}

#[test]
fn creating_a_job() {
    let mut store = JobStore::new();
    let answer = create_job_with_id(&mut store, "id-1", &request(" alpine:3 ")).unwrap();
    assert!(answer.success);
    assert_eq!(answer.message, "job created");
    assert_eq!(
        answer.data,
        JobListItem {
            id: "id-1".to_string(),
            image: "alpine:3".to_string(),
            status: "queued".to_string(),
        }
    );
    assert_eq!(get_job_by_id(&store, "id-1").unwrap().image, "alpine:3");
}

#[test]
fn creating_a_job_without_an_image_is_a_bad_request() {
    let mut store = JobStore::new();
    let e = create_job_with_id(&mut store, "id-1", &request("   ")).unwrap_err();
    assert_eq!(e, AppError::BadRequest("image is required".to_string()));
    assert_eq!(e.status_code(), 400);
    assert_eq!(store.job_count(), 0);
    let e = create_job(&mut store, &request("")).unwrap_err();
    assert_eq!(e, AppError::BadRequest("image is required".to_string()));
    assert_eq!(store.job_count(), 0);
}

#[test]
fn creating_a_job_under_a_taken_id_is_an_internal_error() {
    let mut store = JobStore::new();
    create_job_with_id(&mut store, "id-1", &request("alpine")).unwrap();
    let e = create_job_with_id(&mut store, "id-1", &request("busybox")).unwrap_err();
    assert_eq!(e.status_code(), 500);
    assert_eq!(e, AppError::Internal("a job with this id is stored already".to_string()));
    assert_eq!(store.job_count(), 1);
}

#[test]
fn creating_a_job_under_a_random_id() {
    let mut store = JobStore::new();
    let answer = create_job(&mut store, &request(" alpine ")).unwrap();
    assert!(answer.success);
    assert_eq!(answer.message, "job created");
    assert_eq!(answer.data.image, "alpine");
    assert_eq!(answer.data.status, "queued");
    assert_eq!(answer.data.id.len(), 36);
    assert_eq!(get_job_by_id(&store, &answer.data.id).unwrap().image, "alpine");
    let second = create_job(&mut store, &request("alpine")).unwrap();
    assert_ne!(second.data.id, answer.data.id);
    assert_eq!(store.job_count(), 2);
}

#[test]
fn listing_jobs() {
    let mut store = JobStore::new();
    assert!(list_jobs(&store).data.is_empty());
    store.advance_clock(1);
    insert_job_with_id(&mut store, "a", "alpine").unwrap();
    store.advance_clock(2);
    insert_job_with_id(&mut store, "b", "busybox").unwrap();
    store.advance_clock(3);
    insert_job_with_id(&mut store, "c", "curl").unwrap();
    claim_next_job(&mut store, 10).unwrap();
    claim_next_job(&mut store, 10).unwrap();
    complete_job(&mut store, "a", None);
    let answer = list_jobs(&store);
    assert!(answer.success);
    assert_eq!(answer.message, "ok");
    let shown: Vec<(&str, &str, &str)> = answer
        .data
        .iter()
        .map(|j| (j.id.as_str(), j.image.as_str(), j.status.as_str()))
        .collect();
    assert_eq!(
        shown,
        vec![("c", "curl", "queued"), ("b", "busybox", "running"), ("a", "alpine", "completed")]
    );
}

#[test]
fn showing_a_job() {
    let mut store = JobStore::new();
    store.advance_clock(3);
    insert_job_with_id(&mut store, "a", "alpine").unwrap();
    claim_next_job(&mut store, 10).unwrap();
    store.advance_clock(9);
    fail_job(&mut store, "a", "no such image");
    let answer = get_job(&store, "a").unwrap();
    assert!(answer.success);
    assert_eq!(answer.message, "ok");
    assert_eq!(
        answer.data,
        JobDetail {
            id: "a".to_string(),
            image: "alpine".to_string(),
            status: "failed".to_string(),
            result: None,
            error_detail: Some("no such image".to_string()),
            retry_count: 1,
            created_at: 3,
            finished_at: Some(9),
        }
    );
}

#[test]
fn a_missing_job_is_not_found() {
    let store = JobStore::new();
    let e = get_job(&store, "nope").unwrap_err();
    assert_eq!(e, AppError::NotFound("job not found".to_string()));
    assert_eq!(e.status_code(), 404);
}

#[test]
fn long_results_are_shortened() {
    assert_eq!(RESULT_LIMIT, 500);
    let mut store = JobStore::new();
    insert_job_with_id(&mut store, "a", "alpine").unwrap();
    let long = "r".repeat(600);
    complete_job(&mut store, "a", Some(&long));
    let job = get_job_by_id(&store, "a").unwrap();
    assert!(can_show(&job));
    let detail = job_detail(&job);
    assert_eq!(detail.result, Some(format!("{}… (+100 chars)", "r".repeat(500))));
    assert_eq!(detail.status, "completed");
    assert_eq!(get_job(&store, "a").unwrap().data, detail);
}

#[test]
fn a_result_that_cannot_be_cut_is_an_internal_error() {
    let mut store = JobStore::new();
    insert_job_with_id(&mut store, "a", "alpine").unwrap();
    let awkward = format!("{}•{}", "r".repeat(499), "r".repeat(100));
    complete_job(&mut store, "a", Some(&awkward));
    let job = get_job_by_id(&store, "a").unwrap();
    assert!(!can_show(&job));
    let e = get_job(&store, "a").unwrap_err();
    assert_eq!(e.status_code(), 500);
}
