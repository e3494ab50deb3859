use imgpuller::db::{
    get_metrics_by_job, insert_job_with_id, insert_metric, insert_metric_labeled,
    list_recent_metrics, sync_clock, JobStore, StoreError,
};
use imgpuller::routes::metric::{
    get_job_metrics, get_recent_metrics, metric_item, recent_limit, DEFAULT_RECENT_LIMIT,
};

fn store_with_jobs() -> JobStore {
    let mut store = JobStore::new();
    insert_job_with_id(&mut store, "a", "alpine").unwrap();
    insert_job_with_id(&mut store, "b", "busybox").unwrap();
    store
}

#[test]
fn metric_for_unknown_job_is_refused() {
    let mut store = store_with_jobs();
    assert_eq!(
        insert_metric(&mut store, "zzz", "k", 1, None),
        Err(StoreError::UnknownJob)
    );
    assert_eq!(store.metric_count(), 0);
}

#[test]
fn writing_and_reading_metrics() {
    let mut store = store_with_jobs();
    store.advance_clock(1);
    insert_metric(&mut store, "a", "download_time_ms", 1500.0f64.to_bits(), Some("ms")).unwrap();
    store.advance_clock(2);
    insert_metric(&mut store, "b", "download_time_ms", 7.0f64.to_bits(), Some("ms")).unwrap();
    store.advance_clock(3);
    insert_metric(&mut store, "a", "cache_hit", 1.0f64.to_bits(), None).unwrap();
    let rows = get_metrics_by_job(&store, "a");
    assert_eq!(rows.len(), 2);
    assert_eq!(rows[0].key, "cache_hit");
    assert_eq!(rows[0].unit, None);
    assert_eq!(rows[0].created_at, 3);
    assert_eq!(f64::from_bits(rows[0].value_bits.unwrap()), 1.0);
    assert_eq!(rows[1].key, "download_time_ms");
    assert_eq!(rows[1].unit.as_deref(), Some("ms"));
    assert_eq!(f64::from_bits(rows[1].value_bits.unwrap()), 1500.0);
    assert_eq!(rows[1].job_id, "a");
    assert!(get_metrics_by_job(&store, "zzz").is_empty());
    assert_eq!(get_metrics_by_job(&store, "b").len(), 1);
}

#[test]
fn last_write_wins_and_keeps_unit_and_labels() {
    let mut store = store_with_jobs();
    store.advance_clock(1);
    insert_metric_labeled(&mut store, "a", "layers", 3, Some("n"), Some("{\"x\":1}")).unwrap();
    insert_metric(&mut store, "a", "other", 9, None).unwrap();
    store.advance_clock(5);
    insert_metric(&mut store, "a", "layers", 4, None).unwrap();
    assert_eq!(store.metric_count(), 2);
    let rows = get_metrics_by_job(&store, "a");
    assert_eq!(rows[0].key, "layers");
    assert_eq!(rows[0].value_bits, Some(4));
    assert_eq!(rows[0].unit.as_deref(), Some("n"));
    assert_eq!(rows[0].labels_json.as_deref(), Some("{\"x\":1}"));
    assert_eq!(rows[0].created_at, 5);
    assert_eq!(rows[1].key, "other");
    insert_metric_labeled(&mut store, "a", "layers", 5, Some("m"), Some("{}")).unwrap();
    let rows = get_metrics_by_job(&store, "a");
    assert_eq!(rows[0].unit.as_deref(), Some("m"));
    assert_eq!(rows[0].labels_json.as_deref(), Some("{}"));
    assert_eq!(store.metric_count(), 2);
}

#[test]
fn same_key_of_different_jobs_are_different_facts() {
    let mut store = store_with_jobs();
    insert_metric(&mut store, "a", "k", 1, None).unwrap();
    insert_metric(&mut store, "b", "k", 2, None).unwrap();
    assert_eq!(store.metric_count(), 2);
    assert_eq!(get_metrics_by_job(&store, "a")[0].value_bits, Some(1));
    assert_eq!(get_metrics_by_job(&store, "b")[0].value_bits, Some(2));
}

#[test]
fn recent_metrics_respect_the_limit() {
    let mut store = store_with_jobs();
    let mut n: u64 = 0;
    while n < 5 {
        store.advance_clock(n as i64);
        insert_metric(&mut store, "a", &format!("k{}", n), n, None).unwrap();
        n += 1;
    }
    let keys = |limit: i64| -> Vec<String> {
        list_recent_metrics(&store, limit).into_iter().map(|m| m.key).collect()
    };
    assert_eq!(keys(2), vec!["k4", "k3"]);
    assert_eq!(keys(0), Vec::<String>::new());
    assert_eq!(keys(5), vec!["k4", "k3", "k2", "k1", "k0"]);
    assert_eq!(keys(50), vec!["k4", "k3", "k2", "k1", "k0"]);
    assert_eq!(keys(-1), vec!["k4", "k3", "k2", "k1", "k0"]);
    assert_eq!(keys(1), vec!["k4"]);
}

#[test]
fn limit_of_a_request() {
    assert_eq!(DEFAULT_RECENT_LIMIT, 200);
    assert_eq!(recent_limit(None), 200);
    assert_eq!(recent_limit(Some("17")), 17);
    assert_eq!(recent_limit(Some("-3")), -3);
    assert_eq!(recent_limit(Some("")), 200);
    assert_eq!(recent_limit(Some("many")), 200);
    assert_eq!(recent_limit(Some("1.5")), 200);
    assert_eq!(recent_limit(Some("99999999999999999999")), 200);
}

#[test]
fn labels_are_shown_only_when_they_are_json() {
    let mut store = store_with_jobs();
    insert_metric_labeled(&mut store, "a", "good", 1, None, Some("{\"image\":\"x:1\"}")).unwrap();
    insert_metric_labeled(&mut store, "a", "bad", 2, None, Some("{not json")).unwrap();
    insert_metric_labeled(&mut store, "a", "word", 3, None, Some("labels")).unwrap();
    insert_metric(&mut store, "a", "none", 4, Some("ms")).unwrap();
    let rows = get_metrics_by_job(&store, "a");
    let items: Vec<_> = rows.iter().map(metric_item).collect();
    assert_eq!(items[0].key, "none");
    assert_eq!(items[0].labels, None);
    assert_eq!(items[0].unit.as_deref(), Some("ms"));
    assert_eq!(items[1].key, "word");
    assert_eq!(items[1].labels, None);
    assert_eq!(items[2].key, "bad");
    assert_eq!(items[2].labels, None);
    assert_eq!(items[3].key, "good");
    assert_eq!(items[3].labels.as_deref(), Some("{\"image\":\"x:1\"}"));
    assert_eq!(items[3].value_bits, Some(1));
}

#[test]
fn answers_about_metrics() {
    let mut store = store_with_jobs();
    store.advance_clock(1);
    insert_metric(&mut store, "a", "k1", 1, None).unwrap();
    store.advance_clock(2);
    insert_metric(&mut store, "b", "k2", 2, None).unwrap();
    store.advance_clock(3);
    insert_metric(&mut store, "a", "k3", 3, None).unwrap();
    let answer = get_job_metrics(&store, "a");
    assert!(answer.success);
    assert_eq!(answer.data.len(), 2);
    assert_eq!(answer.data[0].key, "k3");
    assert_eq!(answer.data[1].key, "k1");
    let answer = get_recent_metrics(&store, Some("2"));
    assert!(answer.success);
    assert_eq!(answer.data.len(), 2);
    assert_eq!(answer.data[0].key, "k3");
    assert_eq!(answer.data[1].key, "k2");
    assert_eq!(get_recent_metrics(&store, None).data.len(), 3);
    assert_eq!(get_recent_metrics(&store, Some("x")).data.len(), 3);
    assert_eq!(get_recent_metrics(&store, Some("0")).data.len(), 0);
}

#[test]
fn wall_clock_sets_the_store_clock() {
    let mut store = JobStore::new();
    let t = sync_clock(&mut store);
    assert!(t > 1_600_000_000);
    assert_eq!(store.clock(), t);
    store.advance_clock(t + 1000);
    let again = sync_clock(&mut store);
    assert!(again >= t);
    assert_eq!(store.clock(), t + 1000);
}
