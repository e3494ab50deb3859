//! The end of a pull: what it measured, the metric facts it leaves behind,
//! and the summary with which its job completes.

use vstd::prelude::*;
use crate::db::job::text_of;
use crate::db::metrics::{insert_metric, insert_metric_labeled};
use crate::db::model::{complete_step, job_index, metric_step, StoreView};
use crate::db::ops::complete_job;
use crate::db::store::{JobStore, StoreError};
use crate::number::{decimal_text, push_decimal};
use crate::routes::pull::{bytes_of, cache_hit_of, PullPlan, PullProgress};
use crate::text::string_of;

verus! {

/// What a pull measured, in whole numbers.
#[derive(Clone, Debug, PartialEq, Eq)]
pub struct PullMeasure {
    pub bytes_downloaded: u64,
    pub reported_size_bytes: i64,
    pub image_size_bytes: u64,
    pub layer_count: usize,
    pub cache_hit: bool,
    pub digest: Option<String>,
}

/// What a pull measured, as the values that go into the metric facts: each
/// is the bit pattern of a double-precision number. The size of the image
/// in megabytes comes as text, with one decimal place.
#[derive(Clone, Debug, PartialEq, Eq)]
pub struct PullReadings {
    pub download_time_ms: u64,
    pub image_size_bytes: u64,
    pub bytes_downloaded_total: u64,
    pub image_size_reported_bytes: u64,
    pub download_ttfb_ms: u64,
    pub average_speed_mbps: u64,
    pub layers_observed: u64,
    pub size_megabytes: String,
}

/// The bit pattern of the number one.
pub const ONE_BITS: u64 = 0x3ff0_0000_0000_0000;

/// The bit pattern of the number zero.
pub const ZERO_BITS: u64 = 0;

/// The size that the machine reports of an image; none counts as zero.
pub open spec fn reported_size(inspected: Option<i64>) -> int {
    match inspected {
        Some(n) => n as int,
        None => 0,
    }
}

/// The size of the image: what the machine reports where that is more than
/// nothing, and the bytes transferred otherwise.
pub open spec fn image_size(inspected: Option<i64>, bytes: nat) -> nat {
    if reported_size(inspected) > 0 {
        reported_size(inspected) as nat
    } else {
        bytes
    }
}

/// The JSON object, as `serde_json` writes it, of three entries put into
/// it in this order: two texts under the keys `first_key` and
/// `second_key`, and a number under the key `third_key`.
pub uninterp spec fn json_object_text(
    first_key: Seq<char>,
    first: Seq<char>,
    second_key: Seq<char>,
    second: Seq<char>,
    third_key: Seq<char>,
    third: u64,
) -> Seq<char>;

/// `serde_json::Map::insert`, three times on a new map, and the `to_string`
/// of the `serde_json::Value::Object` made of it: the JSON object of the
/// three entries, which depends on the entries alone. That the result is
/// the crate's rendering is taken on its word, not proved here.
#[verifier::external_body]
fn json_object(
    first_key: &str,
    first: &str,
    second_key: &str,
    second: &str,
    third_key: &str,
    third: u64,
) -> (r: String)
    ensures
        r@ == json_object_text(first_key@, first@, second_key@, second@, third_key@, third),
{
    let mut map = serde_json::Map::new();
    map.insert(first_key.to_owned(), serde_json::Value::String(first.to_owned()));
    map.insert(second_key.to_owned(), serde_json::Value::String(second.to_owned()));
    map.insert(third_key.to_owned(), serde_json::Value::from(third));
    serde_json::Value::Object(map).to_string()
}

/// The labels of the fact about the layers: the JSON object of the image,
/// the registry host and the number of layers.
pub open spec fn labels_of(short_ref: Seq<char>, host: Seq<char>, layers: nat) -> Seq<char> {
    json_object_text("image"@, short_ref, "registry_host"@, host, "layer_count"@, layers as u64)
}

/// `true` or `false`, written out.
pub open spec fn bool_text(b: bool) -> Seq<char> {
    if b {
        "true"@
    } else {
        "false"@
    }
}

/// The text held by an optional text, or a dash.
pub open spec fn or_dash(o: Option<Seq<char>>) -> Seq<char> {
    match o {
        Some(s) => s,
        None => "-"@,
    }
}

/// The summary of a pull.
pub open spec fn summary_of(
    short_ref: Seq<char>,
    host: Seq<char>,
    size_megabytes: Seq<char>,
    layers: nat,
    cache_hit: bool,
    digest: Option<Seq<char>>,
) -> Seq<char> {
    "Pulled "@ + short_ref + " from "@ + host + " \u{2022} size ~"@ + size_megabytes
        + " MB \u{2022} layers "@ + decimal_text(layers) + " \u{2022} cache_hit="@ + bool_text(
        cache_hit,
    ) + " \u{2022} digest "@ + or_dash(digest)
}

/// The bit pattern that stands for a yes or a no: one or zero.
pub open spec fn flag_bits(b: bool) -> u64 {
    if b {
        ONE_BITS
    } else {
        ZERO_BITS
    }
}

/// The store after the metric facts of a pull were written, in the order in
/// which they are written.
pub open spec fn facts_step(
    s: StoreView,
    job_id: Seq<char>,
    r: PullReadings,
    cache_hit: bool,
    labels: Seq<char>,
) -> StoreView {
    let s1 = metric_step(s, job_id, "download_time_ms"@, r.download_time_ms, Some("ms"@), None);
    let s2 = metric_step(s1, job_id, "image_size_bytes"@, r.image_size_bytes, Some("bytes"@), None);
    let s3 = metric_step(
        s2,
        job_id,
        "bytes_downloaded_total"@,
        r.bytes_downloaded_total,
        Some("bytes"@),
        None,
    );
    let s4 = metric_step(
        s3,
        job_id,
        "image_size_reported_bytes"@,
        r.image_size_reported_bytes,
        Some("bytes"@),
        None,
    );
    let s5 = metric_step(s4, job_id, "download_ttfb_ms"@, r.download_ttfb_ms, Some("ms"@), None);
    let s6 = metric_step(
        s5,
        job_id,
        "average_speed_mbps"@,
        r.average_speed_mbps,
        Some("Mbps"@),
        None,
    );
    let s7 = metric_step(s6, job_id, "cache_hit"@, flag_bits(cache_hit), None, None);
    metric_step(s7, job_id, "layers_observed"@, r.layers_observed, None, Some(labels))
}

/// The store after a pull was recorded with `labels` on the fact about the
/// layers: its metric facts are written and its job has completed with the
/// summary.
pub open spec fn recorded_with(
    s: StoreView,
    job_id: Seq<char>,
    plan: PullPlan,
    m: PullMeasure,
    r: PullReadings,
    labels: Seq<char>,
) -> StoreView {
    complete_step(
        facts_step(s, job_id, r, m.cache_hit, labels),
        job_id,
        Some(
            summary_of(
                plan.short_ref@,
                plan.registry_host@,
                r.size_megabytes@,
                m.layer_count as nat,
                m.cache_hit,
                text_of(m.digest),
            ),
        ),
    )
}

/// The store after a pull was recorded: its metric facts are written, the
/// fact about the layers labelled with image, registry host and number of
/// layers, and its job has completed with the summary.
pub open spec fn recorded_step(
    s: StoreView,
    job_id: Seq<char>,
    plan: PullPlan,
    m: PullMeasure,
    r: PullReadings,
) -> StoreView {
    recorded_with(
        s,
        job_id,
        plan,
        m,
        r,
        labels_of(plan.short_ref@, plan.registry_host@, m.layer_count as nat),
    )
}

/// What the pull measured, given what was gathered from its events and the
/// size that the machine reports of the image afterwards.
pub fn measure(progress: &PullProgress, inspected_size: Option<i64>) -> (m: PullMeasure)
    ensures
        m.bytes_downloaded == bytes_of(progress@),
        m.reported_size_bytes == reported_size(inspected_size),
        m.image_size_bytes == image_size(inspected_size, bytes_of(progress@)),
        m.layer_count == progress@.layers.len(),
        m.cache_hit == cache_hit_of(progress@),
        text_of(m.digest) == progress@.digest,
{
    let bytes = progress.bytes_downloaded();
    let reported = match inspected_size {
        Some(n) => n,
        None => 0,
    };
    let size = if reported > 0 {
        reported as u64
    } else {
        bytes
    };
    PullMeasure {
        bytes_downloaded: bytes,
        reported_size_bytes: reported,
        image_size_bytes: size,
        layer_count: progress.layer_count(),
        cache_hit: progress.cache_hit(),
        digest: progress.digest(),
    }
}

/// The decimal digits of `n`.
fn decimal_string(n: u64) -> (r: String)
    ensures
        r@ == decimal_text(n as nat),
{
    let mut digits: Vec<char> = Vec::new();
    push_decimal(&mut digits, n);
    assert(digits@ =~= decimal_text(n as nat));
    string_of(&digits)
}

/// The labels of the fact about the layers: the JSON object of the image,
/// the registry host and the number of layers.
pub fn layer_labels(short_ref: &str, host: &str, layers: usize) -> (labels: String)
    ensures
        labels@ == labels_of(short_ref@, host@, layers as nat),
{
    json_object("image", short_ref, "registry_host", host, "layer_count", layers as u64)
}

/// The summary of a pull: what was pulled from where, the size of the image
/// in megabytes, the number of layers, whether the image was there already,
/// and the digest, or a dash where none was reported.
pub fn pull_summary(plan: &PullPlan, m: &PullMeasure, size_megabytes: &str) -> (summary: String)
    ensures
        summary@ == summary_of(
            plan.short_ref@,
            plan.registry_host@,
            size_megabytes@,
            m.layer_count as nat,
            m.cache_hit,
            text_of(m.digest),
        ),
{
    let count = decimal_string(m.layer_count as u64);
    let hit = if m.cache_hit {
        "true"
    } else {
        "false"
    };
    let head = "Pulled ".to_owned().concat(plan.short_ref.as_str()).concat(" from ").concat(
        plan.registry_host.as_str(),
    ).concat(" \u{2022} size ~").concat(size_megabytes).concat(" MB \u{2022} layers ").concat(
        count.as_str(),
    ).concat(" \u{2022} cache_hit=").concat(hit).concat(" \u{2022} digest ");
    match &m.digest {
        Some(d) => head.concat(d.as_str()),
        None => head.concat("-"),
    }
}

/// Records a pull that succeeded, with `labels` on the fact about the
/// layers: writes its eight metric facts and completes its job with the
/// summary, which is returned. A job that is not stored is refused and the
/// store stays as it is.
pub fn record_pull_labeled(
    store: &mut JobStore,
    job_id: &str,
    plan: &PullPlan,
    m: &PullMeasure,
    r: &PullReadings,
    labels: &str,
) -> (out: Result<String, StoreError>)
    requires
        old(store).wf(),
    ensures
        final(store).wf(),
        match out {
            Ok(summary) => {
                &&& job_index(old(store)@.jobs, job_id@) is Some
                &&& summary@ == summary_of(
                    plan.short_ref@,
                    plan.registry_host@,
                    r.size_megabytes@,
                    m.layer_count as nat,
                    m.cache_hit,
                    text_of(m.digest),
                )
                &&& final(store)@ == recorded_with(old(store)@, job_id@, *plan, *m, *r, labels@)
            },
            Err(e) => e == StoreError::UnknownJob && job_index(old(store)@.jobs, job_id@) is None
                && final(store)@ == old(store)@,
        },
{
    match insert_metric(store, job_id, "download_time_ms", r.download_time_ms, Some("ms")) {
        Err(e) => {
            return Err(e);
        },
        Ok(_) => {},
    }
    let hit = if m.cache_hit {
        ONE_BITS
    } else {
        ZERO_BITS
    };
    let _ = insert_metric(store, job_id, "image_size_bytes", r.image_size_bytes, Some("bytes"));
    let _ = insert_metric(
        store,
        job_id,
        "bytes_downloaded_total",
        r.bytes_downloaded_total,
        Some("bytes"),
    );
    let _ = insert_metric(
        store,
        job_id,
        "image_size_reported_bytes",
        r.image_size_reported_bytes,
        Some("bytes"),
    );
    let _ = insert_metric(store, job_id, "download_ttfb_ms", r.download_ttfb_ms, Some("ms"));
    let _ = insert_metric(store, job_id, "average_speed_mbps", r.average_speed_mbps, Some("Mbps"));
    let _ = insert_metric(store, job_id, "cache_hit", hit, None);
    let _ = insert_metric_labeled(
        store,
        job_id,
        "layers_observed",
        r.layers_observed,
        None,
        Some(labels),
    );
    let summary = pull_summary(plan, m, r.size_megabytes.as_str());
    complete_job(store, job_id, Some(summary.as_str()));
    Ok(summary)
}

/// Records a pull that succeeded: writes its eight metric facts, the fact
/// about the layers labelled with image, registry host and number of
/// layers, and completes its job with the summary, which is returned. A job
/// that is not stored is refused and the store stays as it is.
pub fn record_pull(
    store: &mut JobStore,
    job_id: &str,
    plan: &PullPlan,
    m: &PullMeasure,
    r: &PullReadings,
) -> (out: Result<String, StoreError>)
    requires
        old(store).wf(),
    ensures
        final(store).wf(),
        match out {
            Ok(summary) => {
                &&& job_index(old(store)@.jobs, job_id@) is Some
                &&& summary@ == summary_of(
                    plan.short_ref@,
                    plan.registry_host@,
                    r.size_megabytes@,
                    m.layer_count as nat,
                    m.cache_hit,
                    text_of(m.digest),
                )
                &&& final(store)@ == recorded_step(old(store)@, job_id@, *plan, *m, *r)
            },
            Err(e) => e == StoreError::UnknownJob && job_index(old(store)@.jobs, job_id@) is None
                && final(store)@ == old(store)@,
        },
{
    let labels = layer_labels(plan.short_ref.as_str(), plan.registry_host.as_str(), m.layer_count);
    record_pull_labeled(store, job_id, plan, m, r, labels.as_str())
}

} // verus!
