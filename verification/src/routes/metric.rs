//! The answers to the requests about metrics: the facts of one job, and
//! the most recent facts of all.

use vstd::prelude::*;
use crate::db::job::{copy_text, text_of};
use crate::db::metrics::{fact_contents, get_metrics_by_job, list_recent_metrics};
use crate::db::model::{facts_of, recent_facts, MetricView};
use crate::db::store::{JobStore, MetricRow};
use crate::number::{parse_i64, signed_reading};

verus! {

/// The envelope of an answer about metrics.
#[derive(Debug)]
pub struct ApiResponse<T> {
    pub success: bool,
    pub data: T,
}

/// One metric fact as it is shown: the labels are there only where they
/// are well-formed JSON.
#[derive(Clone, Debug, PartialEq, Eq)]
pub struct MetricItem {
    pub job_id: String,
    pub key: String,
    pub value_bits: Option<u64>,
    pub unit: Option<String>,
    pub labels: Option<String>,
    pub created_at: i64,
}

/// The mathematical content of a [`MetricItem`].
pub struct MetricItemView {
    pub job_id: Seq<char>,
    pub key: Seq<char>,
    pub value_bits: Option<u64>,
    pub unit: Option<Seq<char>>,
    pub labels: Option<Seq<char>>,
    pub created_at: int,
}

impl View for MetricItem {
    type V = MetricItemView;

    open spec fn view(&self) -> MetricItemView {
        MetricItemView {
            job_id: self.job_id@,
            key: self.key@,
            value_bits: self.value_bits,
            unit: text_of(self.unit),
            labels: text_of(self.labels),
            created_at: self.created_at as int,
        }
    }
}

/// The number of facts shown when the request names none.
pub const DEFAULT_RECENT_LIMIT: i64 = 200;

/// Whether `serde_json` reads `text` as a JSON value.
pub uninterp spec fn json_is_valid(text: Seq<char>) -> bool;

/// `serde_json::from_str` into a `serde_json::Value`: says whether the
/// text is read as a JSON value, which depends on the text alone. That the
/// answer is the crate's is taken on its word, not proved here.
#[verifier::external_body]
fn is_json(text: &str) -> (ok: bool)
    ensures
        ok == json_is_valid(text@),
{
    serde_json::from_str::<serde_json::Value>(text).is_ok()
}

/// The labels that are shown: those stored, if they are well-formed JSON.
pub open spec fn shown_labels(labels_json: Option<Seq<char>>, valid: bool) -> Option<Seq<char>> {
    if labels_json is Some && valid {
        labels_json
    } else {
        None
    }
}

/// The fact `m` as it is shown, where `valid` says whether its labels are
/// well-formed JSON.
pub open spec fn shown_fact(m: MetricView, valid: bool) -> MetricItemView {
    MetricItemView {
        job_id: m.job_id,
        key: m.key,
        value_bits: m.value_bits,
        unit: m.unit,
        labels: shown_labels(m.labels_json, valid),
        created_at: m.created_at,
    }
}

/// The fact `m` as it is shown.
pub open spec fn item_of(m: MetricView) -> MetricItemView {
    shown_fact(m, m.labels_json is Some && json_is_valid(m.labels_json->0))
}

/// The facts `ms` as they are shown, in their order.
pub open spec fn items_of(ms: Seq<MetricView>) -> Seq<MetricItemView> {
    Seq::new(ms.len(), |i: int| item_of(ms[i]))
}

/// The contents of a list of shown facts.
pub open spec fn metric_item_contents(v: Seq<MetricItem>) -> Seq<MetricItemView> {
    Seq::new(v.len(), |i: int| v[i]@)
}

/// How many facts a request for the most recent ones gets: the number it
/// names, or the default where it names none or what it names is no
/// number.
pub open spec fn limit_of(raw: Option<&str>) -> int {
    match raw {
        Some(text) => match signed_reading(text@) {
            Some(n) => n,
            None => DEFAULT_RECENT_LIMIT as int,
        },
        None => DEFAULT_RECENT_LIMIT as int,
    }
}

/// The fact `row` as it is shown, given whether its labels are well-formed
/// JSON.
pub fn show_fact(row: &MetricRow, valid: bool) -> (item: MetricItem)
    ensures
        item@ == shown_fact(row@, valid),
{
    let labels = if valid {
        copy_text(&row.labels_json)
    } else {
        None
    };
    MetricItem {
        job_id: row.job_id.clone(),
        key: row.key.clone(),
        value_bits: row.value_bits,
        unit: copy_text(&row.unit),
        labels,
        created_at: row.created_at,
    }
}

/// The fact `row` as it is shown: its labels are there only where they are
/// well-formed JSON.
pub fn metric_item(row: &MetricRow) -> (item: MetricItem)
    ensures
        item@ == item_of(row@),
{
    let valid = match &row.labels_json {
        Some(text) => is_json(text.as_str()),
        None => false,
    };
    show_fact(row, valid)
}

/// The facts `rows` as they are shown, in their order.
fn metric_items(rows: &Vec<MetricRow>) -> (items: Vec<MetricItem>)
    ensures
        metric_item_contents(items@) == items_of(fact_contents(rows@)),
{
    let mut items: Vec<MetricItem> = Vec::new();
    let mut i: usize = 0;
    while i < rows.len()
        invariant
            i <= rows.len(),
            items.len() == i,
            forall|k: int| 0 <= k < i ==> (#[trigger] items@[k])@ == item_of(rows@[k]@),
        decreases rows.len() - i,
    {
        items.push(metric_item(&rows[i]));
        i = i + 1;
    }
    assert(metric_item_contents(items@) =~= items_of(fact_contents(rows@)));
    items
}

/// How many facts a request for the most recent ones gets.
pub fn recent_limit(raw: Option<&str>) -> (limit: i64)
    ensures
        limit == limit_of(raw),
{
    match raw {
        Some(text) => match parse_i64(text) {
            Some(n) => n,
            None => DEFAULT_RECENT_LIMIT,
        },
        None => DEFAULT_RECENT_LIMIT,
    }
}

/// The facts recorded for the job `job_id`, the most recent first.
pub fn get_job_metrics(store: &JobStore, job_id: &str) -> (answer: ApiResponse<Vec<MetricItem>>)
    ensures
        answer.success,
        metric_item_contents(answer.data@) == items_of(
            facts_of(store@.metrics, job_id@, store@.metrics.len() as int),
        ),
{
    let rows = get_metrics_by_job(store, job_id);
    ApiResponse { success: true, data: metric_items(&rows) }
}

/// The most recent facts of all jobs, the most recent first: as many as the
/// request names, two hundred where it names no number, and all of them
/// where it names a negative one.
pub fn get_recent_metrics(store: &JobStore, limit: Option<&str>) -> (answer: ApiResponse<
    Vec<MetricItem>,
>)
    ensures
        answer.success,
        metric_item_contents(answer.data@) == items_of(
            recent_facts(store@.metrics, limit_of(limit)),
        ),
{
    let rows = list_recent_metrics(store, recent_limit(limit));
    ApiResponse { success: true, data: metric_items(&rows) }
}

} // verus!
