//! What a pull computes beside the transfer itself: the names under which
//! the image goes, the progress gathered from the events of the transfer,
//! and what is measured at its end.

use vstd::prelude::*;
use crate::routes::image::{
    build_from_image, from_image_of, parse_image_ref, registry_of, repo_of, split_repo_tag, tag_of,
};
use crate::text::{
    append_chars, chars_of, contains_chars, has_prefix, occurs_in, same_text, starts_with,
    string_of, strip_prefixes, trim_chars, trimmed, without_prefixes,
};

verus! {

/// The names under which an image goes during a pull.
#[derive(Clone, Debug, PartialEq, Eq)]
pub struct PullPlan {
    pub registry_host: String,
    pub repo: String,
    pub tag: String,
    pub short_ref: String,
    pub full_ref: String,
    pub from_image: String,
}

/// Repository and tag joined by a colon.
pub open spec fn short_ref_of(repo: Seq<char>, tag: Seq<char>) -> Seq<char> {
    repo + ":"@ + tag
}

/// Registry host and short reference joined by a slash.
pub open spec fn full_ref_of(host: Seq<char>, short_ref: Seq<char>) -> Seq<char> {
    host + "/"@ + short_ref
}

/// Plans the pull of `image`. The registry host is read off the reference;
/// repository and tag are the whole reference split at its last colon.
pub fn plan_pull(image: &str) -> (plan: PullPlan)
    ensures
        plan.registry_host@ == registry_of(image@),
        plan.repo@ == repo_of(image@),
        plan.tag@ == tag_of(image@),
        plan.short_ref@ == short_ref_of(repo_of(image@), tag_of(image@)),
        plan.full_ref@ == full_ref_of(registry_of(image@), plan.short_ref@),
        plan.from_image@ == from_image_of(registry_of(image@), repo_of(image@)),
{
    let (registry_host, _, _) = parse_image_ref(image);
    let (repo, tag) = split_repo_tag(image);
    let short_ref = repo.clone().concat(":").concat(tag.as_str());
    let full_ref = registry_host.clone().concat("/").concat(short_ref.as_str());
    let from_image = build_from_image(registry_host.as_str(), repo.as_str());
    PullPlan { registry_host, repo, tag, short_ref, full_ref, from_image }
}

/// The texts held by a list of strings.
pub open spec fn texts_of(v: Seq<String>) -> Seq<Seq<char>> {
    Seq::new(v.len(), |i: int| v[i]@)
}

/// The names under which an image found on the machine is removed: its id
/// where it has one, then its tags, then its digests.
pub open spec fn removal_names_of(
    id: Option<Seq<char>>,
    tags: Seq<Seq<char>>,
    digests: Seq<Seq<char>>,
) -> Seq<Seq<char>> {
    (match id {
        Some(name) => seq![name],
        None => Seq::empty(),
    }) + tags + digests
}

/// The names under which an image found on the machine is removed: its id
/// where it has one, then its tags, then its digests.
pub fn removal_names(id: Option<&str>, tags: &Vec<String>, digests: &Vec<String>) -> (names: Vec<
    String,
>)
    ensures
        texts_of(names@) == removal_names_of(
            crate::db::ops::slice_text(id),
            texts_of(tags@),
            texts_of(digests@),
        ),
{
    let mut names: Vec<String> = Vec::new();
    match id {
        Some(name) => {
            names.push(name.to_owned());
        },
        None => {},
    }
    let ghost head = texts_of(names@);
    let mut i: usize = 0;
    while i < tags.len()
        invariant
            i <= tags.len(),
            texts_of(names@) == head + texts_of(tags@).subrange(0, i as int),
        decreases tags.len() - i,
    {
        let ghost before = texts_of(names@);
        names.push(tags[i].clone());
        assert(texts_of(names@) =~= before.push(tags@[i as int]@));
        i = i + 1;
        assert(texts_of(names@) =~= head + texts_of(tags@).subrange(0, i as int));
    }
    assert(texts_of(tags@).subrange(0, tags.len() as int) =~= texts_of(tags@));
    let ghost middle = texts_of(names@);
    let mut j: usize = 0;
    while j < digests.len()
        invariant
            j <= digests.len(),
            texts_of(names@) == middle + texts_of(digests@).subrange(0, j as int),
        decreases digests.len() - j,
    {
        let ghost before = texts_of(names@);
        names.push(digests[j].clone());
        assert(texts_of(names@) =~= before.push(digests@[j as int]@));
        j = j + 1;
        assert(texts_of(names@) =~= middle + texts_of(digests@).subrange(0, j as int));
    }
    assert(texts_of(digests@).subrange(0, digests.len() as int) =~= texts_of(digests@));
    assert(head =~= match crate::db::ops::slice_text(id) {
        Some(name) => seq![name],
        None => Seq::empty(),
    });
    names
}

// -------------------------------------------------------------- progress

/// How far the transfer of one layer is known to have come.
#[derive(Clone, Debug, PartialEq, Eq)]
pub struct LayerProgress {
    pub id: String,
    pub current: u64,
    pub total: u64,
}

/// The mathematical content of a [`LayerProgress`].
pub struct LayerView {
    pub id: Seq<char>,
    pub current: nat,
    pub total: nat,
}

impl View for LayerProgress {
    type V = LayerView;

    open spec fn view(&self) -> LayerView {
        LayerView { id: self.id@, current: self.current as nat, total: self.total as nat }
    }
}

/// The byte counts that an event reports of a layer.
#[derive(Clone, Copy, Debug, PartialEq, Eq)]
pub struct ProgressDetail {
    pub current: Option<i64>,
    pub total: Option<i64>,
}

/// One event of a transfer.
#[derive(Clone, Debug, PartialEq, Eq)]
pub struct ProgressEvent {
    pub status: Option<String>,
    pub id: Option<String>,
    pub progress: Option<String>,
    pub detail: Option<ProgressDetail>,
}

/// What was gathered from the events of a transfer so far.
pub struct PullProgress {
    layers: Vec<LayerProgress>,
    logs: Vec<char>,
    digest: Option<String>,
    first_byte_seen: bool,
}

/// The mathematical content of a [`PullProgress`]: the layers in the order
/// in which they were first reported, the log, the digest last reported,
/// and whether any byte was reported.
pub struct ProgressView {
    pub layers: Seq<LayerView>,
    pub logs: Seq<char>,
    pub digest: Option<Seq<char>>,
    pub first_byte_seen: bool,
}

impl View for PullProgress {
    type V = ProgressView;

    closed spec fn view(&self) -> ProgressView {
        ProgressView {
            layers: Seq::new(self.layers@.len(), |i: int| self.layers@[i]@),
            logs: self.logs@,
            digest: crate::db::job::text_of(self.digest),
            first_byte_seen: self.first_byte_seen,
        }
    }
}

/// The words by which a transfer says that there was nothing to fetch.
pub open spec fn up_to_date_text() -> Seq<char> {
    "Image is up to date"@
}

/// The word with which a status reports the digest.
pub open spec fn digest_prefix() -> Seq<char> {
    "Digest:"@
}

/// A byte count as an event reports it: nothing and a negative number
/// count as zero.
pub open spec fn reported(n: Option<i64>) -> nat {
    match n {
        Some(v) => if v > 0 {
            v as nat
        } else {
            0
        },
        None => 0,
    }
}

/// The digest that `status` reports, if it reports one: what follows the
/// word `Digest:`, without the white space around it.
pub open spec fn digest_in(status: Seq<char>) -> Option<Seq<char>> {
    if has_prefix(status, digest_prefix()) {
        Some(trimmed(without_prefixes(status, digest_prefix())))
    } else {
        None
    }
}

/// The line that an event with a status adds to the log: the status, the
/// id in square brackets, the progress behind a dash, and a line break.
pub open spec fn log_line(
    status: Seq<char>,
    id: Option<Seq<char>>,
    progress: Option<Seq<char>>,
) -> Seq<char> {
    status + (match id {
        Some(name) => " ["@ + name + seq![']'],
        None => Seq::empty(),
    }) + (match progress {
        Some(text) => " - "@ + text,
        None => Seq::empty(),
    }) + seq!['\n']
}

/// Position of the first layer at or after `from` whose id is `id`.
pub open spec fn layer_index_from(layers: Seq<LayerView>, id: Seq<char>, from: int) -> Option<int>
    decreases layers.len() - from,
{
    if from < 0 || from >= layers.len() {
        None
    } else if layers[from].id == id {
        Some(from)
    } else {
        layer_index_from(layers, id, from + 1)
    }
}

/// Position of the layer whose id is `id`, if it was reported.
pub open spec fn layer_index(layers: Seq<LayerView>, id: Seq<char>) -> Option<int> {
    layer_index_from(layers, id, 0)
}

/// The larger of two counts.
pub open spec fn larger(a: nat, b: nat) -> nat {
    if a >= b {
        a
    } else {
        b
    }
}

/// The layers after a report of `current` of `total` bytes for the layer
/// `id`: a layer never goes back, and a layer not seen before is added.
pub open spec fn layers_step(
    layers: Seq<LayerView>,
    id: Seq<char>,
    current: nat,
    total: nat,
) -> Seq<LayerView> {
    match layer_index(layers, id) {
        Some(i) => layers.update(
            i,
            LayerView {
                id,
                current: larger(layers[i].current, current),
                total: larger(layers[i].total, total),
            },
        ),
        None => layers.push(LayerView { id, current, total }),
    }
}

/// The text held by an optional string.
pub open spec fn opt_text(o: Option<String>) -> Option<Seq<char>> {
    crate::db::job::text_of(o)
}

/// What is gathered after the event `e`.
pub open spec fn observe_step(p: ProgressView, e: ProgressEvent) -> ProgressView {
    let with_status = match e.status {
        Some(status) => ProgressView {
            logs: p.logs + log_line(status@, opt_text(e.id), opt_text(e.progress)),
            digest: if digest_in(status@) is Some {
                digest_in(status@)
            } else {
                p.digest
            },
            ..p
        },
        None => p,
    };
    if e.id is Some && e.detail is Some {
        let current = reported(e.detail->0.current);
        let total = reported(e.detail->0.total);
        ProgressView {
            layers: layers_step(with_status.layers, e.id->0@, current, total),
            first_byte_seen: p.first_byte_seen || current > 0,
            ..with_status
        }
    } else {
        with_status
    }
}

/// Whether the event `e` is the first to report a byte.
pub open spec fn is_first_byte(p: ProgressView, e: ProgressEvent) -> bool {
    !p.first_byte_seen && e.id is Some && e.detail is Some && reported(e.detail->0.current) > 0
}

/// The sum of the bytes that the first `n` layers have come to.
pub open spec fn current_sum(layers: Seq<LayerView>, n: int) -> nat
    decreases n,
{
    if n <= 0 || n > layers.len() {
        0
    } else {
        current_sum(layers, n - 1) + layers[n - 1].current
    }
}

/// The sum of the bytes that the first `n` layers are to come to.
pub open spec fn total_sum(layers: Seq<LayerView>, n: int) -> nat
    decreases n,
{
    if n <= 0 || n > layers.len() {
        0
    } else {
        total_sum(layers, n - 1) + layers[n - 1].total
    }
}

/// A sum kept within what a byte count can hold.
pub open spec fn capped(n: nat) -> nat {
    if n > u64::MAX {
        u64::MAX as nat
    } else {
        n
    }
}

/// The bytes transferred: the sum of what the layers are to come to, or,
/// where that is unknown, of what they have come to.
pub open spec fn bytes_of(p: ProgressView) -> nat {
    let total = capped(total_sum(p.layers, p.layers.len() as int));
    if total > 0 {
        total
    } else {
        capped(current_sum(p.layers, p.layers.len() as int))
    }
}

/// Whether the image was there already: the transfer said so, or no byte
/// was transferred.
pub open spec fn cache_hit_of(p: ProgressView) -> bool {
    occurs_in(p.logs, up_to_date_text()) || bytes_of(p) == 0
}

/// What holds of everything gathered: no layer is counted twice.
pub open spec fn progress_wf(p: ProgressView) -> bool {
    forall|i: int, j: int|
        0 <= i < j < p.layers.len() ==> (#[trigger] p.layers[i]).id != (#[trigger] p.layers[j]).id
}

/// Where `layer_index_from` finds a layer, the layer has the id and no
/// layer between `from` and it has; where it finds none, none from `from`
/// on has.
pub proof fn lemma_layer_index_from(layers: Seq<LayerView>, id: Seq<char>, from: int)
    requires
        0 <= from <= layers.len(),
    ensures
        match layer_index_from(layers, id, from) {
            Some(i) => from <= i < layers.len() && layers[i].id == id && forall|k: int|
                from <= k < i ==> (#[trigger] layers[k]).id != id,
            None => forall|k: int| from <= k < layers.len() ==> (#[trigger] layers[k]).id != id,
        },
    decreases layers.len() - from,
{
    if from < layers.len() && layers[from].id != id {
        lemma_layer_index_from(layers, id, from + 1);
    }
}

/// No event makes a layer be counted twice.
pub proof fn law_observe_keeps_layers_apart(p: ProgressView, e: ProgressEvent)
    requires
        progress_wf(p),
    ensures
        progress_wf(observe_step(p, e)),
{
    if e.id is Some && e.detail is Some {
        let id = e.id->0@;
        let t = observe_step(p, e);
        lemma_layer_index_from(p.layers, id, 0);
        assert forall|i: int, j: int| 0 <= i < j < t.layers.len() implies (
        #[trigger] t.layers[i]).id != (#[trigger] t.layers[j]).id by {
            if j < p.layers.len() {
                assert(p.layers[i].id != p.layers[j].id);
            } else {
                assert(p.layers[i].id != id);
            }
        }
    }
}

/// A byte count as an event reports it.
pub fn clamp_count(n: Option<i64>) -> (r: u64)
    ensures
        r == reported(n),
{
    match n {
        Some(v) => if v > 0 {
            v as u64
        } else {
            0
        },
        None => 0,
    }
}

impl PullProgress {
    /// Whether nothing gathered is counted twice; every event keeps it so.
    pub open spec fn wf(&self) -> bool {
        progress_wf(self@)
    }

    /// Nothing gathered yet.
    pub fn new() -> (p: PullProgress)
        ensures
            p.wf(),
            p@ == (ProgressView {
                layers: Seq::empty(),
                logs: Seq::empty(),
                digest: None,
                first_byte_seen: false,
            }),
    {
        let p = PullProgress {
            layers: Vec::new(),
            logs: Vec::new(),
            digest: None,
            first_byte_seen: false,
        };
        assert(p@.layers =~= Seq::<LayerView>::empty());
        p
    }

    /// Position of the layer whose id is `id`.
    fn find_layer(&self, id: &str) -> (r: Option<usize>)
        ensures
            match r {
                Some(i) => layer_index(self@.layers, id@) == Some(i as int) && i
                    < self.layers@.len(),
                None => layer_index(self@.layers, id@) is None,
            },
    {
        let mut i: usize = 0;
        while i < self.layers.len()
            invariant
                i <= self.layers.len(),
                layer_index(self@.layers, id@) == layer_index_from(self@.layers, id@, i as int),
            decreases self.layers.len() - i,
        {
            if same_text(self.layers[i].id.as_str(), id) {
                return Some(i);
            }
            i = i + 1;
        }
        None
    }

    /// Takes in one event of the transfer. An event with a status adds a
    /// line to the log, and sets the digest where the status reports one.
    /// An event with an id and byte counts moves that layer forward. Says
    /// whether the event is the first to report a byte.
    pub fn observe(&mut self, event: &ProgressEvent) -> (first_byte: bool)
        requires
            old(self).wf(),
        ensures
            final(self).wf(),
            final(self)@ == observe_step(old(self)@, *event),
            first_byte == is_first_byte(old(self)@, *event),
    {
        proof {
            law_observe_keeps_layers_apart(self@, *event);
        }
        match &event.status {
            Some(status) => {
                let chars = chars_of(status.as_str());
                let prefix = chars_of("Digest:");
                if starts_with(&chars, &prefix) {
                    let rest = strip_prefixes(&chars, &prefix);
                    let kept = trim_chars(&rest);
                    self.digest = Some(string_of(&kept));
                }
                let ghost before = self.logs@;
                append_chars(&mut self.logs, &chars);
                match &event.id {
                    Some(id) => {
                        let open = chars_of(" [");
                        append_chars(&mut self.logs, &open);
                        let name = chars_of(id.as_str());
                        append_chars(&mut self.logs, &name);
                        self.logs.push(']');
                    },
                    None => {},
                }
                match &event.progress {
                    Some(progress) => {
                        let dash = chars_of(" - ");
                        append_chars(&mut self.logs, &dash);
                        let text = chars_of(progress.as_str());
                        append_chars(&mut self.logs, &text);
                    },
                    None => {},
                }
                self.logs.push('\n');
                assert(self.logs@ =~= before + log_line(
                    status@,
                    opt_text(event.id),
                    opt_text(event.progress),
                ));
            },
            None => {},
        }
        let ghost mid = self@;
        match (&event.id, &event.detail) {
            (Some(id), Some(detail)) => {
                let current = clamp_count(detail.current);
                let total = clamp_count(detail.total);
                let first = !self.first_byte_seen && current > 0;
                if current > 0 {
                    self.first_byte_seen = true;
                }
                match self.find_layer(id.as_str()) {
                    Some(i) => {
                        let seen_current = self.layers[i].current;
                        let seen_total = self.layers[i].total;
                        let layer = LayerProgress {
                            id: id.clone(),
                            current: if seen_current >= current {
                                seen_current
                            } else {
                                current
                            },
                            total: if seen_total >= total {
                                seen_total
                            } else {
                                total
                            },
                        };
                        self.layers.set(i, layer);
                    },
                    None => {
                        self.layers.push(LayerProgress { id: id.clone(), current, total });
                    },
                }
                assert(self@.layers =~= layers_step(
                    mid.layers,
                    id@,
                    current as nat,
                    total as nat,
                ));
                first
            },
            _ => false,
        }
    }

    /// How many layers were reported.
    pub fn layer_count(&self) -> (n: usize)
        ensures
            n == self@.layers.len(),
    {
        self.layers.len()
    }

    /// The digest last reported, if any.
    pub fn digest(&self) -> (d: Option<String>)
        ensures
            opt_text(d) == self@.digest,
    {
        crate::db::job::copy_text(&self.digest)
    }

    /// The log gathered so far.
    pub fn logs(&self) -> (text: String)
        ensures
            text@ == self@.logs,
    {
        string_of(&self.logs)
    }

    /// The bytes transferred: the sum of what the layers are to come to,
    /// or, where that is unknown, of what they have come to; at most what a
    /// byte count can hold.
    pub fn bytes_downloaded(&self) -> (bytes: u64)
        ensures
            bytes == bytes_of(self@),
    {
        let mut current: u64 = 0;
        let mut total: u64 = 0;
        let mut i: usize = 0;
        while i < self.layers.len()
            invariant
                i <= self.layers.len(),
                current == capped(current_sum(self@.layers, i as int)),
                total == capped(total_sum(self@.layers, i as int)),
            decreases self.layers.len() - i,
        {
            current = current.saturating_add(self.layers[i].current);
            total = total.saturating_add(self.layers[i].total);
            i = i + 1;
        }
        if total > 0 {
            total
        } else {
            current
        }
    }

    /// Whether the image was there already: the log says that it is up to
    /// date, or no byte was transferred.
    pub fn cache_hit(&self) -> (hit: bool)
        ensures
            hit == cache_hit_of(self@),
    {
        let phrase = chars_of("Image is up to date");
        contains_chars(&self.logs, &phrase) || self.bytes_downloaded() == 0
    }
}

} // verus!
