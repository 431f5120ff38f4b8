//! The bookkeeping of a conversion run: which components still need work, and what
//! became of each.
use vstd::prelude::*;
use crate::checkpoint::{CompletedAssets, covers_spec};
use crate::text::str_eq;

verus! {

/// Receives the output lines of converters.
pub trait ConversionReporter {
    fn emit_output_line(&self, line: &str);
}

/// A reporter that drops every line.
pub struct NoopReporter;

impl ConversionReporter for NoopReporter {
    fn emit_output_line(&self, line: &str) {
    }
}

/// The kind of failure recorded for a component.
#[derive(Debug, Clone, Copy, PartialEq, Eq, Structural)]
pub enum ErrorCategory {
    NotFound,
    TaskPanic,
}

/// A component that failed, and how.
#[derive(Debug, Clone, PartialEq, Eq)]
pub struct FailedItem {
    pub lcsc_id: String,
    pub category: ErrorCategory,
}

/// The outcome of a run.
#[derive(Debug, Clone, PartialEq, Eq)]
pub struct RunSummary {
    pub total: usize,
    pub success: usize,
    pub failed: usize,
    pub failed_ids: Vec<String>,
    pub failed_items: Vec<FailedItem>,
    pub output_dir: String,
    pub is_batch: bool,
}

pub type CompletedEntry = (Seq<char>, CompletedAssets);

/// The assets recorded for `id`, if any (the first entry with that key).
pub open spec fn lookup(entries: Seq<CompletedEntry>, id: Seq<char>) -> Option<CompletedAssets>
    decreases entries.len(),
{
    if entries.len() == 0 {
        None
    } else if entries[0].0 == id {
        Some(entries[0].1)
    } else {
        lookup(entries.skip(1), id)
    }
}

/// `id` is already done for every asset that `required` asks for.
pub open spec fn already_done(entries: Seq<CompletedEntry>, id: Seq<char>, required: CompletedAssets) -> bool {
    match lookup(entries, id) {
        Some(a) => covers_spec(a, required),
        None => false,
    }
}

/// The components that a run still has to convert: in a batch without overwriting, those
/// that the checkpoint does not already cover; otherwise all of them.
pub open spec fn pending_ids(
    ids: Seq<Seq<char>>,
    entries: Seq<CompletedEntry>,
    is_batch: bool,
    required: CompletedAssets,
    overwrite_any: bool,
) -> Seq<Seq<char>> {
    if !is_batch || overwrite_any || entries.len() == 0 {
        ids
    } else {
        ids.filter(|id: Seq<char>| !already_done(entries, id, required))
    }
}

pub open spec fn entries_of(completed: Seq<(String, CompletedAssets)>) -> Seq<CompletedEntry> {
    completed.map_values(|e: (String, CompletedAssets)| (e.0@, e.1))
}

fn lookup_assets(completed: &[(String, CompletedAssets)], id: &str) -> (r: Option<CompletedAssets>)
    ensures
        r == lookup(entries_of(completed@), id@),
{
    let ghost es = entries_of(completed@);
    let mut k: usize = 0;
    assert(es.skip(0) =~= es);
    while k < completed.len()
        invariant
            k <= completed@.len(),
            es == entries_of(completed@),
            lookup(es, id@) == lookup(es.skip(k as int), id@),
        decreases completed@.len() - k,
    {
        assert(es.skip(k as int)[0] == (completed@[k as int].0@, completed@[k as int].1));
        if str_eq(completed[k].0.as_str(), id) {
            return Some(completed[k].1);
        }
        assert(es.skip(k as int).skip(1) =~= es.skip(k + 1));
        k = k + 1;
    }
    None
}

/// The components of `lcsc_ids` that still need converting (see `pending_ids`).
pub fn filter_pending_lcsc_ids(
    lcsc_ids: Vec<String>,
    completed: &[(String, CompletedAssets)],
    is_batch: bool,
    required: CompletedAssets,
    overwrite_any: bool,
) -> (r: Vec<String>)
    ensures
        r@.map_values(|s: String| s@) == pending_ids(
            lcsc_ids@.map_values(|s: String| s@),
            entries_of(completed@),
            is_batch,
            required,
            overwrite_any,
        ),
{
    if !is_batch || overwrite_any || completed.len() == 0 {
        return lcsc_ids;
    }
    let ghost es = entries_of(completed@);
    let ghost iv = lcsc_ids@.map_values(|s: String| s@);
    let ghost keep = |id: Seq<char>| !already_done(es, id, required);
    let mut out: Vec<String> = Vec::new();
    let mut rest = lcsc_ids;
    let ghost orig = rest@;
    let ghost mut n: int = 0;
    while rest.len() > 0
        invariant
            0 <= n <= orig.len(),
            iv == orig.map_values(|s: String| s@),
            es == entries_of(completed@),
            keep == (|id: Seq<char>| !already_done(es, id, required)),
            rest@ == orig.skip(n),
            out@.map_values(|s: String| s@) == iv.take(n).filter(keep),
        decreases rest.len(),
    {
        let id = rest.remove(0);
        assert(id == orig[n]);
        proof {
            reveal(Seq::filter);
            assert(iv.take(n + 1).drop_last() =~= iv.take(n));
            assert(iv.take(n + 1).last() == id@);
        }
        let ghost before = out@.map_values(|s: String| s@);
        let done = match lookup_assets(completed, id.as_str()) {
            Some(a) => a.covers(required),
            None => false,
        };
        if !done {
            out.push(id);
            assert(out@.map_values(|s: String| s@) =~= before.push(iv[n]));
        }
        proof {
            n = n + 1;
            assert(rest@ =~= orig.skip(n));
        }
    }
    assert(iv.take(orig.len() as int) =~= iv);
    out
}

/// What a run has recorded so far: the components that succeeded and those that failed.
pub struct RunProgress {
    successful_ids: Vec<String>,
    failed_ids: Vec<String>,
    failed_items: Vec<FailedItem>,
}

impl RunProgress {
    pub closed spec fn succeeded(&self) -> Seq<Seq<char>> {
        self.successful_ids@.map_values(|s: String| s@)
    }

    pub closed spec fn failed(&self) -> Seq<Seq<char>> {
        self.failed_ids@.map_values(|s: String| s@)
    }

    pub closed spec fn failures(&self) -> Seq<(Seq<char>, ErrorCategory)> {
        self.failed_items@.map_values(|f: FailedItem| (f.lcsc_id@, f.category))
    }

    /// The failures and their items are recorded together.
    pub closed spec fn wf(&self) -> bool {
        self.failures().map_values(|f: (Seq<char>, ErrorCategory)| f.0) == self.failed()
    }

    /// Nothing recorded yet.
    pub fn new() -> (r: Self)
        ensures
            r.wf(),
            r.succeeded().len() == 0,
            r.failed().len() == 0,
            r.failures().len() == 0,
    {
        let r = RunProgress { successful_ids: Vec::new(), failed_ids: Vec::new(), failed_items: Vec::new() };
        assert(r.failures().map_values(|f: (Seq<char>, ErrorCategory)| f.0) =~= r.failed());
        r
    }

    /// Records that `lcsc_id` was converted.
    pub fn record_success(&mut self, lcsc_id: &str)
        requires
            old(self).wf(),
        ensures
            final(self).wf(),
            final(self).succeeded() == old(self).succeeded().push(lcsc_id@),
            final(self).failed() == old(self).failed(),
            final(self).failures() == old(self).failures(),
    {
        self.successful_ids.push(lcsc_id.to_owned());
        assert(self.succeeded() =~= old(self).succeeded().push(lcsc_id@));
    }

    /// Records that `lcsc_id` failed with an error of kind `category`.
    pub fn record_failure(&mut self, lcsc_id: &str, category: ErrorCategory)
        requires
            old(self).wf(),
        ensures
            final(self).wf(),
            final(self).succeeded() == old(self).succeeded(),
            final(self).failed() == old(self).failed().push(lcsc_id@),
            final(self).failures() == old(self).failures().push((lcsc_id@, category)),
    {
        self.failed_ids.push(lcsc_id.to_owned());
        self.failed_items.push(FailedItem { lcsc_id: lcsc_id.to_owned(), category });
        assert(self.failed() =~= old(self).failed().push(lcsc_id@));
        assert(self.failures() =~= old(self).failures().push((lcsc_id@, category)));
        assert(self.failures().map_values(|f: (Seq<char>, ErrorCategory)| f.0) =~= self.failed());
    }

    /// Records a worker that died before reporting its component.
    pub fn record_task_panic(&mut self)
        requires
            old(self).wf(),
        ensures
            final(self).wf(),
            final(self).succeeded() == old(self).succeeded(),
            final(self).failed() == old(self).failed().push("<task panic>"@),
            final(self).failures() == old(self).failures().push(("<task panic>"@, ErrorCategory::TaskPanic)),
    {
        self.record_failure("<task panic>", ErrorCategory::TaskPanic);
    }

    /// The components converted so far.
    pub fn successful_ids(&self) -> (r: Vec<String>)
        ensures
            r@.map_values(|s: String| s@) == self.succeeded(),
    {
        copy_strings(&self.successful_ids)
    }

    /// How many components were converted.
    pub fn success_count(&self) -> (r: usize)
        ensures
            r == self.succeeded().len(),
    {
        self.successful_ids.len()
    }

    /// How many components failed.
    pub fn failed_count(&self) -> (r: usize)
        ensures
            r == self.failed().len(),
    {
        self.failed_ids.len()
    }

    /// The summary of a run over `total` components written to `output_dir`.
    pub fn summary(&self, total: usize, output_dir: &str, is_batch: bool) -> (r: RunSummary)
        requires
            self.wf(),
        ensures
            r.total == total,
            r.success == self.succeeded().len(),
            r.failed == self.failed().len(),
            r.failed_ids@.map_values(|s: String| s@) == self.failed(),
            r.failed_items@.map_values(|f: FailedItem| (f.lcsc_id@, f.category)) == self.failures(),
            r.output_dir@ == output_dir@,
            r.is_batch == is_batch,
    {
        let mut items: Vec<FailedItem> = Vec::new();
        let mut k: usize = 0;
        while k < self.failed_items.len()
            invariant
                k <= self.failed_items@.len(),
                items@.map_values(|f: FailedItem| (f.lcsc_id@, f.category)) == self.failures().take(k as int),
            decreases self.failed_items@.len() - k,
        {
            let f = &self.failed_items[k];
            let ghost before = items@.map_values(|f: FailedItem| (f.lcsc_id@, f.category));
            items.push(FailedItem { lcsc_id: f.lcsc_id.clone(), category: f.category });
            assert(items@.map_values(|f: FailedItem| (f.lcsc_id@, f.category)) =~= before.push(
                self.failures()[k as int],
            ));
            assert(self.failures().take(k + 1) =~= self.failures().take(k as int).push(self.failures()[k as int]));
            k = k + 1;
        }
        assert(self.failures().take(self.failed_items@.len() as int) =~= self.failures());
        RunSummary {
            total,
            success: self.successful_ids.len(),
            failed: self.failed_ids.len(),
            failed_ids: copy_strings(&self.failed_ids),
            failed_items: items,
            output_dir: output_dir.to_owned(),
            is_batch,
        }
    }
}

/// A copy of a list of strings.
pub fn copy_strings(v: &Vec<String>) -> (r: Vec<String>)
    ensures
        r@.map_values(|s: String| s@) == v@.map_values(|s: String| s@),
{
    let mut out: Vec<String> = Vec::new();
    let mut k: usize = 0;
    while k < v.len()
        invariant
            k <= v@.len(),
            out@.map_values(|s: String| s@) == v@.map_values(|s: String| s@).take(k as int),
        decreases v@.len() - k,
    {
        let ghost before = out@.map_values(|s: String| s@);
        out.push(v[k].clone());
        assert(out@.map_values(|s: String| s@) =~= before.push(v@[k as int]@));
        assert(v@.map_values(|s: String| s@).take(k + 1) =~= before.push(v@[k as int]@));
        k = k + 1;
    }
    assert(v@.map_values(|s: String| s@).take(v@.len() as int) =~= v@.map_values(|s: String| s@));
    out
}

proof fn lemma_lookup_absent(s: Seq<CompletedEntry>, k: Seq<char>)
    requires
        crate::checkpoint::entries_wf(s),
        s.len() > 0,
        crate::text::seq_lt(k, s[0].0),
    ensures
        lookup(s, k) is None,
    decreases s.len(),
{
    crate::checkpoint::lemma_seq_lt_asym(k, s[0].0);
    crate::checkpoint::lemma_seq_lt_irreflexive(k);
    if s.len() > 1 {
        let t = s.skip(1);
        assert(crate::text::seq_lt(s[0].0, s[1].0));
        crate::checkpoint::lemma_seq_lt_transitive(k, s[0].0, s[1].0);
        assert(crate::checkpoint::entries_wf(t)) by {
            assert forall|i: int, j: int| 0 <= i < j < t.len() implies crate::text::seq_lt(
                #[trigger] t[i].0,
                #[trigger] t[j].0,
            ) by {
                assert(t[i] == s[i + 1] && t[j] == s[j + 1]);
            }
            assert forall|i: int| 0 <= i < t.len() implies (#[trigger] t[i]).1 != crate::checkpoint::no_assets() by {
                assert(t[i] == s[i + 1]);
            }
        }
        assert(t[0] == s[1]);
        lemma_lookup_absent(t, k);
    }
}

proof fn lemma_wf_tail(s: Seq<CompletedEntry>)
    requires
        crate::checkpoint::entries_wf(s),
        s.len() > 0,
    ensures
        crate::checkpoint::entries_wf(s.skip(1)),
{
    let t = s.skip(1);
    assert forall|i: int, j: int| 0 <= i < j < t.len() implies crate::text::seq_lt(
        #[trigger] t[i].0,
        #[trigger] t[j].0,
    ) by {
        assert(t[i] == s[i + 1] && t[j] == s[j + 1]);
    }
    assert forall|i: int| 0 <= i < t.len() implies (#[trigger] t[i]).1 != crate::checkpoint::no_assets() by {
        assert(t[i] == s[i + 1]);
    }
}

/// Recording `k` as done for assets `a` makes `k` done for what `a` covers, and keeps
/// every other id as done as it was.
proof fn lemma_merge_done(s: Seq<CompletedEntry>, k: Seq<char>, a: CompletedAssets, x: Seq<char>, r: CompletedAssets)
    requires
        crate::checkpoint::entries_wf(s),
    ensures
        (x == k && covers_spec(a, r)) || already_done(s, x, r) ==> already_done(
            crate::checkpoint::merge_entry(s, k, a),
            x,
            r,
        ),
    decreases s.len(),
{
    let m = crate::checkpoint::merge_entry(s, k, a);
    if s.len() == 0 {
    } else if s[0].0 == k {
        assert(m.skip(1) =~= s.skip(1));
    } else if crate::text::seq_lt(k, s[0].0) {
        assert(m.skip(1) =~= s);
        if x == k {
            lemma_lookup_absent(s, k);
        }
    } else {
        lemma_wf_tail(s);
        lemma_merge_done(s.skip(1), k, a, x, r);
        assert(m.skip(1) =~= crate::checkpoint::merge_entry(s.skip(1), k, a));
    }
}

proof fn lemma_merge_all_done(s: Seq<CompletedEntry>, ids: Seq<Seq<char>>, a: CompletedAssets, r: CompletedAssets)
    requires
        crate::checkpoint::entries_wf(s),
        a != crate::checkpoint::no_assets(),
        covers_spec(a, r),
    ensures
        crate::checkpoint::entries_wf(crate::checkpoint::merge_all(s, ids, a)),
        forall|x: Seq<char>| ids.contains(x) ==> already_done(crate::checkpoint::merge_all(s, ids, a), x, r),
        ids.len() > 0 ==> crate::checkpoint::merge_all(s, ids, a).len() > 0,
    decreases ids.len(),
{
    if ids.len() > 0 {
        let prev = crate::checkpoint::merge_all(s, ids.drop_last(), a);
        lemma_merge_all_done(s, ids.drop_last(), a, r);
        crate::checkpoint::lemma_merge_wf(prev, ids.last(), a);
        assert forall|x: Seq<char>| ids.contains(x) implies already_done(
            crate::checkpoint::merge_all(s, ids, a),
            x,
            r,
        ) by {
            lemma_merge_done(prev, ids.last(), a, x, r);
            assert(crate::checkpoint::merge_all(s, ids, a) == crate::checkpoint::merge_entry(prev, ids.last(), a));
            if x != ids.last() {
                let j = choose|j: int| 0 <= j < ids.len() && ids[j] == x;
                assert(j < ids.len() - 1);
                assert(ids.drop_last()[j] == x);
                assert(ids.drop_last().contains(x));
                assert(already_done(prev, x, r));
            }
        }
        let m = crate::checkpoint::merge_all(s, ids, a);
        assert(m.len() > 0) by {
            if prev.len() > 0 {
            }
        }
    }
}

/// Law: a run that is not a batch converts every component it was asked for, whatever the
/// checkpoint holds, and so does a batch run that overwrites; a batch run without
/// overwriting converts only components it was asked for.
pub proof fn law_only_resumed_batches_skip(
    ids: Seq<Seq<char>>,
    entries: Seq<CompletedEntry>,
    required: CompletedAssets,
    overwrite_any: bool,
)
    ensures
        pending_ids(ids, entries, false, required, overwrite_any) == ids,
        pending_ids(ids, entries, true, required, true) == ids,
        forall|x: Seq<char>| #[trigger] pending_ids(ids, entries, true, required, false).contains(x) ==> ids.contains(x),
{
    let pred = |id: Seq<char>| !already_done(entries, id, required);
    if entries.len() > 0 {
        ids.filter_lemma(pred);
        let p = pending_ids(ids, entries, true, required, false);
        assert(p == ids.filter(pred));
        assert forall|x: Seq<char>| #[trigger] p.contains(x) implies ids.contains(x) by {
            ids.lemma_filter_contains_rev(pred, x);
        }
    }
}

/// An entry found by `lookup` is one of the entries.
pub proof fn lemma_lookup_found(entries: Seq<CompletedEntry>, id: Seq<char>)
    ensures
        lookup(entries, id) matches Some(b) ==> exists|j: int|
            0 <= j < entries.len() && entries[j].0 == id && #[trigger] entries[j].1 == b,
    decreases entries.len(),
{
    if entries.len() > 0 && entries[0].0 != id {
        lemma_lookup_found(entries.skip(1), id);
        if let Some(b) = lookup(entries, id) {
            let j = choose|j: int| 0 <= j < entries.skip(1).len() && entries.skip(1)[j].0 == id && #[trigger] entries.skip(1)[j].1 == b;
            assert(entries[j + 1] == entries.skip(1)[j]);
        }
    }
}

/// Law: after assets `a` are recorded for part numbers `ids`, each of them is done for
/// every asset of `a`, and the entries stay well formed.
pub proof fn law_recorded_ids_cover_assets(entries: Seq<CompletedEntry>, ids: Seq<Seq<char>>, a: CompletedAssets)
    requires
        crate::checkpoint::entries_wf(entries),
        a != crate::checkpoint::no_assets(),
    ensures
        crate::checkpoint::entries_wf(crate::checkpoint::merge_all(entries, ids, a)),
        forall|x: Seq<char>| ids.contains(x) ==> already_done(crate::checkpoint::merge_all(entries, ids, a), x, a),
{
    lemma_merge_all_done(entries, ids, a, a);
}

/// Law: after a batch records its components as done for some assets, running the same
/// batch again for assets those cover, without overwriting, skips every one of them; with
/// overwriting, nothing is skipped.
pub proof fn law_resume_skips_recorded(
    entries: Seq<CompletedEntry>,
    recorded: Seq<Seq<char>>,
    assets: CompletedAssets,
    run: Seq<Seq<char>>,
    required: CompletedAssets,
)
    requires
        crate::checkpoint::entries_wf(entries),
        assets != crate::checkpoint::no_assets(),
        covers_spec(assets, required),
    ensures
        forall|x: Seq<char>|
            recorded.contains(x) ==> !pending_ids(
                run,
                crate::checkpoint::merge_all(entries, recorded, assets),
                true,
                required,
                false,
            ).contains(x),
        pending_ids(run, crate::checkpoint::merge_all(entries, recorded, assets), true, required, true) == run,
{
    lemma_merge_all_done(entries, recorded, assets, required);
    let m = crate::checkpoint::merge_all(entries, recorded, assets);
    assert forall|x: Seq<char>| recorded.contains(x) implies !pending_ids(run, m, true, required, false).contains(x) by {
        let pred = |id: Seq<char>| !already_done(m, id, required);
        let p = pending_ids(run, m, true, required, false);
        assert(m.len() > 0);
        assert(p == run.filter(pred));
        run.filter_lemma(pred);
        if p.contains(x) {
            let j = choose|j: int| 0 <= j < p.len() && p[j] == x;
            assert(pred(p[j]));
        }
    }
}

} // verus!
