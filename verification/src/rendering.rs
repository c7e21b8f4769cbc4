//! Page rendering bookkeeping of the active tab: which pages to render next,
//! what a finished batch changes, and which rows were last seen. The images
//! themselves are made and kept by the caller; a page here only records
//! whether its image is ready, at which width, and whether rendering failed.

use vstd::prelude::*;

use std::collections::HashSet;

use crate::tab::{
    index_of_id, lemma_index_of_id, lemma_index_of_id_same_ids, lemma_update_keeps_wf, PageSummary,
    PdfTab, TabBar,
};
use crate::tab_actions::tab_changed;
use crate::viewer::PdfViewer;

verus! {

broadcast use vstd::std_specs::hash::group_hash_axioms;

/// The two page lists: thumbnails in the sidebar, pages in the main view.
#[derive(Clone, Copy, Debug, PartialEq, Eq, Structural)]
pub enum RenderKind {
    Thumbnail,
    Display,
}

pub open spec fn page_ready(p: PageSummary, kind: RenderKind) -> bool {
    match kind {
        RenderKind::Thumbnail => p.thumbnail_ready,
        RenderKind::Display => p.display_ready,
    }
}

pub open spec fn page_render_width(p: PageSummary, kind: RenderKind) -> u32 {
    match kind {
        RenderKind::Thumbnail => p.thumbnail_render_width,
        RenderKind::Display => p.display_render_width,
    }
}

pub open spec fn page_failed(p: PageSummary, kind: RenderKind) -> bool {
    match kind {
        RenderKind::Thumbnail => p.thumbnail_failed,
        RenderKind::Display => p.display_failed,
    }
}

/// A page needs rendering at `target` width when it has no image or a
/// narrower one, unless rendering it failed before.
pub open spec fn needs_render(p: PageSummary, kind: RenderKind, target: u32) -> bool {
    (!page_ready(p, kind) || page_render_width(p, kind) < target) && !page_failed(p, kind)
}

/// A batch is full once it holds `batch_size` pages (and at least one).
pub open spec fn batch_full(pending: Seq<usize>, batch_size: usize) -> bool {
    pending.len() > 0 && pending.len() >= batch_size
}

/// The pages to render next, taken from the candidates in order: each
/// candidate once, only pages that exist and need rendering, until the batch
/// is full.
pub open spec fn render_batch(
    pages: Seq<PageSummary>,
    kind: RenderKind,
    target: u32,
    candidates: Seq<usize>,
    batch_size: usize,
) -> Seq<usize>
    decreases candidates.len(),
{
    if candidates.len() == 0 {
        Seq::empty()
    } else {
        let prev = render_batch(pages, kind, target, candidates.drop_last(), batch_size);
        let ix = candidates.last();
        if batch_full(prev, batch_size) {
            prev
        } else if candidates.drop_last().contains(ix) {
            prev
        } else if ix < pages.len() && needs_render(pages[ix as int], kind, target) {
            prev.push(ix)
        } else {
            prev
        }
    }
}

/// `p` with an image of `kind` at width `target`.
pub open spec fn mark_rendered(p: PageSummary, kind: RenderKind, target: u32) -> PageSummary {
    match kind {
        RenderKind::Thumbnail => PageSummary {
            thumbnail_ready: true,
            thumbnail_render_width: target,
            thumbnail_failed: false,
            ..p
        },
        RenderKind::Display => PageSummary {
            display_ready: true,
            display_render_width: target,
            display_failed: false,
            ..p
        },
    }
}

/// `p` with rendering of `kind` failed.
pub open spec fn mark_failed(p: PageSummary, kind: RenderKind) -> PageSummary {
    match kind {
        RenderKind::Thumbnail => PageSummary { thumbnail_failed: true, ..p },
        RenderKind::Display => PageSummary { display_failed: true, ..p },
    }
}

/// Page `j` after a batch: rendered when its image came back, failed when it
/// was asked for and did not, else as it was.
pub open spec fn page_after_batch(
    p: PageSummary,
    j: int,
    kind: RenderKind,
    target: u32,
    requested: Seq<usize>,
    loaded: Option<Seq<usize>>,
) -> PageSummary {
    let got = match loaded {
        Some(l) => l.contains(j as usize),
        None => false,
    };
    if got {
        mark_rendered(p, kind, target)
    } else if requested.contains(j as usize) {
        mark_failed(p, kind)
    } else {
        p
    }
}

pub open spec fn loading_of(t: PdfTab, kind: RenderKind) -> Set<usize> {
    match kind {
        RenderKind::Thumbnail => t.thumbnail_loading@,
        RenderKind::Display => t.display_loading@,
    }
}

pub open spec fn inflight_of(t: PdfTab, kind: RenderKind) -> usize {
    match kind {
        RenderKind::Thumbnail => t.thumbnail_inflight_tasks,
        RenderKind::Display => t.display_inflight_tasks,
    }
}

pub open spec fn epoch_of(t: PdfTab, kind: RenderKind) -> u64 {
    match kind {
        RenderKind::Thumbnail => t.thumbnail_epoch,
        RenderKind::Display => t.display_epoch,
    }
}

pub open spec fn visible_range_of(t: PdfTab, kind: RenderKind) -> Option<(usize, usize)> {
    match kind {
        RenderKind::Thumbnail => t.last_thumbnail_visible_range,
        RenderKind::Display => t.last_display_visible_range,
    }
}

/// `after` differs from `before` at most in the pages and in `kind`'s loading
/// set, task count and last seen rows.
pub open spec fn only_render_fields_changed(before: PdfTab, after: PdfTab, kind: RenderKind) -> bool {
    match kind {
        RenderKind::Thumbnail => after == PdfTab {
            pages: after.pages,
            thumbnail_loading: after.thumbnail_loading,
            thumbnail_inflight_tasks: after.thumbnail_inflight_tasks,
            last_thumbnail_visible_range: after.last_thumbnail_visible_range,
            ..before
        },
        RenderKind::Display => after == PdfTab {
            pages: after.pages,
            display_loading: after.display_loading,
            display_inflight_tasks: after.display_inflight_tasks,
            last_display_visible_range: after.last_display_visible_range,
            ..before
        },
    }
}

/// `after` is `before` with the pages `pending` of `kind` being rendered:
/// they are marked loading and one more task is in flight.
pub open spec fn batch_started(before: PdfTab, after: PdfTab, kind: RenderKind, pending: Seq<usize>) -> bool {
    &&& only_render_fields_changed(before, after, kind)
    &&& after.pages == before.pages
    &&& loading_of(after, kind) == loading_of(before, kind).union(pending.to_set())
    &&& inflight_of(after, kind) == (if inflight_of(before, kind) == usize::MAX {
        usize::MAX
    } else {
        (inflight_of(before, kind) + 1) as usize
    })
    &&& visible_range_of(after, kind) == visible_range_of(before, kind)
}

/// `after` is `before` once a batch of `kind` at width `target`, asked for
/// `requested`, came back with the pages `loaded` (`None` when it failed as
/// a whole).
pub open spec fn batch_finished(
    before: PdfTab,
    after: PdfTab,
    kind: RenderKind,
    target: u32,
    requested: Seq<usize>,
    loaded: Option<Seq<usize>>,
) -> bool {
    &&& only_render_fields_changed(before, after, kind)
    &&& after.pages@.len() == before.pages@.len()
    &&& forall|j: int|
        0 <= j < before.pages@.len() ==> #[trigger] after.pages@[j] == page_after_batch(
            before.pages@[j],
            j,
            kind,
            target,
            requested,
            loaded,
        )
    &&& loading_of(after, kind) == loading_of(before, kind).difference(requested.to_set())
    &&& inflight_of(after, kind) == (if inflight_of(before, kind) == 0 {
        0
    } else {
        (inflight_of(before, kind) - 1) as usize
    })
    &&& visible_range_of(after, kind) == visible_range_of(before, kind)
}

/// The change "a batch of `kind` finished".
pub open spec fn finishes_batch(
    kind: RenderKind,
    target: u32,
    requested: Seq<usize>,
    loaded: Option<Seq<usize>>,
) -> spec_fn(PdfTab, PdfTab) -> bool {
    |a: PdfTab, b: PdfTab| batch_finished(a, b, kind, target, requested, loaded)
}

/// The change "the pages `pending` of `kind` started rendering".
pub open spec fn starts_batch(kind: RenderKind, pending: Seq<usize>) -> spec_fn(PdfTab, PdfTab) -> bool {
    |a: PdfTab, b: PdfTab| batch_started(a, b, kind, pending)
}

/// `after` is `before` having noted the rows `start..end` of `kind` as seen,
/// with a loading set left over from no task in flight dropped.
pub open spec fn visible_range_noted(
    before: PdfTab,
    after: PdfTab,
    kind: RenderKind,
    start: usize,
    end: usize,
) -> bool {
    &&& only_render_fields_changed(before, after, kind)
    &&& after.pages == before.pages
    &&& inflight_of(after, kind) == inflight_of(before, kind)
    &&& loading_of(after, kind) == (if inflight_of(before, kind) == 0 {
        Set::<usize>::empty()
    } else {
        loading_of(before, kind)
    })
    &&& visible_range_of(after, kind) == Some((start, end))
}

/// A batch of pages for the caller to render: the pages of `path` at
/// `target_width`, for tab `tab_id` as of `epoch`.
pub struct RenderRequest {
    pub kind: RenderKind,
    pub tab_id: usize,
    pub path: String,
    pub pages: Vec<usize>,
    pub target_width: u32,
    pub epoch: u64,
}

/// What asking the active tab for a batch gives, from candidates.
pub open spec fn request_made(
    before: Seq<PdfTab>,
    after: Seq<PdfTab>,
    active: int,
    kind: RenderKind,
    candidates: Seq<usize>,
    target: u32,
    max_parallel: usize,
    batch_size: usize,
    r: Option<RenderRequest>,
) -> bool {
    if !(0 <= active < before.len()) {
        r is None && after == before
    } else {
        let t = before[active];
        let pending = render_batch(t.pages@, kind, target, candidates, batch_size);
        if candidates.len() == 0 || t.pages@.len() == 0 || t.path is None || inflight_of(t, kind)
            >= max_parallel || pending.len() == 0 {
            r is None && after == before
        } else {
            &&& r matches Some(req) && req.kind == kind && req.tab_id == t.id && t.path == Some(
                req.path,
            ) && req.pages@ == pending && req.target_width == target && req.epoch == epoch_of(t, kind)
            &&& tab_changed(before, after, t.id, starts_batch(kind, pending))
        }
    }
}

/// The candidates `start..end`.
pub open spec fn range_seq(start: usize, end: usize) -> Seq<usize> {
    Seq::new((end - start) as nat, |k: int| (start + k) as usize)
}

/// The change "noted the rows `start..end` of `kind` as seen".
pub open spec fn notes_range(kind: RenderKind, start: usize, end: usize) -> spec_fn(PdfTab, PdfTab) -> bool {
    |a: PdfTab, b: PdfTab| visible_range_noted(a, b, kind, start, end)
}

/// What asking the active tab for a batch from the rows `start..end` it
/// shows gives: nothing for an empty range or a tab without pages, else the
/// rows are noted as seen and a batch is asked for from them.
pub open spec fn range_request_made(
    before: Seq<PdfTab>,
    after: Seq<PdfTab>,
    active: int,
    kind: RenderKind,
    start: usize,
    end: usize,
    target: u32,
    max_parallel: usize,
    batch_size: usize,
    r: Option<RenderRequest>,
) -> bool {
    if !(0 <= active < before.len()) || start >= end || before[active].pages@.len() == 0 {
        r is None && after == before
    } else {
        exists|mid: Seq<PdfTab>|
            #![trigger tab_changed(before, mid, before[active].id, notes_range(kind, start, end))]
            tab_changed(before, mid, before[active].id, notes_range(kind, start, end))
                && request_made(
                mid,
                after,
                active,
                kind,
                range_seq(start, end),
                target,
                max_parallel,
                batch_size,
                r,
            )
    }
}

impl PdfTab {
    /// The pages to render next from `candidates`.
    pub fn render_batch_from(
        &self,
        kind: RenderKind,
        candidates: &[usize],
        target: u32,
        batch_size: usize,
    ) -> (r: Vec<usize>)
        ensures
            r@ == render_batch(self.pages@, kind, target, candidates@, batch_size),
    {
        let mut pending: Vec<usize> = Vec::new();
        let mut seen: HashSet<usize> = HashSet::new();
        let mut i: usize = 0;
        while i < candidates.len()
            invariant
                i <= candidates@.len(),
                pending@ == render_batch(self.pages@, kind, target, candidates@.take(i as int), batch_size),
                seen@ == candidates@.take(i as int).to_set(),
            decreases candidates@.len() - i,
        {
            let ghost prefix = candidates@.take(i as int);
            assert(candidates@.take(i + 1).drop_last() =~= prefix);
            assert(candidates@.take(i + 1).last() == candidates@[i as int]);
            let ix = candidates[i];
            let full = pending.len() > 0 && pending.len() >= batch_size;
            let fresh = seen.insert(ix);
            if !full && fresh && ix < self.pages.len() {
                let p = self.pages[ix];
                let ready = match kind {
                    RenderKind::Thumbnail => p.thumbnail_ready,
                    RenderKind::Display => p.display_ready,
                };
                let width = match kind {
                    RenderKind::Thumbnail => p.thumbnail_render_width,
                    RenderKind::Display => p.display_render_width,
                };
                let failed = match kind {
                    RenderKind::Thumbnail => p.thumbnail_failed,
                    RenderKind::Display => p.display_failed,
                };
                if (!ready || width < target) && !failed {
                    pending.push(ix);
                }
            }
            proof {
                assert(candidates@.take(i + 1) =~= prefix + seq![ix]);
                Seq::<usize>::lemma_to_set_insert_commutes(prefix, ix);
            }
            i += 1;
        }
        assert(candidates@.take(candidates@.len() as int) =~= candidates@);
        pending
    }

    /// Marks the pages `pending` of `kind` as loading, with one more task in
    /// flight.
    pub fn start_render_batch(&mut self, kind: RenderKind, pending: &[usize])
        ensures
            batch_started(*old(self), *final(self), kind, pending@),
    {
        let mut i: usize = 0;
        while i < pending.len()
            invariant
                i <= pending@.len(),
                only_render_fields_changed(*old(self), *self, kind),
                self.pages == old(self).pages,
                inflight_of(*self, kind) == inflight_of(*old(self), kind),
                visible_range_of(*self, kind) == visible_range_of(*old(self), kind),
                loading_of(*self, kind) == loading_of(*old(self), kind).union(
                    pending@.take(i as int).to_set(),
                ),
            decreases pending@.len() - i,
        {
            let ix = pending[i];
            match kind {
                RenderKind::Thumbnail => {
                    self.thumbnail_loading.insert(ix);
                },
                RenderKind::Display => {
                    self.display_loading.insert(ix);
                },
            }
            assert(pending@.take(i + 1).to_set() =~= pending@.take(i as int).to_set().insert(ix)) by {
                assert(pending@.take(i + 1) =~= pending@.take(i as int) + seq![ix]);
                Seq::<usize>::lemma_to_set_insert_commutes(pending@.take(i as int), ix);
            }
            assert(loading_of(*self, kind) =~= loading_of(*old(self), kind).union(
                pending@.take(i + 1).to_set(),
            ));
            i += 1;
        }
        assert(pending@.take(pending@.len() as int) =~= pending@);
        match kind {
            RenderKind::Thumbnail => {
                self.thumbnail_inflight_tasks = self.thumbnail_inflight_tasks.saturating_add(1);
            },
            RenderKind::Display => {
                self.display_inflight_tasks = self.display_inflight_tasks.saturating_add(1);
            },
        }
    }

    /// Takes in a finished batch: the pages `loaded` got images at width
    /// `target`, the other requested pages failed (all of them when
    /// `loaded` is `None`); none of them is loading any more and one task
    /// fewer is in flight.
    pub fn finish_render_batch(
        &mut self,
        kind: RenderKind,
        target: u32,
        requested: &[usize],
        loaded: Option<&[usize]>,
    )
        ensures
            batch_finished(
                *old(self),
                *final(self),
                kind,
                target,
                requested@,
                match loaded {
                    Some(l) => Some(l@),
                    None => None,
                },
            ),
    {
        let ghost orig = self.pages@;
        let ghost got = match loaded {
            Some(l) => Some(l@),
            None => None,
        };
        match kind {
            RenderKind::Thumbnail => {
                self.thumbnail_inflight_tasks = self.thumbnail_inflight_tasks.saturating_sub(1);
            },
            RenderKind::Display => {
                self.display_inflight_tasks = self.display_inflight_tasks.saturating_sub(1);
            },
        }
        let ghost after_count = *self;
        if let Some(l) = loaded {
            let mut k: usize = 0;
            while k < l.len()
                invariant
                    k <= l@.len(),
                    only_render_fields_changed(after_count, *self, kind),
                    loading_of(*self, kind) == loading_of(after_count, kind),
                    inflight_of(*self, kind) == inflight_of(after_count, kind),
                    visible_range_of(*self, kind) == visible_range_of(after_count, kind),
                    self.pages@.len() == orig.len(),
                    forall|j: int|
                        0 <= j < orig.len() ==> #[trigger] self.pages@[j] == if l@.take(
                            k as int,
                        ).contains(j as usize) {
                            mark_rendered(orig[j], kind, target)
                        } else {
                            orig[j]
                        },
                decreases l@.len() - k,
            {
                let ix = l[k];
                let ghost before = self.pages@;
                assert(l@.take(k + 1) =~= l@.take(k as int).push(ix));
                if ix < self.pages.len() {
                    let p = self.pages[ix];
                    let np = match kind {
                        RenderKind::Thumbnail => PageSummary {
                            thumbnail_ready: true,
                            thumbnail_render_width: target,
                            thumbnail_failed: false,
                            ..p
                        },
                        RenderKind::Display => PageSummary {
                            display_ready: true,
                            display_render_width: target,
                            display_failed: false,
                            ..p
                        },
                    };
                    self.pages[ix] = np;
                }
                assert forall|j: int| 0 <= j < orig.len() implies #[trigger] self.pages@[j] == if l@.take(
                    k + 1,
                ).contains(j as usize) {
                    mark_rendered(orig[j], kind, target)
                } else {
                    orig[j]
                } by {
                    assert(before[j] == if l@.take(k as int).contains(j as usize) {
                        mark_rendered(orig[j], kind, target)
                    } else {
                        orig[j]
                    });
                    if l@.take(k + 1).contains(j as usize) && !l@.take(k as int).contains(j as usize) {
                        assert(j as usize == ix);
                    }
                    if l@.take(k as int).contains(j as usize) {
                        let w = choose|w: int| 0 <= w < k && l@.take(k as int)[w] == j as usize;
                        assert(l@.take(k + 1)[w] == j as usize);
                    }
                    if j == ix as int {
                        assert(l@.take(k + 1)[k as int] == ix);
                    }
                }
                k += 1;
            }
            assert(l@.take(l@.len() as int) =~= l@);
        }
        let ghost after_loaded = *self;
        let mut m: usize = 0;
        while m < requested.len()
            invariant
                m <= requested@.len(),
                only_render_fields_changed(after_count, *self, kind),
                inflight_of(*self, kind) == inflight_of(after_count, kind),
                visible_range_of(*self, kind) == visible_range_of(after_count, kind),
                loading_of(*self, kind) == loading_of(after_count, kind).difference(
                    requested@.take(m as int).to_set(),
                ),
                self.pages@.len() == orig.len(),
                got == match loaded {
                    Some(l) => Some(l@),
                    None => None,
                },
                forall|j: int|
                    0 <= j < orig.len() ==> #[trigger] after_loaded.pages@[j] == if (got matches Some(
                        l,
                    ) && l.contains(j as usize)) {
                        mark_rendered(orig[j], kind, target)
                    } else {
                        orig[j]
                    },
                after_loaded.pages@.len() == orig.len(),
                forall|j: int|
                    0 <= j < orig.len() ==> #[trigger] self.pages@[j] == if (got matches Some(l)
                        && l.contains(j as usize)) {
                        mark_rendered(orig[j], kind, target)
                    } else if requested@.take(m as int).contains(j as usize) {
                        mark_failed(orig[j], kind)
                    } else {
                        orig[j]
                    },
            decreases requested@.len() - m,
        {
            let ix = requested[m];
            let ghost before = self.pages@;
            assert(requested@.take(m + 1) =~= requested@.take(m as int).push(ix));
            match kind {
                RenderKind::Thumbnail => {
                    self.thumbnail_loading.remove(&ix);
                },
                RenderKind::Display => {
                    self.display_loading.remove(&ix);
                },
            }
            let was_loaded = match loaded {
                Some(l) => contains_usize(l, ix),
                None => false,
            };
            if !was_loaded && ix < self.pages.len() {
                let p = self.pages[ix];
                let np = match kind {
                    RenderKind::Thumbnail => PageSummary { thumbnail_failed: true, ..p },
                    RenderKind::Display => PageSummary { display_failed: true, ..p },
                };
                self.pages[ix] = np;
            }
            assert(requested@.take(m + 1).to_set() =~= requested@.take(m as int).to_set().insert(ix)) by {
                assert(requested@.take(m + 1) =~= requested@.take(m as int) + seq![ix]);
                Seq::<usize>::lemma_to_set_insert_commutes(requested@.take(m as int), ix);
            }
            assert(loading_of(*self, kind) =~= loading_of(after_count, kind).difference(
                requested@.take(m + 1).to_set(),
            ));
            assert forall|j: int| 0 <= j < orig.len() implies #[trigger] self.pages@[j] == if (
            got matches Some(l) && l.contains(j as usize)) {
                mark_rendered(orig[j], kind, target)
            } else if requested@.take(m + 1).contains(j as usize) {
                mark_failed(orig[j], kind)
            } else {
                orig[j]
            } by {
                assert(before[j] == if (got matches Some(l) && l.contains(j as usize)) {
                    mark_rendered(orig[j], kind, target)
                } else if requested@.take(m as int).contains(j as usize) {
                    mark_failed(orig[j], kind)
                } else {
                    orig[j]
                });
                if j == ix as int {
                    assert(requested@.take(m + 1)[m as int] == ix);
                }
                if requested@.take(m as int).contains(j as usize) {
                    let w = choose|w: int| 0 <= w < m && requested@.take(m as int)[w] == j as usize;
                    assert(requested@.take(m + 1)[w] == j as usize);
                }
                if requested@.take(m + 1).contains(j as usize) && !requested@.take(m as int).contains(
                    j as usize,
                ) {
                    assert(j as usize == ix);
                }
            }
            m += 1;
        }
        assert(requested@.take(requested@.len() as int) =~= requested@);
    }

    /// Notes the rows `start..end` of `kind` as seen; a loading set left over
    /// from no task in flight is dropped.
    pub fn note_visible_range(&mut self, kind: RenderKind, start: usize, end: usize)
        ensures
            visible_range_noted(*old(self), *final(self), kind, start, end),
    {
        match kind {
            RenderKind::Thumbnail => {
                if self.thumbnail_inflight_tasks == 0 {
                    self.thumbnail_loading.clear();
                }
                self.last_thumbnail_visible_range = Some((start, end));
            },
            RenderKind::Display => {
                if self.display_inflight_tasks == 0 {
                    self.display_loading.clear();
                }
                self.last_display_visible_range = Some((start, end));
            },
        }
    }
}

/// Asks the bar's active tab for a batch of `kind` from `candidates`.
fn request_in_bar(
    bar: &mut TabBar,
    kind: RenderKind,
    candidates: &[usize],
    target: u32,
    max_parallel: usize,
    batch_size: usize,
) -> (r: Option<RenderRequest>)
    requires
        old(bar).wf(),
    ensures
        final(bar).wf(),
        final(bar).spec_active_tab_id() == old(bar).spec_active_tab_id(),
        final(bar).spec_next_tab_id() == old(bar).spec_next_tab_id(),
        request_made(
            old(bar).spec_tabs(),
            final(bar).spec_tabs(),
            old(bar).active_index(),
            kind,
            candidates@,
            target,
            max_parallel,
            batch_size,
            r,
        ),
{
    let ghost old_bar = *bar;
    proof {
        if let Some(a) = bar.spec_active_tab_id() {
            lemma_index_of_id(bar.spec_tabs(), a);
        }
    }
    let (tab_id, path, pending, epoch) = match bar.get_active_tab() {
        Some(tab) => {
            if candidates.len() == 0 || tab.pages.len() == 0 {
                return None;
            }
            let path = match &tab.path {
                Some(p) => p.clone(),
                None => return None,
            };
            let inflight = match kind {
                RenderKind::Thumbnail => tab.thumbnail_inflight_tasks,
                RenderKind::Display => tab.display_inflight_tasks,
            };
            if inflight >= max_parallel {
                return None;
            }
            let pending = tab.render_batch_from(kind, candidates, target, batch_size);
            if pending.len() == 0 {
                return None;
            }
            let epoch = match kind {
                RenderKind::Thumbnail => tab.thumbnail_epoch,
                RenderKind::Display => tab.display_epoch,
            };
            (tab.id, path, pending, epoch)
        },
        None => return None,
    };
    match bar.get_tab_mut(tab_id) {
        Some(tab) => {
            tab.start_render_batch(kind, pending.as_slice());
        },
        None => {},
    }
    proof {
        let i = old_bar.active_index();
        lemma_update_keeps_wf(&old_bar, &*bar, i, bar.spec_tabs()[i]);
    }
    Some(RenderRequest { kind, tab_id, path, pages: pending, target_width: target, epoch })
}

/// Takes in a finished batch for the bar's active tab.
fn finish_in_bar(
    bar: &mut TabBar,
    kind: RenderKind,
    tab_id: usize,
    epoch: u64,
    requested: &[usize],
    target: u32,
    loaded: Option<&[usize]>,
) -> (r: bool)
    requires
        old(bar).wf(),
    ensures
        final(bar).wf(),
        final(bar).spec_active_tab_id() == old(bar).spec_active_tab_id(),
        final(bar).spec_next_tab_id() == old(bar).spec_next_tab_id(),
        ({
            let tabs = old(bar).spec_tabs();
            let i = old(bar).active_index();
            &&& r == (0 <= i < tabs.len() && tabs[i].id == tab_id && epoch_of(tabs[i], kind) == epoch)
            &&& r ==> tab_changed(
                tabs,
                final(bar).spec_tabs(),
                tab_id,
                finishes_batch(
                    kind,
                    target,
                    requested@,
                    match loaded {
                        Some(l) => Some(l@),
                        None => None,
                    },
                ),
            )
            &&& !r ==> final(bar).spec_tabs() == tabs
        }),
{
    let ghost old_bar = *bar;
    proof {
        if let Some(a) = bar.spec_active_tab_id() {
            lemma_index_of_id(bar.spec_tabs(), a);
        }
    }
    let applies = match bar.get_active_tab() {
        Some(tab) => tab.id == tab_id && match kind {
            RenderKind::Thumbnail => tab.thumbnail_epoch == epoch,
            RenderKind::Display => tab.display_epoch == epoch,
        },
        None => false,
    };
    if !applies {
        return false;
    }
    match bar.get_tab_mut(tab_id) {
        Some(tab) => {
            tab.finish_render_batch(kind, target, requested, loaded);
        },
        None => {},
    }
    proof {
        let i = old_bar.active_index();
        lemma_update_keeps_wf(&old_bar, &*bar, i, bar.spec_tabs()[i]);
    }
    true
}

/// Notes the rows `start..end` as seen by the bar's active tab and asks it
/// for a batch from them.
fn range_request_in_bar(
    bar: &mut TabBar,
    kind: RenderKind,
    start: usize,
    end: usize,
    target: u32,
    max_parallel: usize,
    batch_size: usize,
) -> (r: Option<RenderRequest>)
    requires
        old(bar).wf(),
    ensures
        final(bar).wf(),
        final(bar).spec_active_tab_id() == old(bar).spec_active_tab_id(),
        final(bar).spec_next_tab_id() == old(bar).spec_next_tab_id(),
        range_request_made(
            old(bar).spec_tabs(),
            final(bar).spec_tabs(),
            old(bar).active_index(),
            kind,
            start,
            end,
            target,
            max_parallel,
            batch_size,
            r,
        ),
{
    let ghost old_bar = *bar;
    proof {
        if let Some(a) = bar.spec_active_tab_id() {
            lemma_index_of_id(bar.spec_tabs(), a);
        }
    }
    let tab_id = match bar.get_active_tab() {
        Some(tab) => {
            if start >= end || tab.pages.len() == 0 {
                return None;
            }
            tab.id
        },
        None => return None,
    };
    match bar.get_tab_mut(tab_id) {
        Some(tab) => {
            tab.note_visible_range(kind, start, end);
        },
        None => {},
    }
    let ghost mid = bar.spec_tabs();
    proof {
        let i = old_bar.active_index();
        lemma_update_keeps_wf(&old_bar, &*bar, i, bar.spec_tabs()[i]);
        if let Some(a) = bar.spec_active_tab_id() {
            assert forall|k: int| 0 <= k < mid.len() implies #[trigger] mid[k].id
                == old_bar.spec_tabs()[k].id by {
                if k != i {
                    assert(mid[k] == old_bar.spec_tabs()[k]);
                }
            }
            lemma_index_of_id_same_ids(mid, old_bar.spec_tabs(), a);
        }
        assert(bar.active_index() == i);
    }
    let mut candidates: Vec<usize> = Vec::new();
    let mut k = start;
    while k < end
        invariant
            start <= k <= end,
            candidates@ == range_seq(start, k),
        decreases end - k,
    {
        candidates.push(k);
        assert(candidates@ =~= range_seq(start, (k + 1) as usize));
        k += 1;
    }
    let r = request_in_bar(bar, kind, candidates.as_slice(), target, max_parallel, batch_size);
    proof {
        let i = old_bar.active_index();
        assert(tab_changed(
            old_bar.spec_tabs(),
            mid,
            old_bar.spec_tabs()[i].id,
            notes_range(kind, start, end),
        ));
    }
    r
}

impl PdfViewer {
    /// Asks the active tab for a batch of `kind` to render from
    /// `candidates` (at most `batch_size` pages, and none while
    /// `max_parallel` batches are in flight). The pages are marked loading;
    /// the caller renders them and hands the result to
    /// [`PdfViewer::finish_render_load`].
    pub fn request_render_load_from_candidates(
        &mut self,
        kind: RenderKind,
        candidates: Vec<usize>,
        target_width: u32,
        max_parallel: usize,
        batch_size: usize,
    ) -> (r: Option<RenderRequest>)
        requires
            old(self).tab_bar.wf(),
        ensures
            final(self).tab_bar.wf(),
            final(self).same_besides_tab_bar(&*old(self)),
            final(self).hovered_markdown_note_id == old(self).hovered_markdown_note_id,
            final(self).tab_bar.spec_active_tab_id() == old(self).tab_bar.spec_active_tab_id(),
            final(self).tab_bar.spec_next_tab_id() == old(self).tab_bar.spec_next_tab_id(),
            request_made(
                old(self).tab_bar.spec_tabs(),
                final(self).tab_bar.spec_tabs(),
                old(self).tab_bar.active_index(),
                kind,
                candidates@,
                target_width,
                max_parallel,
                batch_size,
                r,
            ),
    {
        request_in_bar(
            &mut self.tab_bar,
            kind,
            candidates.as_slice(),
            target_width,
            max_parallel,
            batch_size,
        )
    }

    /// Notes the rows `start..end` of `kind` as the ones on screen and asks
    /// the active tab for a batch from them.
    pub fn request_render_load_for_visible_range(
        &mut self,
        kind: RenderKind,
        start: usize,
        end: usize,
        target_width: u32,
        max_parallel: usize,
        batch_size: usize,
    ) -> (r: Option<RenderRequest>)
        requires
            old(self).tab_bar.wf(),
        ensures
            final(self).tab_bar.wf(),
            final(self).same_besides_tab_bar(&*old(self)),
            final(self).hovered_markdown_note_id == old(self).hovered_markdown_note_id,
            final(self).tab_bar.spec_active_tab_id() == old(self).tab_bar.spec_active_tab_id(),
            final(self).tab_bar.spec_next_tab_id() == old(self).tab_bar.spec_next_tab_id(),
            range_request_made(
                old(self).tab_bar.spec_tabs(),
                final(self).tab_bar.spec_tabs(),
                old(self).tab_bar.active_index(),
                kind,
                start,
                end,
                target_width,
                max_parallel,
                batch_size,
                r,
            ),
    {
        range_request_in_bar(
            &mut self.tab_bar,
            kind,
            start,
            end,
            target_width,
            max_parallel,
            batch_size,
        )
    }

    /// Takes in a rendered batch of `kind` for tab `tab_id` asked for at
    /// `epoch`: ignored (false) unless that tab is still active and its
    /// rendering of `kind` was not reset since.
    pub fn finish_render_load(
        &mut self,
        kind: RenderKind,
        tab_id: usize,
        epoch: u64,
        requested: Vec<usize>,
        target_width: u32,
        loaded: Option<Vec<usize>>,
    ) -> (r: bool)
        requires
            old(self).tab_bar.wf(),
        ensures
            final(self).tab_bar.wf(),
            final(self).same_besides_tab_bar(&*old(self)),
            final(self).hovered_markdown_note_id == old(self).hovered_markdown_note_id,
            final(self).tab_bar.spec_active_tab_id() == old(self).tab_bar.spec_active_tab_id(),
            final(self).tab_bar.spec_next_tab_id() == old(self).tab_bar.spec_next_tab_id(),
            ({
                let tabs = old(self).tab_bar.spec_tabs();
                let i = old(self).tab_bar.active_index();
                &&& r == (0 <= i < tabs.len() && tabs[i].id == tab_id && epoch_of(tabs[i], kind)
                    == epoch)
                &&& r ==> tab_changed(
                    tabs,
                    final(self).tab_bar.spec_tabs(),
                    tab_id,
                    finishes_batch(
                        kind,
                        target_width,
                        requested@,
                        match loaded {
                            Some(l) => Some(l@),
                            None => None,
                        },
                    ),
                )
                &&& !r ==> final(self).tab_bar.spec_tabs() == tabs
            }),
    {
        let got = match &loaded {
            Some(l) => Some(l.as_slice()),
            None => None,
        };
        finish_in_bar(
            &mut self.tab_bar,
            kind,
            tab_id,
            epoch,
            requested.as_slice(),
            target_width,
            got,
        )
    }
}

/// Whether `x` occurs in `s`.
fn contains_usize(s: &[usize], x: usize) -> (r: bool)
    ensures
        r == s@.contains(x),
{
    let mut i: usize = 0;
    while i < s.len()
        invariant
            i <= s@.len(),
            forall|k: int| 0 <= k < i ==> s@[k] != x,
        decreases s@.len() - i,
    {
        if s[i] == x {
            assert(s@[i as int] == x);
            return true;
        }
        i += 1;
    }
    false
}

} // verus!
