//! One run of the enrichment of a bookmark document, as a state machine.
//!
//! The caller drives it: it calls `step` once per link, checking its
//! cancellation flag before each call, performs the action that comes back
//! (a fetch, a checkpoint of the cache, writing the result), and hands the
//! outcome of a fetch back through `complete_fetch`.
use vstd::prelude::*;
use vstd::utf8::encode_utf8;
use crate::cache::{CacheEntry, FaviconCache, value_view};
use crate::config::{fill_template, icon_url};
use crate::domain::{parse_host, url_host};
use crate::fetch::FetchError;
use crate::links::{
    AnchorMatch, extract_links, links_in, links_ordered, match_view, splice_all, positions_ordered,
    lemma_splice_offset,
};

verus! {

/// Where a run stands.
#[derive(Clone, Copy, Debug, PartialEq, Eq, Structural)]
pub enum Phase {
    /// Ready for the next `step`.
    Running,
    /// Waiting for the outcome of a fetch, through `complete_fetch`.
    AwaitingFetch,
    /// Stopped on request; the document is not written.
    Aborted,
    /// Every link was handled; the document is ready.
    Completed,
}

/// What the caller does after a call.
#[derive(Clone, Debug)]
pub enum Action {
    /// Fetch the icon at this URL and pass the outcome to `complete_fetch`.
    Fetch(String),
    /// Call `step` again.
    Continue,
    /// Write the cache to disk, then call `step` again.
    Checkpoint,
    /// Write the cache to disk and stop; the document is not written.
    Abort,
    /// Write the document and the cache to disk; the run is over.
    Finish,
}

/// Why a link got no icon.
#[derive(Clone, Debug)]
pub enum FailReason {
    /// An earlier fetch for the host failed.
    PreviouslyFailed,
    /// The fetch made now failed.
    Fetch(FetchError),
}

/// A line of the run's log, before it is put into words.
#[derive(Clone, Debug)]
pub enum LogEvent {
    /// The document holds `total` links.
    Found { total: usize },
    /// The icon of `host` is looked for, `processed` links being done.
    Fetching { processed: usize, total: usize, host: String },
    /// The icon was found.
    Succeeded,
    /// No icon was found.
    Failed(FailReason),
    /// `processed` of `total` links are done.
    Progress { processed: usize, total: usize },
    /// The run stopped on request.
    Aborted,
    /// The run is over.
    Completed { succeeded: usize, failed: usize, total: usize },
}

/// Links handled between two checkpoints of the cache.
pub const CHECKPOINT_INTERVAL: usize = 50;

/// Links handled between two progress lines of the log.
pub const PROGRESS_INTERVAL: usize = 10;

/// The attribute ` icon="<payload>"` that carries an icon.
pub open spec fn icon_attribute(payload: Seq<char>) -> Seq<u8> {
    seq![32u8, 105u8, 99u8, 111u8, 110u8, 61u8, 34u8] + encode_utf8(payload) + seq![34u8]
}

/// The host of a link, if it has one.
pub open spec fn link_host(l: AnchorMatch) -> Option<Seq<char>> {
    url_host(l.href@)
}

/// The attribute that a link gets under the cache `m`, with its position:
/// just before the `>` that closes the anchor element.
pub open spec fn link_insert(l: AnchorMatch, m: Map<Seq<char>, Option<Seq<char>>>) -> Option<(int, Seq<u8>)> {
    match link_host(l) {
        Some(h) => if m.contains_key(h) && m[h] is Some {
            Some((l.end - 1, icon_attribute(m[h].unwrap())))
        } else {
            None
        },
        None => None,
    }
}

/// The attributes that the links get under the cache `m`, in order.
pub open spec fn inserts(links: Seq<AnchorMatch>, m: Map<Seq<char>, Option<Seq<char>>>) -> Seq<(int, Seq<u8>)>
    decreases links.len(),
{
    if links.len() == 0 {
        Seq::empty()
    } else {
        let before = inserts(links.drop_last(), m);
        match link_insert(links.last(), m) {
            Some(x) => before.push(x),
            None => before,
        }
    }
}

/// The document with an icon attribute in each link whose host has a
/// fetched icon in `m`.
pub open spec fn enriched(doc: Seq<u8>, links: Seq<AnchorMatch>, m: Map<Seq<char>, Option<Seq<char>>>) -> Seq<u8> {
    splice_all(doc, inserts(links, m))
}

/// Every link that has a host has a fetched icon in `m`.
pub open spec fn warm(links: Seq<AnchorMatch>, m: Map<Seq<char>, Option<Seq<char>>>) -> bool {
    forall|i: int|
        0 <= i < links.len() && #[trigger] link_host(links[i]) is Some ==> m.contains_key(
            link_host(links[i]).unwrap(),
        ) && m[link_host(links[i]).unwrap()] is Some
}

/// The progress lines that follow the `processed`-th link of `total`.
pub open spec fn progress_events(processed: usize, total: usize) -> Seq<LogEvent> {
    if processed % 10 == 0 || processed == total {
        seq![LogEvent::Progress { processed, total }]
    } else {
        Seq::empty()
    }
}

/// `e` announces the lookup of `host` with `processed` of `total` links done.
pub open spec fn is_fetching(e: LogEvent, processed: usize, total: usize, host: Seq<char>) -> bool {
    e matches LogEvent::Fetching { processed: p, total: t, host: h } && p == processed && t == total && h@ == host
}

proof fn lemma_inserts_stable(links: Seq<AnchorMatch>, m1: Map<Seq<char>, Option<Seq<char>>>, m2: Map<Seq<char>, Option<Seq<char>>>)
    requires
        forall|i: int| 0 <= i < links.len() && #[trigger] link_host(links[i]) is Some ==> m1.contains_key(link_host(links[i]).unwrap()),
        forall|k: Seq<char>| #[trigger] m1.contains_key(k) ==> m2.contains_key(k) && m2[k] == m1[k],
    ensures
        inserts(links, m1) == inserts(links, m2),
    decreases links.len(),
{
    if links.len() > 0 {
        let init = links.drop_last();
        assert forall|i: int| 0 <= i < init.len() && #[trigger] link_host(init[i]) is Some implies m1.contains_key(link_host(init[i]).unwrap()) by {
            assert(init[i] == links[i]);
        }
        lemma_inserts_stable(init, m1, m2);
        assert(link_host(links[links.len() - 1]) is Some ==> m1.contains_key(link_host(links.last()).unwrap()));
    }
}

/// The state of one run.
pub struct Session {
    doc: Vec<u8>,
    links: Vec<AnchorMatch>,
    template: String,
    cache: FaviconCache,
    out: Vec<u8>,
    next: usize,
    cursor: usize,
    processed: usize,
    succeeded: usize,
    failed: usize,
    last_save: usize,
    pending: Option<String>,
    phase: Phase,
    events: Vec<LogEvent>,
    initial: Ghost<Map<Seq<char>, Option<Seq<char>>>>,
}

impl Session {
    pub closed spec fn doc_view(&self) -> Seq<u8> {
        self.doc@
    }

    pub closed spec fn links_view(&self) -> Seq<AnchorMatch> {
        self.links@
    }

    pub closed spec fn template_view(&self) -> Seq<char> {
        self.template@
    }

    pub closed spec fn cache_view(&self) -> Map<Seq<char>, Option<Seq<char>>> {
        self.cache@
    }

    /// The document as far as it is built.
    pub closed spec fn out_view(&self) -> Seq<u8> {
        self.out@
    }

    /// Index of the next link to handle.
    pub closed spec fn next_index(&self) -> int {
        self.next as int
    }

    /// Links with a host that were handled.
    pub closed spec fn processed_count(&self) -> usize {
        self.processed
    }

    pub closed spec fn succeeded_count(&self) -> usize {
        self.succeeded
    }

    pub closed spec fn failed_count(&self) -> usize {
        self.failed
    }

    pub closed spec fn last_checkpoint(&self) -> usize {
        self.last_save
    }

    pub closed spec fn current_phase(&self) -> Phase {
        self.phase
    }

    pub closed spec fn pending_host(&self) -> Option<Seq<char>> {
        match self.pending {
            Some(h) => Some(h@),
            None => None,
        }
    }

    pub closed spec fn event_log(&self) -> Seq<LogEvent> {
        self.events@
    }

    /// The cache as the run found it.
    pub closed spec fn initial_cache(&self) -> Map<Seq<char>, Option<Seq<char>>> {
        self.initial@
    }

    pub closed spec fn wf(&self) -> bool {
        let prefix = self.links@.subrange(0, self.next as int);
        &&& links_ordered(self.links@, self.doc@.len() as int)
        &&& self.links@.map_values(|m: AnchorMatch| match_view(m)) == links_in(self.doc@)
        &&& warm(self.links@, self.initial@) ==> self.cache@ == self.initial@
        &&& self.cache.wf()
        &&& self.next <= self.links@.len()
        &&& self.cursor <= self.doc@.len()
        &&& self.next < self.links@.len() ==> self.cursor <= self.links@[self.next as int].start
        &&& positions_ordered(inserts(prefix, self.cache@), self.cursor as int)
        &&& self.out@ == splice_all(self.doc@.subrange(0, self.cursor as int), inserts(prefix, self.cache@))
        &&& forall|i: int| 0 <= i < self.next && #[trigger] link_host(self.links@[i]) is Some ==> self.cache@.contains_key(link_host(self.links@[i]).unwrap())
        &&& self.processed <= self.next
        &&& self.succeeded + self.failed == self.processed
        &&& self.last_save <= self.processed
        &&& (self.phase == Phase::AwaitingFetch) == (self.pending is Some)
        &&& self.pending matches Some(h) ==> {
            &&& self.next < self.links@.len()
            &&& link_host(self.links@[self.next as int]) == Some(h@)
            &&& !self.cache@.contains_key(h@)
        }
        &&& self.phase == Phase::Completed ==> self.next == self.links@.len() && self.cursor == self.doc@.len()
    }
}

/// `new` is `old` after the link at `old.next_index()` was handled: it
/// counts as a success or a failure, its events are `outcome` and the
/// progress lines, after `skip` events that the caller describes, and a
/// checkpoint is due once 50 links were handled since the last one.
pub open spec fn item_done(old: Session, new: Session, r: Action, success: bool, outcome: LogEvent, skip: int) -> bool {
    let n = old.event_log().len() as int;
    let total = old.links_view().len() as usize;
    &&& new.current_phase() == Phase::Running
    &&& new.next_index() == old.next_index() + 1
    &&& new.processed_count() == old.processed_count() + 1
    &&& success ==> new.succeeded_count() == old.succeeded_count() + 1 && new.failed_count() == old.failed_count()
    &&& !success ==> new.failed_count() == old.failed_count() + 1 && new.succeeded_count() == old.succeeded_count()
    &&& new.event_log().len() >= n + skip
    &&& new.event_log().subrange(0, n) == old.event_log()
    &&& new.event_log().subrange(n + skip, new.event_log().len() as int) == seq![outcome] + progress_events(new.processed_count(), total)
    &&& if new.processed_count() - old.last_checkpoint() >= CHECKPOINT_INTERVAL {
        r is Checkpoint && new.last_checkpoint() == new.processed_count()
    } else {
        r is Continue && new.last_checkpoint() == old.last_checkpoint()
    }
}

/// Appends `src[a..b]` to `out`.
fn append_range(out: &mut Vec<u8>, src: &Vec<u8>, a: usize, b: usize)
    requires
        a <= b <= src@.len(),
    ensures
        final(out)@ == old(out)@ + src@.subrange(a as int, b as int),
{
    let ghost start = out@;
    let mut i: usize = a;
    while i < b
        invariant
            a <= i <= b <= src@.len(),
            out@ == start + src@.subrange(a as int, i as int),
        decreases b - i,
    {
        out.push(src[i]);
        assert(src@.subrange(a as int, i as int + 1) =~= src@.subrange(a as int, i as int).push(src@[i as int]));
        i = i + 1;
    }
}

/// Appends the icon attribute of `payload` to `out`.
fn append_attribute(out: &mut Vec<u8>, payload: &String)
    ensures
        final(out)@ == old(out)@ + icon_attribute(payload@),
{
    let ghost start = out@;
    // ` icon="`
    out.push(32u8);
    out.push(105u8);
    out.push(99u8);
    out.push(111u8);
    out.push(110u8);
    out.push(61u8);
    out.push(34u8);
    let ghost head = out@;
    assert(head =~= start + seq![32u8, 105u8, 99u8, 111u8, 110u8, 61u8, 34u8]);
    let bytes = payload.as_str().as_bytes();
    let mut i: usize = 0;
    while i < bytes.len()
        invariant
            i <= bytes@.len(),
            bytes@ == encode_utf8(payload@),
            out@ == head + bytes@.subrange(0, i as int),
        decreases bytes@.len() - i,
    {
        out.push(bytes[i]);
        assert(bytes@.subrange(0, i as int + 1) =~= bytes@.subrange(0, i as int).push(bytes@[i as int]));
        i = i + 1;
    }
    assert(bytes@.subrange(0, bytes@.len() as int) =~= bytes@);
    out.push(34u8);
    assert(out@ =~= old(out)@ + icon_attribute(payload@));
}

impl Session {
    /// Begins a run on a document, with the cache as it was loaded and the
    /// URL template of the icon provider.
    pub fn start(doc: Vec<u8>, cache: FaviconCache, template: String) -> (r: Session)
        requires
            cache.wf(),
        ensures
            r.wf(),
            r.current_phase() == Phase::Running,
            r.doc_view() == doc@,
            r.links_view().map_values(|m: AnchorMatch| match_view(m)) == links_in(doc@),
            r.template_view() == template@,
            r.cache_view() == cache@,
            r.initial_cache() == cache@,
            r.out_view() == Seq::<u8>::empty(),
            r.next_index() == 0,
            r.processed_count() == 0,
            r.succeeded_count() == 0,
            r.failed_count() == 0,
            r.last_checkpoint() == 0,
            r.event_log() == seq![LogEvent::Found { total: r.links_view().len() as usize }],
    {
        let links = extract_links(&doc);
        let total = links.len();
        let mut events: Vec<LogEvent> = Vec::new();
        events.push(LogEvent::Found { total });
        let ghost initial = cache@;
        let r = Session {
            doc,
            links,
            template,
            cache,
            out: Vec::new(),
            next: 0,
            cursor: 0,
            processed: 0,
            succeeded: 0,
            failed: 0,
            last_save: 0,
            pending: None,
            phase: Phase::Running,
            events,
            initial: Ghost(initial),
        };
        proof {
            assert(r.links@.subrange(0, 0) =~= Seq::<AnchorMatch>::empty());
            assert(r.doc@.subrange(0, 0) =~= Seq::<u8>::empty());
            if r.links@.len() > 0 {
                assert(r.links@[0].start < r.links@[0].end);
            }
        }
        r
    }

    /// Counts the link at `next` as handled; `payload` is what the cache
    /// holds for its host `h`.
    fn finish_item(&mut self, Ghost(h): Ghost<Seq<char>>, payload: Option<String>, outcome: LogEvent) -> (r: Action)
        requires
            old(self).wf(),
            old(self).phase == Phase::Running,
            old(self).next < old(self).links@.len(),
            link_host(old(self).links@[old(self).next as int]) == Some(h),
            old(self).cache@.contains_key(h),
            old(self).cache@[h] == value_view(payload),
        ensures
            final(self).wf(),
            final(self).doc@ == old(self).doc@,
            final(self).links@ == old(self).links@,
            final(self).template@ == old(self).template@,
            final(self).cache@ == old(self).cache@,
            final(self).initial@ == old(self).initial@,
            item_done(*old(self), *final(self), r, payload is Some, outcome, 0),
    {
        let ghost m = self.cache@;
        let ghost old_prefix = self.links@.subrange(0, self.next as int);
        let ghost new_prefix = self.links@.subrange(0, self.next as int + 1);
        let ghost ins = inserts(old_prefix, m);
        proof {
            assert(new_prefix.drop_last() =~= old_prefix);
            assert(new_prefix.last() == self.links@[self.next as int]);
        }
        let success = payload.is_some();
        match payload {
            Some(p) => {
                let q = self.links[self.next].end - 1;
                let ghost c = self.cursor as int;
                let ghost pre = self.doc@.subrange(0, q as int);
                append_range(&mut self.out, &self.doc, self.cursor, q);
                append_attribute(&mut self.out, &p);
                proof {
                    let attr = icon_attribute(p@);
                    assert(inserts(new_prefix, m) == ins.push((q as int, attr)));
                    lemma_splice_offset(pre, ins, c);
                    assert(pre.subrange(0, c) =~= self.doc@.subrange(0, c));
                    assert(pre.subrange(c, q as int) =~= self.doc@.subrange(c, q as int));
                    assert(pre.subrange(0, q as int) =~= pre);
                    assert(pre.subrange(q as int, q as int) =~= Seq::<u8>::empty());
                    assert(ins.push((q as int, attr)).drop_last() =~= ins);
                    assert(splice_all(pre, ins.push((q as int, attr))) == splice_all(pre.subrange(0, q as int), ins) + attr
                        + pre.subrange(q as int, pre.len() as int));
                    assert(self.out@ =~= splice_all(pre, ins.push((q as int, attr))));
                    let ni = ins.push((q as int, attr));
                    assert(positions_ordered(ni, q as int)) by {
                        assert forall|i: int, j: int| 0 <= i < j < ni.len() implies #[trigger] ni[i].0 <= #[trigger] ni[j].0 by {
                            if j < ins.len() {
                                assert(ins[i].0 <= ins[j].0);
                            } else {
                                assert(ins[i].0 <= c);
                            }
                        }
                        assert forall|i: int| 0 <= i < ni.len() implies 0 <= #[trigger] ni[i].0 <= q as int by {
                            if i < ins.len() {
                                assert(0 <= ins[i].0 <= c);
                            }
                        }
                    }
                    if self.next + 1 < self.links@.len() {
                        assert(self.links@[self.next as int].end <= self.links@[self.next + 1].start);
                    }
                }
                self.cursor = q;
            },
            None => {
                proof {
                    assert(inserts(new_prefix, m) == ins);
                    if self.next + 1 < self.links@.len() {
                        assert(self.links@[self.next as int].end <= self.links@[self.next + 1].start);
                    }
                }
            },
        }
        let total = self.links.len();
        assert(self.next < total);
        self.next = self.next + 1;
        self.processed = self.processed + 1;
        if success {
            self.succeeded = self.succeeded + 1;
        } else {
            self.failed = self.failed + 1;
        }
        let ghost n = self.events@.len();
        self.events.push(outcome);
        if self.processed % PROGRESS_INTERVAL == 0 || self.processed == total {
            self.events.push(LogEvent::Progress { processed: self.processed, total });
        }
        assert(self.events@.subrange(n as int, self.events@.len() as int) =~= seq![outcome] + progress_events(self.processed, total));
        assert(self.events@.subrange(0, n as int) =~= old(self).events@);
        if self.processed - self.last_save >= CHECKPOINT_INTERVAL {
            self.last_save = self.processed;
            Action::Checkpoint
        } else {
            Action::Continue
        }
    }

    /// Handles the next link, or ends the run once every link is handled
    /// (cancelled or not). A cancelled run stops before the next link. A link without a host is passed over. A host with a
    /// fetched icon or a recorded failure is settled from the cache; any other
    /// host asks for a fetch.
    pub fn step(&mut self, cancelled: bool) -> (r: Action)
        requires
            old(self).wf(),
            old(self).current_phase() == Phase::Running,
        ensures
            final(self).wf(),
            final(self).doc_view() == old(self).doc_view(),
            final(self).links_view() == old(self).links_view(),
            final(self).template_view() == old(self).template_view(),
            final(self).cache_view() == old(self).cache_view(),
            final(self).initial_cache() == old(self).initial_cache(),
            cancelled && old(self).next_index() < old(self).links_view().len() ==> {
                &&& r is Abort
                &&& final(self).current_phase() == Phase::Aborted
                &&& final(self).next_index() == old(self).next_index()
                &&& final(self).processed_count() == old(self).processed_count()
                &&& final(self).out_view() == old(self).out_view()
                &&& final(self).event_log() == old(self).event_log().push(LogEvent::Aborted)
            },
            old(self).next_index() == old(self).links_view().len() ==> {
                &&& r is Finish
                &&& final(self).current_phase() == Phase::Completed
                &&& final(self).out_view() == enriched(old(self).doc_view(), old(self).links_view(), old(self).cache_view())
                &&& final(self).processed_count() == old(self).processed_count()
                &&& final(self).event_log() == old(self).event_log().push(
                    LogEvent::Completed {
                        succeeded: old(self).succeeded_count(),
                        failed: old(self).failed_count(),
                        total: old(self).links_view().len() as usize,
                    },
                )
            },
            !cancelled && old(self).next_index() < old(self).links_view().len() ==> match link_host(
                old(self).links_view()[old(self).next_index()],
            ) {
                None => {
                    &&& r is Continue
                    &&& final(self).current_phase() == Phase::Running
                    &&& final(self).next_index() == old(self).next_index() + 1
                    &&& final(self).processed_count() == old(self).processed_count()
                    &&& final(self).succeeded_count() == old(self).succeeded_count()
                    &&& final(self).failed_count() == old(self).failed_count()
                    &&& final(self).last_checkpoint() == old(self).last_checkpoint()
                    &&& final(self).event_log() == old(self).event_log()
                },
                Some(h) => {
                    let n = old(self).event_log().len() as int;
                    &&& final(self).event_log().len() > n
                    &&& is_fetching(final(self).event_log()[n], old(self).processed_count(), old(self).links_view().len() as usize, h)
                    &&& if !old(self).cache_view().contains_key(h) {
                        &&& r matches Action::Fetch(u) && u@ == icon_url(old(self).template_view(), h)
                        &&& final(self).current_phase() == Phase::AwaitingFetch
                        &&& final(self).pending_host() == Some(h)
                        &&& final(self).next_index() == old(self).next_index()
                        &&& final(self).processed_count() == old(self).processed_count()
                        &&& final(self).succeeded_count() == old(self).succeeded_count()
                        &&& final(self).failed_count() == old(self).failed_count()
                        &&& final(self).last_checkpoint() == old(self).last_checkpoint()
                        &&& final(self).event_log().len() == n + 1
                        &&& final(self).event_log().subrange(0, n) == old(self).event_log()
                    } else if old(self).cache_view()[h] is Some {
                        item_done(*old(self), *final(self), r, true, LogEvent::Succeeded, 1)
                    } else {
                        item_done(*old(self), *final(self), r, false, LogEvent::Failed(FailReason::PreviouslyFailed), 1)
                    }
                },
            },
            // No host with an entry in the cache is ever fetched.
            r is Fetch ==> (old(self).next_index() < old(self).links_view().len() && (link_host(
                old(self).links_view()[old(self).next_index()],
            ) matches Some(h) && !old(self).cache_view().contains_key(h))),
            // With every host's icon at hand, nothing is fetched.
            warm(old(self).links_view(), old(self).cache_view()) ==> !(r is Fetch),
    {
        if self.next == self.links.len() {
            let ghost c = self.cursor as int;
            let ghost ins = inserts(self.links@.subrange(0, self.next as int), self.cache@);
            let len = self.doc.len();
            append_range(&mut self.out, &self.doc, self.cursor, len);
            proof {
                lemma_splice_offset(self.doc@, ins, c);
                assert(self.links@.subrange(0, self.next as int) =~= self.links@);
                assert(self.doc@.subrange(0, len as int) =~= self.doc@);
            }
            self.cursor = len;
            self.phase = Phase::Completed;
            self.events.push(
                LogEvent::Completed { succeeded: self.succeeded, failed: self.failed, total: self.links.len() },
            );
            return Action::Finish;
        }
        if cancelled {
            self.phase = Phase::Aborted;
            self.events.push(LogEvent::Aborted);
            return Action::Abort;
        }
        let ghost old_prefix = self.links@.subrange(0, self.next as int);
        let ghost new_prefix = self.links@.subrange(0, self.next as int + 1);
        proof {
            assert(new_prefix.drop_last() =~= old_prefix);
            assert(new_prefix.last() == self.links@[self.next as int]);
        }
        match parse_host(self.links[self.next].href.as_slice()) {
            None => {
                proof {
                    if self.next + 1 < self.links@.len() {
                        assert(self.links@[self.next as int].end <= self.links@[self.next + 1].start);
                    }
                }
                self.next = self.next + 1;
                Action::Continue
            },
            Some(h) => {
                let ghost hv = h@;
                let total = self.links.len();
                let ghost n = self.events@.len();
                self.events.push(LogEvent::Fetching { processed: self.processed, total, host: h.clone() });
                let ghost mid = self.events@;
                assert(mid.subrange(0, n as int) =~= old(self).events@);
                match self.cache.lookup(&h) {
                    CacheEntry::Resolved(p) => {
                        let r = self.finish_item(Ghost(hv), Some(p), LogEvent::Succeeded);
                        assert(self.events@.subrange(0, n as int + 1) == mid);
                        assert(self.events@.subrange(0, n as int) =~= mid.subrange(0, n as int));
                        assert(self.events@[n as int] == mid[n as int]);
                        r
                    },
                    CacheEntry::PermanentFailure => {
                        let r = self.finish_item(Ghost(hv), None, LogEvent::Failed(FailReason::PreviouslyFailed));
                        assert(self.events@.subrange(0, n as int + 1) == mid);
                        assert(self.events@.subrange(0, n as int) =~= mid.subrange(0, n as int));
                        assert(self.events@[n as int] == mid[n as int]);
                        r
                    },
                    CacheEntry::Unresolved => {
                        let url = fill_template(self.template.as_str(), h.as_str());
                        self.pending = Some(h);
                        self.phase = Phase::AwaitingFetch;
                        assert(self.events@.subrange(0, n as int) =~= old(self).events@);
                        Action::Fetch(url)
                    },
                }
            },
        }
    }

    /// Takes the outcome of the fetch asked for by `step`: the host's entry
    /// becomes the payload or a permanent failure, and the link is handled.
    pub fn complete_fetch(&mut self, outcome: Result<String, FetchError>) -> (r: Action)
        requires
            old(self).wf(),
            old(self).current_phase() == Phase::AwaitingFetch,
        ensures
            final(self).wf(),
            final(self).doc_view() == old(self).doc_view(),
            final(self).links_view() == old(self).links_view(),
            final(self).template_view() == old(self).template_view(),
            final(self).pending_host() == None::<Seq<char>>,
            final(self).initial_cache() == old(self).initial_cache(),
            match outcome {
                Ok(p) => {
                    &&& final(self).cache_view() == old(self).cache_view().insert(old(self).pending_host().unwrap(), Some(p@))
                    &&& item_done(*old(self), *final(self), r, true, LogEvent::Succeeded, 0)
                },
                Err(e) => {
                    &&& final(self).cache_view() == old(self).cache_view().insert(old(self).pending_host().unwrap(), None)
                    &&& item_done(*old(self), *final(self), r, false, LogEvent::Failed(FailReason::Fetch(e)), 0)
                },
            },
    {
        let h = match &self.pending {
            Some(h) => h.clone(),
            None => {
                proof {
                    assert(false);
                }
                String::new()
            },
        };
        let ghost hv = h@;
        let ghost m1 = self.cache@;
        proof {
            if warm(self.links@, self.initial@) {
                assert(link_host(self.links@[self.next as int]) is Some);
            }
        }
        let ghost prefix = self.links@.subrange(0, self.next as int);
        self.pending = None;
        self.phase = Phase::Running;
        let (payload, event) = match outcome {
            Ok(p) => (Some(p), LogEvent::Succeeded),
            Err(e) => (None, LogEvent::Failed(FailReason::Fetch(e))),
        };
        match &payload {
            Some(p) => self.cache.put(h, Some(p.clone())),
            None => self.cache.put(h, None),
        }
        proof {
            assert forall|i: int| 0 <= i < prefix.len() && #[trigger] link_host(prefix[i]) is Some implies m1.contains_key(link_host(prefix[i]).unwrap()) by {
                assert(prefix[i] == self.links@[i]);
            }
            lemma_inserts_stable(prefix, m1, self.cache@);
        }
        self.finish_item(Ghost(hv), payload, event)
    }

    /// Links handled, and links in the document.
    pub fn progress(&self) -> (r: (usize, usize))
        ensures
            r.0 == self.processed_count(),
            r.1 == self.links_view().len(),
    {
        (self.processed, self.links.len())
    }

    /// Links that got an icon, and links that did not.
    pub fn counts(&self) -> (r: (usize, usize))
        ensures
            r.0 == self.succeeded_count(),
            r.1 == self.failed_count(),
    {
        (self.succeeded, self.failed)
    }

    pub fn phase(&self) -> (r: Phase)
        ensures
            r == self.current_phase(),
    {
        self.phase
    }

    /// The document as far as it is built; all of it once the run completed.
    pub fn output(&self) -> (r: &Vec<u8>)
        ensures
            r@ == self.out_view(),
    {
        &self.out
    }

    /// The cache, as the run has left it so far.
    pub fn cache(&self) -> (r: &FaviconCache)
        requires
            self.wf(),
        ensures
            r@ == self.cache_view(),
            r.wf(),
    {
        &self.cache
    }

    /// Hands over the log lines gathered since the last call.
    pub fn take_events(&mut self) -> (r: Vec<LogEvent>)
        requires
            old(self).wf(),
        ensures
            final(self).wf(),
            r@ == old(self).event_log(),
            final(self).event_log() == Seq::<LogEvent>::empty(),
            final(self).doc_view() == old(self).doc_view(),
            final(self).links_view() == old(self).links_view(),
            final(self).template_view() == old(self).template_view(),
            final(self).cache_view() == old(self).cache_view(),
            final(self).out_view() == old(self).out_view(),
            final(self).current_phase() == old(self).current_phase(),
            final(self).next_index() == old(self).next_index(),
            final(self).processed_count() == old(self).processed_count(),
            final(self).succeeded_count() == old(self).succeeded_count(),
            final(self).failed_count() == old(self).failed_count(),
            final(self).last_checkpoint() == old(self).last_checkpoint(),
            final(self).pending_host() == old(self).pending_host(),
            final(self).initial_cache() == old(self).initial_cache(),
    {
        let mut taken: Vec<LogEvent> = Vec::new();
        std::mem::swap(&mut taken, &mut self.events);
        taken
    }
}

/// The views of links.
pub open spec fn link_views(l: Seq<AnchorMatch>) -> Seq<(usize, usize, Seq<u8>)> {
    l.map_values(|x: AnchorMatch| match_view(x))
}

proof fn lemma_inserts_same_views(l1: Seq<AnchorMatch>, l2: Seq<AnchorMatch>, m: Map<Seq<char>, Option<Seq<char>>>)
    requires
        link_views(l1) == link_views(l2),
    ensures
        inserts(l1, m) == inserts(l2, m),
        warm(l1, m) ==> warm(l2, m),
    decreases l1.len(),
{
    assert(l1.len() == link_views(l2).len());
    assert forall|i: int| 0 <= i < l1.len() implies #[trigger] l1[i].end == l2[i].end && l1[i].href@ == l2[i].href@ by {
        assert(link_views(l1)[i] == link_views(l2)[i]);
    }
    if warm(l1, m) {
        assert forall|i: int| 0 <= i < l2.len() && #[trigger] link_host(l2[i]) is Some implies m.contains_key(
            link_host(l2[i]).unwrap(),
        ) && m[link_host(l2[i]).unwrap()] is Some by {
            assert(link_views(l1)[i] == link_views(l2)[i]);
            assert(link_host(l1[i]) == link_host(l2[i]));
        }
    }
    if l1.len() > 0 {
        let (i1, i2) = (l1.drop_last(), l2.drop_last());
        assert(link_views(i1) =~= link_views(i2)) by {
            assert forall|i: int| 0 <= i < i1.len() implies link_views(i1)[i] == link_views(i2)[i] by {
                assert(i1[i] == l1[i]);
                assert(i2[i] == l2[i]);
                assert(link_views(l1)[i] == link_views(l2)[i]);
            }
        }
        lemma_inserts_same_views(i1, i2, m);
        let k = l1.len() - 1;
        assert(l1[k].end == l2[k].end && l1[k].href@ == l2[k].href@);
        assert(link_insert(l1.last(), m) == link_insert(l2.last(), m));
    }
}

/// Two completed runs over the same document, each started from the same
/// cache in which every host of the document has a fetched icon, write
/// byte-identical documents and leave that cache as it was.
pub proof fn lemma_warm_runs_agree(a: Session, b: Session)
    requires
        a.wf(),
        b.wf(),
        a.current_phase() == Phase::Completed,
        b.current_phase() == Phase::Completed,
        a.doc_view() == b.doc_view(),
        a.initial_cache() == b.initial_cache(),
        warm(a.links_view(), a.initial_cache()),
    ensures
        a.out_view() == b.out_view(),
        a.out_view() == enriched(a.doc_view(), a.links_view(), a.initial_cache()),
        a.cache_view() == a.initial_cache(),
        b.cache_view() == b.initial_cache(),
{
    lemma_inserts_same_views(a.links@, b.links@, a.initial@);
    assert(a.links@.subrange(0, a.next as int) =~= a.links@);
    assert(b.links@.subrange(0, b.next as int) =~= b.links@);
    assert(a.doc@.subrange(0, a.cursor as int) =~= a.doc@);
    assert(b.doc@.subrange(0, b.cursor as int) =~= b.doc@);
}

} // verus!
