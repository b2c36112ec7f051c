use crate::configuration::{servers_view, Configuration, Server, ServerID, ServerSuffrage, ServerView};
use vstd::prelude::*;
use vstd::relations::{sorted_by, total_ordering};
use vstd::seq_lib::lemma_sorted_unique;

verus! {

/// A single-slot signal to the apply loop. Each advance of the commit index
/// sets it; an advance while it is already set coalesces into it.
#[derive(Debug, Clone, Copy, PartialEq, Eq, Structural)]
pub struct CommitSignal {
    pub pending: bool,
}

impl CommitSignal {
    /// A signal with nothing pending.
    pub fn new() -> (r: CommitSignal)
        ensures
            !r.pending,
    {
        CommitSignal { pending: false }
    }

    /// Marks an advance as pending.
    pub fn notify(&mut self)
        ensures
            final(self).pending,
    {
        self.pending = true;
    }

    /// Takes the pending advance, if any, leaving the slot empty.
    pub fn take(&mut self) -> (r: bool)
        ensures
            r == old(self).pending,
            !final(self).pending,
    {
        let r = self.pending;
        self.pending = false;
        r
    }
}

/// The recorded replication progress of one voter.
#[derive(Debug, Clone)]
pub struct VoterProgress {
    pub id: ServerID,
    pub match_index: u64,
}

/// One leader term's view of voter progress and the commit index it yields.
#[derive(Debug, Clone)]
pub struct Commitment {
    pub commit_ch: CommitSignal,
    pub match_indexes: Vec<VoterProgress>,
    pub commit_index: u64,
    pub start_index: u64,
}

/// The tracked voters as (id, match index) pairs.
pub type Progress = Seq<(Seq<char>, u64)>;

/// The mathematical value of a `Commitment`.
pub struct CommitmentView {
    pub progress: Progress,
    pub commit_index: u64,
    pub start_index: u64,
    pub pending: bool,
}

/// The (id, match index) pairs of a list of voter records.
pub open spec fn progress_view(v: Seq<VoterProgress>) -> Progress {
    v.map_values(|p: VoterProgress| (p.id@, p.match_index))
}

impl View for Commitment {
    type V = CommitmentView;

    open spec fn view(&self) -> CommitmentView {
        CommitmentView {
            progress: progress_view(self.match_indexes@),
            commit_index: self.commit_index,
            start_index: self.start_index,
            pending: self.commit_ch.pending,
        }
    }
}

/// No voter is tracked twice.
pub open spec fn ids_unique(e: Progress) -> bool {
    forall|i: int, j: int| 0 <= i < j < e.len() ==> e[i].0 != e[j].0
}

/// Whether a voter with this id is tracked.
pub open spec fn is_tracked(e: Progress, id: Seq<char>) -> bool {
    exists|i: int| 0 <= i < e.len() && e[i].0 == id
}

/// The recorded match index of a voter; 0 for one that is not tracked.
pub open spec fn progress_of(e: Progress, id: Seq<char>) -> u64 {
    if is_tracked(e, id) {
        e[choose|i: int| 0 <= i < e.len() && e[i].0 == id].1
    } else {
        0
    }
}

/// The recorded match indexes, one per tracked voter.
pub open spec fn match_values(e: Progress) -> Seq<u64> {
    e.map_values(|p: (Seq<char>, u64)| p.1)
}

/// The ascending order on indexes.
pub open spec fn ascending() -> spec_fn(u64, u64) -> bool {
    |a: u64, b: u64| a <= b
}

/// The lower median of the values: the value at position (n-1)/2 once they
/// are sorted ascending.
pub open spec fn quorum_index(values: Seq<u64>) -> u64 {
    values.sort_by(ascending())[(values.len() - 1) / 2]
}

/// The commit index after recomputation from the recorded progress.
pub open spec fn advanced_commit(commit_index: u64, start_index: u64, e: Progress) -> u64 {
    if e.len() == 0 {
        commit_index
    } else {
        let q = quorum_index(match_values(e));
        if q > commit_index && q >= start_index {
            q
        } else {
            commit_index
        }
    }
}

/// The voter records for the first `n` servers: one per voter id, in order of
/// first appearance, each keeping its earlier progress or starting at 0.
pub open spec fn rebuilt(earlier: Progress, servers: Seq<ServerView>, n: int) -> Progress
    decreases n,
{
    if n <= 0 {
        Seq::empty()
    } else {
        let acc = rebuilt(earlier, servers, n - 1);
        let s = servers[n - 1];
        if s.suffrage == ServerSuffrage::Voter && !is_tracked(acc, s.id) {
            acc.push((s.id, progress_of(earlier, s.id)))
        } else {
            acc
        }
    }
}

/// The voter records for a configuration, carrying over earlier progress.
pub open spec fn tracked_voters(earlier: Progress, servers: Seq<ServerView>) -> Progress {
    rebuilt(earlier, servers, servers.len() as int)
}

/// The records with this voter's match index replaced.
pub open spec fn with_progress(e: Progress, id: Seq<char>, index: u64) -> Progress {
    e.map_values(
        |p: (Seq<char>, u64)|
            if p.0 == id {
                (id, index)
            } else {
                p
            },
    )
}

/// The state after recomputing the commit index.
pub open spec fn after_recalculate(v: CommitmentView) -> CommitmentView {
    let c = advanced_commit(v.commit_index, v.start_index, v.progress);
    CommitmentView {
        progress: v.progress,
        commit_index: c,
        start_index: v.start_index,
        pending: v.pending || c > v.commit_index,
    }
}

/// The state after a progress report from a voter.
pub open spec fn after_match(v: CommitmentView, id: Seq<char>, index: u64) -> CommitmentView {
    if is_tracked(v.progress, id) && index > progress_of(v.progress, id) {
        after_recalculate(
            CommitmentView {
                progress: with_progress(v.progress, id, index),
                commit_index: v.commit_index,
                start_index: v.start_index,
                pending: v.pending,
            },
        )
    } else {
        v
    }
}

/// The state after switching to a new configuration.
pub open spec fn after_configuration(v: CommitmentView, servers: Seq<ServerView>) -> CommitmentView {
    after_recalculate(
        CommitmentView {
            progress: tracked_voters(v.progress, servers),
            commit_index: v.commit_index,
            start_index: v.start_index,
            pending: v.pending,
        },
    )
}

/// The ascending order is a total order.
proof fn lemma_ascending_total()
    ensures
        total_ordering(ascending()),
{
}

/// Any ascending arrangement of the values has the quorum index at position
/// (n-1)/2, whatever order the values were reported in.
pub proof fn lemma_quorum_index_is_lower_median(values: Seq<u64>, sorted: Seq<u64>)
    requires
        values.len() > 0,
        sorted_by(sorted, ascending()),
        sorted.to_multiset() == values.to_multiset(),
    ensures
        sorted.len() == values.len(),
        quorum_index(values) == sorted[(values.len() - 1) / 2],
{
    values.lemma_sort_by_ensures(ascending());
    lemma_ascending_total();
    lemma_sorted_unique(sorted, values.sort_by(ascending()), ascending());
    sorted.to_multiset_ensures();
    values.to_multiset_ensures();
}

/// The quorum index depends only on the values reported, not on their order.
pub proof fn lemma_quorum_index_order_free(a: Seq<u64>, b: Seq<u64>)
    requires
        a.to_multiset() == b.to_multiset(),
        a.len() > 0,
    ensures
        quorum_index(a) == quorum_index(b),
{
    b.lemma_sort_by_ensures(ascending());
    lemma_quorum_index_is_lower_median(a, b.sort_by(ascending()));
    b.to_multiset_ensures();
    a.to_multiset_ensures();
    lemma_quorum_index_is_lower_median(b, b.sort_by(ascending()));
}

/// The values, sorted ascending.
fn sort_ascending(v: &Vec<u64>) -> (r: Vec<u64>)
    ensures
        sorted_by(r@, ascending()),
        r@.to_multiset() == v@.to_multiset(),
{
    let n = v.len();
    let mut r: Vec<u64> = Vec::new();
    let mut i: usize = 0;
    assert(v@.subrange(0, 0) =~= r@);
    while i < n
        invariant
            n == v.len(),
            0 <= i <= n,
            r@.len() == i,
            forall|a: int, b: int| 0 <= a < b < r@.len() ==> r@[a] <= r@[b],
            r@.to_multiset() == v@.subrange(0, i as int).to_multiset(),
        decreases n - i,
    {
        let x = v[i];
        let mut j: usize = 0;
        while j < r.len() && r[j] <= x
            invariant
                0 <= j <= r@.len(),
                forall|k: int| 0 <= k < j ==> r@[k] <= x,
            decreases r@.len() - j,
        {
            j += 1;
        }
        let ghost before = r@;
        r.insert(j, x);
        assert(forall|k: int| j <= k < before.len() ==> before[j as int] <= before[k]);
        assert(v@.subrange(0, i + 1) =~= v@.subrange(0, i as int).push(x));
        proof {
            vstd::seq_lib::to_multiset_insert(before, j as int, x);
            vstd::seq_lib::to_multiset_build(v@.subrange(0, i as int), x);
        }
        i += 1;
    }
    assert(v@.subrange(0, n as int) =~= v@);
    r
}

/// Under unique ids, the record at `p` is the one `progress_of` reads.
proof fn lemma_progress_at(e: Progress, id: Seq<char>, p: int)
    requires
        ids_unique(e),
        0 <= p < e.len(),
        e[p].0 == id,
    ensures
        is_tracked(e, id),
        progress_of(e, id) == e[p].1,
{
    assert(is_tracked(e, id));
    let k = choose|i: int| 0 <= i < e.len() && e[i].0 == id;
    if k < p {
        assert(e[k].0 != e[p].0);
    } else if p < k {
        assert(e[p].0 != e[k].0);
    }
}

/// The position of the record for this voter.
fn find_progress(records: &Vec<VoterProgress>, id: &String) -> (r: Option<usize>)
    ensures
        match r {
            Some(p) => p < records@.len() && progress_view(records@)[p as int].0 == id@,
            None => !is_tracked(progress_view(records@), id@),
        },
{
    let ghost e = progress_view(records@);
    let n = records.len();
    let mut i: usize = 0;
    while i < n
        invariant
            n == records.len(),
            e == progress_view(records@),
            0 <= i <= n,
            forall|k: int| 0 <= k < i ==> e[k].0 != id@,
        decreases n - i,
    {
        if records[i].id == *id {
            return Some(i);
        }
        i += 1;
    }
    None
}

/// The voter records for a configuration, carrying over earlier progress.
fn rebuild_progress(earlier: &Vec<VoterProgress>, servers: &Vec<Server>) -> (r: Vec<VoterProgress>)
    requires
        ids_unique(progress_view(earlier@)),
    ensures
        progress_view(r@) == tracked_voters(progress_view(earlier@), servers_view(servers@)),
        ids_unique(progress_view(r@)),
{
    let ghost e = progress_view(earlier@);
    let ghost s = servers_view(servers@);
    let n = servers.len();
    let mut r: Vec<VoterProgress> = Vec::new();
    let mut i: usize = 0;
    assert(progress_view(r@) =~= rebuilt(e, s, 0));
    while i < n
        invariant
            n == servers.len(),
            e == progress_view(earlier@),
            s == servers_view(servers@),
            ids_unique(e),
            0 <= i <= n,
            progress_view(r@) == rebuilt(e, s, i as int),
            ids_unique(progress_view(r@)),
        decreases n - i,
    {
        let server = &servers[i];
        if server.suffrage == ServerSuffrage::Voter {
            if find_progress(&r, &server.id).is_none() {
                let m = match find_progress(earlier, &server.id) {
                    Some(p) => {
                        proof {
                            lemma_progress_at(e, server.id@, p as int);
                        }
                        earlier[p].match_index
                    },
                    None => 0,
                };
                let ghost before = progress_view(r@);
                r.push(VoterProgress { id: server.id.clone(), match_index: m });
                assert(progress_view(r@) =~= before.push((server.id@, m)));
            }
        }
        i += 1;
    }
    r
}

/// An event that changes a tracker: a progress report or a new configuration.
pub enum TrackerEvent {
    Match { id: Seq<char>, index: u64 },
    Reconfigure { servers: Seq<ServerView> },
}

/// The state after one event.
pub open spec fn after_event(v: CommitmentView, event: TrackerEvent) -> CommitmentView {
    match event {
        TrackerEvent::Match { id, index } => after_match(v, id, index),
        TrackerEvent::Reconfigure { servers } => after_configuration(v, servers),
    }
}

/// The state after a sequence of events, applied in order.
pub open spec fn after_events(v: CommitmentView, events: Seq<TrackerEvent>) -> CommitmentView
    decreases events.len(),
{
    if events.len() == 0 {
        v
    } else {
        after_event(after_events(v, events.drop_last()), events.last())
    }
}

/// The commit index never decreases, across any sequence of progress reports
/// and configuration changes on the same tracker.
pub proof fn lemma_commit_index_monotonic(v: CommitmentView, events: Seq<TrackerEvent>)
    ensures
        after_events(v, events).commit_index >= v.commit_index,
    decreases events.len(),
{
    if events.len() > 0 {
        lemma_commit_index_monotonic(v, events.drop_last());
    }
}

/// A report from a server that is no newer than its previous report leaves
/// the state unchanged.
pub proof fn lemma_stale_report_ignored(v: CommitmentView, id: Seq<char>, newer: u64, stale: u64)
    requires
        stale <= newer,
    ensures
        after_match(after_match(v, id, newer), id, stale) == after_match(v, id, newer),
{
    let e = v.progress;
    if is_tracked(e, id) && newer > progress_of(e, id) {
        let w = with_progress(e, id, newer);
        let k = choose|i: int| 0 <= i < e.len() && e[i].0 == id;
        assert(w[k].0 == id);
        assert(is_tracked(w, id));
        let m = choose|i: int| 0 <= i < w.len() && w[i].0 == id;
        assert(w[m] == (if e[m].0 == id { (id, newer) } else { e[m] }));
        assert(progress_of(w, id) == newer);
    }
}

impl Commitment {
    /// The records track each voter once.
    pub open spec fn wf(&self) -> bool {
        ids_unique(progress_view(self.match_indexes@))
    }

    /// Tracks every voter of the configuration at match index 0, with commit
    /// index 0. Nonvoters and staging servers are not tracked.
    pub fn new(commit_ch: CommitSignal, configuration: Configuration, start_index: u64) -> (r: Self)
        ensures
            r.wf(),
            r@ == (CommitmentView {
                progress: tracked_voters(Seq::empty(), configuration@),
                commit_index: 0,
                start_index: start_index,
                pending: commit_ch.pending,
            }),
    {
        let none: Vec<VoterProgress> = Vec::new();
        let match_indexes = rebuild_progress(&none, &configuration.servers);
        assert(progress_view(none@) =~= Seq::empty());
        Commitment { commit_ch, match_indexes, commit_index: 0, start_index }
    }

    /// Switches to a new configuration: its voters are tracked, a voter kept
    /// from before keeps its progress, a new one starts at 0; then the commit
    /// index is recomputed. The commit index never decreases.
    pub fn set_configuration(&mut self, configuration: &Configuration)
        requires
            old(self).wf(),
        ensures
            final(self).wf(),
            final(self)@ == after_configuration(old(self)@, configuration@),
            final(self).commit_index >= old(self).commit_index,
    {
        let records = rebuild_progress(&self.match_indexes, &configuration.servers);
        self.match_indexes = records;
        self.recalculate();
    }

    /// The current commit index.
    pub fn get_commit_index(&self) -> (r: u64)
        ensures
            r == self.commit_index,
    {
        self.commit_index
    }

    /// Records a progress report. It is ignored unless the server is a tracked
    /// voter and the index exceeds what was recorded for it; an accepted report
    /// recomputes the commit index.
    pub fn commitment_match(&mut self, server: &ServerID, match_index: u64)
        requires
            old(self).wf(),
        ensures
            final(self).wf(),
            final(self)@ == after_match(old(self)@, server@, match_index),
            final(self).commit_index >= old(self).commit_index,
    {
        let ghost e = progress_view(self.match_indexes@);
        if let Some(p) = find_progress(&self.match_indexes, server) {
            proof {
                lemma_progress_at(e, server@, p as int);
            }
            if match_index > self.match_indexes[p].match_index {
                let id = self.match_indexes[p].id.clone();
                self.match_indexes.set(p, VoterProgress { id, match_index });
                assert(progress_view(self.match_indexes@) =~= with_progress(e, server@, match_index));
                self.recalculate();
            }
        }
    }

    /// Recomputes the commit index: the lower median of the recorded match
    /// indexes becomes the commit index where it exceeds the current one and
    /// is at least the start index. An advance sets the commit signal.
    pub fn recalculate(&mut self)
        ensures
            final(self).match_indexes@ == old(self).match_indexes@,
            final(self)@ == after_recalculate(old(self)@),
            final(self).commit_index >= old(self).commit_index,
    {
        let n = self.match_indexes.len();
        if n == 0 {
            return;
        }
        let ghost values = match_values(progress_view(self.match_indexes@));
        let mut matched: Vec<u64> = Vec::with_capacity(n);
        let mut i: usize = 0;
        while i < n
            invariant
                n == self.match_indexes.len(),
                values == match_values(progress_view(self.match_indexes@)),
                0 <= i <= n,
                matched@.len() == i,
                forall|k: int| 0 <= k < i ==> #[trigger] matched@[k] == values[k],
            decreases n - i,
        {
            matched.push(self.match_indexes[i].match_index);
            i += 1;
        }
        assert(matched@ =~= values);
        let sorted = sort_ascending(&matched);
        proof {
            lemma_quorum_index_is_lower_median(matched@, sorted@);
        }
        let q = sorted[(n - 1) / 2];
        if q > self.commit_index && q >= self.start_index {
            self.commit_index = q;
            self.commit_ch.notify();
        }
    }

    /// Takes the pending commit notification, if any.
    pub fn take_commit_notification(&mut self) -> (r: bool)
        ensures
            r == old(self)@.pending,
            final(self)@ == (CommitmentView { pending: false, ..old(self)@ }),
            final(self).match_indexes@ == old(self).match_indexes@,
    {
        self.commit_ch.take()
    }
}

} // verus!
