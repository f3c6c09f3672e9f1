use vstd::prelude::*;
use crate::modes::Category;
use crate::strutil::{str_eq, contains_string};

verus! {

// ---------------------------------------------------------------------------
// Statuses
// ---------------------------------------------------------------------------

/// Outcome recorded for one item by one deploy pass.
#[derive(Clone, Debug, PartialEq, Eq)]
pub enum DeployStatus {
    Deployed,
    Skipped(String),
    Error(String),
}

/// Mathematical value of a `DeployStatus`.
#[verifier::ext_equal]
pub enum StatusView {
    Deployed,
    Skipped(Seq<char>),
    Error(Seq<char>),
}

impl View for DeployStatus {
    type V = StatusView;

    open spec fn view(&self) -> StatusView {
        match self {
            DeployStatus::Deployed => StatusView::Deployed,
            DeployStatus::Skipped(reason) => StatusView::Skipped(reason@),
            DeployStatus::Error(reason) => StatusView::Error(reason@),
        }
    }
}

// ---------------------------------------------------------------------------
// Aggregated results
// ---------------------------------------------------------------------------

/// One item's aggregated result across all deploy passes.
#[derive(Clone, Debug)]
pub struct AggregatedResult {
    pub name: String,
    pub category: Category,
    pub status: DeployStatus,
    pub targets: Vec<String>,
    pub details: Vec<String>,
}

/// Mathematical value of an `AggregatedResult`.
#[verifier::ext_equal]
pub struct AggView {
    pub name: Seq<char>,
    pub category: Category,
    pub status: StatusView,
    pub targets: Seq<Seq<char>>,
    pub details: Seq<Seq<char>>,
}

impl View for AggregatedResult {
    type V = AggView;

    open spec fn view(&self) -> AggView {
        AggView {
            name: self.name@,
            category: self.category,
            status: self.status@,
            targets: self.targets.deep_view(),
            details: self.details.deep_view(),
        }
    }
}

/// First index whose entry carries `name`, or `-1` when there is none.
pub open spec fn index_of_name(rs: Seq<AggView>, name: Seq<char>) -> int
    decreases rs.len(),
{
    if rs.len() == 0 {
        -1
    } else if rs[0].name == name {
        0
    } else {
        let r = index_of_name(rs.skip(1), name);
        if r < 0 {
            -1
        } else {
            r + 1
        }
    }
}

pub proof fn lemma_index_of_name(rs: Seq<AggView>, name: Seq<char>)
    ensures
        index_of_name(rs, name) == -1 ==> forall|i: int|
            0 <= i < rs.len() ==> rs[i].name != name,
        index_of_name(rs, name) != -1 ==> {
            let r = index_of_name(rs, name);
            &&& 0 <= r < rs.len()
            &&& rs[r].name == name
            &&& forall|i: int| 0 <= i < r ==> rs[i].name != name
        },
    decreases rs.len(),
{
    if rs.len() > 0 && rs[0].name != name {
        lemma_index_of_name(rs.skip(1), name);
        assert(forall|i: int| 1 <= i < rs.len() ==> rs[i] == rs.skip(1)[i - 1]);
    }
}

/// Status precedence when one item is reported again: an error overwrites
/// anything, a deployment overwrites a prior skip, a skip never overwrites.
pub open spec fn merge_status(prior: StatusView, incoming: StatusView) -> StatusView {
    if incoming is Error {
        incoming
    } else if incoming is Deployed && prior is Skipped {
        StatusView::Deployed
    } else {
        prior
    }
}

/// A later observation folded into an existing entry: status by precedence,
/// the target label appended when new, details always appended.
pub open spec fn merge_entry(
    e: AggView,
    st: StatusView,
    target: Seq<char>,
    details: Seq<Seq<char>>,
) -> AggView {
    AggView {
        name: e.name,
        category: e.category,
        status: merge_status(e.status, st),
        targets: if e.targets.contains(target) {
            e.targets
        } else {
            e.targets.push(target)
        },
        details: e.details + details,
    }
}

/// The entry a first observation creates.
pub open spec fn fresh_entry(
    name: Seq<char>,
    category: Category,
    st: StatusView,
    target: Seq<char>,
    details: Seq<Seq<char>>,
) -> AggView {
    AggView { name: name, category: category, status: st, targets: seq![target], details: details }
}

/// What one `record` call does to the whole result list.
pub open spec fn spec_record(
    rs: Seq<AggView>,
    name: Seq<char>,
    category: Category,
    st: StatusView,
    target: Seq<char>,
    details: Seq<Seq<char>>,
) -> Seq<AggView> {
    let i = index_of_name(rs, name);
    if i >= 0 {
        rs.update(i, merge_entry(rs[i], st, target, details))
    } else {
        rs.push(fresh_entry(name, category, st, target, details))
    }
}

/// Results aggregated across all passes of one deploy session, in the order
/// item names were first observed.
#[derive(Debug)]
pub struct DeployResults {
    results: Vec<AggregatedResult>,
}

impl View for DeployResults {
    type V = Seq<AggView>;

    closed spec fn view(&self) -> Seq<AggView> {
        Seq::new(self.results@.len(), |i: int| self.results@[i]@)
    }
}

/// Selecting entries by status kind.
#[derive(Clone, Copy, Debug)]
pub enum StatusKind {
    DeployedKind,
    SkippedKind,
    ErrorKind,
}

pub open spec fn has_kind(st: StatusView, k: StatusKind) -> bool {
    match k {
        StatusKind::DeployedKind => st is Deployed,
        StatusKind::SkippedKind => st is Skipped,
        StatusKind::ErrorKind => st is Error,
    }
}

/// The subsequence of entries with the given status kind, in order.
pub open spec fn of_kind(rs: Seq<AggView>, k: StatusKind) -> Seq<AggView>
    decreases rs.len(),
{
    if rs.len() == 0 {
        Seq::empty()
    } else {
        let rest = of_kind(rs.drop_last(), k);
        if has_kind(rs.last().status, k) {
            rest.push(rs.last())
        } else {
            rest
        }
    }
}

impl DeployResults {
    pub fn new() -> (r: DeployResults)
        ensures
            r@ == Seq::<AggView>::empty(),
    {
        let r = DeployResults { results: Vec::new() };
        proof {
            assert(r@ =~= Seq::<AggView>::empty());
        }
        r
    }

    /// Record one observation of an item. A first observation opens an entry;
    /// a repeated one merges by status precedence Error > Deployed > Skipped,
    /// appends the target label when it is new, and appends the details.
    pub fn record(
        &mut self,
        name: &str,
        category: Category,
        status: DeployStatus,
        target: &str,
        details: Vec<String>,
    )
        ensures
            final(self)@ == spec_record(
                old(self)@,
                name@,
                category,
                status@,
                target@,
                details.deep_view(),
            ),
    {
        proof {
            lemma_index_of_name(old(self)@, name@);
        }
        let n = self.results.len();
        let mut i: usize = 0;
        while i < n
            invariant
                n == self.results.len(),
                *self == *old(self),
                i <= n,
                forall|j: int| 0 <= j < i ==> self@[j].name != name@,
            decreases n - i,
        {
            if str_eq(self.results[i].name.as_str(), name) {
                proof {
                    assert(index_of_name(old(self)@, name@) == i as int) by {
                        lemma_index_of_name_unique(old(self)@, name@, i as int);
                    }
                }
                let mut entry = self.results.remove(i);
                let prior_skipped = matches!(entry.status, DeployStatus::Skipped(_));
                if matches!(status, DeployStatus::Error(_)) {
                    entry.status = status;
                } else if matches!(status, DeployStatus::Deployed) && prior_skipped {
                    entry.status = DeployStatus::Deployed;
                }
                if !contains_string(&entry.targets, target) {
                    entry.targets.push(target.to_owned());
                    proof {
                        assert(entry.targets.deep_view() =~= old(self)@[i as int].targets.push(
                            target@,
                        ));
                    }
                }
                let mut extra = details;
                entry.details.append(&mut extra);
                proof {
                    assert(entry.details.deep_view() =~= old(self)@[i as int].details
                        + details.deep_view());
                    assert(entry@ == merge_entry(
                        old(self)@[i as int],
                        status@,
                        target@,
                        details.deep_view(),
                    ));
                }
                self.results.insert(i, entry);
                proof {
                    assert(self@ =~= old(self)@.update(
                        i as int,
                        merge_entry(old(self)@[i as int], status@, target@, details.deep_view()),
                    ));
                }
                return ;
            }
            i = i + 1;
        }
        let entry = AggregatedResult {
            name: name.to_owned(),
            category: category,
            status: status,
            targets: vec![target.to_owned()],
            details: details,
        };
        proof {
            assert(entry.targets.deep_view() =~= seq![target@]);
        }
        self.results.push(entry);
        proof {
            assert(index_of_name(old(self)@, name@) == -1);
            assert(self@ =~= old(self)@.push(entry@));
        }
    }

    /// Entries whose final status is `Deployed`, in first-seen order.
    pub fn deployed(&self) -> (r: Vec<&AggregatedResult>)
        ensures
            r@.len() == of_kind(self@, StatusKind::DeployedKind).len(),
            forall|i: int|
                0 <= i < r@.len() ==> r@[i]@ == of_kind(self@, StatusKind::DeployedKind)[i],
    {
        self.of_kind_exec(StatusKind::DeployedKind)
    }

    /// Entries whose final status is `Skipped`, in first-seen order.
    pub fn skipped(&self) -> (r: Vec<&AggregatedResult>)
        ensures
            r@.len() == of_kind(self@, StatusKind::SkippedKind).len(),
            forall|i: int|
                0 <= i < r@.len() ==> r@[i]@ == of_kind(self@, StatusKind::SkippedKind)[i],
    {
        self.of_kind_exec(StatusKind::SkippedKind)
    }

    /// Entries whose final status is `Error`, in first-seen order.
    pub fn errors(&self) -> (r: Vec<&AggregatedResult>)
        ensures
            r@.len() == of_kind(self@, StatusKind::ErrorKind).len(),
            forall|i: int| 0 <= i < r@.len() ==> r@[i]@ == of_kind(self@, StatusKind::ErrorKind)[i],
    {
        self.of_kind_exec(StatusKind::ErrorKind)
    }

    fn of_kind_exec(&self, k: StatusKind) -> (r: Vec<&AggregatedResult>)
        ensures
            r@.len() == of_kind(self@, k).len(),
            forall|i: int| 0 <= i < r@.len() ==> r@[i]@ == of_kind(self@, k)[i],
    {
        let mut r: Vec<&AggregatedResult> = Vec::new();
        let n = self.results.len();
        let mut i: usize = 0;
        while i < n
            invariant
                n == self.results.len(),
                i <= n,
                r@.len() == of_kind(self@.take(i as int), k).len(),
                forall|j: int| 0 <= j < r@.len() ==> r@[j]@ == of_kind(self@.take(i as int), k)[j],
            decreases n - i,
        {
            let matches_kind = match k {
                StatusKind::DeployedKind => matches!(self.results[i].status, DeployStatus::Deployed),
                StatusKind::SkippedKind => matches!(
                    self.results[i].status,
                    DeployStatus::Skipped(_),
                ),
                StatusKind::ErrorKind => matches!(self.results[i].status, DeployStatus::Error(_)),
            };
            proof {
                assert(self@.take(i + 1).drop_last() =~= self@.take(i as int));
                assert(self@.take(i + 1).last() == self@[i as int]);
            }
            if matches_kind {
                r.push(&self.results[i]);
            }
            i = i + 1;
        }
        proof {
            assert(self@.take(n as int) =~= self@);
        }
        r
    }

    /// Drop everything recorded so far.
    pub fn clear(&mut self)
        ensures
            final(self)@ == Seq::<AggView>::empty(),
    {
        self.results.clear();
        proof {
            assert(self@ =~= Seq::<AggView>::empty());
        }
    }
}

proof fn lemma_index_of_name_unique(rs: Seq<AggView>, name: Seq<char>, i: int)
    requires
        0 <= i < rs.len(),
        rs[i].name == name,
        forall|j: int| 0 <= j < i ==> rs[j].name != name,
    ensures
        index_of_name(rs, name) == i,
    decreases i,
{
    if i > 0 {
        lemma_index_of_name_unique(rs.skip(1), name, i - 1);
    } else {
        assert(rs[0].name == name);
    }
}

} // verus!

verus! {

// ---------------------------------------------------------------------------
// The precedence law for repeated observations
// ---------------------------------------------------------------------------

/// One observation handed to `record`, as a mathematical value.
#[verifier::ext_equal]
pub struct EventV {
    pub name: Seq<char>,
    pub category: Category,
    pub status: StatusView,
    pub target: Seq<char>,
    pub details: Seq<Seq<char>>,
}

/// The result list after a whole sequence of `record` calls.
pub open spec fn spec_record_all(rs: Seq<AggView>, events: Seq<EventV>) -> Seq<AggView>
    decreases events.len(),
{
    if events.len() == 0 {
        rs
    } else {
        let e = events.last();
        spec_record(
            spec_record_all(rs, events.drop_last()),
            e.name,
            e.category,
            e.status,
            e.target,
            e.details,
        )
    }
}

pub open spec fn has_name(rs: Seq<AggView>, name: Seq<char>) -> bool {
    exists|i: int| 0 <= i < rs.len() && rs[i].name == name
}

pub open spec fn has_event(events: Seq<EventV>, name: Seq<char>) -> bool {
    exists|j: int| 0 <= j < events.len() && events[j].name == name
}

pub open spec fn has_error_event(events: Seq<EventV>, name: Seq<char>) -> bool {
    exists|j: int| 0 <= j < events.len() && events[j].name == name && events[j].status is Error
}

pub open spec fn has_deployed_event(events: Seq<EventV>, name: Seq<char>) -> bool {
    exists|j: int| 0 <= j < events.len() && events[j].name == name && events[j].status is Deployed
}

proof fn lemma_event_push(events: Seq<EventV>, e: EventV, nm: Seq<char>)
    ensures
        has_event(events.push(e), nm) <==> (has_event(events, nm) || e.name == nm),
        has_error_event(events.push(e), nm) <==> (has_error_event(events, nm) || (e.name == nm
            && e.status is Error)),
        has_deployed_event(events.push(e), nm) <==> (has_deployed_event(events, nm) || (e.name
            == nm && e.status is Deployed)),
{
    let p = events.push(e);
    assert(p[events.len() as int] == e);
    assert(forall|j: int| 0 <= j < events.len() ==> p[j] == events[j]);
    if has_event(p, nm) {
        let j = choose|j: int| 0 <= j < p.len() && p[j].name == nm;
        if j < events.len() {
            assert(events[j].name == nm);
        }
    }
    if has_error_event(p, nm) {
        let j = choose|j: int| 0 <= j < p.len() && p[j].name == nm && p[j].status is Error;
        if j < events.len() {
            assert(events[j].name == nm && events[j].status is Error);
        }
    }
    if has_deployed_event(p, nm) {
        let j = choose|j: int| 0 <= j < p.len() && p[j].name == nm && p[j].status is Deployed;
        if j < events.len() {
            assert(events[j].name == nm && events[j].status is Deployed);
        }
    }
}

/// Starting from an empty result list, any sequence of `record` calls yields,
/// for every item, the status given by the precedence
/// Error > Deployed > Skipped over everything reported for that item, in any
/// call order; names stay unique; target lists never hold a duplicate label.
pub proof fn lemma_record_precedence(events: Seq<EventV>, out: Seq<AggView>)
    requires
        out == spec_record_all(Seq::<AggView>::empty(), events),
    ensures
        forall|i: int, j: int| 0 <= i < j < out.len() ==> out[i].name != out[j].name,
        forall|i: int|
            0 <= i < out.len() ==> ((#[trigger] out[i]).status is Error <==> has_error_event(
                events,
                out[i].name,
            )),
        forall|i: int|
            0 <= i < out.len() ==> ((#[trigger] out[i]).status is Deployed <==> (!has_error_event(
                events,
                out[i].name,
            ) && has_deployed_event(events, out[i].name))),
        forall|i: int| 0 <= i < out.len() ==> (#[trigger] out[i]).targets.no_duplicates(),
        forall|i: int| 0 <= i < out.len() ==> has_event(events, (#[trigger] out[i]).name),
        forall|j: int| 0 <= j < events.len() ==> has_name(out, (#[trigger] events[j]).name),
    decreases events.len(),
{
    if events.len() == 0 {
    } else {
        let prior = events.drop_last();
        let e = events.last();
        let prev = spec_record_all(Seq::<AggView>::empty(), prior);
        lemma_record_precedence(prior, prev);
        assert(prior.push(e) =~= events);
        let idx = index_of_name(prev, e.name);
        lemma_index_of_name(prev, e.name);
        assert forall|nm: Seq<char>| true implies {
            &&& has_event(events, nm) <==> (has_event(prior, nm) || e.name == nm)
            &&& has_error_event(events, nm) <==> (has_error_event(prior, nm) || (e.name == nm
                && e.status is Error))
            &&& has_deployed_event(events, nm) <==> (has_deployed_event(prior, nm) || (e.name == nm
                && e.status is Deployed))
        } by {
            lemma_event_push(prior, e, nm);
        }
        if idx >= 0 {
            let merged = merge_entry(prev[idx], e.status, e.target, e.details);
            assert(out == prev.update(idx, merged));
            assert(merged.name == e.name);
            assert(forall|i: int| 0 <= i < out.len() && i != idx ==> out[i] == prev[i]);
            assert(out[idx] == merged);
            // names are unchanged, so uniqueness and coverage carry over
            assert(forall|i: int| 0 <= i < out.len() ==> out[i].name == prev[i].name);
            assert forall|j: int| 0 <= j < events.len() implies has_name(
                out,
                (#[trigger] events[j]).name,
            ) by {
                if j < prior.len() {
                    assert(has_name(prev, prior[j].name));
                    let w = choose|w: int| 0 <= w < prev.len() && prev[w].name == prior[j].name;
                    assert(out[w].name == events[j].name);
                } else {
                    assert(out[idx].name == e.name);
                }
            }
            // no other entry has e.name, so their event sets are unchanged
            assert forall|i: int| 0 <= i < out.len() && i != idx implies out[i].name != e.name by {
                if i < idx {
                    assert(prev[i].name != e.name);
                } else {
                    assert(prev[idx].name == e.name);
                }
            }
            // the merged entry
            assert(merged.status is Error <==> (prev[idx].status is Error || e.status is Error));
            if !(e.status is Error) {
                assert(merged.status is Deployed <==> (e.status is Deployed && !(
                prev[idx].status is Error) || prev[idx].status is Deployed));
            }
            // target list stays duplicate-free
            assert forall|i: int| 0 <= i < out.len() implies (
            #[trigger] out[i]).targets.no_duplicates() by {
                if i == idx {
                    let t = prev[idx].targets;
                    if !t.contains(e.target) {
                        assert forall|a: int, b: int|
                            0 <= a < b < t.push(e.target).len() implies t.push(e.target)[a]
                            != t.push(e.target)[b] by {
                            if b == t.len() {
                                assert(t.push(e.target)[a] == t[a]);
                                assert(!t.contains(e.target));
                            }
                        }
                        assert(t.push(e.target).no_duplicates());
                    }
                }
            }
        } else {
            let fresh = fresh_entry(e.name, e.category, e.status, e.target, e.details);
            assert(out == prev.push(fresh));
            assert(forall|i: int| 0 <= i < prev.len() ==> out[i] == prev[i]);
            assert(out.last() == fresh);
            assert(forall|i: int| 0 <= i < prev.len() ==> prev[i].name != e.name);
            // no prior event carries this name, else prev would hold it
            assert(!has_event(prior, e.name));
            assert(!has_error_event(prior, e.name));
            assert(!has_deployed_event(prior, e.name));
            assert(seq![e.target].no_duplicates());
            assert forall|j: int| 0 <= j < events.len() implies has_name(
                out,
                (#[trigger] events[j]).name,
            ) by {
                if j < prior.len() {
                    assert(has_name(prev, prior[j].name));
                    let w = choose|w: int| 0 <= w < prev.len() && prev[w].name == prior[j].name;
                    assert(out[w].name == events[j].name);
                } else {
                    assert(out[prev.len() as int].name == e.name);
                }
            }
            assert forall|i: int| 0 <= i < out.len() implies has_event(
                events,
                (#[trigger] out[i]).name,
            ) by {
                if i < prev.len() {
                    assert(has_event(prior, prev[i].name));
                }
            }
        }
    }
}

} // verus!

verus! {

/// Every entry `of_kind` selects carries that status kind.
pub proof fn lemma_of_kind_status(rs: Seq<AggView>, k: StatusKind, i: int)
    requires
        0 <= i < of_kind(rs, k).len(),
    ensures
        has_kind(of_kind(rs, k)[i].status, k),
    decreases rs.len(),
{
    if rs.len() > 0 {
        let rest = of_kind(rs.drop_last(), k);
        if has_kind(rs.last().status, k) {
            if i < rest.len() {
                lemma_of_kind_status(rs.drop_last(), k, i);
            }
        } else {
            lemma_of_kind_status(rs.drop_last(), k, i);
        }
    }
}

} // verus!
