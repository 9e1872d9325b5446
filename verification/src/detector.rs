//! Path failure detection: a debounced health state machine per storage
//! target, driven by periodic scans of the controllers the kernel reports.

use crate::text::str_eq;
use crate::transport::{nqns_of, FailedPath, ReportFailedPaths, ReportFailedPathsView};
use std::time::Duration;
use vstd::prelude::*;

verus! {

/// Possible states of every path record.
#[derive(Debug, Clone, Copy, PartialEq, Eq, Structural)]
pub enum PathState {
    Good,
    Suspected,
    Failed,
}

/// The state a record moves to when its controller is seen `connecting`:
/// one step towards `Failed`, where it stays.
pub open spec fn escalate(state: PathState) -> PathState {
    match state {
        PathState::Good => PathState::Suspected,
        PathState::Suspected => PathState::Failed,
        PathState::Failed => PathState::Failed,
    }
}

/// What a path record stands for: the target it tracks, the scan that last
/// touched it and the health it was left in.
pub struct PathRecordView {
    pub nqn: Seq<char>,
    pub epoch: u64,
    pub state: PathState,
}

/// Object that represents a broken/suspected NVMe path.
#[derive(Debug)]
pub struct PathRecord {
    /// Used to allow detection of outdated records.
    epoch: u64,
    nqn: String,
    state: PathState,
}

impl View for PathRecord {
    type V = PathRecordView;

    closed spec fn view(&self) -> PathRecordView {
        PathRecordView { nqn: self.nqn@, epoch: self.epoch, state: self.state }
    }
}

impl PathRecord {
    /// A fresh record for `nqn`, stamped with `epoch`, in state `Good`.
    pub fn new(nqn: String, epoch: u64) -> (rec: Self)
        ensures
            rec@ == (PathRecordView { nqn: nqn@, epoch, state: PathState::Good }),
    {
        Self { nqn, epoch, state: PathState::Good }
    }

    pub fn get_nqn(&self) -> (nqn: &str)
        ensures
            nqn@ == self@.nqn,
    {
        self.nqn.as_str()
    }

    #[inline]
    pub fn get_epoch(&self) -> (epoch: u64)
        ensures
            epoch == self@.epoch,
    {
        self.epoch
    }

    pub fn get_state(&self) -> (state: PathState)
        ensures
            state == self@.state,
    {
        self.state
    }

    #[inline]
    pub fn set_epoch(&mut self, epoch: u64)
        ensures
            final(self)@ == (PathRecordView { epoch, ..old(self)@ }),
    {
        self.epoch = epoch;
    }

    /// Trigger state transition based on 'connecting' state of the underlying
    /// NVMe controller. Multiple failures don't cause any state transitions.
    pub fn report_connecting(&mut self)
        ensures
            final(self)@ == (PathRecordView { state: escalate(old(self)@.state), ..old(self)@ }),
    {
        match self.state {
            PathState::Good => {
                self.state = PathState::Suspected;
            },
            PathState::Suspected => {
                self.state = PathState::Failed;
            },
            PathState::Failed => {},
        }
    }

    /// A live controller puts the record back to `Good`, whatever it was.
    pub fn report_live(&mut self)
        ensures
            final(self)@ == (PathRecordView { state: PathState::Good, ..old(self)@ }),
    {
        self.state = PathState::Good;
    }
}

/// The link states the detector tells apart.
#[derive(Debug, Clone, Copy, PartialEq, Eq, Structural)]
pub enum LinkStatus {
    /// The controller lost its target and is trying to reach it again.
    Connecting,
    /// The controller is connected and serves I/O.
    Live,
    /// Any other state: it carries no information about the path.
    Other,
}

/// How the state string of a controller is read.
pub open spec fn link_status(state: Seq<char>) -> LinkStatus {
    if state == "connecting"@ {
        LinkStatus::Connecting
    } else if state == "live"@ {
        LinkStatus::Live
    } else {
        LinkStatus::Other
    }
}

/// Reads the link state that the kernel reports for a controller.
pub fn classify_state(state: &str) -> (status: LinkStatus)
    ensures
        status == link_status(state@),
{
    if str_eq(state, "connecting") {
        LinkStatus::Connecting
    } else if str_eq(state, "live") {
        LinkStatus::Live
    } else {
        LinkStatus::Other
    }
}

/// What one controller answered when the scan asked for its status.
#[derive(Debug)]
pub enum PathObservation {
    /// The controller was read: the target it is attached to and the link
    /// state reported for it.
    Status { nqn: String, state: String },
    /// The status of the controller could not be read.
    Unreadable,
}

/// An observation over character sequences.
pub enum PathObservationView {
    Status { nqn: Seq<char>, state: Seq<char> },
    Unreadable,
}

impl View for PathObservation {
    type V = PathObservationView;

    open spec fn view(&self) -> PathObservationView {
        match self {
            PathObservation::Status { nqn, state } => PathObservationView::Status {
                nqn: nqn@,
                state: state@,
            },
            PathObservation::Unreadable => PathObservationView::Unreadable,
        }
    }
}

/// The observations of one scan, in the order the controllers were read.
pub open spec fn sightings(observations: Seq<PathObservation>) -> Seq<PathObservationView> {
    observations.map_values(|o: PathObservation| o@)
}

/// The records after one observation at scan `epoch`.
///
/// A `connecting` controller escalates the record of its target, creating it
/// in `Good` first where there is none; a `live` controller resets an existing
/// record to `Good`. Both stamp the record with `epoch`. Anything else leaves
/// the records as they are.
pub open spec fn observe(
    records: Map<Seq<char>, PathRecordView>,
    epoch: u64,
    seen: PathObservationView,
) -> Map<Seq<char>, PathRecordView> {
    match seen {
        PathObservationView::Status { nqn, state } => match link_status(state) {
            LinkStatus::Connecting => {
                let prior = if records.contains_key(nqn) {
                    records[nqn].state
                } else {
                    PathState::Good
                };
                records.insert(nqn, PathRecordView { nqn, epoch, state: escalate(prior) })
            },
            LinkStatus::Live => if records.contains_key(nqn) {
                records.insert(nqn, PathRecordView { nqn, epoch, state: PathState::Good })
            } else {
                records
            },
            LinkStatus::Other => records,
        },
        PathObservationView::Unreadable => records,
    }
}

/// Whether the observation takes the record of its target from `Suspected`
/// to `Failed`.
pub open spec fn enters_failed(
    records: Map<Seq<char>, PathRecordView>,
    seen: PathObservationView,
) -> bool {
    seen matches PathObservationView::Status { nqn, state } && link_status(state)
        == LinkStatus::Connecting && records.contains_key(nqn) && records[nqn].state
        == PathState::Suspected
}

/// The records after the observations `seen`, taken first to last.
pub open spec fn observe_all(
    records: Map<Seq<char>, PathRecordView>,
    epoch: u64,
    seen: Seq<PathObservationView>,
) -> Map<Seq<char>, PathRecordView>
    decreases seen.len(),
{
    if seen.len() == 0 {
        records
    } else {
        observe(observe_all(records, epoch, seen.drop_last()), epoch, seen.last())
    }
}

/// The targets that entered `Failed` during the observations `seen`, each
/// once, in the order in which they first did.
pub open spec fn newly_failed(
    records: Map<Seq<char>, PathRecordView>,
    epoch: u64,
    seen: Seq<PathObservationView>,
) -> Seq<Seq<char>>
    decreases seen.len(),
{
    if seen.len() == 0 {
        Seq::empty()
    } else {
        let earlier = newly_failed(records, epoch, seen.drop_last());
        let before = observe_all(records, epoch, seen.drop_last());
        if enters_failed(before, seen.last()) && !earlier.contains(seen.last()->nqn) {
            earlier.push(seen.last()->nqn)
        } else {
            earlier
        }
    }
}

/// The records that scan `epoch` touched: every other one is dropped.
pub open spec fn sweep(records: Map<Seq<char>, PathRecordView>, epoch: u64) -> Map<
    Seq<char>,
    PathRecordView,
> {
    Map::new(
        |nqn: Seq<char>| records.contains_key(nqn) && records[nqn].epoch == epoch,
        |nqn: Seq<char>| records[nqn],
    )
}

/// The records after a whole scan: all observations, then the sweep.
pub open spec fn scan(
    records: Map<Seq<char>, PathRecordView>,
    epoch: u64,
    seen: Seq<PathObservationView>,
) -> Map<Seq<char>, PathRecordView> {
    sweep(observe_all(records, epoch, seen), epoch)
}

/// No two records are about the same target.
spec fn distinct_targets(recs: Seq<PathRecord>) -> bool {
    forall|i: int, j: int| 0 <= i < j < recs.len() ==> recs[i]@.nqn != recs[j]@.nqn
}

/// The records as a mapping from target NQN to record.
spec fn records_of(recs: Seq<PathRecord>) -> Map<Seq<char>, PathRecordView> {
    Map::new(
        |nqn: Seq<char>| exists|i: int| 0 <= i < recs.len() && recs[i]@.nqn == nqn,
        |nqn: Seq<char>| recs[choose|i: int| 0 <= i < recs.len() && recs[i]@.nqn == nqn]@,
    )
}

proof fn lemma_record_at(recs: Seq<PathRecord>, i: int)
    requires
        distinct_targets(recs),
        0 <= i < recs.len(),
    ensures
        records_of(recs).contains_key(recs[i]@.nqn),
        records_of(recs)[recs[i]@.nqn] == recs[i]@,
{
    let nqn = recs[i]@.nqn;
    let j = choose|j: int| 0 <= j < recs.len() && recs[j]@.nqn == nqn;
    assert(j == i);
}

/// Replacing or adding the record of one target, and nothing else, is an
/// insertion into the mapping.
proof fn lemma_records_insert(before: Seq<PathRecord>, after: Seq<PathRecord>, at: int)
    requires
        distinct_targets(before),
        0 <= at < after.len(),
        before.len() == after.len() || before.len() == at,
        after.len() <= before.len() + 1,
        forall|i: int| 0 <= i < before.len() && i != at ==> after[i] == before[i],
        at < before.len() ==> before[at]@.nqn == after[at]@.nqn,
        at == before.len() ==> !records_of(before).contains_key(after[at]@.nqn),
    ensures
        distinct_targets(after),
        records_of(after) == records_of(before).insert(after[at]@.nqn, after[at]@),
{
    let target = after[at]@.nqn;
    assert forall|i: int, j: int| 0 <= i < j < after.len() implies after[i]@.nqn
        != after[j]@.nqn by {
        if i != at && j != at {
        } else if at < before.len() {
        } else {
            // `at` is the new last record; `i` is an old one
            assert(before[i]@.nqn == after[i]@.nqn);
        }
    }
    let new_map = records_of(after);
    let old_map = records_of(before);
    assert forall|nqn: Seq<char>| new_map.contains_key(nqn) implies #[trigger] old_map.insert(
        target,
        after[at]@,
    ).contains_key(nqn) by {
        let i = choose|i: int| 0 <= i < after.len() && after[i]@.nqn == nqn;
        if i != at {
            assert(before[i]@.nqn == nqn);
        }
    }
    assert forall|nqn: Seq<char>| #[trigger]
        old_map.insert(target, after[at]@).contains_key(nqn) implies new_map.contains_key(
        nqn,
    ) by {
        if nqn == target {
            assert(after[at]@.nqn == nqn);
        } else {
            let i = choose|i: int| 0 <= i < before.len() && before[i]@.nqn == nqn;
            assert(i != at);
            assert(after[i]@.nqn == nqn);
        }
    }
    assert forall|nqn: Seq<char>| new_map.contains_key(nqn) implies new_map[nqn]
        == #[trigger] old_map.insert(target, after[at]@)[nqn] by {
        let i = choose|i: int| 0 <= i < after.len() && after[i]@.nqn == nqn;
        lemma_record_at(after, i);
        if i != at {
            assert(before[i]@.nqn == nqn);
            lemma_record_at(before, i);
        }
    }
    assert(new_map =~= old_map.insert(target, after[at]@));
}

/// Position of the record of `nqn`, if there is one.
fn find_record(recs: &Vec<PathRecord>, nqn: &String) -> (found: Option<usize>)
    requires
        distinct_targets(recs@),
    ensures
        match found {
            Some(at) => at < recs.len() && recs[at as int]@.nqn == nqn@ && records_of(
                recs@,
            ).contains_key(nqn@) && records_of(recs@)[nqn@] == recs[at as int]@,
            None => !records_of(recs@).contains_key(nqn@),
        },
{
    let mut i: usize = 0;
    while i < recs.len()
        invariant
            i <= recs.len(),
            distinct_targets(recs@),
            forall|j: int| 0 <= j < i ==> recs[j]@.nqn != nqn@,
        decreases recs.len() - i,
    {
        if recs[i].nqn == *nqn {
            proof {
                lemma_record_at(recs@, i as int);
            }
            return Some(i);
        }
        i += 1;
    }
    None
}

/// Applies one observation of scan `epoch` to the records, and tells whether
/// it took the record of its target from `Suspected` to `Failed`.
fn observe_one(recs: &mut Vec<PathRecord>, epoch: u64, seen: &PathObservation) -> (entered: bool)
    requires
        distinct_targets(old(recs)@),
    ensures
        distinct_targets(final(recs)@),
        records_of(final(recs)@) == observe(records_of(old(recs)@), epoch, seen@),
        entered == enters_failed(records_of(old(recs)@), seen@),
{
    match seen {
        PathObservation::Status { nqn, state } => match classify_state(state.as_str()) {
            LinkStatus::Connecting => {
                // Add a new record in case no record exists for target NQN.
                let at = match find_record(recs, nqn) {
                    Some(at) => at,
                    None => {
                        recs.push(PathRecord::new(nqn.clone(), epoch));
                        proof {
                            lemma_records_insert(old(recs)@, recs@, old(recs).len() as int);
                        }
                        recs.len() - 1
                    },
                };
                let ghost tracked_before = recs@;
                let rec = &mut recs[at];
                let entered = match rec.state {
                    PathState::Suspected => true,
                    _ => false,
                };
                rec.report_connecting();
                rec.set_epoch(epoch);
                proof {
                    lemma_records_insert(tracked_before, recs@, at as int);
                    assert(records_of(recs@) =~= observe(records_of(old(recs)@), epoch, seen@));
                }
                entered
            },
            LinkStatus::Live => {
                match find_record(recs, nqn) {
                    Some(at) => {
                        let rec = &mut recs[at];
                        rec.report_live();
                        rec.set_epoch(epoch);
                        proof {
                            lemma_records_insert(old(recs)@, recs@, at as int);
                        }
                    },
                    None => {},
                }
                false
            },
            LinkStatus::Other => false,
        },
        PathObservation::Unreadable => false,
    }
}

/// `kept` holds exactly the records of `all` from position `from` on that
/// scan `epoch` touched; `origin` gives, for each of them, its place in `all`.
spec fn kept_from(
    kept: Seq<PathRecord>,
    origin: Seq<int>,
    all: Seq<PathRecord>,
    from: int,
    epoch: u64,
) -> bool {
    &&& origin.len() == kept.len()
    &&& forall|k: int|
        0 <= k < kept.len() ==> from <= #[trigger] origin[k] < all.len() && all[origin[k]]
            == kept[k] && kept[k]@.epoch == epoch
    &&& forall|j: int|
        from <= j < all.len() && (#[trigger] all[j])@.epoch == epoch ==> origin.contains(j)
}

proof fn lemma_keep(
    kept: Seq<PathRecord>,
    origin: Seq<int>,
    all: Seq<PathRecord>,
    from: int,
    epoch: u64,
)
    requires
        0 < from <= all.len(),
        distinct_targets(all),
        distinct_targets(kept),
        kept_from(kept, origin, all, from, epoch),
        all[from - 1]@.epoch == epoch,
    ensures
        distinct_targets(kept.push(all[from - 1])),
        kept_from(kept.push(all[from - 1]), origin.push(from - 1), all, from - 1, epoch),
{
    let grown = kept.push(all[from - 1]);
    let places = origin.push(from - 1);
    assert forall|i: int, j: int| 0 <= i < j < grown.len() implies grown[i]@.nqn
        != grown[j]@.nqn by {
        if j == kept.len() {
            assert(all[origin[i]] == kept[i]);
            assert(all[origin[i]]@.nqn != all[from - 1]@.nqn);
        } else {
            assert(kept[i]@.nqn != kept[j]@.nqn);
        }
    }
    assert forall|j: int|
        from - 1 <= j < all.len() && (#[trigger] all[j])@.epoch == epoch implies places.contains(
        j,
    ) by {
        if j == from - 1 {
            assert(places[kept.len() as int] == j);
        } else {
            assert(origin.contains(j));
            let k = choose|k: int| 0 <= k < origin.len() && origin[k] == j;
            assert(places[k] == j);
        }
    }
    assert forall|k: int| 0 <= k < grown.len() implies from - 1 <= #[trigger] places[k]
        < all.len() && all[places[k]] == grown[k] && grown[k]@.epoch == epoch by {
        if k < kept.len() {
            assert(origin[k] == places[k]);
        }
    }
}

proof fn lemma_drop(
    kept: Seq<PathRecord>,
    origin: Seq<int>,
    all: Seq<PathRecord>,
    from: int,
    epoch: u64,
)
    requires
        0 < from <= all.len(),
        kept_from(kept, origin, all, from, epoch),
        all[from - 1]@.epoch != epoch,
    ensures
        kept_from(kept, origin, all, from - 1, epoch),
{
    assert forall|k: int| 0 <= k < kept.len() implies from - 1 <= #[trigger] origin[k]
        < all.len() && all[origin[k]] == kept[k] && kept[k]@.epoch == epoch by {
        assert(from <= origin[k]);
    }
}

proof fn lemma_swept(kept: Seq<PathRecord>, origin: Seq<int>, all: Seq<PathRecord>, epoch: u64)
    requires
        distinct_targets(all),
        distinct_targets(kept),
        kept_from(kept, origin, all, 0, epoch),
    ensures
        records_of(kept) == sweep(records_of(all), epoch),
        forall|i: int| 0 <= i < kept.len() ==> (#[trigger] kept[i])@.epoch == epoch,
{
    let swept = sweep(records_of(all), epoch);
    let left = records_of(kept);
    assert forall|nqn: Seq<char>| #[trigger] left.contains_key(nqn) implies swept.contains_key(
        nqn,
    ) && left[nqn] == swept[nqn] by {
        let k = choose|k: int| 0 <= k < kept.len() && kept[k]@.nqn == nqn;
        lemma_record_at(kept, k);
        assert(all[origin[k]] == kept[k]);
        lemma_record_at(all, origin[k]);
        assert(records_of(all).contains_key(nqn));
        assert(records_of(all)[nqn] == kept[k]@);
        assert(records_of(all)[nqn].epoch == epoch);
    }
    assert forall|nqn: Seq<char>| #[trigger] swept.contains_key(nqn) implies left.contains_key(
        nqn,
    ) by {
        assert(records_of(all).contains_key(nqn));
        let j = choose|j: int| 0 <= j < all.len() && all[j]@.nqn == nqn;
        lemma_record_at(all, j);
        assert(all[j]@.epoch == epoch);
        assert(origin.contains(j));
        let k = choose|k: int| 0 <= k < origin.len() && origin[k] == j;
        assert(all[origin[k]] == kept[k]);
        assert(kept[k]@.nqn == nqn);
    }
    assert(left =~= swept);
    assert forall|i: int| 0 <= i < kept.len() implies (#[trigger] kept[i])@.epoch == epoch by {
        assert(all[origin[i]] == kept[i]);
    }
}

/// Removes all records that scan `epoch` did not touch: their controllers are
/// gone from the system.
fn sweep_records(recs: &mut Vec<PathRecord>, epoch: u64)
    requires
        distinct_targets(old(recs)@),
    ensures
        distinct_targets(final(recs)@),
        records_of(final(recs)@) == sweep(records_of(old(recs)@), epoch),
        forall|i: int| 0 <= i < final(recs).len() ==> (#[trigger] final(recs)[i])@.epoch == epoch,
{
    let ghost all = recs@;
    let ghost mut origin: Seq<int> = Seq::empty();
    let mut kept: Vec<PathRecord> = Vec::new();
    loop
        invariant
            distinct_targets(all),
            distinct_targets(kept@),
            recs.len() <= all.len(),
            recs@ == all.take(recs.len() as int),
            kept_from(kept@, origin, all, recs.len() as int, epoch),
        ensures
            distinct_targets(all),
            distinct_targets(kept@),
            kept_from(kept@, origin, all, 0, epoch),
        decreases recs.len(),
    {
        let ghost from = recs.len() as int;
        match recs.pop() {
            Some(rec) => {
                assert(rec == all[from - 1]);
                if rec.get_epoch() == epoch {
                    proof {
                        lemma_keep(kept@, origin, all, from, epoch);
                        origin = origin.push(from - 1);
                    }
                    kept.push(rec);
                } else {
                    proof {
                        lemma_drop(kept@, origin, all, from, epoch);
                    }
                }
                assert(recs@ =~= all.take(recs.len() as int));
            },
            None => {
                break ;
            },
        }
    }
    proof {
        lemma_swept(kept@, origin, all, epoch);
    }
    *recs = kept;
}

/// Whether `nqn` is among the failed paths.
fn reported(failed: &Vec<FailedPath>, nqn: &String) -> (found: bool)
    ensures
        found == nqns_of(failed@).contains(nqn@),
{
    let mut i: usize = 0;
    while i < failed.len()
        invariant
            i <= failed.len(),
            forall|j: int| 0 <= j < i ==> nqns_of(failed@)[j] != nqn@,
        decreases failed.len() - i,
    {
        if failed[i].target_nqn == *nqn {
            assert(nqns_of(failed@)[i as int] == nqn@);
            return true;
        }
        i += 1;
    }
    false
}

/// Object that tracks the health of the NVMe paths of this node.
#[derive(Debug)]
pub struct PathFailureDetector {
    epoch: u64,
    detection_period: Duration,
    /// One record per target. A vector, searched by NQN: the verifier has no
    /// model of hashing for `String` keys, so nothing could be proved of a
    /// hash map in its place.
    suspected_paths: Vec<PathRecord>,
}

impl PathFailureDetector {
    /// Number of the last scan.
    pub closed spec fn epoch(&self) -> u64 {
        self.epoch
    }

    /// The records the detector holds, by target NQN.
    pub closed spec fn records(&self) -> Map<Seq<char>, PathRecordView> {
        records_of(self.suspected_paths@)
    }

    /// The interval between two scans.
    pub closed spec fn period(&self) -> Duration {
        self.detection_period
    }

    /// Each target has at most one record, and every record was touched by
    /// the last scan.
    pub closed spec fn wf(&self) -> bool {
        &&& distinct_targets(self.suspected_paths@)
        &&& forall|i: int|
            0 <= i < self.suspected_paths.len() ==> (#[trigger] self.suspected_paths[i])@.epoch
                == self.epoch
    }

    /// A detector that has not scanned yet and tracks no target.
    pub fn new(detection_period: Duration) -> (detector: Self)
        ensures
            detector.wf(),
            detector.epoch() == 0,
            detector.records() == Map::<Seq<char>, PathRecordView>::empty(),
            detector.period() == detection_period,
    {
        let detector = Self { epoch: 0, detection_period, suspected_paths: Vec::new() };
        assert(detector.records() =~= Map::<Seq<char>, PathRecordView>::empty());
        detector
    }

    /// Number of the last scan.
    pub fn current_epoch(&self) -> (epoch: u64)
        ensures
            epoch == self.epoch(),
    {
        self.epoch
    }

    /// The interval between two scans.
    pub fn detection_period(&self) -> (period: Duration)
        ensures
            period == self.period(),
    {
        self.detection_period
    }

    /// The health of the path to `nqn`, if the detector holds a record of it.
    pub fn path_state(&self, nqn: &str) -> (state: Option<PathState>)
        requires
            self.wf(),
        ensures
            state == if self.records().contains_key(nqn@) {
                Some(self.records()[nqn@].state)
            } else {
                None
            },
    {
        let target = nqn.to_owned();
        match find_record(&self.suspected_paths, &target) {
            Some(at) => Some(self.suspected_paths[at].get_state()),
            None => None,
        }
    }

    /// One scan over the controllers of this node.
    ///
    /// The epoch moves on by one; every observation is applied in turn; the
    /// records that no observation touched are removed. Returns the paths that
    /// entered `Failed` during this scan.
    pub fn rescan_paths(&mut self, observations: &Vec<PathObservation>) -> (failed: Vec<
        FailedPath,
    >)
        requires
            old(self).wf(),
            old(self).epoch() < u64::MAX,
        ensures
            final(self).wf(),
            final(self).epoch() == old(self).epoch() + 1,
            final(self).period() == old(self).period(),
            final(self).records() == scan(
                old(self).records(),
                final(self).epoch(),
                sightings(observations@),
            ),
            nqns_of(failed@) == newly_failed(
                old(self).records(),
                final(self).epoch(),
                sightings(observations@),
            ),
    {
        // Update epoch before scanning controllers.
        let epoch = self.epoch + 1;
        let ghost seen = sightings(observations@);
        let ghost start = self.records();
        let mut failed: Vec<FailedPath> = Vec::new();
        assert(nqns_of(failed@) =~= Seq::<Seq<char>>::empty());

        // Scan all reported NVMe paths on system and check for connectivity.
        let mut i: usize = 0;
        while i < observations.len()
            invariant
                i <= observations.len(),
                seen == sightings(observations@),
                distinct_targets(self.suspected_paths@),
                self.epoch == old(self).epoch,
                self.detection_period == old(self).detection_period,
                records_of(self.suspected_paths@) == observe_all(start, epoch, seen.take(i as int)),
                nqns_of(failed@) == newly_failed(start, epoch, seen.take(i as int)),
            decreases observations.len() - i,
        {
            let ghost earlier = nqns_of(failed@);
            assert(seen.take(i + 1).drop_last() =~= seen.take(i as int));
            assert(seen.take(i + 1).last() == observations[i as int]@);
            let entered = observe_one(&mut self.suspected_paths, epoch, &observations[i]);
            if entered {
                match &observations[i] {
                    PathObservation::Status { nqn, state } => {
                        if !reported(&failed, nqn) {
                            failed.push(FailedPath { target_nqn: nqn.clone() });
                            assert(nqns_of(failed@) =~= earlier.push(nqn@));
                        }
                    },
                    PathObservation::Unreadable => {},
                }
            }
            i += 1;
        }
        assert(seen.take(observations.len() as int) =~= seen);

        // Remove all existing records that don't have underlying NVMe
        // controllers: they have not been touched during this scan.
        sweep_records(&mut self.suspected_paths, epoch);
        self.epoch = epoch;
        failed
    }
}

/// The character sequences of a list of names, in order.
pub open spec fn names_of(names: Seq<String>) -> Seq<Seq<char>> {
    names.map_values(|name: String| name@)
}

/// `found` names exactly the records before position `upto` that are in
/// `state`; `origin` gives, for each name, the place of its record.
spec fn found_in(
    found: Seq<String>,
    origin: Seq<int>,
    recs: Seq<PathRecord>,
    upto: int,
    state: PathState,
) -> bool {
    &&& origin.len() == found.len()
    &&& forall|k: int|
        0 <= k < found.len() ==> 0 <= #[trigger] origin[k] < upto && recs[origin[k]]@.nqn
            == found[k]@ && recs[origin[k]]@.state == state
    &&& forall|j: int| 0 <= j < upto && (#[trigger] recs[j])@.state == state ==> origin.contains(j)
    &&& forall|k: int, l: int|
        0 <= k < l < origin.len() ==> #[trigger] origin[k] < #[trigger] origin[l]
}

proof fn lemma_found_all(
    found: Seq<String>,
    origin: Seq<int>,
    recs: Seq<PathRecord>,
    state: PathState,
)
    requires
        distinct_targets(recs),
        found_in(found, origin, recs, recs.len() as int, state),
    ensures
        names_of(found).no_duplicates(),
        forall|nqn: Seq<char>|
            names_of(found).contains(nqn) <==> records_of(recs).contains_key(nqn) && records_of(
                recs,
            )[nqn].state == state,
{
    let names = names_of(found);
    let records = records_of(recs);
    assert forall|k: int, l: int| 0 <= k < names.len() && 0 <= l < names.len() && k
        != l implies names[k] != names[l] by {
        if k < l {
            assert(origin[k] < origin[l]);
        } else {
            assert(origin[l] < origin[k]);
        }
        assert(recs[origin[k]]@.nqn == found[k]@);
        assert(recs[origin[l]]@.nqn == found[l]@);
    }
    assert forall|nqn: Seq<char>| names.contains(nqn) implies records.contains_key(nqn)
        && records[nqn].state == state by {
        let k = choose|k: int| 0 <= k < names.len() && names[k] == nqn;
        assert(found[k]@ == nqn);
        lemma_record_at(recs, origin[k]);
    }
    assert forall|nqn: Seq<char>| records.contains_key(nqn) && records[nqn].state
        == state implies names.contains(nqn) by {
        let j = choose|j: int| 0 <= j < recs.len() && recs[j]@.nqn == nqn;
        lemma_record_at(recs, j);
        assert(origin.contains(j));
        let k = choose|k: int| 0 <= k < origin.len() && origin[k] == j;
        assert(names[k] == nqn);
    }
}

impl PathFailureDetector {
    /// The targets whose path is on record in `state`, each once.
    pub fn targets_in(&self, state: PathState) -> (targets: Vec<String>)
        requires
            self.wf(),
        ensures
            names_of(targets@).no_duplicates(),
            forall|nqn: Seq<char>|
                names_of(targets@).contains(nqn) <==> self.records().contains_key(nqn)
                    && self.records()[nqn].state == state,
    {
        let mut targets: Vec<String> = Vec::new();
        let ghost mut origin: Seq<int> = Seq::empty();
        let mut i: usize = 0;
        while i < self.suspected_paths.len()
            invariant
                i <= self.suspected_paths.len(),
                found_in(targets@, origin, self.suspected_paths@, i as int, state),
            decreases self.suspected_paths.len() - i,
        {
            let ghost before = origin;
            if self.suspected_paths[i].get_state() == state {
                targets.push(self.suspected_paths[i].nqn.clone());
                proof {
                    origin = origin.push(i as int);
                    assert(origin[before.len() as int] == i);
                    assert forall|j: int|
                        0 <= j < i + 1 && (#[trigger] self.suspected_paths@[j])@.state
                            == state implies origin.contains(j) by {
                        if j < i {
                            assert(before.contains(j));
                            let k = choose|k: int| 0 <= k < before.len() && before[k] == j;
                            assert(origin[k] == j);
                        }
                    }
                    assert forall|k: int| 0 <= k < targets.len() implies 0 <= #[trigger] origin[k]
                        < i + 1 && self.suspected_paths@[origin[k]]@.nqn == targets[k]@
                        && self.suspected_paths@[origin[k]]@.state == state by {
                        if k < before.len() {
                            assert(origin[k] == before[k]);
                        }
                    }
                    assert forall|k: int, l: int| 0 <= k < l < origin.len() implies #[trigger] origin[k]
                        < #[trigger] origin[l] by {
                        assert(origin[k] == before[k]);
                        if l < before.len() {
                            assert(origin[l] == before[l]);
                        }
                    }
                }
            }
            i += 1;
        }
        proof {
            lemma_found_all(targets@, origin, self.suspected_paths@, state);
        }
        targets
    }
}

/// Whether the observation says anything about the path to `nqn`: its
/// controller was read and is `connecting` or `live`.
pub open spec fn concerns(seen: PathObservationView, nqn: Seq<char>) -> bool {
    seen matches PathObservationView::Status { nqn: target, state } && target == nqn
        && link_status(state) != LinkStatus::Other
}

/// Whether the observation finds the controller of `nqn` in link state
/// `status`.
pub open spec fn sees(seen: PathObservationView, nqn: Seq<char>, status: LinkStatus) -> bool {
    seen matches PathObservationView::Status { nqn: target, state } && target == nqn
        && link_status(state) == status
}

/// The health the detector has on record for `nqn`; a target without a
/// record counts as `Good`.
pub open spec fn health(records: Map<Seq<char>, PathRecordView>, nqn: Seq<char>) -> PathState {
    if records.contains_key(nqn) {
        records[nqn].state
    } else {
        PathState::Good
    }
}

proof fn lemma_observe_all_concat(
    records: Map<Seq<char>, PathRecordView>,
    epoch: u64,
    first: Seq<PathObservationView>,
    then: Seq<PathObservationView>,
)
    ensures
        observe_all(records, epoch, first + then) == observe_all(
            observe_all(records, epoch, first),
            epoch,
            then,
        ),
    decreases then.len(),
{
    if then.len() == 0 {
        assert(first + then =~= first);
    } else {
        lemma_observe_all_concat(records, epoch, first, then.drop_last());
        assert((first + then).drop_last() =~= first + then.drop_last());
        assert((first + then).last() == then.last());
    }
}

/// Observations that do not concern a target leave its record alone.
proof fn lemma_unconcerned(
    records: Map<Seq<char>, PathRecordView>,
    epoch: u64,
    seen: Seq<PathObservationView>,
    nqn: Seq<char>,
)
    requires
        forall|i: int| 0 <= i < seen.len() ==> !concerns(#[trigger] seen[i], nqn),
    ensures
        observe_all(records, epoch, seen).contains_key(nqn) == records.contains_key(nqn),
        records.contains_key(nqn) ==> observe_all(records, epoch, seen)[nqn] == records[nqn],
    decreases seen.len(),
{
    if seen.len() > 0 {
        lemma_unconcerned(records, epoch, seen.drop_last(), nqn);
        assert(!concerns(seen[seen.len() - 1], nqn));
    }
}

/// A record stays until the sweep: no observation removes one.
proof fn lemma_record_stays(
    records: Map<Seq<char>, PathRecordView>,
    epoch: u64,
    seen: Seq<PathObservationView>,
    nqn: Seq<char>,
)
    requires
        records.contains_key(nqn),
    ensures
        observe_all(records, epoch, seen).contains_key(nqn),
    decreases seen.len(),
{
    if seen.len() > 0 {
        lemma_record_stays(records, epoch, seen.drop_last(), nqn);
    }
}

/// A target is reported exactly when some observation took its record from
/// `Suspected` to `Failed`.
proof fn lemma_reported_iff_entered(
    records: Map<Seq<char>, PathRecordView>,
    epoch: u64,
    seen: Seq<PathObservationView>,
    nqn: Seq<char>,
)
    ensures
        newly_failed(records, epoch, seen).contains(nqn) <==> exists|i: int|
            0 <= i < seen.len() && #[trigger] enters_failed(
                observe_all(records, epoch, seen.take(i)),
                seen[i],
            ) && seen[i]->nqn == nqn,
    decreases seen.len(),
{
    if seen.len() > 0 {
        let head = seen.drop_last();
        let last = seen.len() - 1;
        lemma_reported_iff_entered(records, epoch, head, nqn);
        let earlier = newly_failed(records, epoch, head);
        let all = newly_failed(records, epoch, seen);
        assert(seen.take(last) =~= head);
        assert forall|i: int| 0 <= i < last implies seen.take(i) == head.take(i) by {
            assert(seen.take(i) =~= head.take(i));
        }
        if all.contains(nqn) {
            if earlier.contains(nqn) {
                let i = choose|i: int|
                    0 <= i < head.len() && #[trigger] enters_failed(
                        observe_all(records, epoch, head.take(i)),
                        head[i],
                    ) && head[i]->nqn == nqn;
                assert(seen.take(i) == head.take(i));
                assert(enters_failed(observe_all(records, epoch, seen.take(i)), seen[i])
                    && seen[i]->nqn == nqn);
            } else {
                assert(all == earlier.push(seen.last()->nqn));
                let at = choose|at: int| 0 <= at < all.len() && all[at] == nqn;
                if at < earlier.len() {
                    assert(earlier[at] == nqn);
                }
                assert(seen.last()->nqn == nqn);
                assert(enters_failed(observe_all(records, epoch, seen.take(last)), seen[last])
                    && seen[last]->nqn == nqn);
            }
        }
        if exists|i: int|
            0 <= i < seen.len() && #[trigger] enters_failed(
                observe_all(records, epoch, seen.take(i)),
                seen[i],
            ) && seen[i]->nqn == nqn {
            let i = choose|i: int|
                0 <= i < seen.len() && #[trigger] enters_failed(
                    observe_all(records, epoch, seen.take(i)),
                    seen[i],
                ) && seen[i]->nqn == nqn;
            if i < last {
                assert(seen.take(i) == head.take(i));
                assert(enters_failed(observe_all(records, epoch, head.take(i)), head[i])
                    && head[i]->nqn == nqn);
                assert(earlier.contains(nqn));
                if all != earlier {
                    assert(all == earlier.push(seen.last()->nqn));
                    let at = choose|at: int| 0 <= at < earlier.len() && earlier[at] == nqn;
                    assert(all[at] == nqn);
                }
            } else {
                if !earlier.contains(nqn) {
                    assert(all == earlier.push(nqn));
                    assert(all[earlier.len() as int] == nqn);
                } else {
                    let at = choose|at: int| 0 <= at < earlier.len() && earlier[at] == nqn;
                    assert(all[at] == nqn);
                }
            }
        }
    }
}

/// The record of `nqn` after a scan in which the observation at `at` is the
/// only one that concerns it.
proof fn lemma_single_sighting(
    records: Map<Seq<char>, PathRecordView>,
    epoch: u64,
    seen: Seq<PathObservationView>,
    nqn: Seq<char>,
    at: int,
)
    requires
        0 <= at < seen.len(),
        forall|i: int| 0 <= i < seen.len() && i != at ==> !concerns(#[trigger] seen[i], nqn),
    ensures
        observe_all(records, epoch, seen.take(at)).contains_key(nqn) == records.contains_key(nqn),
        records.contains_key(nqn) ==> observe_all(records, epoch, seen.take(at))[nqn]
            == records[nqn],
        observe_all(records, epoch, seen).contains_key(nqn) == observe(
            observe_all(records, epoch, seen.take(at)),
            epoch,
            seen[at],
        ).contains_key(nqn),
        observe_all(records, epoch, seen).contains_key(nqn) ==> observe_all(records, epoch, seen)[nqn]
            == observe(observe_all(records, epoch, seen.take(at)), epoch, seen[at])[nqn],
{
    let head = seen.take(at);
    let upto = seen.take(at + 1);
    let tail = seen.skip(at + 1);
    lemma_unconcerned(records, epoch, head, nqn);
    assert(upto.drop_last() =~= head);
    assert(upto.last() == seen[at]);
    assert(seen =~= upto + tail);
    lemma_observe_all_concat(records, epoch, upto, tail);
    lemma_unconcerned(observe_all(records, epoch, upto), epoch, tail, nqn);
}

impl PathFailureDetector {
    /// What well-formedness means for the records: each is filed under the
    /// NQN of its target and carries the number of the last scan.
    pub proof fn lemma_records_stamped(&self)
        requires
            self.wf(),
        ensures
            forall|nqn: Seq<char>| #[trigger]
                self.records().contains_key(nqn) ==> self.records()[nqn].nqn == nqn
                    && self.records()[nqn].epoch == self.epoch(),
    {
        assert forall|nqn: Seq<char>| #[trigger] self.records().contains_key(nqn) implies self.records()[nqn].nqn
            == nqn && self.records()[nqn].epoch == self.epoch() by {
            let i = choose|i: int|
                0 <= i < self.suspected_paths.len() && self.suspected_paths[i]@.nqn == nqn;
            lemma_record_at(self.suspected_paths@, i);
            assert(self.suspected_paths[i]@.epoch == self.epoch);
        }
    }
}

/// Debounced escalation. In a scan where exactly one observation concerns the
/// path to `nqn`, and finds it `connecting`, the record of `nqn` moves one
/// step: a target without a record, or in `Good`, becomes `Suspected`;
/// `Suspected` becomes `Failed`; `Failed` stays `Failed`. The path is reported
/// as failed exactly when it was `Suspected` before, so a path that stays
/// `Failed` is not reported again.
pub proof fn law_connecting_escalates(
    detector: PathFailureDetector,
    observations: Seq<PathObservation>,
    nqn: Seq<char>,
    at: int,
)
    requires
        detector.wf(),
        detector.epoch() < u64::MAX,
        0 <= at < observations.len(),
        sees(observations[at]@, nqn, LinkStatus::Connecting),
        forall|i: int|
            0 <= i < observations.len() && i != at ==> !concerns(
                (#[trigger] observations[i])@,
                nqn,
            ),
    ensures
        ({
            let epoch = (detector.epoch() + 1) as u64;
            let before = detector.records();
            let after = scan(before, epoch, sightings(observations));
            let failed = newly_failed(before, epoch, sightings(observations));
            &&& after.contains_key(nqn)
            &&& after[nqn] == PathRecordView { nqn, epoch, state: escalate(health(before, nqn)) }
            &&& failed.contains(nqn) <==> before.contains_key(nqn) && before[nqn].state
                == PathState::Suspected
        }),
{
    let epoch = (detector.epoch() + 1) as u64;
    let before = detector.records();
    let seen = sightings(observations);
    assert(seen[at] == observations[at]@);
    assert forall|i: int| 0 <= i < seen.len() && i != at implies !concerns(
        #[trigger] seen[i],
        nqn,
    ) by {
        assert(seen[i] == observations[i]@);
    }
    lemma_single_sighting(before, epoch, seen, nqn, at);
    lemma_reported_iff_entered(before, epoch, seen, nqn);
    let failed = newly_failed(before, epoch, seen);
    let head = observe_all(before, epoch, seen.take(at));
    if before.contains_key(nqn) && before[nqn].state == PathState::Suspected {
        assert(enters_failed(head, seen[at]) && seen[at]->nqn == nqn);
    }
    if failed.contains(nqn) {
        let i = choose|i: int|
            0 <= i < seen.len() && #[trigger] enters_failed(
                observe_all(before, epoch, seen.take(i)),
                seen[i],
            ) && seen[i]->nqn == nqn;
        assert(concerns(seen[i], nqn));
        assert(i == at);
    }
}

/// Recovery is not debounced. If the detector holds a record of `nqn`, in any
/// state, and the last observation of a scan that concerns `nqn` finds it
/// `live`, the record is `Good` when the scan ends.
pub proof fn law_live_resets(
    detector: PathFailureDetector,
    observations: Seq<PathObservation>,
    nqn: Seq<char>,
    at: int,
)
    requires
        detector.wf(),
        detector.epoch() < u64::MAX,
        detector.records().contains_key(nqn),
        0 <= at < observations.len(),
        sees(observations[at]@, nqn, LinkStatus::Live),
        forall|i: int|
            at < i < observations.len() ==> !concerns((#[trigger] observations[i])@, nqn),
    ensures
        ({
            let epoch = (detector.epoch() + 1) as u64;
            let after = scan(detector.records(), epoch, sightings(observations));
            &&& after.contains_key(nqn)
            &&& after[nqn] == PathRecordView { nqn, epoch, state: PathState::Good }
        }),
{
    let epoch = (detector.epoch() + 1) as u64;
    let before = detector.records();
    let seen = sightings(observations);
    let head = seen.take(at);
    let upto = seen.take(at + 1);
    let tail = seen.skip(at + 1);
    assert(seen[at] == observations[at]@);
    assert forall|i: int| 0 <= i < tail.len() implies !concerns(#[trigger] tail[i], nqn) by {
        assert(tail[i] == observations[at + 1 + i]@);
    }
    lemma_record_stays(before, epoch, head, nqn);
    assert(upto.drop_last() =~= head);
    assert(upto.last() == seen[at]);
    assert(seen =~= upto + tail);
    lemma_observe_all_concat(before, epoch, upto, tail);
    lemma_unconcerned(observe_all(before, epoch, upto), epoch, tail, nqn);
}

/// Staleness pruning. A target that no observation of a scan concerns has no
/// record when the scan ends, whatever state its record was in.
pub proof fn law_absent_target_is_dropped(
    detector: PathFailureDetector,
    observations: Seq<PathObservation>,
    nqn: Seq<char>,
)
    requires
        detector.wf(),
        detector.epoch() < u64::MAX,
        forall|i: int|
            0 <= i < observations.len() ==> !concerns((#[trigger] observations[i])@, nqn),
    ensures
        !scan(
            detector.records(),
            (detector.epoch() + 1) as u64,
            sightings(observations),
        ).contains_key(nqn),
{
    let epoch = (detector.epoch() + 1) as u64;
    let seen = sightings(observations);
    assert forall|i: int| 0 <= i < seen.len() implies !concerns(#[trigger] seen[i], nqn) by {
        assert(seen[i] == observations[i]@);
    }
    lemma_unconcerned(detector.records(), epoch, seen, nqn);
    detector.lemma_records_stamped();
}

/// No target is reported twice by one scan.
pub proof fn law_reports_are_unique(
    records: Map<Seq<char>, PathRecordView>,
    epoch: u64,
    seen: Seq<PathObservationView>,
)
    ensures
        newly_failed(records, epoch, seen).no_duplicates(),
    decreases seen.len(),
{
    if seen.len() > 0 {
        law_reports_are_unique(records, epoch, seen.drop_last());
    }
}

/// Two polls make a failure. A path that is `Good`, or has no record, and is
/// found `connecting` by two scans in a row, with no other word about it in
/// either, is `Suspected` after the first and `Failed` after the second; only
/// the second scan reports it.
pub proof fn law_sustained_connecting_fails(
    first: PathFailureDetector,
    second: PathFailureDetector,
    poll1: Seq<PathObservation>,
    poll2: Seq<PathObservation>,
    nqn: Seq<char>,
    at1: int,
    at2: int,
)
    requires
        first.wf(),
        second.wf(),
        first.epoch() + 1 < u64::MAX,
        second.epoch() == first.epoch() + 1,
        second.records() == scan(first.records(), second.epoch(), sightings(poll1)),
        health(first.records(), nqn) == PathState::Good,
        0 <= at1 < poll1.len(),
        sees(poll1[at1]@, nqn, LinkStatus::Connecting),
        forall|i: int| 0 <= i < poll1.len() && i != at1 ==> !concerns((#[trigger] poll1[i])@, nqn),
        0 <= at2 < poll2.len(),
        sees(poll2[at2]@, nqn, LinkStatus::Connecting),
        forall|i: int| 0 <= i < poll2.len() && i != at2 ==> !concerns((#[trigger] poll2[i])@, nqn),
    ensures
        health(second.records(), nqn) == PathState::Suspected,
        !newly_failed(first.records(), second.epoch(), sightings(poll1)).contains(nqn),
        ({
            let epoch = (second.epoch() + 1) as u64;
            let after = scan(second.records(), epoch, sightings(poll2));
            &&& after.contains_key(nqn)
            &&& after[nqn].state == PathState::Failed
            &&& newly_failed(second.records(), epoch, sightings(poll2)).contains(nqn)
        }),
{
    law_connecting_escalates(first, poll1, nqn, at1);
    law_connecting_escalates(second, poll2, nqn, at2);
}

proof fn lemma_suspected_was_good(
    records: Map<Seq<char>, PathRecordView>,
    epoch: u64,
    seen: Seq<PathObservationView>,
    nqn: Seq<char>,
)
    requires
        records.contains_key(nqn) ==> records[nqn].epoch != epoch,
        observe_all(records, epoch, seen).contains_key(nqn),
        observe_all(records, epoch, seen)[nqn].epoch == epoch,
        observe_all(records, epoch, seen)[nqn].state == PathState::Suspected,
    ensures
        exists|i: int|
            0 <= i < seen.len() && sees(#[trigger] seen[i], nqn, LinkStatus::Connecting) && health(
                observe_all(records, epoch, seen.take(i)),
                nqn,
            ) == PathState::Good,
    decreases seen.len(),
{
    if seen.len() > 0 {
        let head = seen.drop_last();
        let last = seen.len() - 1;
        assert(seen.take(last) =~= head);
        if sees(seen[last], nqn, LinkStatus::Connecting) {
            assert(health(observe_all(records, epoch, seen.take(last)), nqn) == PathState::Good);
        } else {
            lemma_suspected_was_good(records, epoch, head, nqn);
            let i = choose|i: int|
                0 <= i < head.len() && sees(#[trigger] head[i], nqn, LinkStatus::Connecting)
                    && health(observe_all(records, epoch, head.take(i)), nqn) == PathState::Good;
            assert(seen.take(i) =~= head.take(i));
            assert(sees(seen[i], nqn, LinkStatus::Connecting));
        }
    }
}

/// A suspicion is always fresh. A path that is `Suspected` when a scan ends
/// became so during that scan: one of its observations found the path
/// `connecting` while it was `Good` or had no record.
pub proof fn law_suspected_since_this_scan(
    detector: PathFailureDetector,
    observations: Seq<PathObservation>,
    nqn: Seq<char>,
)
    requires
        detector.wf(),
        detector.epoch() < u64::MAX,
        scan(
            detector.records(),
            (detector.epoch() + 1) as u64,
            sightings(observations),
        ).contains_key(nqn),
        scan(detector.records(), (detector.epoch() + 1) as u64, sightings(observations))[nqn].state
            == PathState::Suspected,
    ensures
        exists|i: int|
            0 <= i < observations.len() && sees(
                (#[trigger] observations[i])@,
                nqn,
                LinkStatus::Connecting,
            ) && health(
                observe_all(
                    detector.records(),
                    (detector.epoch() + 1) as u64,
                    sightings(observations).take(i),
                ),
                nqn,
            ) == PathState::Good,
{
    let epoch = (detector.epoch() + 1) as u64;
    let seen = sightings(observations);
    detector.lemma_records_stamped();
    lemma_suspected_was_good(detector.records(), epoch, seen, nqn);
    let i = choose|i: int|
        0 <= i < seen.len() && sees(#[trigger] seen[i], nqn, LinkStatus::Connecting) && health(
            observe_all(detector.records(), epoch, seen.take(i)),
            nqn,
        ) == PathState::Good;
    assert(seen[i] == observations[i]@);
}

/// The observations among `seen` that concern the path to `nqn`, in order.
pub open spec fn about(seen: Seq<PathObservationView>, nqn: Seq<char>) -> Seq<PathObservationView>
    decreases seen.len(),
{
    if seen.len() == 0 {
        Seq::empty()
    } else if concerns(seen.last(), nqn) {
        about(seen.drop_last(), nqn).push(seen.last())
    } else {
        about(seen.drop_last(), nqn)
    }
}

proof fn lemma_own_observations_decide(
    records: Map<Seq<char>, PathRecordView>,
    epoch: u64,
    seen: Seq<PathObservationView>,
    nqn: Seq<char>,
)
    ensures
        observe_all(records, epoch, seen).contains_key(nqn) == observe_all(
            records,
            epoch,
            about(seen, nqn),
        ).contains_key(nqn),
        observe_all(records, epoch, seen).contains_key(nqn) ==> observe_all(records, epoch, seen)[nqn]
            == observe_all(records, epoch, about(seen, nqn))[nqn],
    decreases seen.len(),
{
    if seen.len() > 0 {
        let head = seen.drop_last();
        lemma_own_observations_decide(records, epoch, head, nqn);
        if concerns(seen.last(), nqn) {
            assert(about(seen, nqn).drop_last() =~= about(head, nqn));
            assert(about(seen, nqn).last() == seen.last());
        }
    }
}

/// Targets do not affect each other, and the order in which the controllers
/// of different targets are read does not matter: what a scan leaves on
/// record for a target is decided by the observations that concern it.
pub proof fn law_targets_are_independent(
    records: Map<Seq<char>, PathRecordView>,
    epoch: u64,
    one: Seq<PathObservationView>,
    other: Seq<PathObservationView>,
    nqn: Seq<char>,
)
    requires
        about(one, nqn) == about(other, nqn),
    ensures
        scan(records, epoch, one).contains_key(nqn) == scan(records, epoch, other).contains_key(
            nqn,
        ),
        scan(records, epoch, one).contains_key(nqn) ==> scan(records, epoch, one)[nqn] == scan(
            records,
            epoch,
            other,
        )[nqn],
{
    lemma_own_observations_decide(records, epoch, one, nqn);
    lemma_own_observations_decide(records, epoch, other, nqn);
}

/// The report for the cluster agent after a scan: none when no path failed.
pub open spec fn report_for(node: Seq<char>, failed: Seq<Seq<char>>) -> Option<
    ReportFailedPathsView,
> {
    if failed.len() == 0 {
        None
    } else {
        Some(ReportFailedPathsView { node, failed_paths: failed })
    }
}

/// A report over character sequences, where there is one.
pub open spec fn report_view(report: Option<ReportFailedPaths>) -> Option<ReportFailedPathsView> {
    match report {
        Some(r) => Some(r@),
        None => None,
    }
}

/// Builds the report that tells the cluster agent which paths of `node`
/// failed. There is nothing to report when `failed` is empty.
pub fn failure_report(node: &str, failed: Vec<FailedPath>) -> (report: Option<ReportFailedPaths>)
    ensures
        report_view(report) == report_for(node@, nqns_of(failed@)),
{
    if failed.len() == 0 {
        None
    } else {
        Some(ReportFailedPaths { node: node.to_owned(), failed_paths: failed })
    }
}

/// What the detection loop waits for.
#[derive(Debug)]
pub enum DetectionEvent {
    /// The detection period elapsed and the controllers were read.
    PeriodElapsed(Vec<PathObservation>),
    /// The source of controller snapshots has stopped for good.
    ProviderStopped,
}

/// What the detection loop does after an event.
#[derive(Debug, PartialEq, Eq)]
pub enum DetectionAction {
    /// Send the report, if there is one, and wait for the next event.
    Continue(Option<ReportFailedPaths>),
    /// Leave the loop.
    Stop,
}

impl PathFailureDetector {
    /// One turn of the detection loop on behalf of `node`.
    ///
    /// When the period has elapsed the detector scans the observations and
    /// hands back the report on the paths that failed in this scan. When the
    /// snapshot source has stopped, the detector is left as it is and the loop
    /// ends.
    pub fn on_event(&mut self, node: &str, event: &DetectionEvent) -> (action: DetectionAction)
        requires
            old(self).wf(),
            event is PeriodElapsed ==> old(self).epoch() < u64::MAX,
        ensures
            final(self).wf(),
            final(self).period() == old(self).period(),
            match event {
                DetectionEvent::PeriodElapsed(observations) => {
                    &&& final(self).epoch() == old(self).epoch() + 1
                    &&& final(self).records() == scan(
                        old(self).records(),
                        final(self).epoch(),
                        sightings(observations@),
                    )
                    &&& action matches DetectionAction::Continue(report)
                    &&& report_view(report) == report_for(
                        node@,
                        newly_failed(
                            old(self).records(),
                            final(self).epoch(),
                            sightings(observations@),
                        ),
                    )
                },
                DetectionEvent::ProviderStopped => {
                    &&& final(self).epoch() == old(self).epoch()
                    &&& final(self).records() == old(self).records()
                    &&& action is Stop
                },
            },
    {
        match event {
            DetectionEvent::PeriodElapsed(observations) => {
                let failed = self.rescan_paths(observations);
                DetectionAction::Continue(failure_report(node, failed))
            },
            DetectionEvent::ProviderStopped => DetectionAction::Stop,
        }
    }
}

/// A cached NVMe controller, known by the path under which the kernel lists
/// it.
#[derive(Debug, PartialEq, Eq)]
pub struct NvmeController {
    pub path: String,
}

impl View for NvmeController {
    type V = Seq<char>;

    open spec fn view(&self) -> Seq<char> {
        self.path@
    }
}

impl Clone for NvmeController {
    fn clone(&self) -> (copy: Self)
        ensures
            copy@ == self@,
    {
        NvmeController { path: self.path.clone() }
    }
}

/// One line of a controller snapshot: the target and the controller that is
/// attached to it.
#[derive(Debug)]
pub struct CachedController {
    pub nqn: String,
    pub controller: NvmeController,
}

impl Clone for CachedController {
    fn clone(&self) -> (copy: Self)
        ensures
            copy.nqn@ == self.nqn@,
            copy.controller@ == self.controller@,
    {
        CachedController { nqn: self.nqn.clone(), controller: self.controller.clone() }
    }
}

/// The index that a snapshot stands for, from target NQN to controller path.
/// Where a target occurs more than once, its last line counts.
pub open spec fn index_of(lines: Seq<CachedController>) -> Map<Seq<char>, Seq<char>>
    decreases lines.len(),
{
    if lines.len() == 0 {
        Map::empty()
    } else {
        index_of(lines.drop_last()).insert(lines.last().nqn@, lines.last().controller@)
    }
}

proof fn lemma_index_last_line(lines: Seq<CachedController>, nqn: Seq<char>, at: int)
    requires
        0 <= at < lines.len(),
        lines[at].nqn@ == nqn,
        forall|j: int| at < j < lines.len() ==> (#[trigger] lines[j]).nqn@ != nqn,
    ensures
        index_of(lines).contains_key(nqn),
        index_of(lines)[nqn] == lines[at].controller@,
    decreases lines.len(),
{
    if at < lines.len() - 1 {
        assert(lines[lines.len() - 1].nqn@ != nqn);
        lemma_index_last_line(lines.drop_last(), nqn, at);
    }
}

proof fn lemma_index_no_line(lines: Seq<CachedController>, nqn: Seq<char>)
    requires
        forall|j: int| 0 <= j < lines.len() ==> (#[trigger] lines[j]).nqn@ != nqn,
    ensures
        !index_of(lines).contains_key(nqn),
    decreases lines.len(),
{
    if lines.len() > 0 {
        assert(lines[lines.len() - 1].nqn@ != nqn);
        lemma_index_no_line(lines.drop_last(), nqn);
    }
}

/// Index from target NQN to the controller that serves it. A cache is one
/// snapshot: it is never changed in place, a refresh builds another.
#[derive(Debug)]
pub struct NvmePathCache {
    lines: Vec<CachedController>,
}

impl View for NvmePathCache {
    type V = Map<Seq<char>, Seq<char>>;

    closed spec fn view(&self) -> Map<Seq<char>, Seq<char>> {
        index_of(self.lines@)
    }
}

impl Clone for NvmePathCache {
    fn clone(&self) -> (copy: Self)
        ensures
            copy@ == self@,
    {
        let mut lines: Vec<CachedController> = Vec::new();
        let mut i: usize = 0;
        assert(self.lines@.take(0) =~= Seq::<CachedController>::empty());
        while i < self.lines.len()
            invariant
                i <= self.lines.len(),
                index_of(lines@) == index_of(self.lines@.take(i as int)),
            decreases self.lines.len() - i,
        {
            let ghost before = lines@;
            lines.push(self.lines[i].clone());
            assert(lines@.drop_last() =~= before);
            assert(self.lines@.take(i + 1).drop_last() =~= self.lines@.take(i as int));
            i += 1;
        }
        assert(self.lines@.take(self.lines.len() as int) =~= self.lines@);
        NvmePathCache { lines }
    }
}

impl NvmePathCache {
    /// A cache that knows no controller.
    pub fn new() -> (cache: Self)
        ensures
            cache@ == Map::<Seq<char>, Seq<char>>::empty(),
    {
        NvmePathCache { lines: Vec::new() }
    }

    /// The cache for a fresh snapshot of the controllers.
    pub fn from_snapshot(lines: Vec<CachedController>) -> (cache: Self)
        ensures
            cache@ == index_of(lines@),
    {
        NvmePathCache { lines }
    }

    /// The controller attached to target `nqn`, if the cache knows one.
    pub fn lookup_controller(&self, nqn: &str) -> (found: Option<NvmeController>)
        ensures
            match found {
                Some(controller) => self@.contains_key(nqn@) && controller@ == self@[nqn@],
                None => !self@.contains_key(nqn@),
            },
    {
        let target = nqn.to_owned();
        let mut i: usize = self.lines.len();
        while i > 0
            invariant
                i <= self.lines.len(),
                target@ == nqn@,
                forall|j: int| i <= j < self.lines.len() ==> (#[trigger] self.lines[j]).nqn@ != nqn@,
            decreases i,
        {
            i -= 1;
            if self.lines[i].nqn == target {
                proof {
                    lemma_index_last_line(self.lines@, nqn@, i as int);
                }
                return Some(self.lines[i].controller.clone());
            }
        }
        proof {
            lemma_index_no_line(self.lines@, nqn@);
        }
        None
    }
}

} // verus!
