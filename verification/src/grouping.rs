//! Grouping: collapse consecutive readings that share one app identity into
//! contiguous runs.

use crate::models::{ContextReading, CAPTURE_INTERVAL_SECS, MAX_TIMESTAMP_SECS};
use vstd::prelude::*;

verus! {

/// A contiguous run of readings sharing one app identity.
#[derive(Debug, Clone, PartialEq)]
pub struct ReadingGroup {
    pub bundle_id: String,
    pub app_name: String,
    pub readings: Vec<ContextReading>,
    pub start_time: i64,
    pub end_time: i64,
}

impl ReadingGroup {
    /// The group's fields agree with the readings it holds.
    pub open spec fn wf(self) -> bool {
        &&& self.readings@.len() > 0
        &&& self.bundle_id == self.readings@[0].window_metadata.bundle_id
        &&& self.app_name == self.readings@[0].window_metadata.owner_name
        &&& self.start_time == self.readings@[0].timestamp
        &&& self.end_time == self.readings@.last().timestamp
    }

    /// Span of the run plus one capture interval: the trailing reading
    /// covers the interval that follows it.
    pub fn duration_secs(&self) -> (r: i64)
        requires
            0 <= self.start_time <= self.end_time <= MAX_TIMESTAMP_SECS,
    ensures
            r == self.end_time - self.start_time + CAPTURE_INTERVAL_SECS,
    {
        self.end_time - self.start_time + CAPTURE_INTERVAL_SECS
    }

    /// Number of readings in the run.
    pub fn reading_count(&self) -> (r: usize)
        ensures
            r == self.readings@.len(),
    {
        self.readings.len()
    }
}

/// Index bounds `[lo, hi)` of the maximal constant-identity runs of `s`,
/// in order.
pub open spec fn spec_run_bounds(s: Seq<ContextReading>) -> Seq<(int, int)>
    decreases s.len(),
{
    if s.len() == 0 {
        Seq::empty()
    } else if s.len() == 1 {
        seq![(0int, 1int)]
    } else {
        let rest = spec_run_bounds(s.drop_last());
        if s[s.len() - 1].window_metadata.bundle_id@ == s[s.len()
            - 2].window_metadata.bundle_id@ {
            rest.update(rest.len() - 1, (rest.last().0, s.len() as int))
        } else {
            rest.push((s.len() - 1, s.len() as int))
        }
    }
}

/// The run bounds partition `0..s.len()`: non-empty for non-empty input,
/// starting at 0, ending at `s.len()`, each run non-empty and adjacent to
/// the next.
pub proof fn lemma_run_bounds_structure(s: Seq<ContextReading>)
    ensures
        s.len() == 0 ==> spec_run_bounds(s).len() == 0,
        s.len() > 0 ==> spec_run_bounds(s).len() > 0,
        s.len() > 0 ==> spec_run_bounds(s)[0].0 == 0,
        s.len() > 0 ==> spec_run_bounds(s).last().1 == s.len(),
        forall|i: int|
            0 <= i < spec_run_bounds(s).len() ==> 0 <= (#[trigger] spec_run_bounds(s)[i]).0
                < spec_run_bounds(s)[i].1 <= s.len(),
        forall|i: int|
            0 <= i < spec_run_bounds(s).len() - 1 ==> (#[trigger] spec_run_bounds(s)[i]).1
                == spec_run_bounds(s)[i + 1].0,
    decreases s.len(),
{
    if s.len() <= 1 {
    } else {
        let prefix = s.drop_last();
        lemma_run_bounds_structure(prefix);
        let rest = spec_run_bounds(prefix);
        let bs = spec_run_bounds(s);
        if s[s.len() - 1].window_metadata.bundle_id@ == s[s.len()
            - 2].window_metadata.bundle_id@ {
            assert(bs == rest.update(rest.len() - 1, (rest.last().0, s.len() as int)));
            assert(forall|i: int| 0 <= i < bs.len() - 1 ==> bs[i] == rest[i]);
        } else {
            assert(bs == rest.push((s.len() - 1, s.len() as int)));
            assert(forall|i: int| 0 <= i < bs.len() - 1 ==> bs[i] == rest[i]);
        }
    }
}

/// Inside one run every reading carries the run's app identity.
pub proof fn lemma_run_bounds_uniform(s: Seq<ContextReading>)
    ensures
        forall|i: int, j: int|
            0 <= i < spec_run_bounds(s).len() && (#[trigger] spec_run_bounds(s)[i]).0 <= j
                < spec_run_bounds(s)[i].1 ==> (#[trigger] s[j].window_metadata.bundle_id@)
                == s[spec_run_bounds(s)[i].0].window_metadata.bundle_id@,
    decreases s.len(),
{
    if s.len() <= 1 {
    } else {
        let prefix = s.drop_last();
        lemma_run_bounds_structure(prefix);
        lemma_run_bounds_uniform(prefix);
        assert(forall|j: int| 0 <= j < prefix.len() ==> #[trigger] prefix[j] == s[j]);
        let rest = spec_run_bounds(prefix);
        let bs = spec_run_bounds(s);
        if s[s.len() - 1].window_metadata.bundle_id@ == s[s.len()
            - 2].window_metadata.bundle_id@ {
            assert(bs == rest.update(rest.len() - 1, (rest.last().0, s.len() as int)));
            assert(forall|i: int| 0 <= i < bs.len() - 1 ==> bs[i] == rest[i]);
            assert forall|i: int, j: int|
                0 <= i < bs.len() && (#[trigger] bs[i]).0 <= j < bs[i].1 implies (
            #[trigger] s[j].window_metadata.bundle_id@)
                == s[bs[i].0].window_metadata.bundle_id@ by {
                if i < bs.len() - 1 {
                    assert(bs[i] == rest[i]);
                    assert(prefix[j].window_metadata.bundle_id@ == prefix[rest[i].0].window_metadata.bundle_id@);
                } else {
                    assert(bs[i].0 == rest[rest.len() - 1].0);
                    if j < s.len() - 1 {
                        assert(rest[rest.len() - 1].0 <= j < rest[rest.len() - 1].1);
                        assert(prefix[j].window_metadata.bundle_id@ == prefix[rest[rest.len()
                            - 1].0].window_metadata.bundle_id@);
                    } else {
                        assert(rest[rest.len() - 1].0 <= prefix.len() - 1 < rest[rest.len()
                            - 1].1);
                        assert(prefix[prefix.len() - 1].window_metadata.bundle_id@
                            == prefix[rest[rest.len() - 1].0].window_metadata.bundle_id@);
                    }
                }
            }
        } else {
            assert(bs == rest.push((s.len() - 1, s.len() as int)));
            assert(forall|i: int| 0 <= i < bs.len() - 1 ==> bs[i] == rest[i]);
            assert forall|i: int, j: int|
                0 <= i < bs.len() && (#[trigger] bs[i]).0 <= j < bs[i].1 implies (
            #[trigger] s[j].window_metadata.bundle_id@)
                == s[bs[i].0].window_metadata.bundle_id@ by {
                if i < bs.len() - 1 {
                    assert(bs[i] == rest[i]);
                    assert(prefix[j].window_metadata.bundle_id@ == prefix[rest[i].0].window_metadata.bundle_id@);
                } else {
                    assert(bs[i].0 == s.len() - 1);
                }
            }
        }
    }
}

/// Every reading index lies inside one of the runs.
pub proof fn lemma_run_bounds_cover_index(s: Seq<ContextReading>, j: int)
    requires
        0 <= j < s.len(),
    ensures
        exists|i: int|
            0 <= i < spec_run_bounds(s).len() && (#[trigger] spec_run_bounds(s)[i]).0 <= j
                < spec_run_bounds(s)[i].1,
    decreases s.len(),
{
    let bs = spec_run_bounds(s);
    if s.len() == 1 {
        assert(bs[0].0 <= 0 < bs[0].1);
    } else if j == s.len() - 1 {
        lemma_run_bounds_structure(s);
        assert(bs[bs.len() - 1].0 <= j < bs[bs.len() - 1].1);
    } else {
        let prefix = s.drop_last();
        lemma_run_bounds_cover_index(prefix, j);
        let rest = spec_run_bounds(prefix);
        let i = choose|i: int|
            0 <= i < rest.len() && (#[trigger] rest[i]).0 <= j < rest[i].1;
        if s[s.len() - 1].window_metadata.bundle_id@ == s[s.len()
            - 2].window_metadata.bundle_id@ {
            if i < rest.len() - 1 {
                assert(bs[i] == rest[i]);
                assert(bs[i].0 <= j < bs[i].1);
            } else {
                assert(bs[rest.len() - 1].0 <= j < bs[rest.len() - 1].1);
            }
        } else {
            assert(bs[i] == rest[i]);
            assert(bs[i].0 <= j < bs[i].1);
        }
    }
}

/// Matching between a reading list and the groups built from it.
pub open spec fn groups_match(s: Seq<ContextReading>, gs: Seq<ReadingGroup>) -> bool {
    let bs = spec_run_bounds(s);
    &&& gs.len() == bs.len()
    &&& forall|i: int|
        0 <= i < gs.len() ==> (#[trigger] gs[i]).readings@ == s.subrange(bs[i].0, bs[i].1)
    &&& forall|i: int| 0 <= i < gs.len() ==> (#[trigger] gs[i]).wf()
}

/// Collapses consecutive readings sharing an app identity into groups, in
/// order; the groups' reading lists are exactly the maximal constant-identity
/// runs of the input.
#[verifier::rlimit(100)]
pub fn group_readings(readings: Vec<ContextReading>) -> (r: Vec<ReadingGroup>)
    ensures
        groups_match(readings@, r@),
{
    let len = readings.len();
    let mut groups: Vec<ReadingGroup> = Vec::new();
    if len == 0 {
        return groups;
    }
    let first = &readings[0];
    let mut current = ReadingGroup {
        bundle_id: first.window_metadata.bundle_id.clone(),
        app_name: first.window_metadata.owner_name.clone(),
        readings: Vec::new(),
        start_time: first.timestamp,
        end_time: first.timestamp,
    };
    current.readings.push(first.duplicate());
    proof {
        assert(readings@.take(1).len() == 1);
        assert(spec_run_bounds(readings@.take(1)) =~= seq![(0int, 1int)]);
        assert(current.readings@ =~= readings@.take(1).subrange(0, 1));
    }
    let mut i: usize = 1;
    while i < len
        invariant
            1 <= i <= len,
            len == readings@.len(),
            spec_run_bounds(readings@.take(i as int)).len() == groups@.len() + 1,
            forall|k: int|
                0 <= k < groups@.len() ==> (#[trigger] groups@[k]).readings@
                    == readings@.take(i as int).subrange(
                    spec_run_bounds(readings@.take(i as int))[k].0,
                    spec_run_bounds(readings@.take(i as int))[k].1,
                ),
            forall|k: int| 0 <= k < groups@.len() ==> (#[trigger] groups@[k]).wf(),
            current.readings@ == readings@.take(i as int).subrange(
                spec_run_bounds(readings@.take(i as int)).last().0,
                spec_run_bounds(readings@.take(i as int)).last().1,
            ),
            current.wf(),
        decreases len - i,
    {
        let ghost prefix = readings@.take(i as int);
        let ghost next = readings@.take(i + 1);
        let ghost bs_prev = spec_run_bounds(prefix);
        let ghost bs_next = spec_run_bounds(next);
        proof {
            assert(next.drop_last() =~= prefix);
            assert(forall|j: int| 0 <= j < prefix.len() ==> #[trigger] prefix[j] == readings@[j]);
            assert(forall|j: int| 0 <= j < next.len() ==> #[trigger] next[j] == readings@[j]);
            lemma_run_bounds_structure(prefix);
            lemma_run_bounds_uniform(prefix);
            lemma_run_bounds_structure(next);
        }
        let reading = &readings[i];
        let extend = crate::text::str_eq(
            current.bundle_id.as_str(),
            reading.window_metadata.bundle_id.as_str(),
        );
        proof {
            let lo = bs_prev.last().0;
            assert(current.readings@[0] == prefix.subrange(lo, bs_prev.last().1)[0]);
            assert(current.bundle_id@ == prefix[lo].window_metadata.bundle_id@);
            assert(lo <= i - 1 < bs_prev.last().1);
            assert(prefix[i - 1].window_metadata.bundle_id@
                == prefix[lo].window_metadata.bundle_id@);
            assert(extend == (readings@[i as int].window_metadata.bundle_id@ == readings@[i
                - 1].window_metadata.bundle_id@));
        }
        if extend {
            let ghost current_prev = current;
            current.readings.push(reading.duplicate());
            current.end_time = reading.timestamp;
            proof {
                assert(bs_next == bs_prev.update(
                    bs_prev.len() - 1,
                    (bs_prev.last().0, i + 1 as int),
                ));
                assert(forall|k: int| 0 <= k < bs_next.len() - 1 ==> bs_next[k] == bs_prev[k]);
                assert(forall|k: int|
                    0 <= k < bs_prev.len() ==> prefix.subrange(
                        (#[trigger] bs_prev[k]).0,
                        bs_prev[k].1,
                    ) =~= next.subrange(bs_prev[k].0, bs_prev[k].1));
                assert(current.readings@ =~= next.subrange(
                    bs_next.last().0,
                    bs_next.last().1,
                ));
                assert(current.wf());
            }
        } else {
            let ghost groups_prev = groups@;
            let ghost current_prev = current;
            groups.push(current);
            current = ReadingGroup {
                bundle_id: reading.window_metadata.bundle_id.clone(),
                app_name: reading.window_metadata.owner_name.clone(),
                readings: Vec::new(),
                start_time: reading.timestamp,
                end_time: reading.timestamp,
            };
            current.readings.push(reading.duplicate());
            proof {
                assert(bs_next == bs_prev.push((i as int, i + 1 as int)));
                assert(forall|k: int| 0 <= k < bs_next.len() - 1 ==> bs_next[k] == bs_prev[k]);
                assert(forall|k: int|
                    0 <= k < bs_prev.len() ==> prefix.subrange(
                        (#[trigger] bs_prev[k]).0,
                        bs_prev[k].1,
                    ) =~= next.subrange(bs_prev[k].0, bs_prev[k].1));
                assert(forall|k: int|
                    0 <= k < groups@.len() - 1 ==> #[trigger] groups@[k] == groups_prev[k]);
                assert(groups@.last() == current_prev);
                assert(current.readings@ =~= next.subrange(i as int, i + 1));
                assert(current.wf());
            }
        }
        i += 1;
    }
    proof {
        assert(readings@.take(len as int) =~= readings@);
    }
    groups.push(current);
    groups
}

} // verus!
