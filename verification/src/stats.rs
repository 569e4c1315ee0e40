//! The churn engine: committees recomputed for a fixed shard set every epoch,
//! departures counted against the previous snapshot, and the counts
//! aggregated into a histogram and per-epoch summaries.

use vstd::prelude::*;
use vstd::multiset::Multiset;
use vstd::seq_lib::group_to_multiset_ensures;
use vstd::seq_lib::seq_to_set_is_finite;
use vstd::set::group_set_axioms;
use crate::shards::{
    committee_has_key, committee_len, committee_of, distinct_keys, key_of, ShardAddress,
    ShardError, ValidatorNodes, VnAddress,
};

verus! {

broadcast use group_to_multiset_ensures, group_set_axioms, seq_to_set_is_finite;

/// How many members of the old committee departed: members of `old_c` whose
/// key no longer appears in `new_c`. Read the other way round,
/// `count_departures(new_c, old_c)` is the number of joins.
pub open spec fn count_departures(old_c: Seq<VnAddress>, new_c: Seq<VnAddress>) -> int
    decreases old_c.len(),
{
    if old_c.len() == 0 {
        0
    } else {
        count_departures(old_c.drop_last(), new_c) + if !committee_has_key(
            new_c,
            old_c.last().vn_key,
        ) {
            1int
        } else {
            0int
        }
    }
}

/// A departure count lies between zero and the old committee's size.
pub proof fn lemma_count_departures_bound(old_c: Seq<VnAddress>, new_c: Seq<VnAddress>)
    ensures
        0 <= count_departures(old_c, new_c) <= old_c.len(),
    decreases old_c.len(),
{
    if old_c.len() > 0 {
        lemma_count_departures_bound(old_c.drop_last(), new_c);
    }
}

/// The keys of a committee's members, as a set.
pub open spec fn keys_of(c: Seq<VnAddress>) -> Set<ShardAddress> {
    c.map_values(|x: VnAddress| key_of(x)).to_set()
}

/// For a committee with pairwise-distinct keys, the departure count is the
/// cardinality of its key set minus the keys that stay.
proof fn lemma_count_departures_as_sets(old_c: Seq<VnAddress>, new_c: Seq<VnAddress>)
    requires
        distinct_keys(old_c),
    ensures
        count_departures(old_c, new_c) == keys_of(old_c).difference(keys_of(new_c)).len(),
    decreases old_c.len(),
{
    let f = |x: VnAddress| key_of(x);
    if old_c.len() == 0 {
        assert(old_c.map_values(f) =~= Seq::<ShardAddress>::empty());
        assert(keys_of(old_c).difference(keys_of(new_c)) =~= Set::<ShardAddress>::empty());
    } else {
        let c0 = old_c.drop_last();
        let k = old_c.last().vn_key;
        assert(distinct_keys(c0));
        lemma_count_departures_as_sets(c0, new_c);
        assert(old_c.map_values(f) =~= c0.map_values(f).push(k));
        assert forall|x: ShardAddress|
            keys_of(old_c).contains(x) <==> keys_of(c0).insert(k).contains(x) by {
            if keys_of(old_c).contains(x) {
                let i = choose|i: int|
                    0 <= i < old_c.len() && old_c.map_values(f)[i] == x;
                if i < c0.len() {
                    assert(c0.map_values(f)[i] == x);
                    assert(c0.map_values(f).contains(x));
                } else {
                    assert(x == k);
                }
            }
            if keys_of(c0).contains(x) {
                let i = choose|i: int| 0 <= i < c0.len() && c0.map_values(f)[i] == x;
                assert(old_c.map_values(f)[i] == x);
                assert(old_c.map_values(f).contains(x));
            }
            if x == k {
                assert(old_c.map_values(f)[old_c.len() - 1] == k);
                assert(old_c.map_values(f).contains(x));
            }
        }
        assert(keys_of(old_c) =~= keys_of(c0).insert(k));
        assert(!keys_of(c0).contains(k)) by {
            if keys_of(c0).contains(k) {
                let i = choose|i: int| 0 <= i < c0.len() && c0.map_values(f)[i] == k;
                assert(old_c[i].vn_key == old_c[old_c.len() - 1].vn_key);
            }
        }
        // a member's key is in the new committee's key set exactly when some
        // member carries it
        assert(keys_of(new_c).contains(k) == committee_has_key(new_c, k)) by {
            if committee_has_key(new_c, k) {
                let i = choose|i: int| 0 <= i < new_c.len() && new_c[i].vn_key == k;
                assert(new_c.map_values(f)[i] == k);
                assert(new_c.map_values(f).contains(k));
            }
            if keys_of(new_c).contains(k) {
                let i = choose|i: int| 0 <= i < new_c.len() && new_c.map_values(f)[i] == k;
                assert(new_c[i].vn_key == k);
            }
        }
        if committee_has_key(new_c, k) {
            assert(keys_of(old_c).difference(keys_of(new_c)) =~= keys_of(c0).difference(
                keys_of(new_c),
            ));
        } else {
            assert(keys_of(old_c).difference(keys_of(new_c)) =~= keys_of(c0).difference(
                keys_of(new_c),
            ).insert(k));
            assert(!keys_of(c0).difference(keys_of(new_c)).contains(k));
        }
    }
}

/// A finite set splits into the part inside another set and the part outside.
proof fn lemma_difference_intersect_partition<A>(a: Set<A>, b: Set<A>)
    requires
        a.finite(),
    ensures
        a.difference(b).len() + a.intersect(b).len() == a.len(),
    decreases a.len(),
{
    if a.len() == 0 {
        assert(a.difference(b) =~= a);
        assert(a.intersect(b) =~= a);
    } else {
        let x = a.choose();
        let a2 = a.remove(x);
        lemma_difference_intersect_partition(a2, b);
        if b.contains(x) {
            assert(a.difference(b) =~= a2.difference(b));
            assert(a.intersect(b) =~= a2.intersect(b).insert(x));
            assert(!a2.intersect(b).contains(x));
        } else {
            assert(a.intersect(b) =~= a2.intersect(b));
            assert(a.difference(b) =~= a2.difference(b).insert(x));
            assert(!a2.difference(b).contains(x));
        }
    }
}

/// Departures equal joins: between two committees of equal size whose keys
/// are pairwise distinct, as many members leave as enter, by pigeonhole on
/// the fixed cardinality.
pub proof fn lemma_departures_equal_joins(old_c: Seq<VnAddress>, new_c: Seq<VnAddress>)
    requires
        old_c.len() == new_c.len(),
        distinct_keys(old_c),
        distinct_keys(new_c),
    ensures
        count_departures(old_c, new_c) == count_departures(new_c, old_c),
{
    let f = |x: VnAddress| key_of(x);
    lemma_count_departures_as_sets(old_c, new_c);
    lemma_count_departures_as_sets(new_c, old_c);
    let a = keys_of(old_c);
    let b = keys_of(new_c);
    lemma_difference_intersect_partition(a, b);
    lemma_difference_intersect_partition(b, a);
    assert(a.intersect(b) =~= b.intersect(a));
    assert(old_c.map_values(f).no_duplicates()) by {
        assert(forall|i: int, j: int|
            0 <= i < old_c.len() && 0 <= j < old_c.len() && i != j ==> old_c.map_values(f)[i]
                != old_c.map_values(f)[j]);
    }
    assert(new_c.map_values(f).no_duplicates()) by {
        assert(forall|i: int, j: int|
            0 <= i < new_c.len() && 0 <= j < new_c.len() && i != j ==> new_c.map_values(f)[i]
                != new_c.map_values(f)[j]);
    }
    old_c.map_values(f).unique_seq_to_set();
    new_c.map_values(f).unique_seq_to_set();
}

/// What samples a histogram holds, as a multiset.
pub uninterp spec fn hist_samples(h: histo::Histogram) -> Multiset<u64>;

#[verifier::external_type_specification]
#[verifier::external_body]
pub struct ExHistogram(histo::Histogram);

/// Relies on histo's `Histogram::with_buckets`: a new histogram holds no
/// samples. It panics on zero buckets, so that input is kept out.
#[verifier::external_body]
fn new_histogram(num_buckets: u64) -> (r: histo::Histogram)
    requires
        num_buckets >= 1,
    ensures
        hist_samples(r) == Multiset::<u64>::empty(),
{
    histo::Histogram::with_buckets(num_buckets)
}

/// Relies on histo's `Histogram::add`: records exactly one more sample.
#[verifier::external_body]
fn hist_add(h: &mut histo::Histogram, sample: u64)
    ensures
        hist_samples(*final(h)) == hist_samples(*old(h)).insert(sample),
{
    h.add(sample);
}

/// The multiset of every departure count in the recorded per-epoch records.
pub open spec fn recorded_samples(records: Seq<Vec<u64>>) -> Multiset<u64>
    decreases records.len(),
{
    if records.len() == 0 {
        Multiset::empty()
    } else {
        recorded_samples(records.drop_last()).add(records.last()@.to_multiset())
    }
}

/// A per-epoch record: one departure count per shard, each at most the
/// committee length.
pub open spec fn record_wf(rec: Seq<u64>, num_shards: int, cap: int) -> bool {
    &&& rec.len() == num_shards
    &&& forall|s: int| 0 <= s < rec.len() ==> #[trigger] rec[s] <= cap
}

/// The driver: a fixed shard set, the validator ring, the committee snapshot
/// of the last epoch, the per-epoch departure records, and the histogram of
/// every count observed.
pub struct CommitteeStats {
    pub shards: Vec<ShardAddress>,
    pub change_counts: Vec<Vec<u64>>,
    pub nodes: ValidatorNodes,
    pub last_committee_set: Vec<Vec<VnAddress>>,
    pub hist: histo::Histogram,
    pub num_buckets: u64,
}

impl CommitteeStats {
    /// The driver's invariant: a well-formed ring, one stored committee per
    /// shard that is exactly the ring's current committee for it, records of
    /// bounded counts, and a histogram holding exactly the recorded counts.
    pub open spec fn wf(self) -> bool {
        &&& self.nodes.wf()
        &&& self.nodes.committee_size >= 1
        &&& self.num_buckets == self.nodes.num_buckets
        &&& self.last_committee_set@.len() == self.shards@.len()
        &&& forall|s: int|
            0 <= s < self.shards@.len() ==> #[trigger] self.last_committee_set@[s]@
                == committee_of(self.nodes.vns@, self.nodes.committee_size, self.shards@[s].value)
        &&& hist_samples(self.hist) == recorded_samples(self.change_counts@)
        &&& forall|e: int|
            0 <= e < self.change_counts@.len() ==> record_wf(
                #[trigger] self.change_counts@[e]@,
                self.shards@.len() as int,
                committee_len(self.nodes.committee_size, self.nodes.vns@.len() as int),
            )
    }

    /// Sets up a run: `num_shards` random shard points, a fresh ring of
    /// `num_vns` random validators, the epoch-0 committee snapshot, and an
    /// empty histogram. Fails only when two validator addresses collide.
    pub fn new(num_shards: u64, committee_size: u64, num_vns: u64, num_buckets: u64) -> (r: Result<
        CommitteeStats,
        ShardError,
    >)
        requires
            committee_size >= 1,
            num_buckets >= 1,
            num_vns >= 10,
        ensures
            match r {
                Ok(st) => st.wf() && st.shards@.len() == num_shards && st.nodes.epoch == 0
                    && st.nodes.committee_size == committee_size && st.nodes.num_buckets
                    == num_buckets && st.nodes.vns@.len() == num_vns && st.change_counts@.len()
                    == 0 && st.num_buckets == num_buckets,
                Err(e) => e == ShardError::AddressCollision,
            },
    {
        let mut shards: Vec<ShardAddress> = Vec::new();
        let mut n: u64 = 0;
        while n < num_shards
            invariant
                n <= num_shards,
                shards@.len() == n,
            decreases num_shards - n,
        {
            shards.push(ShardAddress::random());
            n += 1;
        }
        let nodes = match ValidatorNodes::new(committee_size, num_vns, num_buckets) {
            Ok(nodes) => nodes,
            Err(e) => {
                return Err(e);
            },
        };
        let last_committee_set = Self::calculate_committees(&shards, &nodes);
        let hist_buckets: u64 = if num_vns / 10 < 20 {
            num_vns / 10
        } else {
            20
        };
        let hist = new_histogram(hist_buckets);
        Ok(
            CommitteeStats {
                shards,
                change_counts: Vec::new(),
                nodes,
                last_committee_set,
                hist,
                num_buckets,
            },
        )
    }

    /// One committee per shard, each read from the ring's current state.
    pub fn calculate_committees(shards: &Vec<ShardAddress>, nodes: &ValidatorNodes) -> (r: Vec<
        Vec<VnAddress>,
    >)
        requires
            nodes.wf(),
        ensures
            r@.len() == shards@.len(),
            forall|s: int|
                0 <= s < shards@.len() ==> #[trigger] r@[s]@ == committee_of(
                    nodes.vns@,
                    nodes.committee_size,
                    shards@[s].value,
                ),
    {
        let mut out: Vec<Vec<VnAddress>> = Vec::new();
        let mut s: usize = 0;
        while s < shards.len()
            invariant
                nodes.wf(),
                s <= shards@.len(),
                out@.len() == s,
                forall|t: int|
                    0 <= t < s ==> #[trigger] out@[t]@ == committee_of(
                        nodes.vns@,
                        nodes.committee_size,
                        shards@[t].value,
                    ),
            decreases shards@.len() - s,
        {
            out.push(nodes.committee_for(&shards[s]));
            s += 1;
        }
        out
    }

    /// The departure count of every shard: how many members of the stored
    /// snapshot's committee are absent from the new one.
    pub fn count_changes(&self, new_committee_set: &Vec<Vec<VnAddress>>) -> (r: Vec<u64>)
        requires
            new_committee_set@.len() == self.last_committee_set@.len(),
        ensures
            r@.len() == new_committee_set@.len(),
            forall|s: int|
                0 <= s < r@.len() ==> #[trigger] r@[s] == count_departures(
                    self.last_committee_set@[s]@,
                    new_committee_set@[s]@,
                ) && r@[s] <= self.last_committee_set@[s]@.len(),
    {
        let mut out: Vec<u64> = Vec::new();
        let mut s: usize = 0;
        while s < new_committee_set.len()
            invariant
                new_committee_set@.len() == self.last_committee_set@.len(),
                s <= new_committee_set@.len(),
                out@.len() == s,
                forall|t: int|
                    0 <= t < s ==> #[trigger] out@[t] == count_departures(
                        self.last_committee_set@[t]@,
                        new_committee_set@[t]@,
                    ) && out@[t] <= self.last_committee_set@[t]@.len(),
            decreases new_committee_set@.len() - s,
        {
            let old_c = &self.last_committee_set[s];
            let new_c = &new_committee_set[s];
            let mut total: u64 = 0;
            let mut m: usize = 0;
            while m < old_c.len()
                invariant
                    m <= old_c@.len(),
                    total <= m,
                    total == count_departures(old_c@.take(m as int), new_c@),
                decreases old_c@.len() - m,
            {
                let departed = !old_c[m].is_in_committee(new_c.as_slice());
                proof {
                    assert(old_c@.take(m as int + 1).drop_last() =~= old_c@.take(m as int));
                    assert(old_c@.take(m as int + 1).last() == old_c@[m as int]);
                }
                if departed {
                    total += 1;
                }
                m += 1;
            }
            proof {
                assert(old_c@.take(old_c@.len() as int) =~= old_c@);
            }
            out.push(total);
            s += 1;
        }
        out
    }

    /// One epoch step, as the run's state machine takes it: the ring
    /// advances one epoch, every shard's committee is recomputed, each
    /// shard's departure count against the stored snapshot is recorded and
    /// fed into the histogram, and the snapshot is replaced. The new record
    /// holds, for every shard, exactly the departures between the stored
    /// committee snapshot and the recomputed one.
    pub fn step(&mut self)
        requires
            old(self).wf(),
            old(self).nodes.epoch < u64::MAX,
        ensures
            final(self).wf(),
            final(self).nodes.epoch == old(self).nodes.epoch + 1,
            final(self).shards == old(self).shards,
            final(self).nodes.committee_size == old(self).nodes.committee_size,
            final(self).nodes.num_buckets == old(self).nodes.num_buckets,
            final(self).num_buckets == old(self).num_buckets,
            final(self).nodes.vns@.len() == old(self).nodes.vns@.len(),
            final(self).change_counts@.len() == old(self).change_counts@.len() + 1,
            final(self).change_counts@.drop_last() == old(self).change_counts@,
            final(self).change_counts@.last()@.len() == old(self).shards@.len(),
            forall|s: int|
                0 <= s < old(self).shards@.len()
                    ==> #[trigger] final(self).change_counts@.last()@[s] == count_departures(
                    old(self).last_committee_set@[s]@,
                    final(self).last_committee_set@[s]@,
                ),
            forall|s: int|
                0 <= s < old(self).shards@.len() ==> #[trigger] final(self).last_committee_set@[s]@
                    == committee_of(
                    final(self).nodes.vns@,
                    final(self).nodes.committee_size,
                    old(self).shards@[s].value,
                ),
    {
        self.nodes.next_epoch();
        let new_committee_set = Self::calculate_committees(&self.shards, &self.nodes);
        let changes = self.count_changes(&new_committee_set);
        let ghost pre = *self;
        let ghost pre_hist_records = self.change_counts@;
        let mut j: usize = 0;
        while j < changes.len()
            invariant
                j <= changes@.len(),
                self.nodes == pre.nodes,
                self.shards == pre.shards,
                self.last_committee_set == pre.last_committee_set,
                self.change_counts == pre.change_counts,
                self.num_buckets == pre.num_buckets,
                pre_hist_records == pre.change_counts@,
                hist_samples(self.hist) == recorded_samples(pre_hist_records).add(
                    changes@.take(j as int).to_multiset(),
                ),
            decreases changes@.len() - j,
        {
            proof {
                assert(changes@.take(j as int + 1) =~= changes@.take(j as int).push(
                    changes@[j as int],
                ));
                assert(changes@.take(j as int + 1).to_multiset() =~= changes@.take(
                    j as int,
                ).to_multiset().insert(changes@[j as int]));
                assert(recorded_samples(pre_hist_records).add(
                    changes@.take(j as int).to_multiset(),
                ).insert(changes@[j as int]) =~= recorded_samples(pre_hist_records).add(
                    changes@.take(j as int + 1).to_multiset(),
                ));
            }
            hist_add(&mut self.hist, changes[j]);
            j += 1;
        }
        proof {
            assert(changes@.take(changes@.len() as int) =~= changes@);
        }
        self.change_counts.push(changes);
        proof {
            assert(self.change_counts@.drop_last() =~= pre_hist_records);
            assert(recorded_samples(self.change_counts@) == recorded_samples(
                pre_hist_records,
            ).add(changes@.to_multiset()));
            assert forall|s: int| 0 <= s < changes@.len() implies #[trigger] changes@[s]
                <= committee_len(
                self.nodes.committee_size,
                self.nodes.vns@.len() as int,
            ) by {
                assert(changes@[s] <= self.last_committee_set@[s]@.len());
            }
        }
        self.last_committee_set = new_committee_set;
    }

    /// Runs the given number of epoch steps, one `step` after the other.
    pub fn simulate(&mut self, epochs: u64)
        requires
            old(self).wf(),
            old(self).nodes.epoch + epochs <= u64::MAX,
        ensures
            final(self).wf(),
            final(self).nodes.epoch == old(self).nodes.epoch + epochs,
            final(self).shards == old(self).shards,
            final(self).nodes.committee_size == old(self).nodes.committee_size,
            final(self).nodes.num_buckets == old(self).nodes.num_buckets,
            final(self).num_buckets == old(self).num_buckets,
            final(self).nodes.vns@.len() == old(self).nodes.vns@.len(),
            final(self).change_counts@.len() == old(self).change_counts@.len() + epochs,
            forall|e: int|
                0 <= e < old(self).change_counts@.len() ==> #[trigger] final(self).change_counts@[e]
                    == old(self).change_counts@[e],
    {
        let mut step: u64 = 0;
        while step < epochs
            invariant
                self.wf(),
                step <= epochs,
                self.nodes.epoch == old(self).nodes.epoch + step,
                old(self).nodes.epoch + epochs <= u64::MAX,
                self.shards == old(self).shards,
                self.nodes.committee_size == old(self).nodes.committee_size,
                self.nodes.num_buckets == old(self).nodes.num_buckets,
                self.num_buckets == old(self).num_buckets,
                self.nodes.vns@.len() == old(self).nodes.vns@.len(),
                self.change_counts@.len() == old(self).change_counts@.len() + step,
                forall|e: int|
                    0 <= e < old(self).change_counts@.len() ==> #[trigger] self.change_counts@[e]
                        == old(self).change_counts@[e],
            decreases epochs - step,
        {
            let ghost before = self.change_counts@;
            self.step();
            proof {
                assert forall|e: int|
                    0 <= e < old(self).change_counts@.len() implies #[trigger] self.change_counts@[e]
                    == old(self).change_counts@[e] by {
                    assert(self.change_counts@.drop_last()[e] == before[e]);
                }
            }
            step += 1;
        }
    }

    /// The stored per-epoch records; record `e` holds the departure count of
    /// every shard at epoch step `e + 1`.
    pub fn change_counts(&self) -> (r: &Vec<Vec<u64>>)
        ensures
            r == self.change_counts,
    {
        &self.change_counts
    }

    /// The histogram of every recorded departure count.
    pub fn histogram(&self) -> (r: &histo::Histogram)
        ensures
            hist_samples(*r) == hist_samples(self.hist),
    {
        &self.hist
    }
}

/// The most committee members a shard can lose in one epoch while a
/// Byzantine-fault-tolerant quorum still holds.
pub fn byzantine_threshold(committee_size: u64) -> (r: u64)
    requires
        committee_size >= 1,
    ensures
        r == (committee_size - 1) as int / 3,
{
    (committee_size - 1) / 3
}

/// The largest of the counts, zero when there are none.
pub open spec fn seq_max(s: Seq<u64>) -> int
    decreases s.len(),
{
    if s.len() == 0 {
        0
    } else if s.last() as int >= seq_max(s.drop_last()) {
        s.last() as int
    } else {
        seq_max(s.drop_last())
    }
}

/// The smallest of the counts, zero when there are none.
pub open spec fn seq_min(s: Seq<u64>) -> int
    decreases s.len(),
{
    if s.len() == 0 {
        0
    } else if s.len() == 1 {
        s[0] as int
    } else if s.last() as int <= seq_min(s.drop_last()) {
        s.last() as int
    } else {
        seq_min(s.drop_last())
    }
}

/// The sum of the counts.
pub open spec fn seq_sum(s: Seq<u64>) -> int
    decreases s.len(),
{
    if s.len() == 0 {
        0
    } else {
        seq_sum(s.drop_last()) + s.last()
    }
}

/// How many counts exceed the threshold.
pub open spec fn count_over(s: Seq<u64>, threshold: u64) -> int
    decreases s.len(),
{
    if s.len() == 0 {
        0
    } else {
        count_over(s.drop_last(), threshold) + if s.last() > threshold {
            1int
        } else {
            0int
        }
    }
}

/// One epoch's aggregate: the largest, smallest and total departure count,
/// and how many shards exceeded the Byzantine threshold and must
/// resynchronize.
pub struct EpochSummary {
    pub max_changes: u64,
    pub min_changes: u64,
    pub total_changes: u128,
    pub over_threshold: usize,
}

/// Aggregates one epoch's departure counts against a threshold.
pub fn epoch_summary(changes: &Vec<u64>, threshold: u64) -> (r: EpochSummary)
    ensures
        r.max_changes == seq_max(changes@),
        r.min_changes == seq_min(changes@),
        r.total_changes == seq_sum(changes@),
        r.over_threshold == count_over(changes@, threshold),
{
    let mut max_changes: u64 = 0;
    let mut min_changes: u64 = 0;
    let mut total_changes: u128 = 0;
    let mut over_threshold: usize = 0;
    let mut i: usize = 0;
    while i < changes.len()
        invariant
            i <= changes@.len(),
            max_changes == seq_max(changes@.take(i as int)),
            min_changes == seq_min(changes@.take(i as int)),
            total_changes == seq_sum(changes@.take(i as int)),
            total_changes <= i * 0xffffffffffffffff,
            over_threshold == count_over(changes@.take(i as int), threshold),
            over_threshold <= i,
        decreases changes@.len() - i,
    {
        let c = changes[i];
        proof {
            assert(changes@.take(i as int + 1).drop_last() =~= changes@.take(i as int));
            assert(changes@.take(i as int + 1).last() == changes@[i as int]);
        }
        if i == 0 || c > max_changes {
            max_changes = c;
        }
        if i == 0 || c < min_changes {
            min_changes = c;
        }
        total_changes += c as u128;
        if c > threshold {
            over_threshold += 1;
        }
        i += 1;
    }
    proof {
        assert(changes@.take(changes@.len() as int) =~= changes@);
    }
    EpochSummary { max_changes, min_changes, total_changes, over_threshold }
}

} // verus!
