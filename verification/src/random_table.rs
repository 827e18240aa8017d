use vstd::prelude::*;
use rltk::RandomNumberGenerator;
use crate::rng::roll_dice;

verus! {

/// The sum of the weights of a table's entries.
pub open spec fn total_of(entries: Seq<(String, i32)>) -> int
    decreases entries.len(),
{
    if entries.len() == 0 { 0 } else { total_of(entries.drop_last()) + entries.last().1 }
}

/// The name that a roll of `v` (from 0 up to the total weight) picks: the
/// first entry whose weight, added to those before it, passes `v`.
pub open spec fn pick(entries: Seq<(String, i32)>, v: int) -> Seq<char>
    decreases entries.len(),
{
    if entries.len() == 0 {
        "None"@
    } else if v < entries[0].1 {
        entries[0].0@
    } else {
        pick(entries.drop_first(), v - entries[0].1)
    }
}

/// Names with weights, from which one is picked at random, each as often
/// as its weight says.
pub struct RandomTable {
    pub entries: Vec<(String, i32)>,
    pub total_weight: i32,
}

/// The total of the weights of `s` with its first entry left out.
pub proof fn lemma_total_drop_first(s: Seq<(String, i32)>)
    requires
        s.len() > 0,
    ensures
        total_of(s) == s[0].1 + total_of(s.drop_first()),
    decreases s.len(),
{
    if s.len() > 1 {
        lemma_total_drop_first(s.drop_last());
        assert(s.drop_last().drop_first() =~= s.drop_first().drop_last());
    } else {
        assert(s.drop_last() =~= Seq::<(String, i32)>::empty());
        assert(s.drop_first() =~= Seq::<(String, i32)>::empty());
    }
}

impl RandomTable {
    /// Every weight is positive and the total is their sum.
    pub open spec fn wf(&self) -> bool {
        &&& forall|k: int| 0 <= k < self.entries@.len() ==> (#[trigger] self.entries@[k]).1 > 0
        &&& self.total_weight == total_of(self.entries@)
        &&& 0 <= self.total_weight
    }

    /// A table with no entries.
    pub fn new() -> (r: RandomTable)
        ensures
            r.wf(),
            r.entries@.len() == 0,
            r.total_weight == 0,
    {
        RandomTable { entries: Vec::new(), total_weight: 0 }
    }

    /// The table with `name` added at `weight`; a weight that is not
    /// positive adds nothing.
    pub fn add(self, name: String, weight: i32) -> (r: RandomTable)
        requires
            self.wf(),
            weight > 0 ==> self.total_weight + weight <= i32::MAX,
        ensures
            r.wf(),
            weight > 0 ==> r.entries@ == self.entries@.push((name, weight)),
            weight > 0 ==> r.total_weight == self.total_weight + weight,
            weight <= 0 ==> r.entries@ == self.entries@ && r.total_weight == self.total_weight,
    {
        let mut t = self;
        if weight > 0 {
            let ghost e0 = t.entries@;
            t.total_weight = t.total_weight + weight;
            t.entries.push((name, weight));
            proof {
                assert(t.entries@.drop_last() =~= e0);
            }
        }
        t
    }

    /// A name picked at random by weight: `pick` of a roll between 0 and
    /// the total weight, or `"None"` from an empty table.
    pub fn roll(&self, rng: &mut RandomNumberGenerator) -> (r: String)
        requires
            self.wf(),
            self.total_weight < i32::MAX,
        ensures
            self.total_weight == 0 ==> r@ == "None"@,
            self.total_weight > 0 ==> exists|v: int| 0 <= v < self.total_weight && r@ == #[trigger] pick(self.entries@, v),
    {
        if self.total_weight == 0 {
            return String::from_str("None");
        }
        let v = roll_dice(rng, 1, self.total_weight) - 1;
        let mut left = v;
        let mut index: usize = 0;
        let ghost all = self.entries@;
        proof {
            assert(all.subrange(0, all.len() as int) =~= all);
        }
        while index < self.entries.len()
            invariant
                self.wf(),
                all == self.entries@,
                0 < self.total_weight,
                0 <= v < self.total_weight,
                0 <= index <= all.len(),
                0 <= left,
                left < total_of(all.subrange(index as int, all.len() as int)),
                pick(all, v as int) == pick(all.subrange(index as int, all.len() as int), left as int),
            decreases all.len() - index,
        {
            let ghost rest = all.subrange(index as int, all.len() as int);
            proof {
                lemma_total_drop_first(rest);
                assert(rest.drop_first() =~= all.subrange(index + 1, all.len() as int));
                assert(rest[0] == all[index as int]);
            }
            let w = self.entries[index].1;
            if left < w {
                let name = self.entries[index].0.clone();
                proof {
                    assert(pick(all, v as int) == name@);
                }
                return name;
            }
            left = left - w;
            index = index + 1;
        }
        proof {
            assert(all.subrange(index as int, all.len() as int) =~= Seq::<(String, i32)>::empty());
        }
        String::from_str("None")
    }
}


/// The weights of the entries before entry `k`, added up.
pub open spec fn weight_before(entries: Seq<(String, i32)>, k: int) -> int {
    total_of(entries.take(k))
}

/// Positive weights add up to no less than zero.
proof fn lemma_total_nonneg(s: Seq<(String, i32)>)
    requires
        forall|j: int| 0 <= j < s.len() ==> (#[trigger] s[j]).1 > 0,
    ensures
        total_of(s) >= 0,
    decreases s.len(),
{
    if s.len() > 0 {
        lemma_total_nonneg(s.drop_last());
    }
}

/// Each entry of a table is picked by as many roll values as its weight:
/// by every value from the weights before it, added up, to that sum plus
/// its own weight.
pub proof fn lemma_pick_by_weight(entries: Seq<(String, i32)>, k: int, v: int)
    requires
        forall|j: int| 0 <= j < entries.len() ==> (#[trigger] entries[j]).1 > 0,
        0 <= k < entries.len(),
        weight_before(entries, k) <= v < weight_before(entries, k) + entries[k].1,
    ensures
        pick(entries, v) == entries[k].0@,
    decreases k,
{
    assert(entries.take(0) =~= Seq::<(String, i32)>::empty());
    if k > 0 {
        let rest = entries.drop_first();
        lemma_total_drop_first(entries.take(k));
        lemma_total_nonneg(rest.take(k - 1));
        assert(entries.take(k).drop_first() =~= rest.take(k - 1));
        assert(entries.take(k)[0] == entries[0]);
        assert(rest[k - 1] == entries[k]);
        lemma_pick_by_weight(rest, k - 1, v - entries[0].1);
    }
}

} // verus!
