use vstd::prelude::*;
use rltk::RandomNumberGenerator;
use crate::builders::{BuilderMap, MetaMapBuilder};
use crate::rect::Rect;

verus! {

broadcast use vstd::seq_lib::group_seq_lib_default;

/// The rooms whose left edge is at column `k`, in their order.
pub open spec fn with_x1(s: Seq<Rect>, k: i32) -> Seq<Rect> {
    s.filter(|r: Rect| r.x1 == k)
}

/// The rooms are in order of their left edges.
pub open spec fn sorted_by_x1(s: Seq<Rect>) -> bool {
    forall|a: int, b: int| #![trigger s[a], s[b]] 0 <= a <= b < s.len() ==> s[a].x1 <= s[b].x1
}

/// `r` is `s` sorted by left edge, rooms with the same left edge keeping
/// their order (a stable sort).
pub open spec fn stable_sorted_by_x1(s: Seq<Rect>, r: Seq<Rect>) -> bool {
    &&& sorted_by_x1(r)
    &&& forall|k: i32| #[trigger] with_x1(r, k) == with_x1(s, k)
}

proof fn lemma_filter_none(s: Seq<Rect>, k: i32)
    requires
        forall|i: int| 0 <= i < s.len() ==> (#[trigger] s[i]).x1 != k,
    ensures
        with_x1(s, k) == Seq::<Rect>::empty(),
{
    s.lemma_all_neg_filter_empty(|r: Rect| r.x1 == k);
}

/// Sorts the rooms by their left edges, keeping the order of rooms whose
/// left edges are equal.
pub fn sort_rooms_by_x1(rooms: &mut Vec<Rect>)
    ensures
        stable_sorted_by_x1(old(rooms)@, final(rooms)@),
        final(rooms)@.len() == old(rooms)@.len(),
{
    let ghost s = rooms@;
    let n = rooms.len();
    let mut r: Vec<Rect> = Vec::new();
    for i in 0..n
        invariant
            n == s.len(),
            s == old(rooms)@,
            rooms@ == s,
            r@.len() == i,
            sorted_by_x1(r@),
            forall|k: i32| #[trigger] with_x1(r@, k) == with_x1(s.take(i as int), k),
    {
        let x = rooms[i];
        let mut p: usize = 0;
        while p < r.len() && r[p].x1 <= x.x1
            invariant
                p <= r@.len(),
                forall|q: int| 0 <= q < p ==> (#[trigger] r@[q]).x1 <= x.x1,
            decreases r@.len() - p,
        {
            p = p + 1;
        }
        let ghost r0 = r@;
        proof {
            assert forall|q: int| p <= q < r0.len() implies (#[trigger] r0[q]).x1 > x.x1 by {
                assert(r0[p as int].x1 > x.x1);
                assert(r0[p as int].x1 <= r0[q].x1);
            }
        }
        r.insert(p, x);
        proof {
            let pre = r0.take(p as int);
            let post = r0.skip(p as int);
            assert(r0 == pre + post);
            assert(r@ == pre + seq![x] + post);
            assert(s.take(i + 1) == s.take(i as int).push(x));
            assert forall|k: i32| #[trigger] with_x1(r@, k) == with_x1(s.take(i + 1), k) by {
                s.take(i as int).lemma_filter_push(x, |e: Rect| e.x1 == k);
                assert(with_x1(r@, k) == with_x1(pre, k) + with_x1(seq![x], k) + with_x1(post, k));
                assert(with_x1(r0, k) == with_x1(pre, k) + with_x1(post, k));
                Seq::<Rect>::empty().lemma_filter_push(x, |e: Rect| e.x1 == k);
                assert(seq![x] == Seq::<Rect>::empty().push(x));
                if k == x.x1 {
                    assert forall|q: int| 0 <= q < post.len() implies (#[trigger] post[q]).x1 != k by {
                        assert(post[q] == r0[p + q]);
                    }
                    lemma_filter_none(post, k);
                    assert(with_x1(pre, k) + with_x1(seq![x], k) == with_x1(pre, k).push(x));
                } else {
                    assert(with_x1(seq![x], k) == Seq::<Rect>::empty());
                }
            }
            assert forall|a: int, b: int| #![trigger r@[a], r@[b]] 0 <= a <= b < r@.len() implies r@[a].x1 <= r@[b].x1 by {
                if a < p && b < p {
                    assert(r@[a] == r0[a] && r@[b] == r0[b]);
                } else if a < p && b == p {
                    assert(r@[a] == r0[a]);
                } else if a < p {
                    assert(r@[a] == r0[a] && r@[b] == r0[b - 1]);
                    assert(r0[a].x1 <= x.x1);
                    assert(r0[b - 1].x1 > x.x1);
                } else if a == p && b > p {
                    assert(r@[b] == r0[b - 1]);
                    assert(r0[b - 1].x1 > x.x1);
                } else if a > p {
                    assert(r@[a] == r0[a - 1] && r@[b] == r0[b - 1]);
                }
            }
        }
    }
    proof { assert(s.take(n as int) == s); }
    *rooms = r;
}

/// `b` is `a` with its rooms sorted by left edge, as [`RoomSorter::sorter`] does.
pub open spec fn rooms_sorted(a: BuilderMap, b: BuilderMap) -> bool {
    &&& b.map == a.map
    &&& b.starting_position == a.starting_position
    &&& b.history == a.history
    &&& b.spawn_list == a.spawn_list
    &&& b.rooms is Some
    &&& stable_sorted_by_x1(a.rooms->0@, b.rooms->0@)
}

/// Puts the rooms in order of their left edges, so that corridors joining
/// consecutive rooms run mostly from left to right.
pub struct RoomSorter {}

impl MetaMapBuilder for RoomSorter {
    /// Without rooms there is nothing to sort, and nothing changes.
    fn build_map(&mut self, rng: &mut RandomNumberGenerator, build_data: &mut BuilderMap)
        ensures
            old(build_data).rooms is Some ==> rooms_sorted(*old(build_data), *final(build_data)),
            old(build_data).rooms is None ==> *final(build_data) == *old(build_data),
    {
        if build_data.rooms.is_some() {
            self.sorter(rng, build_data);
        }
    }
}

impl RoomSorter {
    pub fn new() -> (r: Box<RoomSorter>) {
        Box::new(RoomSorter {})
    }

    /// Sorts the recorded rooms by left edge, stably; nothing else changes.
    pub fn sorter(&mut self, _rng: &mut RandomNumberGenerator, build_data: &mut BuilderMap)
        requires
            old(build_data).rooms is Some,
        ensures
            final(build_data).map == old(build_data).map,
            final(build_data).starting_position == old(build_data).starting_position,
            final(build_data).history == old(build_data).history,
            final(build_data).spawn_list == old(build_data).spawn_list,
            final(build_data).rooms is Some,
            stable_sorted_by_x1(old(build_data).rooms->0@, final(build_data).rooms->0@),
    {
        match &mut build_data.rooms {
            Some(rooms) => sort_rooms_by_x1(rooms),
            None => {},
        }
    }
}

} // verus!
