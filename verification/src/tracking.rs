//! Track bookkeeping of a multi-object tracker: which track each new
//! detection continues, which detections open new tracks with fresh
//! numbers, and which tracks are dropped after too many frames without a
//! match. How well a detection fits a track (the overlap of their boxes) is
//! measured by the caller, who hands over, for each detection, the tracks it
//! may continue, best fit first.
use vstd::prelude::*;

verus! {

/// Whether a reported track continues an earlier one or starts now.
#[derive(Clone, Copy, Debug, PartialEq, Eq, Structural)]
pub enum TrackState {
    New,
    Continued,
}

/// The tracks a tracker keeps between frames: the number of each, and how
/// many frames in a row each went without a match.
pub struct TrackBook {
    pub ids: Vec<u64>,
    pub lost: Vec<u32>,
    pub next_id: u64,
    pub max_lost: u32,
}

/// One more, or the largest value where there is none.
pub open spec fn bump64(v: u64) -> u64 {
    if v == u64::MAX {
        v
    } else {
        (v + 1) as u64
    }
}

/// One more, or the largest value where there is none.
pub open spec fn bump32(v: u32) -> u32 {
    if v == u32::MAX {
        v
    } else {
        (v + 1) as u32
    }
}

/// The bookkeeping of one frame while its detections are assigned.
pub struct Assigning {
    pub ids: Seq<u64>,
    pub lost: Seq<u32>,
    pub matched: Seq<bool>,
    pub next_id: u64,
    pub reported: Seq<(u64, TrackState)>,
}

/// The first candidate that is a track of the frame's start (below `n0`)
/// and not matched yet.
pub open spec fn first_free(cands: Seq<usize>, matched: Seq<bool>, n0: int) -> Option<usize>
    decreases cands.len(),
{
    if cands.len() == 0 {
        None
    } else if cands[0] < n0 && !matched[cands[0] as int] {
        Some(cands[0])
    } else {
        first_free(cands.drop_first(), matched, n0)
    }
}

/// The first free candidate is a free track of the frame's start.
proof fn lemma_first_free(cands: Seq<usize>, matched: Seq<bool>, n0: int)
    ensures
        first_free(cands, matched, n0) matches Some(c) ==> c < n0 && !matched[c as int],
    decreases cands.len(),
{
    if cands.len() > 0 {
        lemma_first_free(cands.drop_first(), matched, n0);
    }
}

/// Assigns one detection: it continues its first free candidate, or opens
/// a new track with the next number.
pub open spec fn assign(s: Assigning, cands: Seq<usize>, n0: int) -> Assigning {
    match first_free(cands, s.matched, n0) {
        Some(c) => Assigning {
            lost: s.lost.update(c as int, 0),
            matched: s.matched.update(c as int, true),
            reported: s.reported.push((s.ids[c as int], TrackState::Continued)),
            ..s
        },
        None => Assigning {
            ids: s.ids.push(s.next_id),
            lost: s.lost.push(0),
            matched: s.matched.push(true),
            next_id: bump64(s.next_id),
            reported: s.reported.push((s.next_id, TrackState::New)),
        },
    }
}

/// Assigns the detections in order.
pub open spec fn assign_all(s: Assigning, cands: Seq<Seq<usize>>, n0: int) -> Assigning
    decreases cands.len(),
{
    if cands.len() == 0 {
        s
    } else {
        assign(assign_all(s, cands.drop_last(), n0), cands.last(), n0)
    }
}

/// The frame's start: every kept track went one more frame without a
/// match, none is matched yet, nothing is reported.
pub open spec fn frame_start(ids: Seq<u64>, lost: Seq<u32>, next_id: u64) -> Assigning {
    Assigning {
        ids,
        lost: lost.map_values(|l: u32| bump32(l)),
        matched: Seq::new(ids.len(), |i: int| false),
        next_id,
        reported: Seq::empty(),
    }
}

/// The items of `v` whose flag in `keep` is set, in order.
pub open spec fn kept_items<T>(v: Seq<T>, keep: Seq<bool>) -> Seq<T>
    decreases v.len(),
{
    if v.len() == 0 || keep.len() != v.len() {
        Seq::empty()
    } else if keep.last() {
        kept_items(v.drop_last(), keep.drop_last()).push(v.last())
    } else {
        kept_items(v.drop_last(), keep.drop_last())
    }
}

/// What one frame does to the tracks: the reported (number, state) of each
/// detection, and which of the tracks after assignment stay (those at most
/// `max_lost` frames without a match).
pub struct FrameUpdate {
    pub reported: Vec<(u64, TrackState)>,
    pub kept: Vec<bool>,
}

impl TrackBook {
    /// A tracker without tracks, numbering from 1.
    pub fn new(max_lost: u32) -> (r: Self)
        ensures
            r.ids@.len() == 0,
            r.lost@.len() == 0,
            r.next_id == 1,
            r.max_lost == max_lost,
    {
        TrackBook { ids: Vec::new(), lost: Vec::new(), next_id: 1, max_lost }
    }

    /// Takes one frame: `cands[d]` lists the tracks detection `d` may
    /// continue, best first. Each detection, in order, continues its first
    /// candidate that no earlier detection of the frame took, or opens a new
    /// track; then tracks more than `max_lost` frames without a match are
    /// dropped.
    pub fn update(&mut self, cands: &Vec<Vec<usize>>) -> (r: FrameUpdate)
        requires
            old(self).ids@.len() == old(self).lost@.len(),
        ensures
            ({
                let done = assign_all(
                    frame_start(old(self).ids@, old(self).lost@, old(self).next_id),
                    cands@.map_values(|c: Vec<usize>| c@),
                    old(self).ids@.len() as int,
                );
                &&& r.reported@ == done.reported
                &&& r.kept@.len() == done.ids.len()
                &&& forall|i: int| 0 <= i < done.ids.len() ==> #[trigger] r.kept@[i] == (done.lost[i] <= old(self).max_lost)
                &&& final(self).ids@ == kept_items(done.ids, r.kept@)
                &&& final(self).lost@ == kept_items(done.lost, r.kept@)
                &&& final(self).next_id == done.next_id
                &&& final(self).max_lost == old(self).max_lost
            }),
    {
        let ghost all = cands@.map_values(|c: Vec<usize>| c@);
        let n0 = self.ids.len();
        let ghost start = frame_start(self.ids@, self.lost@, self.next_id);
        let mut i: usize = 0;
        while i < self.lost.len()
            invariant
                self.ids@.len() == self.lost@.len(),
                n0 == self.ids@.len(),
                i <= self.lost@.len(),
                start == frame_start(old(self).ids@, old(self).lost@, old(self).next_id),
                self.ids@ == old(self).ids@,
                self.next_id == old(self).next_id,
                self.max_lost == old(self).max_lost,
                forall|k: int| 0 <= k < i ==> #[trigger] self.lost@[k] == bump32(old(self).lost@[k]),
                forall|k: int| i <= k < self.lost@.len() ==> #[trigger] self.lost@[k] == old(self).lost@[k],
            decreases self.lost@.len() - i,
        {
            let l = self.lost[i];
            let bumped = if l == u32::MAX {
                l
            } else {
                l + 1
            };
            self.lost.set(i, bumped);
            i += 1;
        }
        let mut matched: Vec<bool> = Vec::new();
        while matched.len() < n0
            invariant
                matched@.len() <= n0,
                forall|k: int| 0 <= k < matched@.len() ==> !#[trigger] matched@[k],
            decreases n0 - matched@.len(),
        {
            matched.push(false);
        }
        let mut reported: Vec<(u64, TrackState)> = Vec::new();
        proof {
            assert(self.lost@ =~= start.lost);
            assert(matched@ =~= start.matched);
            assert(all.take(0) =~= Seq::<Seq<usize>>::empty());
        }
        let mut d: usize = 0;
        while d < cands.len()
            invariant
                all == cands@.map_values(|c: Vec<usize>| c@),
                n0 == old(self).ids@.len(),
                d <= cands@.len(),
                self.max_lost == old(self).max_lost,
                ({
                    let s = assign_all(start, all.take(d as int), n0 as int);
                    &&& self.ids@ == s.ids
                    &&& self.lost@ == s.lost
                    &&& matched@ == s.matched
                    &&& self.next_id == s.next_id
                    &&& reported@ == s.reported
                }),
                self.ids@.len() == self.lost@.len(),
                self.ids@.len() == matched@.len(),
                n0 <= self.ids@.len(),
            decreases cands@.len() - d,
        {
            let ghost before = assign_all(start, all.take(d as int), n0 as int);
            proof {
                assert(all.take(d + 1).drop_last() =~= all.take(d as int));
                assert(all.take(d + 1).last() == cands@[d as int]@);
            }
            let list = &cands[d];
            assert(list@.skip(0) =~= list@);
            let mut k: usize = 0;
            let mut found: Option<usize> = None;
            while k < list.len()
                invariant
                    k <= list@.len(),
                    n0 <= matched@.len(),
                    found is None ==> first_free(list@.skip(k as int), matched@, n0 as int) == first_free(
                        list@,
                        matched@,
                        n0 as int,
                    ),
                    found matches Some(c) ==> first_free(list@, matched@, n0 as int) == Some(c),
                decreases list@.len() - k,
            {
                if found.is_none() {
                    let c = list[k];
                    proof {
                        assert(list@.skip(k as int)[0] == c);
                        assert(list@.skip(k as int).drop_first() =~= list@.skip(k + 1));
                    }
                    if c < n0 && !matched[c] {
                        found = Some(c);
                    }
                }
                k += 1;
            }
            proof {
                if found is None {
                    assert(list@.skip(k as int).len() == 0);
                }
                lemma_first_free(list@, matched@, n0 as int);
            }
            match found {
                Some(c) => {
                    matched.set(c, true);
                    self.lost.set(c, 0);
                    reported.push((self.ids[c], TrackState::Continued));
                },
                None => {
                    let id = self.next_id;
                    self.next_id = if id == u64::MAX {
                        id
                    } else {
                        id + 1
                    };
                    self.ids.push(id);
                    self.lost.push(0);
                    matched.push(true);
                    reported.push((id, TrackState::New));
                },
            }
            proof {
                let after = assign(before, cands@[d as int]@, n0 as int);
                assert(assign_all(start, all.take(d + 1), n0 as int) == after);
                assert(self.ids@ =~= after.ids);
                assert(self.lost@ =~= after.lost);
                assert(matched@ =~= after.matched);
                assert(reported@ =~= after.reported);
            }
            d += 1;
        }
        assert(all.take(cands@.len() as int) =~= all);
        let ghost done = assign_all(start, all, n0 as int);
        let mut kept: Vec<bool> = Vec::new();
        let mut ids: Vec<u64> = Vec::new();
        let mut lost: Vec<u32> = Vec::new();
        let mut j: usize = 0;
        while j < self.ids.len()
            invariant
                self.ids@ == done.ids,
                self.lost@ == done.lost,
                self.ids@.len() == self.lost@.len(),
                j <= self.ids@.len(),
                kept@.len() == j,
                forall|q: int| 0 <= q < j ==> #[trigger] kept@[q] == (done.lost[q] <= self.max_lost),
                ids@ == kept_items(done.ids.take(j as int), kept@),
                lost@ == kept_items(done.lost.take(j as int), kept@),
            decreases self.ids@.len() - j,
        {
            let keep = self.lost[j] <= self.max_lost;
            let ghost kept_before = kept@;
            let ghost ids_before = ids@;
            let ghost lost_before = lost@;
            kept.push(keep);
            if keep {
                ids.push(self.ids[j]);
                lost.push(self.lost[j]);
            }
            proof {
                let ti = done.ids.take(j + 1);
                let tl = done.lost.take(j + 1);
                assert(ti.drop_last() =~= done.ids.take(j as int));
                assert(tl.drop_last() =~= done.lost.take(j as int));
                assert(kept@.drop_last() =~= kept_before);
                assert(ti.last() == done.ids[j as int]);
                assert(tl.last() == done.lost[j as int]);
                assert(kept_items(ti, kept@) == if keep {
                    kept_items(done.ids.take(j as int), kept_before).push(done.ids[j as int])
                } else {
                    kept_items(done.ids.take(j as int), kept_before)
                });
                assert(kept_items(tl, kept@) == if keep {
                    kept_items(done.lost.take(j as int), kept_before).push(done.lost[j as int])
                } else {
                    kept_items(done.lost.take(j as int), kept_before)
                });
            }
            j += 1;
        }
        assert(done.ids.take(j as int) =~= done.ids);
        assert(done.lost.take(j as int) =~= done.lost);
        self.ids = ids;
        self.lost = lost;
        FrameUpdate { reported, kept }
    }
}

} // verus!
