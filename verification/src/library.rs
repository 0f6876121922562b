//! Per-photo thumbnail bookkeeping of the library grid.
//!
//! Thumbnails load lazily on short-lived workers. The state of each
//! photo is keyed by its catalog id, not by its position, so reloading
//! the photo list while thumbnails are in flight keeps their results.

use std::collections::HashMap;
use vstd::prelude::*;
use crate::import::thumbnail::Thumbnail;

verus! {

broadcast use vstd::std_specs::hash::group_hash_axioms;

/// Maximum number of outstanding thumbnail requests at any time.
pub const MAX_INFLIGHT_THUMBS: usize = 16;

/// Thumbnail state of one photo.
pub struct ThumbState {
    /// The loaded thumbnail.
    pub bytes: Option<Thumbnail>,
    /// Why loading failed.
    pub error: Option<String>,
    /// A worker was asked for this photo's thumbnail.
    pub requested: bool,
}

/// The state of a photo nothing was done for yet.
pub open spec fn fresh(s: ThumbState) -> bool {
    s.bytes is None && s.error is None && !s.requested
}

/// A photo still waiting to be requested: no thumbnail, no error, no
/// request made.
pub open spec fn wants_thumb(states: Map<i64, ThumbState>, id: i64) -> bool {
    states.contains_key(id) && fresh(states[id])
}

/// The photos of `photos` (in order) that want a thumbnail.
pub open spec fn candidates(photos: Seq<i64>, states: Map<i64, ThumbState>) -> Seq<i64> {
    photos.filter(|id: i64| wants_thumb(states, id))
}

/// Free request slots when `inflight` requests are outstanding.
pub open spec fn free_thumb_slots(inflight: nat) -> nat {
    if inflight >= MAX_INFLIGHT_THUMBS { 0 } else { (MAX_INFLIGHT_THUMBS - inflight) as nat }
}

/// A vector holding the ids of `ids`.
fn copy_ids(ids: &[i64]) -> (v: Vec<i64>)
    ensures
        v@ == ids@,
{
    let mut v: Vec<i64> = Vec::new();
    let mut i: usize = 0;
    while i < ids.len()
        invariant
            i <= ids@.len(),
            v@ == ids@.subrange(0, i as int),
        decreases ids@.len() - i,
    {
        v.push(ids[i]);
        assert(ids@.subrange(0, i + 1) == ids@.subrange(0, i as int).push(ids@[i as int]));
        i = i + 1;
    }
    assert(ids@.subrange(0, ids@.len() as int) == ids@);
    v
}

/// The library's photo order and per-photo thumbnail states.
pub struct ThumbBoard {
    photos: Vec<i64>,
    thumbs: HashMap<i64, ThumbState>,
    inflight: usize,
}

impl ThumbBoard {
    /// Photo ids in display order.
    pub closed spec fn photos(&self) -> Seq<i64> {
        self.photos@
    }

    /// Thumbnail state per photo id.
    pub closed spec fn states(&self) -> Map<i64, ThumbState> {
        self.thumbs@
    }

    /// Outstanding thumbnail requests.
    pub closed spec fn inflight(&self) -> nat {
        self.inflight as nat
    }

    /// Exactly the displayed photos have a state.
    pub open spec fn wf(&self) -> bool {
        forall|id: i64| #[trigger] self.states().contains_key(id) <==> self.photos().contains(id)
    }

    /// An empty board: no photos, no states, nothing in flight.
    pub fn new() -> (b: Self)
        ensures
            b.wf(),
            b.photos() == Seq::<i64>::empty(),
            b.states() == Map::<i64, ThumbState>::empty(),
            b.inflight() == 0,
    {
        ThumbBoard { photos: Vec::new(), thumbs: HashMap::new(), inflight: 0 }
    }

    /// Show the photos `ids` (the catalog's new listing). A photo already
    /// shown keeps its state, a new photo gets a fresh one, and the state
    /// of a photo no longer listed is dropped.
    pub fn refresh(&mut self, ids: &[i64])
        ensures
            final(self).wf(),
            final(self).photos() == ids@,
            final(self).inflight() == old(self).inflight(),
            forall|id: i64| ids@.contains(id) && #[trigger] old(self).states().contains_key(id)
                ==> final(self).states()[id] == old(self).states()[id],
            forall|id: i64| ids@.contains(id) && !old(self).states().contains_key(id)
                ==> fresh(#[trigger] final(self).states()[id]),
            forall|id: i64| #[trigger] final(self).states().contains_key(id) <==> ids@.contains(id),
    {
        let mut next: HashMap<i64, ThumbState> = HashMap::new();
        let ghost prior = self.thumbs@;
        let mut i: usize = 0;
        while i < ids.len()
            invariant
                i <= ids@.len(),
                self.inflight == old(self).inflight,
                prior == old(self).thumbs@,
                forall|id: i64| #[trigger] next@.contains_key(id) <==> ids@.subrange(0, i as int).contains(id),
                forall|id: i64| #[trigger] next@.contains_key(id) ==> !self.thumbs@.contains_key(id),
                forall|id: i64| #[trigger] self.thumbs@.contains_key(id) ==> prior.contains_key(id)
                    && self.thumbs@[id] == prior[id],
                forall|id: i64| #[trigger] next@.contains_key(id) && prior.contains_key(id)
                    ==> next@[id] == prior[id],
                forall|id: i64| #[trigger] next@.contains_key(id) && !prior.contains_key(id)
                    ==> fresh(next@[id]),
                forall|id: i64| #[trigger] prior.contains_key(id) && !next@.contains_key(id)
                    ==> self.thumbs@.contains_key(id),
            decreases ids@.len() - i,
        {
            let id = ids[i];
            proof {
                assert(ids@.subrange(0, i + 1) == ids@.subrange(0, i as int).push(id));
            }
            if !next.contains_key(&id) {
                let state = match self.thumbs.remove(&id) {
                    Some(s) => s,
                    None => ThumbState { bytes: None, error: None, requested: false },
                };
                next.insert(id, state);
            }
            proof {
                let ghost now = ids@.subrange(0, i as int);
                let ghost after = ids@.subrange(0, i + 1);
                assert forall|k: i64| #[trigger] next@.contains_key(k) <==> after.contains(k) by {
                    if now.contains(k) {
                        let w = choose|w: int| 0 <= w < now.len() && now[w] == k;
                        assert(after[w] == k);
                    }
                    if after.contains(k) && k != id {
                        let w = choose|w: int| 0 <= w < after.len() && after[w] == k;
                        assert(now[w] == k);
                    }
                    if k == id {
                        assert(after[i as int] == k);
                    }
                }
            }
            i = i + 1;
        }
        proof {
            assert(ids@.subrange(0, ids@.len() as int) == ids@);
            assert forall|id: i64| ids@.contains(id) && !prior.contains_key(id) implies fresh(#[trigger] next@[id]) by {
                assert(next@.contains_key(id));
            }
            assert forall|id: i64| ids@.contains(id) && #[trigger] prior.contains_key(id) implies next@[id] == prior[id] by {
                assert(next@.contains_key(id));
            }
        }
        self.thumbs = next;
        self.photos = copy_ids(ids);
    }

    /// A worker delivered the outcome for `photo_id`: one request fewer
    /// is outstanding, and if the photo is still shown its state takes
    /// the thumbnail (clearing any error) or the error. Returns whether a
    /// thumbnail was stored, in which case the caller drops the photo's
    /// cached texture.
    pub fn deliver(&mut self, photo_id: i64, result: Result<Thumbnail, String>) -> (stored: bool)
        requires
            old(self).wf(),
        ensures
            final(self).wf(),
            final(self).photos() == old(self).photos(),
            final(self).inflight() == if old(self).inflight() > 0 { old(self).inflight() - 1 } else { 0 },
            final(self).states().dom() == old(self).states().dom(),
            forall|id: i64| id != photo_id && #[trigger] old(self).states().contains_key(id)
                ==> final(self).states()[id] == old(self).states()[id],
            stored == (old(self).states().contains_key(photo_id) && result is Ok),
            old(self).states().contains_key(photo_id) ==> {
                let (a, b) = (old(self).states()[photo_id], final(self).states()[photo_id]);
                &&& b.requested == a.requested
                &&& match result {
                    Ok(t) => b.bytes == Some(t) && b.error is None,
                    Err(e) => b.bytes == a.bytes && b.error == Some(e),
                }
            },
    {
        if self.inflight > 0 {
            self.inflight = self.inflight - 1;
        }
        match self.thumbs.remove(&photo_id) {
            Some(state) => {
                let mut state = state;
                let stored = match result {
                    Ok(t) => {
                        state.bytes = Some(t);
                        state.error = None;
                        true
                    },
                    Err(e) => {
                        state.error = Some(e);
                        false
                    },
                };
                self.thumbs.insert(photo_id, state);
                assert(self.states().dom() =~= old(self).states().dom());
                stored
            },
            None => {
                assert(self.states() == old(self).states());
                false
            },
        }
    }

    /// Pick the photos to request thumbnails for now: in display order,
    /// those that want one, as many as the free request slots allow. They
    /// are marked requested and counted as in flight; their ids are
    /// returned for the caller to start the workers.
    pub fn request_thumbs(&mut self) -> (picked: Vec<i64>)
        requires
            old(self).wf(),
        ensures
            final(self).wf(),
            final(self).photos() == old(self).photos(),
            picked@ == candidates(old(self).photos(), old(self).states()).take(
                vstd::math::min(
                    candidates(old(self).photos(), old(self).states()).len() as int,
                    free_thumb_slots(old(self).inflight()) as int,
                ),
            ),
            final(self).inflight() == old(self).inflight() + picked@.len(),
            old(self).inflight() <= MAX_INFLIGHT_THUMBS ==> final(self).inflight() <= MAX_INFLIGHT_THUMBS,
            forall|id: i64| #[trigger] picked@.contains(id) ==> wants_thumb(old(self).states(), id),
            final(self).states().dom() == old(self).states().dom(),
            forall|id: i64| #[trigger] old(self).states().contains_key(id) ==> {
                let (a, b) = (old(self).states()[id], final(self).states()[id]);
                &&& b.bytes == a.bytes
                &&& b.error == a.error
                &&& b.requested == (a.requested || picked@.contains(id))
            },
    {
        let ghost s0 = self.thumbs@;
        let ghost p0 = self.photos@;
        let ghost pred = |id: i64| wants_thumb(s0, id);
        let mut cand: Vec<i64> = Vec::new();
        let mut i: usize = 0;
        while i < self.photos.len()
            invariant
                i <= p0.len(),
                self.photos@ == p0,
                self.thumbs@ == s0,
                self.inflight == old(self).inflight,
                pred == (|id: i64| wants_thumb(s0, id)),
                cand@ == p0.subrange(0, i as int).filter(pred),
            decreases p0.len() - i,
        {
            let id = self.photos[i];
            let wants = match self.thumbs.get(&id) {
                Some(st) => st.bytes.is_none() && st.error.is_none() && !st.requested,
                None => false,
            };
            proof {
                assert(p0.subrange(0, i + 1) == p0.subrange(0, i as int).push(id));
                p0.subrange(0, i as int).lemma_filter_push(id, pred);
                assert(pred(id) == wants_thumb(s0, id));
                assert(wants == pred(id));
            }
            if wants {
                cand.push(id);
            }
            i = i + 1;
        }
        proof {
            assert(p0.subrange(0, p0.len() as int) == p0);
            assert(cand@ == candidates(p0, s0));
        }
        let slots: usize = if self.inflight >= MAX_INFLIGHT_THUMBS { 0 } else { MAX_INFLIGHT_THUMBS - self.inflight };
        let n: usize = if cand.len() < slots { cand.len() } else { slots };
        let mut picked: Vec<i64> = Vec::new();
        let mut k: usize = 0;
        while k < n
            invariant
                k <= n,
                n <= cand@.len(),
                n <= slots,
                slots == free_thumb_slots(old(self).inflight as nat),
                cand@ == candidates(p0, s0),
                picked@ == cand@.take(k as int),
                self.inflight == old(self).inflight + k,
                self.photos@ == p0,
                self.thumbs@.dom() == s0.dom(),
                forall|id: i64| #[trigger] s0.contains_key(id) ==> {
                    let (a, b) = (s0[id], self.thumbs@[id]);
                    &&& b.bytes == a.bytes
                    &&& b.error == a.error
                    &&& b.requested == (a.requested || picked@.contains(id))
                },
            decreases n - k,
        {
            let id = cand[k];
            let ghost before = self.thumbs@;
            match self.thumbs.remove(&id) {
                Some(st) => {
                    let mut st = st;
                    st.requested = true;
                    self.thumbs.insert(id, st);
                },
                None => {},
            }
            self.inflight = self.inflight + 1;
            picked.push(id);
            proof {
                assert(cand@.take(k + 1) == cand@.take(k as int).push(id));
                assert(self.thumbs@.dom() =~= s0.dom());
                assert forall|j: i64| #[trigger] s0.contains_key(j) implies {
                    let (a, b) = (s0[j], self.thumbs@[j]);
                    &&& b.bytes == a.bytes
                    &&& b.error == a.error
                    &&& b.requested == (a.requested || picked@.contains(j))
                } by {
                    if j != id {
                        assert(picked@.contains(j) == cand@.take(k as int).contains(j)) by {
                            if picked@.contains(j) {
                                let w = choose|w: int| 0 <= w < picked@.len() && picked@[w] == j;
                                assert(w < k);
                                assert(cand@.take(k as int)[w] == j);
                            }
                            if cand@.take(k as int).contains(j) {
                                let w = choose|w: int| 0 <= w < k && cand@.take(k as int)[w] == j;
                                assert(picked@[w] == j);
                            }
                        }
                    } else {
                        assert(picked@[k as int] == j);
                    }
                }
            }
            k = k + 1;
        }
        proof {
            assert(self.thumbs@.dom() =~= s0.dom());
            assert forall|id: i64| #[trigger] picked@.contains(id) implies wants_thumb(s0, id) by {
                let w = choose|w: int| 0 <= w < picked@.len() && picked@[w] == id;
                assert(cand@[w] == id);
                p0.lemma_filter_pred(pred, w);
            }
        }
        picked
    }

    /// Number of photos that have a thumbnail state.
    pub fn len(&self) -> (r: usize)
        ensures
            r == self.states().len(),
    {
        self.thumbs.len()
    }

    /// The thumbnail state of photo `id`, if it is shown.
    pub fn state(&self, id: i64) -> (r: Option<&ThumbState>)
        ensures
            r matches Some(s) ==> self.states().contains_key(id) && *s == self.states()[id],
            r is None ==> !self.states().contains_key(id),
    {
        self.thumbs.get(&id)
    }

    /// The shown photo ids, in display order.
    pub fn photo_ids(&self) -> (r: &[i64])
        ensures
            r@ == self.photos(),
    {
        self.photos.as_slice()
    }

    /// Outstanding thumbnail requests.
    pub fn inflight_count(&self) -> (r: usize)
        ensures
            r == self.inflight(),
    {
        self.inflight
    }
}

impl Default for ThumbBoard {
    fn default() -> (b: Self)
        ensures
            b.wf(),
            b.photos() == Seq::<i64>::empty(),
            b.states() == Map::<i64, ThumbState>::empty(),
            b.inflight() == 0,
    {
        ThumbBoard::new()
    }
}

} // verus!
