use crate::seqs::{lemma_filter_no_duplicates, lemma_filter_subset, lemma_permutation_distinct};
use vstd::prelude::*;

verus! {

/// Greatest number of cursor positions the visit history retains.
pub const HISTORY_CAPACITY: usize = 100;

/// A shuffled traversal order over the known image paths, together with a
/// bounded ring of visited positions that supports stepping back and
/// replaying forward without counting a replayed image twice.
pub struct Playlist {
    /// Current random permutation of the known paths.
    pub shuffled_list: Vec<String>,
    /// Index into `shuffled_list` of the entry on display.
    pub current_index: usize,
    /// Visited positions, oldest first; never more than `HISTORY_CAPACITY`.
    pub history: Vec<usize>,
    /// Position inside `history` of the entry equal to `current_index`.
    pub history_position: usize,
}

/// Snapshot of a playlist for persistence: the order and the cursor.
pub struct PlaylistState {
    pub shuffled_list: Vec<String>,
    pub current_index: usize,
}

/// Where a cursor lands when clamped into a list of the given length.
pub open spec fn clamp_index_spec(len: int, idx: int) -> int {
    if len == 0 {
        0
    } else if idx >= len {
        len - 1
    } else {
        idx
    }
}

/// The history after recording a further position: the oldest entry is
/// evicted first whenever the ring is full.
pub open spec fn history_after_push(h: Seq<usize>, next: usize) -> Seq<usize> {
    (if h.len() >= HISTORY_CAPACITY {
        h.subrange(1, h.len() as int)
    } else {
        h
    }).push(next)
}

/// How `go_back` relates the state before the call, the state after it and
/// the returned path: with no recorded past the state is untouched and the
/// current path comes back; otherwise only `history_position` moves one step
/// towards the oldest entry and the cursor follows the history.
pub open spec fn go_back_rel(pre: Playlist, post: Playlist, path: Option<String>) -> bool {
    if pre.history_position == 0 {
        &&& post == pre
        &&& (path is Some <==> pre.shuffled_list@.len() > 0)
        &&& (path matches Some(p) ==> p@ == pre.paths()[pre.current_index as int])
    } else {
        &&& post.shuffled_list == pre.shuffled_list
        &&& post.history == pre.history
        &&& post.history_position == pre.history_position - 1
        &&& post.current_index == pre.history@[pre.history_position - 1]
        &&& (path matches Some(p) && p@ == post.paths()[post.current_index as int])
    }
}

/// How `advance` relates the state before the call, the state after it, the
/// returned path and the `should_count` flag. An empty playlist is left
/// untouched. A replay through recorded history moves the history position
/// forward and is never counted. A step into new territory moves the cursor
/// one place along the order (wrapping to the front), reshuffles the order
/// exactly on a wrap of a list with more than one entry, records the new
/// position in the history ring, and is always counted.
pub open spec fn advance_rel(pre: Playlist, post: Playlist, path: Option<String>, counted: bool) -> bool {
    if pre.shuffled_list@.len() == 0 {
        &&& post == pre
        &&& path is None
        &&& counted == false
    } else if pre.is_redo() {
        &&& post.shuffled_list == pre.shuffled_list
        &&& post.history == pre.history
        &&& post.history_position == pre.history_position + 1
        &&& post.current_index == pre.history@[pre.history_position + 1]
        &&& (path matches Some(p) && p@ == post.paths()[post.current_index as int])
        &&& counted == false
    } else {
        &&& post.current_index as int == (pre.current_index + 1) % (
        pre.shuffled_list@.len() as int)
        &&& post.shuffled_list@.len() == pre.shuffled_list@.len()
        &&& post.paths().to_multiset() == pre.paths().to_multiset()
        &&& (!(post.current_index == 0 && pre.shuffled_list@.len() > 1)
            ==> post.shuffled_list == pre.shuffled_list)
        &&& post.history@ == history_after_push(pre.history@, post.current_index)
        &&& post.history_position as int == post.history@.len() - 1
        &&& (path matches Some(p) && p@ == post.paths()[post.current_index as int])
        &&& counted == true
    }
}

/// Relies on rand's `SliceRandom::shuffle` with a thread-local generator: it
/// permutes the elements of the slice in place, so the multiset of paths is
/// kept; nothing is promised about the resulting order.
#[verifier::external_body]
fn shuffle_strings(v: &mut Vec<String>)
    ensures
        final(v)@.len() == old(v)@.len(),
        final(v).deep_view().to_multiset() == old(v).deep_view().to_multiset(),
{
    let mut rng = rand::thread_rng();
    rand::seq::SliceRandom::shuffle(v.as_mut_slice(), &mut rng);
}

impl Playlist {
    /// The traversal order as a sequence of path character sequences.
    pub open spec fn paths(self) -> Seq<Seq<char>> {
        self.shuffled_list.deep_view()
    }

    /// Whether the next `advance` replays recorded history instead of
    /// stepping into new territory.
    pub open spec fn is_redo(self) -> bool {
        self.shuffled_list@.len() > 0 && self.history_position + 1 < self.history@.len()
    }

    /// Structural invariant: the history is non-empty, bounded by
    /// `HISTORY_CAPACITY`, holds only valid indices into the order, and its
    /// entry at `history_position` is the current cursor. An empty playlist
    /// keeps the single history entry `0`.
    pub open spec fn wf(self) -> bool {
        &&& 1 <= self.history@.len() <= HISTORY_CAPACITY
        &&& (self.history_position as int) < self.history@.len()
        &&& self.history@[self.history_position as int] == self.current_index
        &&& (self.shuffled_list@.len() == 0 ==> self.history@.len() == 1
            && self.current_index == 0)
        &&& (self.shuffled_list@.len() > 0 ==> forall|i: int|
            0 <= i < self.history@.len() ==> (#[trigger] self.history@[i])
                < self.shuffled_list@.len())
    }

    /// Restore a playlist from a persisted order and cursor; the cursor is
    /// clamped into range and the history restarts at that single entry.
    pub fn from_state(shuffled_list: Vec<String>, current_index: usize) -> (r: Playlist)
        ensures
            r.wf(),
            r.shuffled_list == shuffled_list,
            r.current_index as int == clamp_index_spec(
                shuffled_list@.len() as int,
                current_index as int,
            ),
            r.history@ == seq![r.current_index],
            r.history_position == 0,
    {
        let len = shuffled_list.len();
        let ci = if len == 0 {
            0
        } else if current_index >= len {
            len - 1
        } else {
            current_index
        };
        let mut history: Vec<usize> = Vec::new();
        history.push(ci);
        Playlist { shuffled_list, current_index: ci, history, history_position: 0 }
    }

    /// The path on display, or nothing when the playlist is empty.
    pub fn current(&self) -> (r: Option<String>)
        requires
            self.wf(),
        ensures
            r is Some <==> self.shuffled_list@.len() > 0,
            r matches Some(p) ==> p@ == self.paths()[self.current_index as int],
    {
        if self.shuffled_list.len() == 0 {
            None
        } else {
            Some(self.shuffled_list[self.current_index].clone())
        }
    }

    /// Whether a step back through the history is possible.
    pub fn can_go_back(&self) -> (r: bool)
        ensures
            r == (self.history_position > 0),
    {
        self.history_position > 0
    }

    /// How many paths the playlist holds.
    pub fn total_count(&self) -> (r: usize)
        ensures
            r == self.shuffled_list@.len(),
    {
        self.shuffled_list.len()
    }

    /// The 1-indexed position of the cursor, or 0 for an empty playlist.
    pub fn current_position(&self) -> (r: usize)
        requires
            self.wf(),
        ensures
            r as int == if self.shuffled_list@.len() == 0 {
                0int
            } else {
                self.current_index + 1
            },
    {
        if self.shuffled_list.len() == 0 {
            0
        } else {
            self.current_index + 1
        }
    }

    /// Whether the playlist holds no paths.
    pub fn is_empty(&self) -> (r: bool)
        ensures
            r == (self.shuffled_list@.len() == 0),
    {
        self.shuffled_list.len() == 0
    }

    /// A snapshot of the order and cursor, for the persistent store.
    pub fn get_state(&self) -> (r: PlaylistState)
        ensures
            r.shuffled_list@ == self.shuffled_list@,
            r.current_index == self.current_index,
    {
        PlaylistState {
            shuffled_list: clone_paths(&self.shuffled_list),
            current_index: self.current_index,
        }
    }

    /// The path that unconditional forward traversal reaches after `n` more
    /// steps along the order, without touching any state.
    pub fn peek_next_n(&self, n: usize) -> (r: Option<String>)
        requires
            self.wf(),
            self.current_index + n <= usize::MAX,
        ensures
            r is Some <==> self.shuffled_list@.len() > 0,
            r matches Some(p) ==> p@ == self.paths()[
                (self.current_index + n) % (self.shuffled_list@.len() as int)
            ],
    {
        if self.shuffled_list.is_empty() {
            return None;
        }
        let next_index = (self.current_index + n) % self.shuffled_list.len();
        Some(self.shuffled_list[next_index].clone())
    }

    /// The paths that the next `count` unconditional forward steps along
    /// the order would show, oldest first: the lookahead window for
    /// speculative cache population. Empty when the playlist is empty.
    pub fn prefetch_candidates(&self, count: usize) -> (r: Vec<String>)
        requires
            self.wf(),
            self.current_index + count <= usize::MAX,
        ensures
            r@.len() == if self.shuffled_list@.len() == 0 {
                0int
            } else {
                count as int
            },
            forall|k: int|
                0 <= k < r@.len() ==> r.deep_view()[k] == self.paths()[
                    (self.current_index + k + 1) % (self.shuffled_list@.len() as int)
                ],
    {
        let mut r: Vec<String> = Vec::new();
        if self.shuffled_list.len() == 0 {
            return r;
        }
        let mut i: usize = 0;
        while i < count
            invariant
                self.wf(),
                i <= count,
                self.current_index + count <= usize::MAX,
                self.shuffled_list@.len() > 0,
                r@.len() == i,
                forall|k: int|
                    0 <= k < r@.len() ==> r.deep_view()[k] == self.paths()[
                        (self.current_index + k + 1) % (self.shuffled_list@.len() as int)
                    ],
            decreases count - i,
        {
            let ghost pre_r = r.deep_view();
            let p = self.peek_next_n(i + 1);
            match p {
                Some(path) => {
                    r.push(path);
                    proof {
                        assert(r.deep_view() =~= pre_r.push(r@[i as int]@));
                    }
                },
                None => {},
            }
            i = i + 1;
        }
        r
    }

    /// Build a fresh playlist: a random permutation of the given paths, the
    /// cursor at the front, and a history of that single position.
    pub fn new(images: Vec<String>) -> (r: Playlist)
        ensures
            r.wf(),
            r.paths().to_multiset() == images.deep_view().to_multiset(),
            r.shuffled_list@.len() == images@.len(),
            r.current_index == 0,
            r.history@ == seq![0usize],
            r.history_position == 0,
            images.deep_view().no_duplicates() ==> r.paths().no_duplicates()
                && r.paths().to_set() == images.deep_view().to_set(),
    {
        let ghost originals = images.deep_view();
        let mut shuffled = images;
        shuffle_strings(&mut shuffled);
        let mut history: Vec<usize> = Vec::new();
        history.push(0);
        proof {
            if originals.no_duplicates() {
                lemma_permutation_distinct(originals, shuffled.deep_view());
            }
        }
        Playlist { shuffled_list: shuffled, current_index: 0, history, history_position: 0 }
    }

    /// Step to the next image. A replay through history is not counted; a
    /// step into new territory is, and it reshuffles the order exactly when
    /// the cursor wraps past the end of a list with more than one entry.
    pub fn advance(&mut self) -> (r: (Option<String>, bool))
        requires
            old(self).wf(),
        ensures
            final(self).wf(),
            advance_rel(*old(self), *final(self), r.0, r.1),
    {
        if self.shuffled_list.len() == 0 {
            return (None, false);
        }
        if self.history_position + 1 < self.history.len() {
            // replaying forward through positions already visited
            self.history_position = self.history_position + 1;
            self.current_index = self.history[self.history_position];
            let p = self.shuffled_list[self.current_index].clone();
            return (Some(p), false);
        }
        let len = self.shuffled_list.len();
        let next = (self.current_index + 1) % len;
        self.current_index = next;
        if next == 0 && len > 1 {
            shuffle_strings(&mut self.shuffled_list);
        }
        if self.history.len() >= HISTORY_CAPACITY {
            self.history.remove(0);
        }
        self.history.push(next);
        self.history_position = self.history.len() - 1;
        let p = self.shuffled_list[self.current_index].clone();
        (Some(p), true)
    }

    /// Step back to the previously shown image, when the history records
    /// one; at the oldest recorded position the state stays as it is and the
    /// current path comes back.
    pub fn go_back(&mut self) -> (r: Option<String>)
        requires
            old(self).wf(),
        ensures
            final(self).wf(),
            go_back_rel(*old(self), *final(self), r),
    {
        if self.history_position == 0 {
            return self.current();
        }
        self.history_position = self.history_position - 1;
        self.current_index = self.history[self.history_position];
        Some(self.shuffled_list[self.current_index].clone())
    }

    /// Reconcile the order with a changed file set: drop the removed paths
    /// keeping the survivors' relative order, append the added paths in a
    /// random arrangement, clamp the cursor into range, and restart the
    /// history at the new cursor alone.
    pub fn update_images(&mut self, new_images: Vec<String>, deleted_images: Vec<String>)
        requires
            old(self).wf(),
        ensures
            final(self).wf(),
            ({
                let kept = kept_paths(old(self).paths(), deleted_images.deep_view());
                &&& final(self).paths().len() == kept.len() + new_images@.len()
                &&& final(self).paths().subrange(0, kept.len() as int) == kept
                &&& final(self).paths().subrange(
                    kept.len() as int,
                    final(self).paths().len() as int,
                ).to_multiset() == new_images.deep_view().to_multiset()
                &&& final(self).paths().to_multiset() == kept.to_multiset().add(
                    new_images.deep_view().to_multiset(),
                )
            }),
            final(self).current_index as int == clamp_index_spec(
                final(self).paths().len() as int,
                old(self).current_index as int,
            ),
            final(self).history@ == seq![final(self).current_index],
            final(self).history_position == 0,
            (old(self).paths().no_duplicates() && new_images.deep_view().no_duplicates()
                && (forall|p: Seq<char>|
                new_images.deep_view().contains(p) ==> !old(self).paths().contains(p)))
                ==> final(self).paths().no_duplicates(),
    {
        let ghost old_paths = self.paths();
        let ghost removed = deleted_images.deep_view();
        let mut kept: Vec<String> = Vec::new();
        let mut i: usize = 0;
        while i < self.shuffled_list.len()
            invariant
                i <= self.shuffled_list@.len(),
                self.shuffled_list.deep_view() == old_paths,
                removed == deleted_images.deep_view(),
                kept.deep_view() =~= kept_paths(old_paths.subrange(0, i as int), removed),
            decreases self.shuffled_list@.len() - i,
        {
            let ghost pre_kept = kept.deep_view();
            let p = self.shuffled_list[i].clone();
            let keep_it = !contains_string(&deleted_images, &p);
            if keep_it {
                kept.push(p);
            }
            proof {
                broadcast use vstd::prelude::Seq::lemma_filter_push;

                let prefix = old_paths.subrange(0, i as int);
                let elem = old_paths[i as int];
                assert(old_paths.subrange(0, i as int + 1) =~= prefix.push(elem));
                assert(self.shuffled_list@[i as int]@ == elem);
                assert(keep_it == !removed.contains(elem));
                assert(kept_paths(prefix.push(elem), removed) == (
                if !removed.contains(elem) {
                    kept_paths(prefix, removed).push(elem)
                } else {
                    kept_paths(prefix, removed)
                }));
                if keep_it {
                    assert(kept.deep_view() =~= pre_kept.push(elem));
                    assert(pre_kept.push(elem) == kept_paths(prefix, removed).push(elem));
                    assert(kept.deep_view() =~= kept_paths(prefix.push(elem), removed));
                } else {
                    assert(kept.deep_view() =~= kept_paths(prefix.push(elem), removed));
                }
                assert(kept_paths(old_paths.subrange(0, i as int + 1), removed) == kept_paths(
                    prefix.push(elem),
                    removed,
                ));
                assert(kept.deep_view() =~= kept_paths(old_paths.subrange(0, i as int + 1), removed));
            }
            i = i + 1;
        }
        proof {
            assert(old_paths.subrange(0, old_paths.len() as int) =~= old_paths);
        }
        let ghost kept_ghost = kept.deep_view();
        let mut fresh = new_images;
        shuffle_strings(&mut fresh);
        let ghost fresh_ghost = fresh.deep_view();
        kept.append(&mut fresh);
        proof {
            assert(kept.deep_view() =~= kept_ghost + fresh_ghost);
            assert((kept_ghost + fresh_ghost).subrange(0, kept_ghost.len() as int)
                =~= kept_ghost);
            assert((kept_ghost + fresh_ghost).subrange(
                kept_ghost.len() as int,
                (kept_ghost + fresh_ghost).len() as int,
            ) =~= fresh_ghost);
            if old_paths.no_duplicates() && new_images.deep_view().no_duplicates()
                && (forall|p: Seq<char>|
                new_images.deep_view().contains(p) ==> !old_paths.contains(p)) {
                broadcast use vstd::seq_lib::group_to_multiset_ensures;

                lemma_filter_no_duplicates(
                    old_paths,
                    |p: Seq<char>| !removed.contains(p),
                );
                lemma_filter_subset(old_paths, |p: Seq<char>| !removed.contains(p));
                lemma_permutation_distinct(new_images.deep_view(), fresh_ghost);
                assert forall|x: int, y: int|
                    0 <= x < kept_ghost.len() && 0 <= y < fresh_ghost.len() implies kept_ghost[x]
                    != fresh_ghost[y] by {
                    assert(old_paths.contains(kept_ghost[x]));
                    assert(fresh_ghost.contains(fresh_ghost[y]));
                    assert(fresh_ghost.to_multiset().count(fresh_ghost[y]) > 0);
                    assert(new_images.deep_view().to_multiset().count(fresh_ghost[y]) > 0);
                    assert(new_images.deep_view().contains(fresh_ghost[y]));
                }
                vstd::seq_lib::lemma_no_dup_in_concat(kept_ghost, fresh_ghost);
            }
            vstd::seq_lib::lemma_multiset_commutative(kept_ghost, fresh_ghost);
        }
        self.shuffled_list = kept;
        if self.shuffled_list.len() == 0 {
            self.current_index = 0;
        } else if self.current_index >= self.shuffled_list.len() {
            self.current_index = self.shuffled_list.len() - 1;
        }
        self.history = Vec::new();
        self.history.push(self.current_index);
        self.history_position = 0;
    }
}

/// The survivors of a reconciliation: the order with every removed path
/// dropped, relative order kept.
pub open spec fn kept_paths(order: Seq<Seq<char>>, removed: Seq<Seq<char>>) -> Seq<Seq<char>> {
    order.filter(|p: Seq<char>| !removed.contains(p))
}

/// Whether the list holds a path with the given characters.
fn contains_string(v: &Vec<String>, x: &String) -> (r: bool)
    ensures
        r == v.deep_view().contains(x@),
{
    let mut i: usize = 0;
    while i < v.len()
        invariant
            i <= v@.len(),
            forall|k: int| 0 <= k < i ==> v.deep_view()[k] != x@,
        decreases v@.len() - i,
    {
        if v[i].eq(x) {
            proof {
                assert(v.deep_view()[i as int] == x@);
            }
            return true;
        }
        i = i + 1;
    }
    proof {
        assert(forall|k: int| 0 <= k < v.deep_view().len() ==> v.deep_view()[k] != x@);
    }
    false
}

/// Law: an order whose front is the surviving paths and whose back is some
/// arrangement of the added paths — what reconciliation leaves behind —
/// holds exactly the survivors and the additions, nothing else.
pub proof fn lemma_reconcile_exact(
    order: Seq<Seq<char>>,
    survivors: Seq<Seq<char>>,
    added: Seq<Seq<char>>,
)
    requires
        order.len() == survivors.len() + added.len(),
        order.subrange(0, survivors.len() as int) == survivors,
        order.subrange(survivors.len() as int, order.len() as int).to_multiset()
            == added.to_multiset(),
    ensures
        order.to_multiset() == survivors.to_multiset().add(added.to_multiset()),
        order.to_set() == survivors.to_set() + added.to_set(),
{
    broadcast use vstd::seq_lib::group_to_multiset_ensures;

    let back = order.subrange(survivors.len() as int, order.len() as int);
    assert(order =~= survivors + back);
    vstd::seq_lib::lemma_multiset_commutative(survivors, back);
    assert forall|x: Seq<char>| order.to_set().contains(x) == (survivors.to_set()
        + added.to_set()).contains(x) by {
        assert(order.contains(x) <==> order.to_multiset().count(x) > 0);
        assert(survivors.contains(x) <==> survivors.to_multiset().count(x) > 0);
        assert(added.contains(x) <==> added.to_multiset().count(x) > 0);
    }
    assert(order.to_set() =~= survivors.to_set() + added.to_set());
}

/// Law: the visit history never outgrows its capacity, whatever sequence of
/// operations produced the state.
pub proof fn lemma_history_bounded(p: Playlist)
    requires
        p.wf(),
    ensures
        p.history@.len() <= HISTORY_CAPACITY,
{
}

/// A transition allowed by `advance_rel` keeps the playlist well-formed.
pub proof fn lemma_advance_rel_preserves_wf(
    pre: Playlist,
    post: Playlist,
    path: Option<String>,
    counted: bool,
)
    requires
        pre.wf(),
        advance_rel(pre, post, path, counted),
    ensures
        post.wf(),
{
    if pre.shuffled_list@.len() > 0 && !pre.is_redo() {
        let len = pre.shuffled_list@.len() as int;
        assert(0 <= (pre.current_index + 1) % len < len) by {
            vstd::arithmetic::div_mod::lemma_mod_bound(pre.current_index + 1, len);
        }
        assert forall|i: int|
            0 <= i < post.history@.len() implies (#[trigger] post.history@[i])
            < post.shuffled_list@.len() by {
            let h = pre.history@;
            if i < post.history@.len() - 1 {
                if h.len() >= HISTORY_CAPACITY {
                    assert(post.history@[i] == h[i + 1]);
                } else {
                    assert(post.history@[i] == h[i]);
                }
            }
        }
    }
}

/// Law: one step back followed immediately by one advance restores the
/// playlist exactly as it stood before the step back, hands back the path
/// that was then on display, and reports that this advance is not counted.
pub proof fn lemma_undo_redo(
    pre: Playlist,
    mid: Playlist,
    post: Playlist,
    back_path: Option<String>,
    fwd_path: Option<String>,
    counted: bool,
)
    requires
        pre.wf(),
        pre.history_position > 0,
        go_back_rel(pre, mid, back_path),
        advance_rel(mid, post, fwd_path, counted),
    ensures
        post == pre,
        counted == false,
        fwd_path matches Some(p) && p@ == pre.paths()[pre.current_index as int],
{
    assert(pre.shuffled_list@.len() > 0);
    assert(mid.is_redo());
    assert(post.current_index == pre.history@[pre.history_position as int]);
}

/// How many entries of the sequence are `true`.
pub open spec fn count_true(s: Seq<bool>) -> int
    decreases s.len(),
{
    if s.len() == 0 {
        0
    } else {
        count_true(s.drop_last()) + (if s.last() {
            1int
        } else {
            0int
        })
    }
}

/// How many states of the sequence would take their next advance as a
/// distinct forward step rather than a replay of recorded history.
pub open spec fn count_forward_states(states: Seq<Playlist>) -> int
    decreases states.len(),
{
    if states.len() == 0 {
        0
    } else {
        count_forward_states(states.drop_last()) + (
        if states.last().shuffled_list@.len() > 0 && !states.last().is_redo() {
            1int
        } else {
            0int
        })
    }
}

/// Law: across any run of `advance` calls, the number of results reported
/// as counted equals the number of distinct forward steps taken; a replay
/// through history never counts.
pub proof fn lemma_no_double_counting(
    states: Seq<Playlist>,
    paths: Seq<Option<String>>,
    counts: Seq<bool>,
)
    requires
        states.len() == counts.len() + 1,
        paths.len() == counts.len(),
        forall|k: int|
            0 <= k < counts.len() ==> advance_rel(
                #[trigger] states[k],
                states[k + 1],
                paths[k],
                counts[k],
            ),
    ensures
        count_true(counts) == count_forward_states(states.drop_last()),
    decreases counts.len(),
{
    if counts.len() == 0 {
        assert(states.drop_last().len() == 0);
    } else {
        let n = counts.len() as int;
        assert forall|k: int|
            0 <= k < counts.drop_last().len() implies advance_rel(
            #[trigger] states.drop_last()[k],
            states.drop_last()[k + 1],
            paths.drop_last()[k],
            counts.drop_last()[k],
        ) by {
            assert(states.drop_last()[k] == states[k]);
            assert(states.drop_last()[k + 1] == states[k + 1]);
        }
        lemma_no_double_counting(states.drop_last(), paths.drop_last(), counts.drop_last());
        assert(advance_rel(states[n - 1], states[n], paths[n - 1], counts[n - 1]));
        assert(states.drop_last().last() == states[n - 1]);
        assert(counts[n - 1] == (states[n - 1].shuffled_list@.len() > 0 && !states[n
            - 1].is_redo()));
    }
}

/// Law: starting from the newest history entry of a non-empty playlist,
/// every advance is a distinct forward step, the length of the order never
/// changes, and the cursor after `k` calls stands at
/// `(start + k) % len` — so it returns to the front exactly every `len`
/// forward advances, the moment the order is reshuffled.
#[verifier::rlimit(100)]
pub proof fn lemma_forward_cycle(
    states: Seq<Playlist>,
    paths: Seq<Option<String>>,
    counts: Seq<bool>,
)
    requires
        states.len() == counts.len() + 1,
        paths.len() == counts.len(),
        states[0].wf(),
        states[0].shuffled_list@.len() > 0,
        !states[0].is_redo(),
        forall|k: int|
            0 <= k < counts.len() ==> advance_rel(
                #[trigger] states[k],
                states[k + 1],
                paths[k],
                counts[k],
            ),
    ensures
        forall|k: int| 0 <= k < states.len() ==> (#[trigger] states[k]).wf(),
        forall|k: int|
            0 <= k < states.len() ==> (#[trigger] states[k]).shuffled_list@.len()
                == states[0].shuffled_list@.len(),
        forall|k: int| 0 <= k < states.len() ==> !(#[trigger] states[k]).is_redo(),
        forall|k: int|
            0 <= k < states.len() ==> (#[trigger] states[k]).current_index as int == (
            states[0].current_index + k) % (states[0].shuffled_list@.len() as int),
        forall|k: int| 0 <= k < counts.len() ==> counts[k] == true,
    decreases counts.len(),
{
    let len = states[0].shuffled_list@.len() as int;
    if counts.len() == 0 {
        assert(states[0].current_index as int == (states[0].current_index + 0) % len) by {
            vstd::arithmetic::div_mod::lemma_small_mod(
                states[0].current_index as nat,
                len as nat,
            );
        }
    } else {
        let n = counts.len() as int;
        assert forall|k: int|
            0 <= k < counts.drop_last().len() implies advance_rel(
            #[trigger] states.drop_last()[k],
            states.drop_last()[k + 1],
            paths.drop_last()[k],
            counts.drop_last()[k],
        ) by {
            assert(states.drop_last()[k] == states[k]);
            assert(states.drop_last()[k + 1] == states[k + 1]);
        }
        assert(states.drop_last()[0] == states[0]);
        lemma_forward_cycle(states.drop_last(), paths.drop_last(), counts.drop_last());
        assert forall|k: int| 0 <= k < n implies states.drop_last()[k] == states[k] by {}
        let prev = states[n - 1];
        let last = states[n];
        assert(prev.wf() && !prev.is_redo() && prev.shuffled_list@.len() == len);
        assert(advance_rel(prev, last, paths[n - 1], counts[n - 1]));
        lemma_advance_rel_preserves_wf(prev, last, paths[n - 1], counts[n - 1]);
        assert(last.history_position as int == last.history@.len() - 1);
        assert(!last.is_redo());
        assert(last.current_index as int == (prev.current_index + 1) % len);
        let start = states[0].current_index as int;
        assert(prev.current_index as int == (start + (n - 1)) % len);
        assert(((start + (n - 1)) % len + 1) % len == (start + n) % len) by {
            vstd::arithmetic::div_mod::lemma_add_mod_noop(start + (n - 1), 1, len);
            if len > 1 {
                vstd::arithmetic::div_mod::lemma_small_mod(1nat, len as nat);
            } else {
                vstd::arithmetic::div_mod::lemma_mod_bound((start + (n - 1)) % len + 1, len);
                vstd::arithmetic::div_mod::lemma_mod_bound(start + n, len);
            }
        }
        assert forall|k: int| 0 <= k < counts.len() implies counts[k] == true by {
            if k < n - 1 {
                assert(counts.drop_last()[k] == counts[k]);
            }
        }
    }
}

/// Element-wise copy of a path list; String clones keep their characters.
fn clone_paths(v: &Vec<String>) -> (r: Vec<String>)
    ensures
        r@ == v@,
{
    let mut r: Vec<String> = Vec::new();
    let mut i: usize = 0;
    while i < v.len()
        invariant
            i <= v.len(),
            r@ =~= v@.subrange(0, i as int),
        decreases v.len() - i,
    {
        r.push(v[i].clone());
        i = i + 1;
    }
    proof {
        assert(r@ =~= v@);
    }
    r
}

} // verus!
