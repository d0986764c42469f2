mod partitioner;
mod range;
mod store;
mod token;

pub use partitioner::{
    DefaultPartitioner, Partitioner, Xxh3Partitioner, DEFAULT_SEED1, DEFAULT_SEED2, probe_sequence,
    xxh3_of,
};
pub use range::KeyRange;
pub use token::RingToken;

use vstd::prelude::*;

verus! {

use crate::store::{PositionMap, sk_ascending, sk_contents, sk_insert, sk_len, sk_new, sk_remove};

/// A position on the ring: a point on the circular keyspace of `u64` values.
///
/// Arithmetic on positions is modular; past the maximum value the ring wraps
/// back to zero.
pub type RingPosition = u64;

/// Number of probing attempts made before selecting a key's position on the
/// ring.
///
/// The probe with minimal distance to some assigned node is selected; the
/// first node when moving clockwise from the selected probe owns the key.
pub const DEFAULT_PROBE_COUNT: usize = 23;

/// The direction in which the ring is traversed.
#[derive(Clone, Copy)]
pub enum RingDirection {
    Clockwise,
    CounterClockwise,
}

/// Clockwise distance between two ring positions, as the ring measures it:
/// `pos2 - pos1` when `pos2 >= pos1`, and `MAX - pos1 + pos2` when moving
/// past the maximum position.
pub open spec fn spec_distance(pos1: RingPosition, pos2: RingPosition) -> int {
    if pos1 > pos2 {
        u64::MAX - pos1 + pos2
    } else {
        pos2 - pos1
    }
}

/// Calculates the clockwise distance between two ring positions.
pub fn distance(pos1: RingPosition, pos2: RingPosition) -> (r: RingPosition)
    ensures
        r == spec_distance(pos1, pos2),
{
    if pos1 > pos2 {
        u64::MAX - pos1 + pos2
    } else {
        pos2 - pos1
    }
}

/// The rank of a position in a clockwise walk that starts at `start`: the
/// number of steps from `start` to `pos` moving clockwise, wrapping past the
/// maximum position back through zero.
pub open spec fn cw_rank(start: RingPosition, pos: RingPosition) -> int {
    if pos >= start {
        pos - start
    } else {
        pos - start + 0x1_0000_0000_0000_0000
    }
}

/// The rank of a position in a counter-clockwise walk that starts at
/// `start`: the number of steps from `start` to `pos` moving
/// counter-clockwise, wrapping past zero back through the maximum position.
pub open spec fn ccw_rank(start: RingPosition, pos: RingPosition) -> int {
    if pos <= start {
        start - pos
    } else {
        start - pos + 0x1_0000_0000_0000_0000
    }
}

/// The rank of a position in a walk from `start` in direction `dir`.
pub open spec fn dir_rank(dir: RingDirection, start: RingPosition, pos: RingPosition) -> int {
    match dir {
        RingDirection::Clockwise => cw_rank(start, pos),
        RingDirection::CounterClockwise => ccw_rank(start, pos),
    }
}

/// `s` is the complete traversal of the ring `m` from `start` in direction
/// `dir`: it visits exactly the ring's entries, each exactly once, ordered by
/// strictly increasing rank, i.e. in the circular order of the walk.
pub open spec fn spec_is_traversal(
    m: Map<u64, u64>,
    dir: RingDirection,
    start: RingPosition,
    s: Seq<RingToken>,
) -> bool {
    &&& s.len() == m.dom().len()
    &&& forall|i: int|
        0 <= i < s.len() ==> m.contains_pair((#[trigger] s[i]).spec_position(), s[i].spec_node())
    &&& forall|k: u64|
        m.dom().contains(k) ==> exists|i: int|
            0 <= i < s.len() && (#[trigger] s[i]).spec_position() == k
    &&& forall|i: int, j: int|
        0 <= i < j < s.len() ==> dir_rank(dir, start, (#[trigger] s[i]).spec_position()) < dir_rank(
            dir,
            start,
            (#[trigger] s[j]).spec_position(),
        )
}

/// A walk that starts at an occupied position begins with that position's
/// entry whichever way it goes: clockwise and counter-clockwise traversals
/// from it share their first token, since both ranks put the occupant first,
/// and only then do the two walks diverge.
pub proof fn lemma_walk_starts_at_occupied_position(
    m: Map<u64, u64>,
    dir: RingDirection,
    start: RingPosition,
    s: Seq<RingToken>,
)
    requires
        spec_is_traversal(m, dir, start, s),
        m.dom().contains(start),
    ensures
        s.len() > 0,
        s[0].spec_position() == start,
{
    let j = choose|j: int| 0 <= j < s.len() && (#[trigger] s[j]).spec_position() == start;
    if j > 0 {
        assert(dir_rank(dir, start, s[0].spec_position()) < dir_rank(
            dir,
            start,
            s[j].spec_position(),
        ));
    }
}

/// The entries of `m` laid out in ascending position order, as the backing
/// store hands them out: exactly the ring's entries, sorted strictly by
/// position.
pub open spec fn spec_ascending_entries(m: Map<u64, u64>, s: Seq<(u64, u64)>) -> bool {
    &&& s.len() == m.dom().len()
    &&& forall|i: int| 0 <= i < s.len() ==> m.contains_pair((#[trigger] s[i]).0, s[i].1)
    &&& forall|i: int, j: int| 0 <= i < j < s.len() ==> s[i].0 < s[j].0
    &&& forall|k: u64|
        m.dom().contains(k) ==> exists|i: int| 0 <= i < s.len() && (#[trigger] s[i]).0 == k
}

/// Consistent hash ring.
///
/// Nodes are assigned positions on the ring, effectively becoming responsible
/// for a range of keys: from the previous node (counter-clockwise) up to and
/// not including the node's own position. Nodes are `u64` identifiers; a key
/// is any byte string.
///
/// The ring follows the exclusive-owner resource model: every mutation goes
/// through an exclusive borrow, so the single owner serializes all reads and
/// writes, and every query reflects exactly the mutations that happened
/// before it.
pub struct HashRing<P: Partitioner> {
    /// Partitioner used to compute ring positions.
    partitioner: P,
    /// The ring positions assigned to nodes (sorted in ascending order).
    positions: PositionMap,
    /// The number of positions to probe for a given key.
    probe_count: usize,
}

impl<P: Partitioner> View for HashRing<P> {
    type V = Map<u64, u64>;

    /// A ring is viewed as the map from each assigned position to the node
    /// holding it.
    closed spec fn view(&self) -> Map<u64, u64> {
        sk_contents(self.positions)
    }
}

impl<P: Partitioner> HashRing<P> {
    /// The number of positions probed per key lookup.
    pub closed spec fn spec_probe_count(&self) -> usize {
        self.probe_count
    }

    /// The partitioner this ring assigns positions with.
    pub closed spec fn spec_partitioner(&self) -> P {
        self.partitioner
    }

    /// A well-formed ring holds finitely many entries and probes at least
    /// once per lookup.
    pub open spec fn wf(&self) -> bool {
        &&& self@.dom().finite()
        &&& self.spec_probe_count() >= 1
    }

    /// The natural position of a node: the hash, under the default seed, of
    /// the node identifier's little-endian bytes.
    pub open spec fn spec_node_position(&self, node: u64) -> RingPosition {
        self.spec_partitioner().hash_spec(vstd::bytes::spec_u64_to_le_bytes(node), DEFAULT_SEED1)
    }

    /// Inserts a node at the given ring position.
    ///
    /// Mostly useful for testing and simulation; use `add` in all other
    /// cases. An earlier occupant of the position is overwritten.
    pub fn insert(&mut self, pos: RingPosition, node: u64)
        requires
            old(self).wf(),
        ensures
            final(self).wf(),
            final(self)@ == old(self)@.insert(pos, node),
            final(self).spec_probe_count() == old(self).spec_probe_count(),
            final(self).spec_partitioner() == old(self).spec_partitioner(),
    {
        sk_insert(&mut self.positions, pos, node);
    }

    /// Adds a node to the ring, at the position the partitioner derives from
    /// the node's own identifier.
    pub fn add(&mut self, node: u64)
        requires
            old(self).wf(),
        ensures
            final(self).wf(),
            final(self)@ == old(self)@.insert(old(self).spec_node_position(node), node),
            final(self).spec_probe_count() == old(self).spec_probe_count(),
            final(self).spec_partitioner() == old(self).spec_partitioner(),
    {
        let bytes = vstd::bytes::u64_to_le_bytes(node);
        let pos = self.partitioner.position(bytes.as_slice());
        sk_insert(&mut self.positions, pos, node);
    }

    /// Removes a node from the ring and returns the entry that was removed.
    ///
    /// The entry removed is the one at the node's natural hash position: a
    /// node placed elsewhere with `insert` is not found, and a different
    /// occupant of the natural position would be removed in its stead.
    pub fn remove(&mut self, node: u64) -> (r: Option<RingToken>)
        requires
            old(self).wf(),
        ensures
            final(self).wf(),
            final(self).spec_probe_count() == old(self).spec_probe_count(),
            final(self).spec_partitioner() == old(self).spec_partitioner(),
            ({
                let pos = old(self).spec_node_position(node);
                if old(self)@.contains_key(pos) {
                    &&& final(self)@ == old(self)@.remove(pos)
                    &&& r matches Some(t) && t.spec_position() == pos && t.spec_node() == old(
                        self,
                    )@[pos]
                } else {
                    &&& final(self)@ == old(self)@
                    &&& r is None
                }
            }),
    {
        let bytes = vstd::bytes::u64_to_le_bytes(node);
        let pos = self.partitioner.position(bytes.as_slice());
        match sk_remove(&mut self.positions, pos) {
            Some(occupant) => Some(RingToken::new(pos, occupant)),
            None => None,
        }
    }

    /// Returns up to `k` tokens of nodes responsible for the given key.
    ///
    /// The first token is the primary node responsible for the key — the
    /// same node [`node()`](Self::node) returns — and the rest follow
    /// clockwise from it, without repetition. Fewer than `k` tokens are
    /// returned if the ring holds fewer nodes; on an empty ring there are
    /// none.
    pub fn replicas(&self, key: &[u8], k: usize) -> (r: Option<Vec<RingToken>>)
        requires
            self.wf(),
        ensures
            self@.dom().len() == 0 ==> r is None,
            self@.dom().len() > 0 ==> (r matches Some(v) && spec_is_replica_prefix(
                self@,
                self.spec_primary_pos(key@),
                k as nat,
                v@,
            ) && (k >= 1 ==> v@.len() >= 1 && v@[0].spec_position() == self.spec_primary_pos(
                key@,
            ))),
    {
        let pt = match self.primary_token(key) {
            Some(t) => t,
            None => {
                return None;
            },
        };
        let ghost start = pt.spec_position();
        let toks = self.tokens(pt.position(), RingDirection::Clockwise);
        let klen = if k <= toks.len() {
            k
        } else {
            toks.len()
        };
        let mut out: Vec<RingToken> = Vec::new();
        let mut i: usize = 0;
        while i < klen
            invariant
                klen <= toks@.len(),
                i <= klen,
                out@ =~= toks@.take(i as int),
            decreases klen - i,
        {
            let t = toks[i];
            out.push(t);
            proof {
                assert(out@ =~= toks@.take(i as int + 1));
            }
            i = i + 1;
        }
        proof {
            let m = self@;
            assert(out@.len() == klen);
            assert forall|a: int| 0 <= a < out@.len() implies toks@[a] == out@[a] by {}
            assert forall|q: u64, i2: int|
                m.dom().contains(q) && 0 <= i2 < out@.len() && !(exists|a: int|
                    0 <= a < out@.len() && (#[trigger] out@[a]).spec_position() == q) implies
                cw_rank(start, out@[i2].spec_position()) < cw_rank(start, q) by {
                let j = choose|j: int|
                    0 <= j < toks@.len() && (#[trigger] toks@[j]).spec_position() == q;
                if j < klen {
                    assert(out@[j].spec_position() == q);
                } else {
                    assert(dir_rank(RingDirection::Clockwise, start, toks@[i2].spec_position())
                        < dir_rank(RingDirection::Clockwise, start, toks@[j].spec_position()));
                }
            }
            if k >= 1 {
                assert(m.dom().contains(start));
                let j = choose|j: int|
                    0 <= j < toks@.len() && (#[trigger] toks@[j]).spec_position() == start;
                if j > 0 {
                    assert(dir_rank(RingDirection::Clockwise, start, toks@[0].spec_position())
                        < dir_rank(RingDirection::Clockwise, start, toks@[j].spec_position()));
                    assert(false);
                }
                assert(toks@[0].spec_position() == start);
            }
        }
        Some(out)
    }

    /// Returns the intervals of the key space controlled by the given node.
    ///
    /// This is what re-balancing needs: when a node is added or removed,
    /// data has to be moved, and the intervals a node controls say which.
    /// Whenever the node's natural position is not part of the ring, `None`
    /// is returned.
    pub fn intervals(&self, node: u64) -> (r: Option<Vec<KeyRange>>)
        requires
            self.wf(),
        ensures
            ({
                let pos = self.spec_node_position(node);
                if self@.dom().contains(pos) {
                    r matches Some(v) && v@.len() == 1 && v@[0].end == pos && v@[0].start
                        == spec_range_start(self@, pos)
                } else {
                    r is None
                }
            }),
    {
        let bytes = vstd::bytes::u64_to_le_bytes(node);
        let pos = self.partitioner.position(bytes.as_slice());
        let toks = self.tokens(pos, RingDirection::Clockwise);
        if toks.len() == 0 {
            return None;
        }
        let first = toks[0];
        if first.position() != pos {
            proof {
                if self@.dom().contains(pos) {
                    let j = choose|j: int|
                        0 <= j < toks@.len() && (#[trigger] toks@[j]).spec_position() == pos;
                    if j > 0 {
                        assert(dir_rank(RingDirection::Clockwise, pos, toks@[0].spec_position())
                            < dir_rank(RingDirection::Clockwise, pos, toks@[j].spec_position()));
                    }
                    assert(false);
                }
            }
            return None;
        }
        match self.key_range(pos) {
            Some(kr) => Some(vec![kr]),
            None => None,
        }
    }

    /// Returns the key space range owned by a node, if it were located at
    /// the given position.
    ///
    /// If a range is available, it always ends at the given position and
    /// starts at the position of the nearest node strictly before it,
    /// counter-clockwise and wrapping around. When no strict predecessor
    /// exists — the ring's only stored position is `pos` itself — the start
    /// defaults to the origin. On an empty ring no range is available.
    pub fn key_range(&self, pos: RingPosition) -> (r: Option<KeyRange>)
        requires
            self.wf(),
        ensures
            r is None <==> self@.dom().len() == 0,
            self@.dom().len() > 0 ==> (r matches Some(kr) && kr.end == pos && kr.start
                == spec_range_start(self@, pos)),
    {
        let toks = self.tokens(pos, RingDirection::Clockwise);
        if toks.len() == 0 {
            return None;
        }
        let last = toks[toks.len() - 1];
        proof {
            assert forall|q: u64| #[trigger] self@.dom().contains(q) implies cw_rank(pos, q)
                <= cw_rank(pos, last.spec_position()) by {
                let i = choose|i: int|
                    0 <= i < toks@.len() && (#[trigger] toks@[i]).spec_position() == q;
                if i < toks@.len() - 1 {
                    assert(dir_rank(RingDirection::Clockwise, pos, toks@[i].spec_position())
                        < dir_rank(
                        RingDirection::Clockwise,
                        pos,
                        toks@[toks@.len() - 1].spec_position(),
                    ));
                }
            }
            lemma_prev_unique(self@, pos, last.spec_position());
        }
        let start = if last.position() == pos {
            0
        } else {
            last.position()
        };
        Some(KeyRange::new(start, pos))
    }

    /// Returns the ring position to which a given key is assigned.
    pub fn position(&self, key: &[u8]) -> (r: RingPosition)
        ensures
            r == self.spec_partitioner().hash_spec(key@, DEFAULT_SEED1),
    {
        self.partitioner.position(key)
    }

    /// Returns the size of the ring, i.e. the number of assigned positions.
    pub fn len(&self) -> (r: usize)
        requires
            self.wf(),
        ensures
            r == self@.dom().len(),
    {
        sk_len(&self.positions)
    }

    /// Returns `true` if the ring is empty.
    pub fn is_empty(&self) -> (r: bool)
        requires
            self.wf(),
        ensures
            r == (self@.dom().len() == 0),
    {
        self.len() == 0
    }
}

impl<P: Partitioner> HashRing<P> {
    /// Returns the assigned positions (tokens) starting from the given
    /// location on the ring, walking in the given direction.
    ///
    /// One can go both clockwise and counter-clockwise, seeing both the next
    /// assigned positions and the previous ones. Since the positions lie on a
    /// ring, the walk wraps around: past the maximum position it continues at
    /// the minimum one, and the other way round.
    pub fn tokens(&self, start: RingPosition, dir: RingDirection) -> (r: Vec<RingToken>)
        requires
            self.wf(),
        ensures
            spec_is_traversal(self@, dir, start, r@),
    {
        let entries = sk_ascending(&self.positions);
        match dir {
            RingDirection::Clockwise => split_cw(&entries, Ghost(self@), start),
            RingDirection::CounterClockwise => split_ccw(&entries, Ghost(self@), start),
        }
    }

    /// The probe positions examined for a key: the double-hashing sequence
    /// derived from the key's two seeded hashes, one probe per attempt.
    pub open spec fn spec_probes(&self, key: Seq<u8>) -> Seq<u64> {
        probe_sequence(
            self.spec_partitioner().hash_spec(key, DEFAULT_SEED1),
            self.spec_partitioner().hash_spec(key, DEFAULT_SEED2),
            self.spec_probe_count() as nat,
        )
    }

    /// The position of a key's primary owner: the owner of the selected
    /// probe, i.e. of the first probe with minimal distance to its owner.
    pub open spec fn spec_primary_pos(&self, key: Seq<u8>) -> u64 {
        let probes = self.spec_probes(key);
        spec_owner_pos(
            self@,
            probes[spec_selected_probe(self@, probes, probes.len() as int)],
        )
    }

    /// Returns the token of the node that owns the range the given key falls
    /// into.
    ///
    /// A token is a pair of the ring position of a node and the node itself.
    ///
    /// Double hashing is used to avoid non-uniform distribution of keys
    /// across the ring: of the several produced probe positions, the one with
    /// the minimal distance to the next node is selected, and that node is
    /// the key's primary owner.
    fn primary_token(&self, key: &[u8]) -> (r: Option<RingToken>)
        requires
            self.wf(),
        ensures
            self@.dom().len() == 0 ==> r is None,
            self@.dom().len() > 0 ==> (r matches Some(t) && t.spec_position()
                == self.spec_primary_pos(key@) && self@.contains_pair(
                t.spec_position(),
                t.spec_node(),
            )),
    {
        let entries = sk_ascending(&self.positions);
        if entries.len() == 0 {
            return None;
        }
        let probes = self.partitioner.positions(key, self.probe_count);
        let ghost gm = self@;
        let ghost gp = probes@;
        let p0 = probes[0];
        let t0 = find_owner(&entries, Ghost(gm), p0);
        let mut best = t0;
        let mut best_dist = distance(p0, t0.position());
        let mut i: usize = 1;
        proof {
            assert(spec_selected_probe(gm, gp, 1) == 0);
        }
        while i < probes.len()
            invariant
                spec_ascending_entries(gm, entries@),
                entries@.len() > 0,
                gp == probes@,
                1 <= i <= gp.len(),
                best.spec_position() == spec_owner_pos(
                    gm,
                    gp[spec_selected_probe(gm, gp, i as int)],
                ),
                gm.contains_pair(best.spec_position(), best.spec_node()),
                best_dist == spec_probe_distance(gm, gp, spec_selected_probe(gm, gp, i as int)),
            decreases gp.len() - i,
        {
            let p = probes[i];
            let t = find_owner(&entries, Ghost(gm), p);
            let d = distance(p, t.position());
            proof {
                assert(spec_selected_probe(gm, gp, i + 1) == {
                    let prev = spec_selected_probe(gm, gp, i as int);
                    if spec_probe_distance(gm, gp, i as int) < spec_probe_distance(gm, gp, prev) {
                        i as int
                    } else {
                        prev
                    }
                });
            }
            if d < best_dist {
                best = t;
                best_dist = d;
            }
            i = i + 1;
        }
        Some(best)
    }

    /// Returns the primary node responsible for the given key.
    ///
    /// Due to replication a key may land on several nodes, but the primary
    /// destination is the node that owns the selected probe position of the
    /// key. On an empty ring no owner exists.
    pub fn node(&self, key: &[u8]) -> (r: Option<RingToken>)
        requires
            self.wf(),
        ensures
            self@.dom().len() == 0 ==> r is None,
            self@.dom().len() > 0 ==> (r matches Some(t) && t.spec_position()
                == self.spec_primary_pos(key@) && self@.contains_pair(
                t.spec_position(),
                t.spec_node(),
            )),
    {
        self.primary_token(key)
    }

    /// Returns a list of all nodes currently in the ring, in ascending
    /// position order.
    pub fn nodes(&self) -> (r: Vec<RingToken>)
        requires
            self.wf(),
        ensures
            spec_is_traversal(self@, RingDirection::Clockwise, 0, r@),
    {
        self.tokens(0, RingDirection::Clockwise)
    }
}

/// `k` is the last stop of the clockwise walk of ring `m` from `start`: it
/// is stored, and no stored position ranks after it. It is the nearest
/// stored position strictly before `start`, wrapping, except that a ring
/// whose only position is `start` itself ends its walk there.
pub open spec fn spec_is_last_cw(m: Map<u64, u64>, start: u64, k: u64) -> bool {
    &&& m.dom().contains(k)
    &&& forall|q: u64| #[trigger] m.dom().contains(q) ==> cw_rank(start, q) <= cw_rank(start, k)
}

/// The position at which the clockwise walk of ring `m` from `start` ends.
pub open spec fn spec_prev_pos(m: Map<u64, u64>, start: u64) -> u64 {
    choose|k: u64| spec_is_last_cw(m, start, k)
}

/// Where the range owned at `pos` starts: at the nearest stored position
/// strictly before `pos`, wrapping around — the walk's last stop — except
/// that when no strict predecessor exists, because the ring's only stored
/// position is `pos` itself, the start defaults to the origin.
pub open spec fn spec_range_start(m: Map<u64, u64>, pos: u64) -> u64 {
    if spec_prev_pos(m, pos) == pos {
        0
    } else {
        spec_prev_pos(m, pos)
    }
}

/// The walk has only one last stop: any stored position of maximal clockwise
/// rank from `start` is where the walk ends.
pub proof fn lemma_prev_unique(m: Map<u64, u64>, start: u64, k: u64)
    requires
        spec_is_last_cw(m, start, k),
    ensures
        spec_prev_pos(m, start) == k,
{
    let k2 = spec_prev_pos(m, start);
    assert(spec_is_last_cw(m, start, k2));
    assert(cw_rank(start, k) <= cw_rank(start, k2));
    assert(cw_rank(start, k2) <= cw_rank(start, k));
}

/// `s` holds the first `k` stops of the clockwise walk of ring `m` from
/// `start`: as many as the ring holds, each a stored entry, in walk order,
/// and every stored position left out ranks after every one taken.
pub open spec fn spec_is_replica_prefix(
    m: Map<u64, u64>,
    start: u64,
    k: nat,
    s: Seq<RingToken>,
) -> bool {
    &&& s.len() == if k <= m.dom().len() {
        k as int
    } else {
        m.dom().len() as int
    }
    &&& forall|i: int|
        0 <= i < s.len() ==> m.contains_pair((#[trigger] s[i]).spec_position(), s[i].spec_node())
    &&& forall|i: int, j: int|
        0 <= i < j < s.len() ==> cw_rank(start, (#[trigger] s[i]).spec_position()) < cw_rank(
            start,
            (#[trigger] s[j]).spec_position(),
        )
    &&& forall|q: u64, i: int|
        #![trigger m.dom().contains(q), s[i].spec_position()]
        m.dom().contains(q) && 0 <= i < s.len() && !(exists|a: int|
            0 <= a < s.len() && (#[trigger] s[a]).spec_position() == q) ==> cw_rank(
            start,
            s[i].spec_position(),
        ) < cw_rank(start, q)
}

/// `k` owns probe `p` in ring `m`: `k` is stored, and no stored position has
/// a smaller clockwise rank from `p`, i.e. `k` is reached first when moving
/// clockwise from `p`.
pub open spec fn spec_owns(m: Map<u64, u64>, p: u64, k: u64) -> bool {
    &&& m.dom().contains(k)
    &&& forall|q: u64| #[trigger] m.dom().contains(q) ==> cw_rank(p, k) <= cw_rank(p, q)
}

/// The position owning probe `p` in ring `m`: the stored position reached
/// first when moving clockwise from `p`.
pub open spec fn spec_owner_pos(m: Map<u64, u64>, p: u64) -> u64 {
    choose|k: u64| spec_owns(m, p, k)
}

/// A probe has only one owner: any stored position of minimal clockwise rank
/// from `p` is the owner of `p`.
pub proof fn lemma_owner_unique(m: Map<u64, u64>, p: u64, k: u64)
    requires
        spec_owns(m, p, k),
    ensures
        spec_owner_pos(m, p) == k,
{
    let k2 = spec_owner_pos(m, p);
    assert(spec_owns(m, p, k2));
    assert(cw_rank(p, k) <= cw_rank(p, k2));
    assert(cw_rank(p, k2) <= cw_rank(p, k));
}

/// The distance from the `i`-th probe to the position that owns it.
pub open spec fn spec_probe_distance(m: Map<u64, u64>, probes: Seq<u64>, i: int) -> int {
    spec_distance(probes[i], spec_owner_pos(m, probes[i]))
}

/// The index of the probe the ring selects among the first `upto` probes:
/// the first probe whose distance to its owner is minimal, earlier probes
/// winning ties.
pub open spec fn spec_selected_probe(m: Map<u64, u64>, probes: Seq<u64>, upto: int) -> int
    decreases upto,
{
    if upto <= 1 {
        0
    } else {
        let prev = spec_selected_probe(m, probes, upto - 1);
        if spec_probe_distance(m, probes, upto - 1) < spec_probe_distance(m, probes, prev) {
            upto - 1
        } else {
            prev
        }
    }
}

/// The selected probe attains the minimal distance to its owner among all
/// probes considered, and it is the first probe to attain that distance.
pub proof fn lemma_selected_probe_minimal(m: Map<u64, u64>, probes: Seq<u64>, upto: int)
    requires
        1 <= upto,
    ensures
        0 <= spec_selected_probe(m, probes, upto) < upto,
        forall|i: int|
            0 <= i < upto ==> spec_probe_distance(m, probes, spec_selected_probe(m, probes, upto))
                <= #[trigger] spec_probe_distance(m, probes, i),
        forall|i: int|
            0 <= i < spec_selected_probe(m, probes, upto) ==> spec_probe_distance(
                m,
                probes,
                spec_selected_probe(m, probes, upto),
            ) < #[trigger] spec_probe_distance(m, probes, i),
    decreases upto,
{
    if upto > 1 {
        lemma_selected_probe_minimal(m, probes, upto - 1);
    }
}

/// Finds the entry owning probe `p`: the first stored entry at or after `p`,
/// or the least stored entry when the walk wraps past the maximum position.
fn find_owner(entries: &Vec<(u64, u64)>, Ghost(m): Ghost<Map<u64, u64>>, p: u64) -> (r: RingToken)
    requires
        spec_ascending_entries(m, entries@),
        entries@.len() > 0,
    ensures
        m.contains_pair(r.spec_position(), r.spec_node()),
        r.spec_position() == spec_owner_pos(m, p),
{
    let n = entries.len();
    let mut i: usize = 0;
    while i < n
        invariant
            spec_ascending_entries(m, entries@),
            n == entries@.len(),
            i <= n,
            forall|j: int| 0 <= j < i ==> (#[trigger] entries@[j]).0 < p,
        decreases n - i,
    {
        let (q, v) = entries[i];
        if q >= p {
            proof {
                assert forall|t: u64| #[trigger] m.dom().contains(t) implies cw_rank(p, q)
                    <= cw_rank(p, t) by {
                    let j = choose|j: int|
                        0 <= j < entries@.len() && (#[trigger] entries@[j]).0 == t;
                    if i < j {
                        assert(entries@[i as int].0 < entries@[j].0);
                    }
                }
                lemma_owner_unique(m, p, q);
            }
            return RingToken::new(q, v);
        }
        i = i + 1;
    }
    let (q, v) = entries[0];
    proof {
        assert forall|t: u64| #[trigger] m.dom().contains(t) implies cw_rank(p, q) <= cw_rank(
            p,
            t,
        ) by {
            let j = choose|j: int| 0 <= j < entries@.len() && (#[trigger] entries@[j]).0 == t;
            if 0 < j {
                assert(entries@[0].0 < entries@[j].0);
            }
        }
        lemma_owner_unique(m, p, q);
    }
    RingToken::new(q, v)
}

/// Lays the ascending entries out in clockwise traversal order from `start`:
/// the entries at or after `start` keep their order, the entries before
/// `start` follow them, wrapped around.
#[verifier::rlimit(60)]
fn split_cw(entries: &Vec<(u64, u64)>, Ghost(m): Ghost<Map<u64, u64>>, start: u64) -> (r: Vec<
    RingToken,
>)
    requires
        spec_ascending_entries(m, entries@),
    ensures
        spec_is_traversal(m, RingDirection::Clockwise, start, r@),
{
    let n = entries.len();
    let mut first: Vec<RingToken> = Vec::new();
    let mut second: Vec<RingToken> = Vec::new();
    let mut i: usize = 0;
    while i < n
        invariant
            spec_ascending_entries(m, entries@),
            n == entries@.len(),
            i <= n,
            first@.len() + second@.len() == i,
            forall|a: int|
                0 <= a < first@.len() ==> m.contains_pair(
                    (#[trigger] first@[a]).spec_position(),
                    first@[a].spec_node(),
                ),
            forall|a: int| 0 <= a < first@.len() ==> (#[trigger] first@[a]).spec_position() >= start,
            forall|a: int|
                0 <= a < first@.len() ==> exists|j: int|
                    0 <= j < i && (#[trigger] first@[a]).spec_position() == entries@[j].0,
            forall|a: int, b: int|
                0 <= a < b < first@.len() ==> (#[trigger] first@[a]).spec_position() < (
                #[trigger] first@[b]).spec_position(),
            forall|a: int|
                0 <= a < second@.len() ==> m.contains_pair(
                    (#[trigger] second@[a]).spec_position(),
                    second@[a].spec_node(),
                ),
            forall|a: int|
                0 <= a < second@.len() ==> (#[trigger] second@[a]).spec_position() < start,
            forall|a: int|
                0 <= a < second@.len() ==> exists|j: int|
                    0 <= j < i && (#[trigger] second@[a]).spec_position() == entries@[j].0,
            forall|a: int, b: int|
                0 <= a < b < second@.len() ==> (#[trigger] second@[a]).spec_position() < (
                #[trigger] second@[b]).spec_position(),
            forall|j: int|
                0 <= j < i ==> ((exists|a: int|
                    0 <= a < first@.len() && (#[trigger] first@[a]).spec_position() == (
                    #[trigger] entries@[j]).0) || (exists|a: int|
                    0 <= a < second@.len() && (#[trigger] second@[a]).spec_position()
                        == entries@[j].0)),
        decreases n - i,
    {
        let (p, v) = entries[i];
        let t = RingToken::new(p, v);
        if p >= start {
            proof {
                assert forall|a: int| 0 <= a < first@.len() implies (
                #[trigger] first@[a]).spec_position() < p by {
                    let j = choose|j: int|
                        0 <= j < i && (#[trigger] first@[a]).spec_position() == entries@[j].0;
                    assert(entries@[j].0 < entries@[i as int].0);
                }
            }
            let ghost pre = first@;
            first.push(t);
            proof {
                assert forall|j: int| 0 <= j < i + 1 implies ((exists|a: int|
                    0 <= a < first@.len() && (#[trigger] first@[a]).spec_position() == (
                    #[trigger] entries@[j]).0) || (exists|a: int|
                    0 <= a < second@.len() && (#[trigger] second@[a]).spec_position()
                        == entries@[j].0)) by {
                    if j == i {
                        assert((#[trigger] first@[pre.len() as int]).spec_position()
                            == entries@[j].0);
                    } else if exists|a: int|
                        0 <= a < pre.len() && (#[trigger] pre[a]).spec_position()
                            == entries@[j].0 {
                        let a = choose|a: int|
                            0 <= a < pre.len() && (#[trigger] pre[a]).spec_position()
                                == entries@[j].0;
                        assert((#[trigger] first@[a]).spec_position() == entries@[j].0);
                    }
                }
            }
        } else {
            proof {
                assert forall|a: int| 0 <= a < second@.len() implies (
                #[trigger] second@[a]).spec_position() < p by {
                    let j = choose|j: int|
                        0 <= j < i && (#[trigger] second@[a]).spec_position() == entries@[j].0;
                    assert(entries@[j].0 < entries@[i as int].0);
                }
            }
            let ghost pre = second@;
            second.push(t);
            proof {
                assert forall|j: int| 0 <= j < i + 1 implies ((exists|a: int|
                    0 <= a < first@.len() && (#[trigger] first@[a]).spec_position() == (
                    #[trigger] entries@[j]).0) || (exists|a: int|
                    0 <= a < second@.len() && (#[trigger] second@[a]).spec_position()
                        == entries@[j].0)) by {
                    if j == i {
                        assert((#[trigger] second@[pre.len() as int]).spec_position()
                            == entries@[j].0);
                    } else if exists|a: int|
                        0 <= a < pre.len() && (#[trigger] pre[a]).spec_position()
                            == entries@[j].0 {
                        let a = choose|a: int|
                            0 <= a < pre.len() && (#[trigger] pre[a]).spec_position()
                                == entries@[j].0;
                        assert((#[trigger] second@[a]).spec_position() == entries@[j].0);
                    }
                }
            }
        }
        i = i + 1;
    }
    let ghost gf = first@;
    let ghost gs = second@;
    let mut r = first;
    r.append(&mut second);
    proof {
        assert forall|k: u64| m.dom().contains(k) implies exists|idx: int|
            0 <= idx < r@.len() && (#[trigger] r@[idx]).spec_position() == k by {
            let j = choose|j: int| 0 <= j < entries@.len() && (#[trigger] entries@[j]).0 == k;
            if exists|a: int| 0 <= a < gf.len() && (#[trigger] gf[a]).spec_position() == k {
                let a = choose|a: int| 0 <= a < gf.len() && (#[trigger] gf[a]).spec_position() == k;
                assert(r@[a].spec_position() == k);
            } else {
                let a = choose|a: int|
                    0 <= a < gs.len() && (#[trigger] gs[a]).spec_position() == entries@[j].0;
                assert(r@[gf.len() + a].spec_position() == k);
            }
        }
        assert forall|ia: int, ib: int| 0 <= ia < ib < r@.len() implies dir_rank(
            RingDirection::Clockwise,
            start,
            (#[trigger] r@[ia]).spec_position(),
        ) < dir_rank(RingDirection::Clockwise, start, (#[trigger] r@[ib]).spec_position()) by {
            if ib < gf.len() {
                assert(gf[ia].spec_position() < gf[ib].spec_position());
            } else if ia >= gf.len() {
                assert(gs[ia - gf.len()].spec_position() < gs[ib - gf.len()].spec_position());
            } else {
                assert(gf[ia].spec_position() >= start);
                assert(gs[ib - gf.len()].spec_position() < start);
            }
        }
    }
    r
}

/// Lays the ascending entries out in counter-clockwise traversal order from
/// `start`: the entries at or before `start` in descending order, then the
/// entries after `start` in descending order, wrapped around.
#[verifier::rlimit(60)]
fn split_ccw(entries: &Vec<(u64, u64)>, Ghost(m): Ghost<Map<u64, u64>>, start: u64) -> (r: Vec<
    RingToken,
>)
    requires
        spec_ascending_entries(m, entries@),
    ensures
        spec_is_traversal(m, RingDirection::CounterClockwise, start, r@),
{
    let n = entries.len();
    let mut first: Vec<RingToken> = Vec::new();
    let mut second: Vec<RingToken> = Vec::new();
    let mut i: usize = 0;
    while i < n
        invariant
            spec_ascending_entries(m, entries@),
            n == entries@.len(),
            i <= n,
            first@.len() + second@.len() == i,
            forall|a: int|
                0 <= a < first@.len() ==> m.contains_pair(
                    (#[trigger] first@[a]).spec_position(),
                    first@[a].spec_node(),
                ),
            forall|a: int| 0 <= a < first@.len() ==> (#[trigger] first@[a]).spec_position() <= start,
            forall|a: int|
                0 <= a < first@.len() ==> exists|j: int|
                    n - i <= j < n && (#[trigger] first@[a]).spec_position() == entries@[j].0,
            forall|a: int, b: int|
                0 <= a < b < first@.len() ==> (#[trigger] first@[a]).spec_position() > (
                #[trigger] first@[b]).spec_position(),
            forall|a: int|
                0 <= a < second@.len() ==> m.contains_pair(
                    (#[trigger] second@[a]).spec_position(),
                    second@[a].spec_node(),
                ),
            forall|a: int|
                0 <= a < second@.len() ==> (#[trigger] second@[a]).spec_position() > start,
            forall|a: int|
                0 <= a < second@.len() ==> exists|j: int|
                    n - i <= j < n && (#[trigger] second@[a]).spec_position() == entries@[j].0,
            forall|a: int, b: int|
                0 <= a < b < second@.len() ==> (#[trigger] second@[a]).spec_position() > (
                #[trigger] second@[b]).spec_position(),
            forall|j: int|
                n - i <= j < n ==> ((exists|a: int|
                    0 <= a < first@.len() && (#[trigger] first@[a]).spec_position() == (
                    #[trigger] entries@[j]).0) || (exists|a: int|
                    0 <= a < second@.len() && (#[trigger] second@[a]).spec_position()
                        == entries@[j].0)),
        decreases n - i,
    {
        let idx = n - 1 - i;
        let (p, v) = entries[idx];
        let t = RingToken::new(p, v);
        if p <= start {
            proof {
                assert forall|a: int| 0 <= a < first@.len() implies (
                #[trigger] first@[a]).spec_position() > p by {
                    let j = choose|j: int|
                        n - i <= j < n && (#[trigger] first@[a]).spec_position() == entries@[j].0;
                    assert(entries@[j].0 > entries@[idx as int].0);
                }
            }
            let ghost pre = first@;
            first.push(t);
            proof {
                assert forall|j: int| idx <= j < n implies ((exists|a: int|
                    0 <= a < first@.len() && (#[trigger] first@[a]).spec_position() == (
                    #[trigger] entries@[j]).0) || (exists|a: int|
                    0 <= a < second@.len() && (#[trigger] second@[a]).spec_position()
                        == entries@[j].0)) by {
                    if j == idx {
                        assert((#[trigger] first@[pre.len() as int]).spec_position()
                            == entries@[j].0);
                    } else if exists|a: int|
                        0 <= a < pre.len() && (#[trigger] pre[a]).spec_position()
                            == entries@[j].0 {
                        let a = choose|a: int|
                            0 <= a < pre.len() && (#[trigger] pre[a]).spec_position()
                                == entries@[j].0;
                        assert((#[trigger] first@[a]).spec_position() == entries@[j].0);
                    }
                }
            }
        } else {
            proof {
                assert forall|a: int| 0 <= a < second@.len() implies (
                #[trigger] second@[a]).spec_position() > p by {
                    let j = choose|j: int|
                        n - i <= j < n && (#[trigger] second@[a]).spec_position() == entries@[j].0;
                    assert(entries@[j].0 > entries@[idx as int].0);
                }
            }
            let ghost pre = second@;
            second.push(t);
            proof {
                assert forall|j: int| idx <= j < n implies ((exists|a: int|
                    0 <= a < first@.len() && (#[trigger] first@[a]).spec_position() == (
                    #[trigger] entries@[j]).0) || (exists|a: int|
                    0 <= a < second@.len() && (#[trigger] second@[a]).spec_position()
                        == entries@[j].0)) by {
                    if j == idx {
                        assert((#[trigger] second@[pre.len() as int]).spec_position()
                            == entries@[j].0);
                    } else if exists|a: int|
                        0 <= a < pre.len() && (#[trigger] pre[a]).spec_position()
                            == entries@[j].0 {
                        let a = choose|a: int|
                            0 <= a < pre.len() && (#[trigger] pre[a]).spec_position()
                                == entries@[j].0;
                        assert((#[trigger] second@[a]).spec_position() == entries@[j].0);
                    }
                }
            }
        }
        i = i + 1;
    }
    let ghost gf = first@;
    let ghost gs = second@;
    let mut r = first;
    r.append(&mut second);
    proof {
        assert forall|k: u64| m.dom().contains(k) implies exists|idx: int|
            0 <= idx < r@.len() && (#[trigger] r@[idx]).spec_position() == k by {
            let j = choose|j: int| 0 <= j < entries@.len() && (#[trigger] entries@[j]).0 == k;
            if exists|a: int| 0 <= a < gf.len() && (#[trigger] gf[a]).spec_position() == k {
                let a = choose|a: int| 0 <= a < gf.len() && (#[trigger] gf[a]).spec_position() == k;
                assert(r@[a].spec_position() == k);
            } else {
                let a = choose|a: int|
                    0 <= a < gs.len() && (#[trigger] gs[a]).spec_position() == entries@[j].0;
                assert(r@[gf.len() + a].spec_position() == k);
            }
        }
        assert forall|ia: int, ib: int| 0 <= ia < ib < r@.len() implies dir_rank(
            RingDirection::CounterClockwise,
            start,
            (#[trigger] r@[ia]).spec_position(),
        ) < dir_rank(
            RingDirection::CounterClockwise,
            start,
            (#[trigger] r@[ib]).spec_position(),
        ) by {
            if ib < gf.len() {
                assert(gf[ia].spec_position() > gf[ib].spec_position());
            } else if ia >= gf.len() {
                assert(gs[ia - gf.len()].spec_position() > gs[ib - gf.len()].spec_position());
            } else {
                assert(gf[ia].spec_position() <= start);
                assert(gs[ib - gf.len()].spec_position() > start);
            }
        }
    }
    r
}

/// What the probe selection of a lookup promises, spelled out: exactly
/// `probe_count` probes are examined, the primary position is the owner of
/// the selected probe, the selected probe's wraparound distance to its owner
/// is minimal among all probes, and it is the first probe to attain that
/// distance. The selection is a function of the ring's entries, the key and
/// the seeds alone, so re-running the same lookup yields the same answer.
pub proof fn lemma_primary_selection_minimal<P: Partitioner>(ring: &HashRing<P>, key: Seq<u8>)
    requires
        ring.wf(),
    ensures
        ({
            let probes = ring.spec_probes(key);
            let sel = spec_selected_probe(ring@, probes, probes.len() as int);
            &&& probes.len() == ring.spec_probe_count()
            &&& 0 <= sel < probes.len()
            &&& ring.spec_primary_pos(key) == spec_owner_pos(ring@, probes[sel])
            &&& forall|i: int|
                0 <= i < probes.len() ==> spec_probe_distance(ring@, probes, sel)
                    <= #[trigger] spec_probe_distance(ring@, probes, i)
            &&& forall|i: int|
                0 <= i < sel ==> spec_probe_distance(ring@, probes, sel)
                    < #[trigger] spec_probe_distance(ring@, probes, i)
        }),
{
    let probes = ring.spec_probes(key);
    lemma_selected_probe_minimal(ring@, probes, probes.len() as int);
}

/// How membership changes resize the ring. Adding a node twice changes the
/// ring no more than adding it once, so the second addition leaves the size
/// unchanged; removing an occupied position removes exactly that one entry,
/// so the size shrinks by one; removing an unoccupied position changes
/// nothing. The maps here are ring views: `add`, `insert` and `remove`
/// change the view exactly by `insert` and `remove` at the node's position.
pub proof fn lemma_mutation_size(m: Map<u64, u64>, pos: u64, node: u64)
    requires
        m.dom().finite(),
    ensures
        m.insert(pos, node).insert(pos, node) == m.insert(pos, node),
        m.dom().contains(pos) ==> m.insert(pos, node).dom().len() == m.dom().len(),
        !m.dom().contains(pos) ==> m.insert(pos, node).dom().len() == m.dom().len() + 1,
        m.dom().contains(pos) ==> m.remove(pos).dom().len() == m.dom().len() - 1,
        !m.dom().contains(pos) ==> m.remove(pos) == m,
{
    assert(m.insert(pos, node).insert(pos, node) =~= m.insert(pos, node));
    assert(m.insert(pos, node).dom() =~= m.dom().insert(pos));
    assert(m.remove(pos).dom() =~= m.dom().remove(pos));
    vstd::set::axiom_set_insert_len(m.dom(), pos);
    vstd::set::axiom_set_remove_len(m.dom(), pos);
    if !m.dom().contains(pos) {
        assert(m.remove(pos) =~= m);
    }
}

impl HashRing<Xxh3Partitioner> {
    /// Creates a new hash ring with the default partitioner and probe count.
    pub fn new() -> (r: Self)
        ensures
            r.wf(),
            r@ == (Map::<u64, u64>::empty()),
            r.spec_probe_count() == DEFAULT_PROBE_COUNT,
    {
        HashRing {
            partitioner: Xxh3Partitioner::new(),
            positions: sk_new(),
            probe_count: DEFAULT_PROBE_COUNT,
        }
    }
}

impl Default for HashRing<Xxh3Partitioner> {
    fn default() -> (r: Self)
        ensures
            r.wf(),
            r@ == (Map::<u64, u64>::empty()),
            r.spec_probe_count() == DEFAULT_PROBE_COUNT,
    {
        Self::new()
    }
}

} // verus!
