//! The sessions of one torrent, keyed by peer id: adding a session, routing
//! messages to it, and choosing the session that takes a block request.
use crate::message::{MessageView, PeerMessage};
use crate::peer::{
    after_message, after_request, handle_outcome, request_ok, request_outcome, Action, Peer,
    PeerError, PeerView,
};
use vstd::prelude::*;

verus! {

/// The 20-byte id of a peer.
pub type PeerId = [u8; 20];

/// The mathematical value of a [`Connection`].
pub struct ConnectionView {
    pub info_hash: Seq<u8>,
    /// The ids of the sessions, in the order they were first added.
    pub ids: Seq<Seq<u8>>,
    /// The sessions, in the same order.
    pub peers: Seq<PeerView>,
}

/// The sessions of one torrent.
pub struct Connection {
    info_hash: [u8; 20],
    ids: Vec<PeerId>,
    peers: Vec<Peer>,
}

impl View for Connection {
    type V = ConnectionView;

    closed spec fn view(&self) -> ConnectionView {
        ConnectionView {
            info_hash: self.info_hash@,
            ids: Seq::new(self.ids@.len(), |i: int| self.ids@[i]@),
            peers: Seq::new(self.peers@.len(), |i: int| self.peers@[i]@),
        }
    }
}

/// A table is consistent when it has one session per id and no id twice.
pub open spec fn table_wf(c: ConnectionView) -> bool {
    &&& c.ids.len() == c.peers.len()
    &&& forall|i: int, j: int|
        0 <= i < c.ids.len() && 0 <= j < c.ids.len() && i != j ==> c.ids[i] != c.ids[j]
}

/// The sessions as a map from peer id to session.
pub open spec fn sessions(c: ConnectionView) -> Map<Seq<u8>, PeerView> {
    Map::new(
        |id: Seq<u8>| exists|i: int| 0 <= i < c.ids.len() && c.ids[i] == id,
        |id: Seq<u8>| c.peers[choose|i: int| 0 <= i < c.ids.len() && c.ids[i] == id],
    )
}

/// Whether session `i` is the first that can take a request for `block`.
pub open spec fn first_ready(c: ConnectionView, block: u32, i: int) -> bool {
    &&& 0 <= i < c.peers.len()
    &&& request_ok(c.peers[i], block)
    &&& forall|j: int| 0 <= j < i ==> !request_ok(#[trigger] c.peers[j], block)
}

/// Exactly one session is the first that can take a request when any can:
/// the one of lowest position among those that can; in particular the
/// first session whenever it can.
pub proof fn lemma_first_ready_unique(c: ConnectionView, block: u32, i: int, j: int)
    requires
        first_ready(c, block, i),
    ensures
        first_ready(c, block, j) ==> i == j,
        0 < c.peers.len() && request_ok(c.peers[0], block) ==> i == 0,
        forall|k: int| 0 <= k < i ==> !request_ok(#[trigger] c.peers[k], block),
{
    if first_ready(c, block, j) {
        if i < j {
            assert(!request_ok(c.peers[i], block));
        } else if j < i {
            assert(!request_ok(c.peers[j], block));
        }
    }
    if 0 < c.peers.len() && request_ok(c.peers[0], block) && i > 0 {
        assert(!request_ok(c.peers[0], block));
    }
}

/// In a consistent table, the session stored at a position is the one the
/// map gives for the id at that position.
pub proof fn lemma_sessions_at(c: ConnectionView, i: int)
    requires
        table_wf(c),
        0 <= i < c.ids.len(),
    ensures
        sessions(c).contains_key(c.ids[i]),
        sessions(c)[c.ids[i]] == c.peers[i],
{
    let id = c.ids[i];
    assert(exists|k: int| 0 <= k < c.ids.len() && c.ids[k] == id);
    let k = choose|k: int| 0 <= k < c.ids.len() && c.ids[k] == id;
    assert(k == i);
}

fn same_id(a: &PeerId, b: &PeerId) -> (r: bool)
    ensures
        r == (a@ == b@),
{
    let mut i: usize = 0;
    while i < 20
        invariant
            i <= 20,
            a@.len() == 20,
            b@.len() == 20,
            forall|j: int| 0 <= j < i ==> a@[j] == b@[j],
        decreases 20 - i,
    {
        if a[i] != b[i] {
            return false;
        }
        i = i + 1;
    }
    assert(a@ =~= b@);
    true
}

impl Connection {
    /// Whether the table is consistent; every table a connection reaches is.
    pub closed spec fn wf(&self) -> bool {
        &&& self.ids@.len() == self.peers@.len()
        &&& table_wf(self@)
    }

    /// A connection for the torrent of `info_hash`, with no session.
    pub fn new(info_hash: [u8; 20]) -> (r: Self)
        ensures
            r.wf(),
            r@.info_hash == info_hash@,
            r@.ids.len() == 0,
            r@.peers.len() == 0,
    {
        let r = Connection { info_hash, ids: Vec::new(), peers: Vec::new() };
        assert(r@.ids =~= Seq::<Seq<u8>>::empty());
        r
    }

    /// The info hash of the torrent.
    pub fn info_hash(&self) -> (r: [u8; 20])
        ensures
            r@ == self@.info_hash,
    {
        self.info_hash
    }

    /// How many sessions there are.
    pub fn len(&self) -> (r: usize)
        requires
            self.wf(),
        ensures
            r == self@.peers.len(),
    {
        self.peers.len()
    }

    /// The position of the session with peer id `id`.
    pub fn position(&self, id: &PeerId) -> (r: Option<usize>)
        requires
            self.wf(),
        ensures
            r matches Some(i) ==> i < self@.ids.len() && self@.ids[i as int] == id@,
            r is None ==> forall|i: int| 0 <= i < self@.ids.len() ==> self@.ids[i] != id@,
    {
        let mut i: usize = 0;
        while i < self.ids.len()
            invariant
                i <= self.ids@.len(),
                forall|j: int| 0 <= j < i ==> self.ids@[j]@ != id@,
            decreases self.ids@.len() - i,
        {
            if same_id(&self.ids[i], id) {
                return Some(i);
            }
            i = i + 1;
        }
        None
    }

    /// The session with peer id `id`, if any.
    pub fn peer(&self, id: &PeerId) -> (r: Option<&Peer>)
        requires
            self.wf(),
        ensures
            r matches Some(p) ==> sessions(self@).contains_key(id@) && p@ == sessions(
                self@,
            )[id@],
            r is None ==> !sessions(self@).contains_key(id@),
    {
        match self.position(id) {
            Some(i) => {
                proof {
                    self.lemma_lookup(i as int);
                }
                Some(&self.peers[i])
            },
            None => None,
        }
    }

    proof fn lemma_lookup(&self, i: int)
        requires
            self.wf(),
            0 <= i < self@.ids.len(),
        ensures
            sessions(self@).contains_key(self@.ids[i]),
            sessions(self@)[self@.ids[i]] == self@.peers[i],
    {
        lemma_sessions_at(self@, i);
    }

    /// Adds the session `peer` under `id`, replacing the session that had
    /// that id, if any.
    pub fn add_peer(&mut self, id: PeerId, peer: Peer)
        requires
            old(self).wf(),
        ensures
            final(self).wf(),
            final(self)@.info_hash == old(self)@.info_hash,
            sessions(final(self)@) == sessions(old(self)@).insert(id@, peer@),
    {
        let ghost old_v = self@;
        let ghost pv = peer@;
        match self.position(&id) {
            Some(i) => {
                self.peers.set(i, peer);
                proof {
                    let v = self@;
                    assert(v.ids =~= old_v.ids);
                    assert(v.peers =~= old_v.peers.update(i as int, pv));
                    self.lemma_sessions_update(old_v, i as int, pv);
                }
            },
            None => {
                self.ids.push(id);
                self.peers.push(peer);
                proof {
                    let v = self@;
                    let n = old_v.ids.len() as int;
                    assert(v.ids =~= old_v.ids.push(id@));
                    assert(v.peers =~= old_v.peers.push(pv));
                    assert(table_wf(v));
                    assert(sessions(v) =~= sessions(old_v).insert(id@, pv)) by {
                        assert forall|k: Seq<u8>| #[trigger]
                            sessions(v).contains_key(k) implies sessions(v)[k] == sessions(
                            old_v,
                        ).insert(id@, pv)[k] by {
                            let j = choose|j: int| 0 <= j < v.ids.len() && v.ids[j] == k;
                            self.lemma_lookup(j);
                            if j < n {
                                assert(exists|q: int|
                                    0 <= q < old_v.ids.len() && old_v.ids[q] == k);
                                let q = choose|q: int|
                                    0 <= q < old_v.ids.len() && old_v.ids[q] == k;
                                assert(q == j);
                            }
                        }
                        assert forall|k: Seq<u8>| #[trigger]
                            sessions(old_v).insert(id@, pv).contains_key(k) implies sessions(
                            v,
                        ).contains_key(k) by {
                            if k != id@ {
                                let q = choose|q: int|
                                    0 <= q < old_v.ids.len() && old_v.ids[q] == k;
                                assert(v.ids[q] == k);
                            } else {
                                assert(v.ids[n] == k);
                            }
                        }
                    }
                }
            },
        }
    }

    /// Asks the sessions in order for `length` bytes at `offset` of piece
    /// `block`; the first that can take the request counts it.  Returns
    /// that session's id with the message to send it, or `None`, changing
    /// nothing, when no session can take the request.
    pub fn download(&mut self, block: u32, offset: u32, length: u32) -> (r: Option<
        (PeerId, PeerMessage),
    >)
        requires
            old(self).wf(),
        ensures
            final(self).wf(),
            final(self)@.info_hash == old(self)@.info_hash,
            final(self)@.ids == old(self)@.ids,
            r is None <==> forall|i: int|
                0 <= i < old(self)@.peers.len() ==> !request_ok(#[trigger] old(self)@.peers[i], block),
            r is None ==> final(self)@.peers == old(self)@.peers,
            r matches Some((id, m)) ==> exists|i: int|
                #[trigger] first_ready(old(self)@, block, i) && id@ == old(self)@.ids[i] && m@
                    == (MessageView::Request { block, offset, length }) && final(self)@.peers == old(
                    self,
                )@.peers.update(i, after_request(old(self)@.peers[i], block)),
    {
        let ghost old_v = self@;
        let mut i: usize = 0;
        while i < self.peers.len()
            invariant
                i <= self.peers@.len(),
                self.wf(),
                self@ == old_v,
                old_v == old(self)@,
                forall|j: int| 0 <= j < i ==> !request_ok(#[trigger] old_v.peers[j], block),
            decreases self.peers@.len() - i,
        {
            let ghost before = self.peers@[i as int]@;
            let res = self.peers[i].request(block, offset, length);
            match res {
                Ok(m) => {
                    let id = self.ids[i];
                    proof {
                        let v = self@;
                        assert(v.peers =~= old_v.peers.update(
                            i as int,
                            after_request(old_v.peers[i as int], block),
                        ));
                        assert(v.ids =~= old_v.ids);
                        assert(first_ready(old_v, block, i as int));
                    }
                    return Some((id, m));
                },
                Err(_) => {
                    proof {
                        assert(self@.peers =~= old_v.peers);
                        assert(self@ == old_v);
                    }
                },
            }
            i = i + 1;
        }
        None
    }

    /// Asks the session of peer `id` for `length` bytes at `offset` of piece
    /// `block`, as [`Peer::request`] does; `None`, changing nothing, when no
    /// session has that id.
    pub fn request(&mut self, id: &PeerId, block: u32, offset: u32, length: u32) -> (r: Option<
        Result<PeerMessage, PeerError>,
    >)
        requires
            old(self).wf(),
        ensures
            final(self).wf(),
            final(self)@.info_hash == old(self)@.info_hash,
            final(self)@.ids == old(self)@.ids,
            r is None <==> !sessions(old(self)@).contains_key(id@),
            r is None ==> final(self)@ == old(self)@,
            r is Some ==> sessions(final(self)@) == sessions(old(self)@).insert(
                id@,
                after_request(sessions(old(self)@)[id@], block),
            ),
            r matches Some(res) ==> request_outcome(
                sessions(old(self)@)[id@],
                block,
                offset,
                length,
                res,
            ),
    {
        let ghost old_v = self@;
        match self.position(id) {
            Some(i) => {
                proof {
                    self.lemma_lookup(i as int);
                }
                let res = self.peers[i].request(block, offset, length);
                proof {
                    let v = self@;
                    let nv = after_request(old_v.peers[i as int], block);
                    assert(v.ids =~= old_v.ids);
                    assert(v.peers =~= old_v.peers.update(i as int, nv));
                    self.lemma_sessions_update(old_v, i as int, nv);
                }
                Some(res)
            },
            None => {
                proof {
                    if sessions(old_v).contains_key(id@) {
                        let q = choose|q: int| 0 <= q < old_v.ids.len() && old_v.ids[q] == id@;
                        assert(old_v.ids[q] != id@);
                    }
                }
                None
            },
        }
    }

    proof fn lemma_sessions_update(&self, old_v: ConnectionView, i: int, nv: PeerView)
        requires
            self.wf(),
            table_wf(old_v),
            0 <= i < old_v.ids.len(),
            self@.ids == old_v.ids,
            self@.peers == old_v.peers.update(i, nv),
        ensures
            sessions(self@) == sessions(old_v).insert(old_v.ids[i], nv),
    {
        let v = self@;
        let id = old_v.ids[i];
        assert(sessions(v) =~= sessions(old_v).insert(id, nv)) by {
            assert forall|k: Seq<u8>| #[trigger]
                sessions(v).contains_key(k) implies sessions(v)[k] == sessions(old_v).insert(
                id,
                nv,
            )[k] by {
                let j = choose|j: int| 0 <= j < v.ids.len() && v.ids[j] == k;
                self.lemma_lookup(j);
                assert(exists|q: int| 0 <= q < old_v.ids.len() && old_v.ids[q] == k);
                let q = choose|q: int| 0 <= q < old_v.ids.len() && old_v.ids[q] == k;
                assert(q == j);
            }
            assert forall|k: Seq<u8>| #[trigger]
                sessions(old_v).insert(id, nv).contains_key(k) implies sessions(v).contains_key(
                k,
            ) by {
                if k != id {
                    let q = choose|q: int| 0 <= q < old_v.ids.len() && old_v.ids[q] == k;
                    assert(v.ids[q] == k);
                } else {
                    assert(v.ids[i] == k);
                }
            }
        }
    }

    /// Hands message `msg` of peer `id` to its session; `None`, changing
    /// nothing, when no session has that id.
    pub fn handle(&mut self, id: &PeerId, msg: PeerMessage) -> (r: Option<Result<Action, PeerError>>)
        requires
            old(self).wf(),
            !(msg is Port),
        ensures
            final(self).wf(),
            final(self)@.info_hash == old(self)@.info_hash,
            final(self)@.ids == old(self)@.ids,
            r is None <==> !sessions(old(self)@).contains_key(id@),
            r is None ==> final(self)@ == old(self)@,
            r matches Some(Ok(_)) ==> sessions(final(self)@) == sessions(old(self)@).insert(
                id@,
                after_message(sessions(old(self)@)[id@], msg@),
            ),
            r matches Some(Err(_)) ==> final(self)@ == old(self)@,
            r matches Some(res) ==> handle_outcome(sessions(old(self)@)[id@], msg, res),
    {
        let ghost old_v = self@;
        match self.position(id) {
            Some(i) => {
                proof {
                    self.lemma_lookup(i as int);
                }
                let res = self.peers[i].handle(msg);
                proof {
                    let v = self@;
                    assert(v.ids =~= old_v.ids);
                    if res is Ok {
                        let nv = after_message(old_v.peers[i as int], msg@);
                        assert(v.peers =~= old_v.peers.update(i as int, nv));
                        self.lemma_sessions_update(old_v, i as int, nv);
                    } else {
                        assert(v.peers =~= old_v.peers);
                    }
                }
                Some(res)
            },
            None => {
                proof {
                    if sessions(old_v).contains_key(id@) {
                        let q = choose|q: int| 0 <= q < old_v.ids.len() && old_v.ids[q] == id@;
                        assert(old_v.ids[q] != id@);
                    }
                }
                None
            },
        }
    }
}

} // verus!
