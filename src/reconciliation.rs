use vstd::prelude::*;
use crate::bytes::bytes_equal;
use crate::external::{blake2b_256, blake2b_digest};
use crate::ids::ImageId;
use crate::metadata::{Accept, AppendDir, ReplaceDir, Upload};
use crate::signatures::SignatureEntry;
use crate::vpath::{VPath, copy_bytes, valid_segment};

verus! {

/// What a peer reports of one image directory under a base directory.
#[derive(Debug, Clone)]
pub struct SubdirState {
    pub image: ImageId,
    /// Ascending in the entry order; the last is the newest.
    pub signatures: Vec<SignatureEntry>,
}

/// A peer to ask: its address and machine id.
#[derive(Debug, Clone)]
pub struct Peer {
    pub addr: Vec<u8>,
    pub machine_id: Vec<u8>,
}

impl View for Peer {
    type V = (Seq<u8>, Seq<u8>);

    open spec fn view(&self) -> (Seq<u8>, Seq<u8>) {
        (self.addr@, self.machine_id@)
    }
}

/// An announcement that a peer's base directory at `path` has state hash
/// `hash`.
#[derive(Debug, Clone)]
pub struct ReconPush {
    pub path: VPath,
    pub hash: crate::ids::Hash,
    pub initial_addr: Vec<u8>,
    pub initial_machine_id: Vec<u8>,
}

/// A request that reconciliation issues for one image directory.
#[derive(Debug, Clone)]
pub enum Request {
    Append(AppendDir),
    Replace(ReplaceDir),
}

/// The mathematical value of a planned request.
pub struct RequestView {
    pub replace: bool,
    pub path: Seq<Seq<u8>>,
    pub image: Seq<u8>,
    pub old_image: Option<Seq<u8>>,
    pub timestamp: u64,
    pub signatures: Seq<Seq<u8>>,
}

pub open spec fn request_view(r: Request) -> RequestView {
    match r {
        Request::Append(a) => RequestView {
            replace: false,
            path: a.path@,
            image: a.image@,
            old_image: None,
            timestamp: a.timestamp,
            signatures: a.signatures@.map_values(|s: Vec<u8>| s@),
        },
        Request::Replace(p) => RequestView {
            replace: true,
            path: p.path@,
            image: p.image@,
            old_image: match p.old_image {
                Some(i) => Some(i@),
                None => None,
            },
            timestamp: p.timestamp,
            signatures: p.signatures@.map_values(|s: Vec<u8>| s@),
        },
    }
}

/// The image held locally under `name`, first match.
pub open spec fn local_image(local: Seq<(Vec<u8>, ImageId)>, name: Seq<u8>) -> Option<Seq<u8>>
    decreases local.len(),
{
    if local.len() == 0 {
        None
    } else if local[0].0@ == name {
        Some(local[0].1@)
    } else {
        local_image(local.drop_first(), name)
    }
}

/// The request for one remote image directory: a replace where the name is
/// held locally, an append where not, signed with the newest signature
/// alone; none where the name is no valid segment or nothing is signed.
pub open spec fn request_for(
    base: Seq<Seq<u8>>,
    name: Seq<u8>,
    remote: SubdirState,
    local: Seq<(Vec<u8>, ImageId)>,
) -> Option<RequestView> {
    if !valid_segment(name) || remote.signatures@.len() == 0 {
        None
    } else {
        let sig = remote.signatures@.last();
        Some(
            RequestView {
                replace: local_image(local, name) is Some,
                path: base.push(name),
                image: remote.image@,
                old_image: local_image(local, name),
                timestamp: sig.timestamp,
                signatures: seq![sig.signature@],
            },
        )
    }
}

/// The requests for the remote directories, in order.
pub open spec fn planned(
    base: Seq<Seq<u8>>,
    remote: Seq<(Vec<u8>, SubdirState)>,
    local: Seq<(Vec<u8>, ImageId)>,
) -> Seq<RequestView>
    decreases remote.len(),
{
    if remote.len() == 0 {
        Seq::empty()
    } else {
        let rest = planned(base, remote.drop_last(), local);
        match request_for(base, remote.last().0@, remote.last().1, local) {
            Some(r) => rest.push(r),
            None => rest,
        }
    }
}

fn find_local(local: &Vec<(Vec<u8>, ImageId)>, name: &[u8]) -> (r: Option<ImageId>)
    ensures
        match r {
            Some(i) => local_image(local@, name@) == Some(i@),
            None => local_image(local@, name@) is None,
        },
{
    let mut i: usize = 0;
    assert(local@.subrange(0, local@.len() as int) =~= local@);
    while i < local.len()
        invariant
            0 <= i <= local@.len(),
            local_image(local@, name@) == local_image(local@.subrange(i as int, local@.len() as int), name@),
        decreases local@.len() - i,
    {
        let ghost rest = local@.subrange(i as int, local@.len() as int);
        assert(rest[0] == local@[i as int]);
        assert(rest.drop_first() =~= local@.subrange(i + 1, local@.len() as int));
        if bytes_equal(local[i].0.as_slice(), name) {
            return Some(local[i].1.copy());
        }
        i = i + 1;
    }
    None
}

/// The append or replace requests that bring the base directory `base`
/// toward what a peer reported (`remote`), given the images held locally.
pub fn plan_requests(base: &VPath, remote: &Vec<(Vec<u8>, SubdirState)>, local: &Vec<(Vec<u8>, ImageId)>) -> (r:
    Vec<Request>)
    requires
        base.wf(),
    ensures
        r@.map_values(|q: Request| request_view(q)) == planned(base@, remote@, local@),
{
    let mut out: Vec<Request> = Vec::new();
    let mut k: usize = 0;
    assert(remote@.subrange(0, 0) =~= Seq::<(Vec<u8>, SubdirState)>::empty());
    while k < remote.len()
        invariant
            base.wf(),
            0 <= k <= remote@.len(),
            out@.map_values(|q: Request| request_view(q)) == planned(
                base@,
                remote@.subrange(0, k as int),
                local@,
            ),
        decreases remote@.len() - k,
    {
        let ghost pre = remote@.subrange(0, k + 1);
        assert(pre.drop_last() =~= remote@.subrange(0, k as int));
        assert(pre.last() == remote@[k as int]);
        let name = remote[k].0.as_slice();
        let state = &remote[k].1;
        let n = state.signatures.len();
        if n > 0 {
            if let Some(path) = base.join(name) {
                let sig = &state.signatures[n - 1];
                let sigs: Vec<Vec<u8>> = vec![copy_bytes(sig.signature.as_slice())];
                assert(sigs@.map_values(|s: Vec<u8>| s@) =~= seq![sig.signature@]);
                let req = match find_local(local, name) {
                    Some(old) => Request::Replace(
                        ReplaceDir {
                            path,
                            image: state.image.copy(),
                            old_image: Some(old),
                            timestamp: sig.timestamp,
                            signatures: sigs,
                        },
                    ),
                    None => Request::Append(
                        AppendDir {
                            path,
                            image: state.image.copy(),
                            timestamp: sig.timestamp,
                            signatures: sigs,
                        },
                    ),
                };
                let ghost before = out@;
                out.push(req);
                assert(out@ == before.push(req));
                assert(out@.map_values(|q: Request| request_view(q)) =~= before.map_values(
                    |q: Request| request_view(q),
                ).push(request_view(req)));
            }
        }
        k = k + 1;
    }
    assert(remote@.subrange(0, remote@.len() as int) =~= remote@);
    out
}

/// Whether an answer to a reconciliation request calls for fetching the
/// image: only a newly started admission does.
pub fn should_fetch(answer: Upload) -> (r: bool)
    ensures
        r == (answer == Upload::Accepted(Accept::New)),
{
    match answer {
        Upload::Accepted(Accept::New) => true,
        _ => false,
    }
}

pub type PeerV = (Seq<u8>, Seq<u8>);

pub open spec fn peers_view(s: Seq<Peer>) -> Seq<PeerV> {
    s.map_values(|p: Peer| p@)
}

/// `s` without the entries equal to `failed`, in order.
pub open spec fn without(s: Seq<PeerV>, failed: PeerV) -> Seq<PeerV>
    decreases s.len(),
{
    if s.len() == 0 {
        s
    } else {
        let r = without(s.drop_last(), failed);
        if s.last() != failed {
            r.push(s.last())
        } else {
            r
        }
    }
}

fn copy_peer(p: &Peer) -> (r: Peer)
    ensures
        r@ == p@,
{
    Peer { addr: copy_bytes(p.addr.as_slice()), machine_id: copy_bytes(p.machine_id.as_slice()) }
}

/// Drops `failed` from the candidate peers and takes the next one to ask,
/// if any is left.
pub fn next_candidate(candidates: &mut Vec<Peer>, failed: &Peer) -> (r: Option<Peer>)
    ensures
        ({
            let rest = without(peers_view(old(candidates)@), failed@);
            match r {
                Some(p) => rest.len() > 0 && p@ == rest[0] && peers_view(final(candidates)@)
                    == rest.drop_first(),
                None => rest.len() == 0 && peers_view(final(candidates)@) == rest,
            }
        }),
{
    let ghost start = peers_view(candidates@);
    let mut kept: Vec<Peer> = Vec::new();
    let mut i: usize = 0;
    assert(start.subrange(0, 0) =~= Seq::<PeerV>::empty());
    while i < candidates.len()
        invariant
            start == peers_view(candidates@),
            0 <= i <= start.len(),
            peers_view(kept@) == without(start.subrange(0, i as int), failed@),
        decreases start.len() - i,
    {
        let ghost pre = start.subrange(0, i + 1);
        assert(pre.drop_last() =~= start.subrange(0, i as int));
        assert(pre.last() == start[i as int]);
        assert(start[i as int] == candidates@[i as int]@);
        let same = bytes_equal(candidates[i].addr.as_slice(), failed.addr.as_slice()) && bytes_equal(
            candidates[i].machine_id.as_slice(),
            failed.machine_id.as_slice(),
        );
        if !same {
            let c = copy_peer(&candidates[i]);
            let ghost before = kept@;
            kept.push(c);
            assert(kept@ == before.push(c));
            assert(peers_view(kept@) =~= peers_view(before).push(c@));
        }
        i = i + 1;
    }
    assert(start.subrange(0, start.len() as int) =~= start);
    if kept.len() == 0 {
        *candidates = kept;
        None
    } else {
        let ghost all = kept@;
        let first = kept.remove(0);
        assert(peers_view(kept@) =~= peers_view(all).drop_first());
        *candidates = kept;
        Some(first)
    }
}

/// A base directory being reconciled toward an announced hash.
pub type PairV = (Seq<Seq<u8>>, Seq<u8>);

/// `s` with `p` added at the end, unless it is already there.
pub open spec fn add_peer(s: Seq<PeerV>, p: PeerV) -> Seq<PeerV> {
    if s.contains(p) {
        s
    } else {
        s.push(p)
    }
}

fn same_peer(a: &Peer, b: &Peer) -> (r: bool)
    ensures
        r == (a@ == b@),
{
    bytes_equal(a.addr.as_slice(), b.addr.as_slice()) && bytes_equal(
        a.machine_id.as_slice(),
        b.machine_id.as_slice(),
    )
}

fn push_peer(peers: &mut Vec<Peer>, p: &Peer)
    ensures
        peers_view(final(peers)@) == add_peer(peers_view(old(peers)@), p@),
{
    let ghost start = peers_view(peers@);
    let mut i: usize = 0;
    while i < peers.len()
        invariant
            start == peers_view(peers@),
            start == peers_view(old(peers)@),
            0 <= i <= start.len(),
            forall|j: int| 0 <= j < i ==> start[j] != p@,
        decreases start.len() - i,
    {
        assert(start[i as int] == peers@[i as int]@);
        if same_peer(&peers[i], p) {
            assert(start.contains(p@));
            return;
        }
        i = i + 1;
    }
    let c = copy_peer(p);
    let ghost before = peers@;
    peers.push(c);
    assert(peers@ == before.push(c));
    assert(peers_view(peers@) =~= peers_view(before).push(c@));
}

/// The base directories under reconciliation, each with the further peers
/// that announced the same hash for it.
pub struct Reconciling {
    entries: Vec<(VPath, crate::ids::Hash, Vec<Peer>)>,
    model: Ghost<Map<PairV, Seq<PeerV>>>,
}

impl Reconciling {
    /// The candidate peers of each (path, hash) under reconciliation.
    pub closed spec fn view(&self) -> Map<PairV, Seq<PeerV>> {
        self.model@
    }

    pub closed spec fn key_at(&self, i: int) -> PairV {
        (self.entries@[i].0@, self.entries@[i].1@)
    }

    pub closed spec fn wf(&self) -> bool {
        let e = self.entries@;
        &&& forall|i: int, j: int| 0 <= i < j < e.len() ==> self.key_at(i) != self.key_at(j)
        &&& forall|i: int|
            0 <= i < e.len() ==> self.model@.contains_key(#[trigger] self.key_at(i)) && self.model@[self.key_at(
                i,
            )] == peers_view(e[i].2@)
        &&& forall|k: PairV|
            #[trigger] self.model@.contains_key(k) ==> exists|i: int| 0 <= i < e.len() && #[trigger] self.key_at(i) == k
    }

    pub fn new() -> (r: Reconciling)
        ensures
            r.wf(),
            r.view() == Map::<PairV, Seq<PeerV>>::empty(),
    {
        Reconciling { entries: Vec::new(), model: Ghost(Map::empty()) }
    }

    fn find(&self, path: &VPath, hash: &crate::ids::Hash) -> (r: Option<usize>)
        requires
            self.wf(),
        ensures
            match r {
                Some(i) => i < self.entries@.len() && self.key_at(i as int) == (path@, hash@)
                    && self.view().contains_key((path@, hash@)),
                None => !self.view().contains_key((path@, hash@)),
            },
    {
        let mut i: usize = 0;
        while i < self.entries.len()
            invariant
                self.wf(),
                0 <= i <= self.entries@.len(),
                forall|j: int| 0 <= j < i ==> #[trigger] self.key_at(j) != (path@, hash@),
            decreases self.entries@.len() - i,
        {
            if self.entries[i].0.same_path(path) && self.entries[i].1.same(hash) {
                return Some(i);
            }
            i = i + 1;
        }
        None
    }

    fn take_entry(&mut self, i: usize) -> (r: (VPath, crate::ids::Hash, Vec<Peer>))
        requires
            old(self).wf(),
            i < old(self).entries@.len(),
        ensures
            final(self).wf(),
            (r.0@, r.1@) == old(self).key_at(i as int),
            peers_view(r.2@) == old(self).view()[old(self).key_at(i as int)],
            final(self).view() == old(self).view().remove(old(self).key_at(i as int)),
    {
        let ghost old_e = self.entries@;
        let ghost key = self.key_at(i as int);
        let ghost old_self = *self;
        let r = self.entries.remove(i);
        self.model = Ghost(self.model@.remove(key));
        assert forall|a: int| 0 <= a < self.entries@.len() implies self.key_at(a) == (if a < i {
            old_self.key_at(a)
        } else {
            old_self.key_at(a + 1)
        }) && self.entries@[a] == (if a < i {
            old_e[a]
        } else {
            old_e[a + 1]
        }) by {}
        assert forall|k: PairV| #[trigger] self.model@.contains_key(k) implies exists|j: int|
            0 <= j < self.entries@.len() && #[trigger] self.key_at(j) == k by {
            let j = choose|j: int| 0 <= j < old_e.len() && #[trigger] old_self.key_at(j) == k;
            if j < i {
                assert(self.key_at(j) == k);
            } else {
                assert(j != i);
                assert(self.key_at(j - 1) == k);
            }
        }
        assert forall|a: int, b: int| 0 <= a < b < self.entries@.len() implies self.key_at(a) != self.key_at(b) by {
            if a < i && b >= i {
                assert(old_self.key_at(a) != old_self.key_at(b + 1));
            } else if a >= i {
                assert(old_self.key_at(a + 1) != old_self.key_at(b + 1));
            } else {
                assert(old_self.key_at(a) != old_self.key_at(b));
            }
        }
        r
    }

    fn put_entry(&mut self, path: VPath, hash: crate::ids::Hash, peers: Vec<Peer>)
        requires
            old(self).wf(),
            !old(self).view().contains_key((path@, hash@)),
        ensures
            final(self).wf(),
            final(self).view() == old(self).view().insert((path@, hash@), peers_view(peers@)),
    {
        let ghost old_e = self.entries@;
        let ghost old_self = *self;
        let ghost key = (path@, hash@);
        let ghost pv = peers_view(peers@);
        self.entries.push((path, hash, peers));
        self.model = Ghost(self.model@.insert(key, pv));
        assert forall|a: int| 0 <= a < old_e.len() implies self.key_at(a) == old_self.key_at(a)
            && self.entries@[a] == old_e[a] by {}
        assert(self.key_at(old_e.len() as int) == key);
        assert forall|k: PairV| #[trigger] self.model@.contains_key(k) implies exists|j: int|
            0 <= j < self.entries@.len() && #[trigger] self.key_at(j) == k by {
            if k == key {
                assert(self.key_at(old_e.len() as int) == k);
            } else {
                let j = choose|j: int| 0 <= j < old_e.len() && #[trigger] old_self.key_at(j) == k;
                assert(self.key_at(j) == k);
            }
        }
    }

    /// Records an announcement of `hash` for `path` by `peer`. Returns true
    /// where no reconciliation of the pair runs: one starts, asking `peer`
    /// first, with no further candidates. Otherwise `peer` joins the
    /// candidates of the running one.
    pub fn register(&mut self, path: &VPath, hash: &crate::ids::Hash, peer: &Peer) -> (r: bool)
        requires
            old(self).wf(),
        ensures
            final(self).wf(),
            r == !old(self).view().contains_key((path@, hash@)),
            final(self).view() == if r {
                old(self).view().insert((path@, hash@), Seq::empty())
            } else {
                old(self).view().insert((path@, hash@), add_peer(old(self).view()[(path@, hash@)], peer@))
            },
    {
        match self.find(path, hash) {
            Some(i) => {
                let ghost before = self.view();
                let (p, h, mut peers) = self.take_entry(i);
                push_peer(&mut peers, peer);
                self.put_entry(p, h, peers);
                assert(self.view() =~= before.insert((path@, hash@), add_peer(before[(path@, hash@)], peer@)));
                false
            },
            None => {
                let peers: Vec<Peer> = Vec::new();
                assert(peers_view(peers@) =~= Seq::<PeerV>::empty());
                self.put_entry(path.copy(), crate::ids::Hash { bytes: copy_bytes(hash.bytes.as_slice()) }, peers);
                true
            },
        }
    }

    /// After `failed` gave no matching state, drops it from the candidates
    /// of `(path, hash)` and takes the next one to ask, if any.
    pub fn next_candidate(&mut self, path: &VPath, hash: &crate::ids::Hash, failed: &Peer) -> (r: Option<Peer>)
        requires
            old(self).wf(),
        ensures
            final(self).wf(),
            !old(self).view().contains_key((path@, hash@)) ==> r is None && final(self).view() == old(self).view(),
            old(self).view().contains_key((path@, hash@)) ==> ({
                let rest = without(old(self).view()[(path@, hash@)], failed@);
                match r {
                    Some(p) => rest.len() > 0 && p@ == rest[0] && final(self).view() == old(self).view().insert(
                        (path@, hash@),
                        rest.drop_first(),
                    ),
                    None => rest.len() == 0 && final(self).view() == old(self).view().insert((path@, hash@), rest),
                }
            }),
    {
        match self.find(path, hash) {
            None => None,
            Some(i) => {
                let ghost before = self.view();
                let (p, h, mut peers) = self.take_entry(i);
                let r = next_candidate(&mut peers, failed);
                let ghost now = peers_view(peers@);
                self.put_entry(p, h, peers);
                assert(self.view() =~= before.insert((path@, hash@), now));
                r
            },
        }
    }

    /// Ends the reconciliation of `(path, hash)`; returns whether it ran.
    pub fn finish(&mut self, path: &VPath, hash: &crate::ids::Hash) -> (r: bool)
        requires
            old(self).wf(),
        ensures
            final(self).wf(),
            r == old(self).view().contains_key((path@, hash@)),
            final(self).view() == old(self).view().remove((path@, hash@)),
    {
        match self.find(path, hash) {
            None => {
                assert(self.view().remove((path@, hash@)) =~= self.view());
                false
            },
            Some(i) => {
                let _ = self.take_entry(i);
                true
            },
        }
    }
}

/// The digest by which peers compare base directory states, over the
/// state's canonical encoding.
pub fn state_hash(encoded: &[u8]) -> (r: crate::ids::Hash)
    ensures
        r@ == blake2b_256(encoded@),
{
    crate::ids::Hash { bytes: blake2b_digest(encoded) }
}

/// Whether a peer's reported state, in its canonical encoding, has the
/// announced hash.
pub fn hash_matches(encoded: &[u8], expected: &crate::ids::Hash) -> (r: bool)
    ensures
        r == (blake2b_256(encoded@) == expected@),
{
    let h = state_hash(encoded);
    h.same(expected)
}

/// Equal encodings give equal state hashes, so equal replies of peers get
/// the same verdict against an announced hash.
pub proof fn lemma_state_hash_deterministic(a: Seq<u8>, b: Seq<u8>, announced: Seq<u8>)
    requires
        a == b,
    ensures
        blake2b_256(a) == blake2b_256(b),
        (blake2b_256(a) == announced) == (blake2b_256(b) == announced),
{
}

} // verus!
