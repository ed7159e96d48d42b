use vstd::prelude::*;
use crate::table::ByteMap;

verus! {

/// A peer reports that it holds the image.
#[derive(Debug, Clone)]
pub struct ReceivedImage {
    pub machine_id: Vec<u8>,
    pub hostname: Vec<u8>,
    /// Relayed by another peer rather than sent by the one that holds it.
    pub forwarded: bool,
}

/// A peer reports that it gave the image up.
#[derive(Debug, Clone)]
pub struct AbortedImage {
    pub machine_id: Vec<u8>,
    pub hostname: Vec<u8>,
    pub forwarded: bool,
    pub reason: Vec<u8>,
}

/// The upload completed.
#[derive(Debug, Clone, Copy, PartialEq, Eq, Structural)]
pub struct UploadOk {}

/// Why an upload failed.
#[derive(Debug, Clone, Copy, PartialEq, Eq, Structural)]
pub enum ErrorKind {
    Rejected,
}

/// The reason recorded for a rejection that gave none.
pub open spec fn unknown_reason() -> Seq<u8> {
    seq![0x75u8, 0x6e, 0x6b, 0x6e, 0x6f, 0x77, 0x6e]
}

fn unknown() -> (r: Vec<u8>)
    ensures
        r@ == unknown_reason(),
{
    let r: Vec<u8> = vec![0x75u8, 0x6e, 0x6b, 0x6e, 0x6f, 0x77, 0x6e];
    assert(r@ =~= unknown_reason());
    r
}

/// Current upload statistics: which peers accepted, finished, gave up or
/// rejected the upload, and how many distinct peers answered.
pub struct Stats {
    accepted_ips: ByteMap,
    done_ips: ByteMap,
    done_ids: ByteMap,
    done_hostnames: ByteMap,
    aborted_ips: ByteMap,
    aborted_ids: ByteMap,
    aborted_hostnames: ByteMap,
    rejected_ips: ByteMap,
    total_responses: u64,
}

impl Stats {
    pub closed spec fn wf(&self) -> bool {
        &&& self.accepted_ips.wf()
        &&& self.done_ips.wf()
        &&& self.done_ids.wf()
        &&& self.done_hostnames.wf()
        &&& self.aborted_ips.wf()
        &&& self.aborted_ids.wf()
        &&& self.aborted_hostnames.wf()
        &&& self.rejected_ips.wf()
    }

    /// Peers that accepted the upload.
    pub closed spec fn accepted(&self) -> Set<Seq<u8>> {
        self.accepted_ips.view().dom()
    }

    /// Peers that hold the image, by address (only direct reports).
    pub closed spec fn done_addrs(&self) -> Set<Seq<u8>> {
        self.done_ips.view().dom()
    }

    pub closed spec fn done_machines(&self) -> Set<Seq<u8>> {
        self.done_ids.view().dom()
    }

    pub closed spec fn done_hosts(&self) -> Set<Seq<u8>> {
        self.done_hostnames.view().dom()
    }

    /// Peers that gave the image up, by address, with the reason.
    pub closed spec fn aborted_addrs(&self) -> Map<Seq<u8>, Seq<u8>> {
        self.aborted_ips.view()
    }

    pub closed spec fn aborted_machines(&self) -> Map<Seq<u8>, Seq<u8>> {
        self.aborted_ids.view()
    }

    pub closed spec fn aborted_hosts(&self) -> Map<Seq<u8>, Seq<u8>> {
        self.aborted_hostnames.view()
    }

    /// Peers that rejected the upload, with the reason.
    pub closed spec fn rejected(&self) -> Map<Seq<u8>, Seq<u8>> {
        self.rejected_ips.view()
    }

    /// The count of responses, each peer counted once per kind.
    pub closed spec fn responses(&self) -> u64 {
        self.total_responses
    }

    pub fn new() -> (r: Stats)
        ensures
            r.wf(),
            r.accepted() == Set::<Seq<u8>>::empty(),
            r.done_addrs() == Set::<Seq<u8>>::empty(),
            r.done_machines() == Set::<Seq<u8>>::empty(),
            r.done_hosts() == Set::<Seq<u8>>::empty(),
            r.aborted_addrs() == Map::<Seq<u8>, Seq<u8>>::empty(),
            r.aborted_machines() == Map::<Seq<u8>, Seq<u8>>::empty(),
            r.aborted_hosts() == Map::<Seq<u8>, Seq<u8>>::empty(),
            r.rejected() == Map::<Seq<u8>, Seq<u8>>::empty(),
            r.responses() == 0,
    {
        Stats {
            accepted_ips: ByteMap::new(),
            done_ips: ByteMap::new(),
            done_ids: ByteMap::new(),
            done_hostnames: ByteMap::new(),
            aborted_ips: ByteMap::new(),
            aborted_ids: ByteMap::new(),
            aborted_hostnames: ByteMap::new(),
            rejected_ips: ByteMap::new(),
            total_responses: 0,
        }
    }

    /// Records that a peer holds the image; a forwarded report does not
    /// count the address it came from.
    pub fn received_image(&mut self, addr: &[u8], info: &ReceivedImage)
        requires
            old(self).wf(),
        ensures
            final(self).wf(),
            final(self).done_addrs() == if info.forwarded {
                old(self).done_addrs()
            } else {
                old(self).done_addrs().insert(addr@)
            },
            final(self).done_machines() == old(self).done_machines().insert(info.machine_id@),
            final(self).done_hosts() == old(self).done_hosts().insert(info.hostname@),
            final(self).accepted() == old(self).accepted(),
            final(self).rejected() == old(self).rejected(),
            final(self).aborted_addrs() == old(self).aborted_addrs(),
            final(self).aborted_machines() == old(self).aborted_machines(),
            final(self).aborted_hosts() == old(self).aborted_hosts(),
            final(self).responses() == old(self).responses(),
    {
        if !info.forwarded {
            self.done_ips.insert(crate::vpath::copy_bytes(addr), Vec::new());
        }
        self.done_ids.insert(crate::vpath::copy_bytes(info.machine_id.as_slice()), Vec::new());
        self.done_hostnames.insert(crate::vpath::copy_bytes(info.hostname.as_slice()), Vec::new());
    }

    /// Records that a peer gave the image up, with its reason.
    pub fn aborted_image(&mut self, addr: &[u8], info: &AbortedImage)
        requires
            old(self).wf(),
        ensures
            final(self).wf(),
            final(self).aborted_addrs() == if info.forwarded {
                old(self).aborted_addrs()
            } else {
                old(self).aborted_addrs().insert(addr@, info.reason@)
            },
            final(self).aborted_machines() == old(self).aborted_machines().insert(
                info.machine_id@,
                info.reason@,
            ),
            final(self).aborted_hosts() == old(self).aborted_hosts().insert(info.hostname@, info.reason@),
            final(self).accepted() == old(self).accepted(),
            final(self).rejected() == old(self).rejected(),
            final(self).done_addrs() == old(self).done_addrs(),
            final(self).done_machines() == old(self).done_machines(),
            final(self).done_hosts() == old(self).done_hosts(),
            final(self).responses() == old(self).responses(),
    {
        let reason = info.reason.as_slice();
        if !info.forwarded {
            self.aborted_ips.insert(crate::vpath::copy_bytes(addr), crate::vpath::copy_bytes(reason));
        }
        self.aborted_ids.insert(
            crate::vpath::copy_bytes(info.machine_id.as_slice()),
            crate::vpath::copy_bytes(reason),
        );
        self.aborted_hostnames.insert(
            crate::vpath::copy_bytes(info.hostname.as_slice()),
            crate::vpath::copy_bytes(reason),
        );
    }

    /// Records a peer's answer to the upload. The response count grows by
    /// one only where the peer is new among those that answered the same
    /// way (it stops at its largest value).
    pub fn add_response(&mut self, source: &[u8], accepted: bool, reject_reason: Option<Vec<u8>>)
        requires
            old(self).wf(),
        ensures
            final(self).wf(),
            accepted ==> final(self).accepted() == old(self).accepted().insert(source@)
                && final(self).rejected() == old(self).rejected(),
            !accepted ==> final(self).accepted() == old(self).accepted()
                && final(self).rejected() == old(self).rejected().insert(
                source@,
                match reject_reason {
                    Some(r) => r@,
                    None => unknown_reason(),
                },
            ),
            final(self).responses() == if (accepted && !old(self).accepted().contains(source@)) || (
            !accepted && !old(self).rejected().contains_key(source@)) {
                old(self).responses().saturating_add(1)
            } else {
                old(self).responses()
            },
            final(self).done_addrs() == old(self).done_addrs(),
            final(self).done_machines() == old(self).done_machines(),
            final(self).done_hosts() == old(self).done_hosts(),
            final(self).aborted_addrs() == old(self).aborted_addrs(),
            final(self).aborted_machines() == old(self).aborted_machines(),
            final(self).aborted_hosts() == old(self).aborted_hosts(),
    {
        let fresh = if !accepted {
            let reason = match reject_reason {
                Some(r) => r,
                None => unknown(),
            };
            self.rejected_ips.insert(crate::vpath::copy_bytes(source), reason)
        } else {
            self.accepted_ips.insert(crate::vpath::copy_bytes(source), Vec::new())
        };
        if fresh {
            self.total_responses = self.total_responses.saturating_add(1);
        }
    }

    /// The response count, at most `u32::MAX`.
    pub fn total_responses(&self) -> (r: u32)
        ensures
            r == if self.responses() > u32::MAX as u64 {
                u32::MAX
            } else {
                self.responses() as u32
            },
    {
        if self.total_responses > u32::MAX as u64 {
            u32::MAX
        } else {
            self.total_responses as u32
        }
    }
}

/// The outcome of an upload so far: decided once every peer that reported
/// the image also accepted the upload; then a failure where some peer
/// rejected it. `None` while undecided.
pub fn check(stats: &Stats, _early_timeout: bool) -> (r: Option<Result<UploadOk, ErrorKind>>)
    requires
        stats.wf(),
    ensures
        r == if stats.done_addrs().subset_of(stats.accepted()) {
            if stats.rejected().dom().len() > 0 {
                Some(Err(ErrorKind::Rejected))
            } else {
                Some(Ok(UploadOk {}))
            }
        } else {
            None::<Result<UploadOk, ErrorKind>>
        },
{
    if stats.accepted_ips.has_all_keys_of(&stats.done_ips) {
        if stats.rejected_ips.len() > 0 {
            Some(Err(ErrorKind::Rejected))
        } else {
            Some(Ok(UploadOk {}))
        }
    } else {
        None
    }
}

} // verus!
