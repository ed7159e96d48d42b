use vstd::prelude::*;
use crate::ids::ImageId;
use crate::table::ByteMap;
use crate::vpath::copy_bytes;

verus! {

/// What a request for an image's index should do.
#[derive(Debug, Clone, Copy, PartialEq, Eq, Structural)]
pub enum FetchStep {
    /// The index is held in memory: use it.
    Cached,
    /// A resolution of this index was started before: wait on its result.
    Join,
    /// Start the one resolution task of this index.
    Resolve,
}

/// Single-flight bookkeeping of index resolution, by image id.
pub struct Fetches {
    /// Ids with a shared result handle, finished or not.
    futures: ByteMap,
    /// Ids whose resolution task is running.
    running: ByteMap,
}

/// The step that a request for `id` takes.
pub open spec fn step_for(f: Fetches, id: Seq<u8>, cached: bool) -> FetchStep {
    if cached {
        FetchStep::Cached
    } else if f.handles().contains(id) {
        FetchStep::Join
    } else {
        FetchStep::Resolve
    }
}

impl Fetches {
    pub closed spec fn handles(&self) -> Set<Seq<u8>> {
        self.futures.view().dom()
    }

    /// Ids whose resolution task is running.
    pub closed spec fn tasks(&self) -> Set<Seq<u8>> {
        self.running.view().dom()
    }

    pub closed spec fn wf(&self) -> bool {
        &&& self.futures.wf()
        &&& self.running.wf()
        &&& self.tasks().subset_of(self.handles())
    }

    pub fn new() -> (r: Fetches)
        ensures
            r.wf(),
            r.handles() == Set::<Seq<u8>>::empty(),
            r.tasks() == Set::<Seq<u8>>::empty(),
    {
        Fetches { futures: ByteMap::new(), running: ByteMap::new() }
    }

    /// Decides how to obtain the index of `id`, where `cached` says whether
    /// a live index of it is held in memory. A resolution starts only
    /// where none was started before and not evicted.
    pub fn get_index(&mut self, id: &ImageId, cached: bool) -> (r: FetchStep)
        requires
            old(self).wf(),
        ensures
            final(self).wf(),
            r == step_for(*old(self), id@, cached),
            r == FetchStep::Resolve ==> final(self).handles() == old(self).handles().insert(id@)
                && final(self).tasks() == old(self).tasks().insert(id@),
            r != FetchStep::Resolve ==> final(self).handles() == old(self).handles()
                && final(self).tasks() == old(self).tasks(),
    {
        if cached {
            return FetchStep::Cached;
        }
        if self.futures.contains(id.bytes.as_slice()) {
            return FetchStep::Join;
        }
        self.futures.insert(copy_bytes(id.bytes.as_slice()), Vec::new());
        self.running.insert(copy_bytes(id.bytes.as_slice()), Vec::new());
        FetchStep::Resolve
    }

    /// Records the end of the resolution task of `id`. A failed one is
    /// evicted, so that the next request starts afresh; a successful one
    /// keeps its handle for those that wait on it.
    pub fn resolved(&mut self, id: &ImageId, ok: bool)
        requires
            old(self).wf(),
        ensures
            final(self).wf(),
            final(self).tasks() == old(self).tasks().remove(id@),
            final(self).handles() == if ok {
                old(self).handles()
            } else {
                old(self).handles().remove(id@)
            },
    {
        self.running.remove(id.bytes.as_slice());
        if !ok {
            self.futures.remove(id.bytes.as_slice());
        }
    }
}

/// A request to fetch an image into a base directory.
#[derive(Debug, Clone)]
pub struct FetchDir {
    pub image_id: ImageId,
    pub base_dir: Vec<u8>,
    pub parent: Vec<u8>,
    pub image_name: Vec<u8>,
    pub config: crate::metadata::Directory,
}

/// The first step of fetching `cmd.image_id`: use the cached index, wait
/// on the resolution already started, or start the one resolution.
pub fn start(fetches: &mut Fetches, cmd: &FetchDir, cached: bool) -> (r: FetchStep)
    requires
        old(fetches).wf(),
    ensures
        final(fetches).wf(),
        r == step_for(*old(fetches), cmd.image_id@, cached),
        r == FetchStep::Resolve ==> final(fetches).handles() == old(fetches).handles().insert(
            cmd.image_id@,
        ) && final(fetches).tasks() == old(fetches).tasks().insert(cmd.image_id@),
        r != FetchStep::Resolve ==> final(fetches).handles() == old(fetches).handles()
            && final(fetches).tasks() == old(fetches).tasks(),
{
    fetches.get_index(&cmd.image_id, cached)
}

/// While a resolution of an image runs, a request for the same image
/// that finds no cached index joins it rather than starting a second one.
pub proof fn lemma_single_flight(f: Fetches, id: Seq<u8>, cached: bool)
    requires
        f.wf(),
        f.tasks().contains(id),
    ensures
        step_for(f, id, cached) != FetchStep::Resolve,
{
}

} // verus!
