use vstd::prelude::*;
use vstd::string::StringSliceAdditionalSpecFns;
use crate::external::{hex_encode, hex_of};
use crate::ids::ImageId;
use crate::vpath::{VPath, append_bytes, copy_bytes, parse_spec};

verus! {

/// `.tmp.`
pub open spec fn tmp_prefix() -> Seq<u8> {
    seq![0x2eu8, 0x74, 0x6d, 0x70, 0x2e]
}

/// `.state`
pub open spec fn state_suffix() -> Seq<u8> {
    seq![0x2eu8, 0x73, 0x74, 0x61, 0x74, 0x65]
}

/// `.new`
pub open spec fn new_suffix() -> Seq<u8> {
    seq![0x2eu8, 0x6e, 0x65, 0x77]
}

/// `.ds1`
pub open spec fn index_suffix() -> Seq<u8> {
    seq![0x2eu8, 0x64, 0x73, 0x31]
}

/// The shadow directory in which an image named `final_name` is
/// assembled: `.tmp.<final_name>`.
pub fn temporary_name(final_name: &[u8]) -> (r: Vec<u8>)
    ensures
        r@ == tmp_prefix() + final_name@,
{
    let mut r: Vec<u8> = vec![0x2eu8, 0x74, 0x6d, 0x70, 0x2e];
    assert(r@ =~= tmp_prefix());
    append_bytes(&mut r, final_name);
    r
}

/// The committed state file of a path: `<final>.state`.
pub fn state_file_name(path: &VPath) -> (r: Vec<u8>)
    requires
        path.wf(),
    ensures
        r@ == path@.last() + state_suffix(),
{
    let mut r = copy_bytes(path.final_name());
    let suffix: Vec<u8> = vec![0x2eu8, 0x73, 0x74, 0x61, 0x74, 0x65];
    assert(suffix@ =~= state_suffix());
    append_bytes(&mut r, suffix.as_slice());
    r
}

/// The in-flight state file of a path: `<final>.new.state`.
pub fn new_state_file_name(path: &VPath) -> (r: Vec<u8>)
    requires
        path.wf(),
    ensures
        r@ == path@.last() + new_suffix() + state_suffix(),
{
    let mut r = copy_bytes(path.final_name());
    let new: Vec<u8> = vec![0x2eu8, 0x6e, 0x65, 0x77];
    assert(new@ =~= new_suffix());
    append_bytes(&mut r, new.as_slice());
    let suffix: Vec<u8> = vec![0x2eu8, 0x73, 0x74, 0x61, 0x74, 0x65];
    assert(suffix@ =~= state_suffix());
    append_bytes(&mut r, suffix.as_slice());
    r
}

proof fn lemma_hex_len(b: Seq<u8>)
    ensures
        hex_of(b).len() == 2 * b.len(),
    decreases b.len(),
{
    if b.len() > 0 {
        lemma_hex_len(b.drop_last());
    }
}

/// Where the index of an image is stored: the directory named by the first
/// two hex digits of the id, and the file `<hex>.ds1` in it.
pub fn index_location(id: &ImageId) -> (r: (Vec<u8>, Vec<u8>))
    requires
        id@.len() > 0,
    ensures
        r.0@ == hex_of(id@).subrange(0, 2),
        r.1@ == hex_of(id@) + index_suffix(),
{
    let hex = hex_encode(id.bytes.as_slice());
    proof {
        lemma_hex_len(id@);
    }
    let dir: Vec<u8> = vec![hex[0], hex[1]];
    assert(dir@ =~= hex@.subrange(0, 2));
    let mut file = copy_bytes(hex.as_slice());
    let suffix: Vec<u8> = vec![0x2eu8, 0x64, 0x73, 0x31];
    assert(suffix@ =~= index_suffix());
    append_bytes(&mut file, suffix.as_slice());
    (dir, file)
}

/// Where a block of an image goes: the directories below the shadow
/// directory and the file name, read from the block's absolute path;
/// `None` where the path is not absolute or has an empty, `.` or `..`
/// segment, so that every write stays inside the shadow directory.
pub fn block_location(path: &str) -> (r: Option<(Vec<Vec<u8>>, Vec<u8>)>)
    ensures
        match r {
            Some((dirs, file)) => parse_spec(path.spec_bytes()) matches Some(segs) && dirs@.map_values(
                |s: Vec<u8>| s@,
            ) == segs.drop_last() && file@ == segs.last(),
            None => parse_spec(path.spec_bytes()) is None,
        },
{
    match VPath::parse(path) {
        None => None,
        Some(p) => {
            let dirs = p.parent_segments();
            let file = copy_bytes(p.final_name());
            Some((dirs, file))
        },
    }
}

} // verus!
