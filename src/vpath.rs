use vstd::prelude::*;
use vstd::string::StringSliceAdditionalSpecFns;
use crate::bytes::bytes_equal;

verus! {

pub const SLASH: u8 = 0x2f;

pub const DOT: u8 = 0x2e;

/// The pieces of `b` between slashes, from left to right (`b` with no
/// slash is one piece).
pub open spec fn split_slash(b: Seq<u8>) -> Seq<Seq<u8>>
    decreases b.len(),
{
    if b.len() == 0 {
        seq![Seq::<u8>::empty()]
    } else {
        let p = split_slash(b.drop_last());
        if b.last() == SLASH {
            p.push(Seq::<u8>::empty())
        } else {
            p.update(p.len() - 1, p.last().push(b.last()))
        }
    }
}

/// A path segment: not empty, not `.` or `..`, without a slash.
pub open spec fn valid_segment(s: Seq<u8>) -> bool {
    &&& s.len() > 0
    &&& s != seq![DOT]
    &&& s != seq![DOT, DOT]
    &&& forall|i: int| 0 <= i < s.len() ==> s[i] != SLASH
}

pub open spec fn valid_segments(s: Seq<Seq<u8>>) -> bool {
    &&& s.len() >= 1
    &&& forall|i: int| 0 <= i < s.len() ==> valid_segment(#[trigger] s[i])
}

/// The segments of an absolute path text, where it is a valid virtual path.
pub open spec fn parse_spec(b: Seq<u8>) -> Option<Seq<Seq<u8>>> {
    if b.len() > 0 && b[0] == SLASH && valid_segments(split_slash(b.drop_first())) {
        Some(split_slash(b.drop_first()))
    } else {
        None
    }
}

/// Each segment with a slash before it.
pub open spec fn join_segments(s: Seq<Seq<u8>>) -> Seq<u8>
    decreases s.len(),
{
    if s.len() == 0 {
        Seq::empty()
    } else {
        join_segments(s.drop_last()) + seq![SLASH] + s.last()
    }
}

/// A virtual path `/<key>/<level-1>/.../<final>`: a non-empty list of
/// segments, the first of which names a configured directory.
#[derive(Debug, Clone)]
pub struct VPath {
    segments: Vec<Vec<u8>>,
}

impl View for VPath {
    type V = Seq<Seq<u8>>;

    closed spec fn view(&self) -> Seq<Seq<u8>> {
        self.segments@.map_values(|s: Vec<u8>| s@)
    }
}

/// A copy of `b`.
pub fn copy_bytes(b: &[u8]) -> (r: Vec<u8>)
    ensures
        r@ == b@,
{
    let mut r: Vec<u8> = Vec::new();
    let mut i: usize = 0;
    while i < b.len()
        invariant
            0 <= i <= b@.len(),
            r@ == b@.subrange(0, i as int),
        decreases b@.len() - i,
    {
        r.push(b[i]);
        assert(r@ =~= b@.subrange(0, i + 1));
        i = i + 1;
    }
    assert(r@ =~= b@);
    r
}

/// Appends the bytes of `b` to `r`.
pub fn append_bytes(r: &mut Vec<u8>, b: &[u8])
    ensures
        final(r)@ == old(r)@ + b@,
{
    let mut i: usize = 0;
    while i < b.len()
        invariant
            0 <= i <= b@.len(),
            r@ == old(r)@ + b@.subrange(0, i as int),
        decreases b@.len() - i,
    {
        r.push(b[i]);
        assert(r@ =~= old(r)@ + b@.subrange(0, i + 1));
        i = i + 1;
    }
    assert(b@.subrange(0, b@.len() as int) =~= b@);
}

/// `b` without its first byte (empty stays empty).
pub open spec fn skip_first(b: Seq<u8>) -> Seq<u8> {
    if b.len() > 0 {
        b.subrange(1, b.len() as int)
    } else {
        b
    }
}

fn segment_ok(s: &Vec<u8>) -> (r: bool)
    requires
        forall|i: int| 0 <= i < s@.len() ==> s@[i] != SLASH,
    ensures
        r == valid_segment(s@),
{
    if s.len() == 0 {
        return false;
    }
    if s.len() == 1 && s[0] == DOT {
        assert(s@ =~= seq![DOT]);
        return false;
    }
    if s.len() == 2 && s[0] == DOT && s[1] == DOT {
        assert(s@ =~= seq![DOT, DOT]);
        return false;
    }
    proof {
        if s@ == seq![DOT] {
            assert(s@[0] == DOT);
        }
        if s@ == seq![DOT, DOT] {
            assert(s@[0] == DOT && s@[1] == DOT);
        }
    }
    true
}

impl VPath {
    pub closed spec fn wf(&self) -> bool {
        valid_segments(self@)
    }

    /// Reads a virtual path from its text, `/key/.../final`; `None` where
    /// the text is not absolute or has an empty, `.` or `..` segment.
    pub fn parse(text: &str) -> (r: Option<VPath>)
        ensures
            match r {
                Some(p) => parse_spec(text.spec_bytes()) == Some(p@) && p.wf(),
                None => parse_spec(text.spec_bytes()) is None,
            },
    {
        let b = text.as_bytes();
        if b.len() == 0 || b[0] != SLASH {
            return None;
        }
        let ghost rest = b@.drop_first();
        let mut done: Vec<Vec<u8>> = Vec::new();
        let mut cur: Vec<u8> = Vec::new();
        let mut i: usize = 1;
        assert(b@.subrange(1, 1) =~= Seq::<u8>::empty());
        assert(done@.map_values(|s: Vec<u8>| s@).push(cur@) =~= seq![Seq::<u8>::empty()]);
        while i < b.len()
            invariant
                1 <= i <= b@.len(),
                rest == b@.drop_first(),
                b@ == text.spec_bytes(),
                split_slash(b@.subrange(1, i as int)) == done@.map_values(|s: Vec<u8>| s@).push(
                    cur@,
                ),
                forall|j: int| 0 <= j < cur@.len() ==> cur@[j] != SLASH,
                forall|j: int, m: int|
                    0 <= j < done@.len() && 0 <= m < done@[j]@.len() ==> done@[j]@[m] != SLASH,
            decreases b@.len() - i,
        {
            let ghost pre = b@.subrange(1, i as int);
            assert(b@.subrange(1, i + 1).drop_last() =~= pre);
            assert(b@.subrange(1, i + 1).last() == b@[i as int]);
            let c = b[i];
            if c == SLASH {
                let mut seg: Vec<u8> = Vec::new();
                std::mem::swap(&mut seg, &mut cur);
                done.push(seg);
                assert(done@.map_values(|s: Vec<u8>| s@).push(cur@) =~= split_slash(pre).push(
                    Seq::<u8>::empty(),
                ));
            } else {
                cur.push(c);
                assert(done@.map_values(|s: Vec<u8>| s@).push(cur@) =~= split_slash(pre).update(
                    split_slash(pre).len() - 1,
                    split_slash(pre).last().push(c),
                ));
            }
            i = i + 1;
        }
        assert(b@.subrange(1, b@.len() as int) =~= rest);
        done.push(cur);
        let ghost segs = done@.map_values(|s: Vec<u8>| s@);
        assert(segs == split_slash(rest));
        let mut k: usize = 0;
        while k < done.len()
            invariant
                0 <= k <= done@.len(),
                segs == done@.map_values(|s: Vec<u8>| s@),
                segs == split_slash(rest),
                rest == text.spec_bytes().drop_first(),
                forall|j: int| 0 <= j < k ==> valid_segment(#[trigger] segs[j]),
                forall|j: int, m: int|
                    0 <= j < segs.len() && 0 <= m < segs[j].len() ==> segs[j][m] != SLASH,
            decreases done@.len() - k,
        {
            assert(segs[k as int] == done@[k as int]@);
            if !segment_ok(&done[k]) {
                assert(!valid_segment(segs[k as int]));
                assert(!valid_segments(split_slash(rest)));
                assert(rest == text.spec_bytes().drop_first());
                return None;
            }
            k = k + 1;
        }
        let p = VPath { segments: done };
        assert(p@ == segs);
        Some(p)
    }
}

impl VPath {
    /// The configured directory the path belongs to: its first segment.
    pub fn key(&self) -> (r: &[u8])
        requires
            self.wf(),
        ensures
            r@ == self@[0],
    {
        self.segments[0].as_slice()
    }

    /// The number of segments after the key.
    pub fn level(&self) -> (r: usize)
        requires
            self.wf(),
        ensures
            r == self@.len() - 1,
    {
        self.segments.len() - 1
    }

    /// The last segment.
    pub fn final_name(&self) -> (r: &[u8])
        requires
            self.wf(),
        ensures
            r@ == self@.last(),
    {
        self.segments[self.segments.len() - 1].as_slice()
    }

    /// The text of the path, `/seg/seg/...`.
    pub fn to_bytes(&self) -> (r: Vec<u8>)
        ensures
            r@ == join_segments(self@),
    {
        let r = self.join_first(self.segments.len());
        assert(self@.subrange(0, self@.len() as int) =~= self@);
        r
    }

    fn join_first(&self, n: usize) -> (r: Vec<u8>)
        requires
            n <= self@.len(),
        ensures
            r@ == join_segments(self@.subrange(0, n as int)),
    {
        let ghost v = self@;
        let mut r: Vec<u8> = Vec::new();
        let mut k: usize = 0;
        assert(v.subrange(0, 0) =~= Seq::<Seq<u8>>::empty());
        while k < n
            invariant
                n <= v.len(),
                v == self@,
                0 <= k <= n,
                r@ == join_segments(v.subrange(0, k as int)),
            decreases n - k,
        {
            assert(v.subrange(0, k + 1).drop_last() =~= v.subrange(0, k as int));
            assert(v[k as int] == self.segments@[k as int]@);
            r.push(SLASH);
            append_bytes(&mut r, self.segments[k].as_slice());
            assert(r@ =~= join_segments(v.subrange(0, k + 1)));
            k = k + 1;
        }
        r
    }

    /// The path of the parent directory relative to the root, without a
    /// leading slash: `key/level-1/...`.
    pub fn parent_rel(&self) -> (r: Vec<u8>)
        requires
            self.wf(),
        ensures
            r@ == skip_first(join_segments(self@.drop_last())),
    {
        let all = self.join_first(self.segments.len() - 1);
        assert(self@.subrange(0, self@.len() - 1) =~= self@.drop_last());
        if all.len() == 0 {
            return all;
        }
        let mut r: Vec<u8> = Vec::new();
        let mut i: usize = 1;
        while i < all.len()
            invariant
                1 <= i <= all@.len(),
                r@ == all@.subrange(1, i as int),
            decreases all@.len() - i,
        {
            r.push(all[i]);
            assert(r@ =~= all@.subrange(1, i + 1));
            i = i + 1;
        }
        r
    }

    /// Whether two paths have the same segments.
    pub fn same_path(&self, other: &VPath) -> (r: bool)
        ensures
            r == (self@ == other@),
    {
        if self.segments.len() != other.segments.len() {
            return false;
        }
        let mut k: usize = 0;
        while k < self.segments.len()
            invariant
                self@.len() == other@.len(),
                0 <= k <= self@.len(),
                forall|j: int| 0 <= j < k ==> self@[j] == other@[j],
            decreases self@.len() - k,
        {
            assert(self@[k as int] == self.segments@[k as int]@);
            assert(other@[k as int] == other.segments@[k as int]@);
            if !bytes_equal(self.segments[k].as_slice(), other.segments[k].as_slice()) {
                return false;
            }
            k = k + 1;
        }
        assert(self@ =~= other@);
        true
    }

    /// A copy of the path.
    pub fn copy(&self) -> (r: VPath)
        ensures
            r@ == self@,
    {
        let mut segments: Vec<Vec<u8>> = Vec::new();
        let mut k: usize = 0;
        while k < self.segments.len()
            invariant
                0 <= k <= self@.len(),
                segments@.map_values(|s: Vec<u8>| s@) == self@.subrange(0, k as int),
            decreases self@.len() - k,
        {
            assert(self@[k as int] == self.segments@[k as int]@);
            let c = copy_bytes(self.segments[k].as_slice());
            let ghost before = segments@;
            segments.push(c);
            assert(segments@ == before.push(c));
            assert(segments@.map_values(|s: Vec<u8>| s@) =~= before.map_values(|s: Vec<u8>| s@).push(c@));
            assert(segments@.map_values(|s: Vec<u8>| s@) =~= self@.subrange(0, k + 1));
            k = k + 1;
        }
        assert(self@.subrange(0, self@.len() as int) =~= self@);
        VPath { segments }
    }

    /// The segments before the last one.
    pub fn parent_segments(&self) -> (r: Vec<Vec<u8>>)
        requires
            self.wf(),
        ensures
            r@.map_values(|s: Vec<u8>| s@) == self@.drop_last(),
    {
        let mut out: Vec<Vec<u8>> = Vec::new();
        let n = self.segments.len() - 1;
        let mut k: usize = 0;
        while k < n
            invariant
                n == self@.len() - 1,
                0 <= k <= n,
                out@.map_values(|s: Vec<u8>| s@) == self@.subrange(0, k as int),
            decreases n - k,
        {
            assert(self@[k as int] == self.segments@[k as int]@);
            let c = copy_bytes(self.segments[k].as_slice());
            let ghost before = out@;
            out.push(c);
            assert(out@ == before.push(c));
            assert(out@.map_values(|s: Vec<u8>| s@) =~= before.map_values(|s: Vec<u8>| s@).push(c@));
            assert(out@.map_values(|s: Vec<u8>| s@) =~= self@.subrange(0, k + 1));
            k = k + 1;
        }
        assert(self@.subrange(0, n as int) =~= self@.drop_last());
        out
    }

    /// The path one level down, `self/name`; `None` where `name` is not a
    /// valid segment.
    pub fn join(&self, name: &[u8]) -> (r: Option<VPath>)
        requires
            self.wf(),
        ensures
            match r {
                Some(p) => valid_segment(name@) && p@ == self@.push(name@) && p.wf(),
                None => !valid_segment(name@),
            },
    {
        let mut k: usize = 0;
        while k < name.len()
            invariant
                0 <= k <= name@.len(),
                forall|j: int| 0 <= j < k ==> name@[j] != SLASH,
            decreases name@.len() - k,
        {
            if name[k] == SLASH {
                return None;
            }
            k = k + 1;
        }
        let seg = copy_bytes(name);
        if !segment_ok(&seg) {
            return None;
        }
        let mut p = self.copy();
        p.segments.push(seg);
        assert(p@ =~= self@.push(name@));
        Some(p)
    }
}

} // verus!
