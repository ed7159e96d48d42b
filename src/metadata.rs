use vstd::prelude::*;
use crate::external::{ed25519_valid, ed25519_verify, encode_signing_message, signing_message};
use crate::ids::ImageId;
use crate::signatures::{
    EntryV, SignatureEntry, entries_view, merged, strictly_sorted, append_signatures, copy_entry,
    lemma_merged_sorted,
};
use crate::vpath::{VPath, join_segments};

verus! {

/// The settings of one configured directory.
#[derive(Debug, Clone, Copy)]
pub struct Directory {
    /// How many segments follow the key in an admissible path.
    pub num_levels: usize,
    /// Whether images in it may only be added, never replaced.
    pub append_only: bool,
    /// Whether the cleanup loop visits it.
    pub auto_clean: bool,
}

/// The configured directories, by key.
#[derive(Debug, Clone)]
pub struct Config {
    pub dirs: Vec<(Vec<u8>, Directory)>,
}

/// The settings of the first directory configured under `key`.
pub open spec fn lookup_dir(dirs: Seq<(Vec<u8>, Directory)>, key: Seq<u8>) -> Option<Directory>
    decreases dirs.len(),
{
    if dirs.len() == 0 {
        None
    } else if dirs[0].0@ == key {
        Some(dirs[0].1)
    } else {
        lookup_dir(dirs.drop_first(), key)
    }
}

/// With keys unique, a directory is found under `key` exactly where it is
/// configured under `key`.
pub proof fn lemma_lookup_dir(dirs: Seq<(Vec<u8>, Directory)>, key: Seq<u8>, i: int)
    requires
        forall|a: int, b: int| 0 <= a < b < dirs.len() ==> (#[trigger] dirs[a]).0@ != (#[trigger] dirs[b]).0@,
        0 <= i < dirs.len(),
        dirs[i].0@ == key,
    ensures
        lookup_dir(dirs, key) == Some(dirs[i].1),
    decreases dirs.len(),
{
    if i > 0 {
        let rest = dirs.drop_first();
        assert(dirs[0].0@ != dirs[i].0@);
        assert forall|a: int, b: int| 0 <= a < b < rest.len() implies (#[trigger] rest[a]).0@ != (
        #[trigger] rest[b]).0@ by {
            assert(rest[a] == dirs[a + 1] && rest[b] == dirs[b + 1]);
        }
        assert(rest[i - 1] == dirs[i]);
        lemma_lookup_dir(rest, key, i - 1);
    }
}

/// No directory is found under a key that none is configured under.
pub proof fn lemma_lookup_dir_absent(dirs: Seq<(Vec<u8>, Directory)>, key: Seq<u8>)
    requires
        forall|i: int| 0 <= i < dirs.len() ==> (#[trigger] dirs[i]).0@ != key,
    ensures
        lookup_dir(dirs, key) is None,
    decreases dirs.len(),
{
    if dirs.len() > 0 {
        let rest = dirs.drop_first();
        assert forall|i: int| 0 <= i < rest.len() implies (#[trigger] rest[i]).0@ != key by {
            assert(rest[i] == dirs[i + 1]);
        }
        assert(dirs[0].0@ != key);
        lemma_lookup_dir_absent(rest, key);
    }
}

impl Config {
    /// Each key is configured once.
    pub open spec fn wf(&self) -> bool {
        forall|a: int, b: int|
            0 <= a < b < self.dirs@.len() ==> (#[trigger] self.dirs@[a]).0@ != (#[trigger] self.dirs@[b]).0@
    }

    /// Whether each key is configured once.
    pub fn keys_unique(&self) -> (r: bool)
        ensures
            r == self.wf(),
    {
        let mut b: usize = 0;
        while b < self.dirs.len()
            invariant
                0 <= b <= self.dirs@.len(),
                forall|x: int, y: int|
                    0 <= x < y < b ==> (#[trigger] self.dirs@[x]).0@ != (#[trigger] self.dirs@[y]).0@,
            decreases self.dirs@.len() - b,
        {
            let mut a: usize = 0;
            while a < b
                invariant
                    0 <= a <= b < self.dirs@.len(),
                    forall|x: int, y: int|
                        0 <= x < y < b ==> (#[trigger] self.dirs@[x]).0@ != (#[trigger] self.dirs@[y]).0@,
                    forall|x: int| 0 <= x < a ==> (#[trigger] self.dirs@[x]).0@ != self.dirs@[b as int].0@,
                decreases b - a,
            {
                if crate::bytes::bytes_equal(self.dirs[a].0.as_slice(), self.dirs[b].0.as_slice()) {
                    return false;
                }
                a = a + 1;
            }
            b = b + 1;
        }
        true
    }

    /// The settings of the directory configured under `key`.
    pub fn lookup(&self, key: &[u8]) -> (r: Option<Directory>)
        ensures
            r == lookup_dir(self.dirs@, key@),
    {
        let mut i: usize = 0;
        assert(self.dirs@.subrange(0, self.dirs@.len() as int) =~= self.dirs@);
        while i < self.dirs.len()
            invariant
                0 <= i <= self.dirs@.len(),
                lookup_dir(self.dirs@, key@) == lookup_dir(
                    self.dirs@.subrange(i as int, self.dirs@.len() as int),
                    key@,
                ),
            decreases self.dirs@.len() - i,
        {
            let ghost rest = self.dirs@.subrange(i as int, self.dirs@.len() as int);
            assert(rest[0] == self.dirs@[i as int]);
            assert(rest.drop_first() =~= self.dirs@.subrange(i + 1, self.dirs@.len() as int));
            if crate::bytes::bytes_equal(self.dirs[i].0.as_slice(), key) {
                return Some(self.dirs[i].1);
            }
            i = i + 1;
        }
        None
    }
}

/// The persisted record of one virtual path: the image and its signatures.
#[derive(Debug, Clone)]
pub struct State {
    pub image: ImageId,
    pub signatures: Vec<SignatureEntry>,
}

pub struct StateView {
    pub image: Seq<u8>,
    pub signatures: Seq<EntryV>,
}

impl View for State {
    type V = StateView;

    open spec fn view(&self) -> StateView {
        StateView { image: self.image@, signatures: entries_view(self.signatures@) }
    }
}

impl State {
    /// Signatures ascending in the entry order, none twice.
    pub open spec fn wf(&self) -> bool {
        strictly_sorted(entries_view(self.signatures@))
    }

    /// A state whose signatures are `signatures` sorted, each once.
    pub fn new(image: ImageId, signatures: Vec<SignatureEntry>) -> (r: State)
        ensures
            r.wf(),
            r@.image == image@,
            r@.signatures == merged(Seq::empty(), entries_view(signatures@)),
    {
        let mut sigs: Vec<SignatureEntry> = Vec::new();
        assert(entries_view(sigs@) =~= Seq::<EntryV>::empty());
        append_signatures(&mut sigs, signatures);
        State { image, signatures: sigs }
    }
}

/// An admission in progress for one virtual path.
#[derive(Debug, Clone)]
pub struct Writing {
    pub image: ImageId,
    pub signatures: Vec<SignatureEntry>,
    /// Whether it replaces a committed image.
    pub replacing: bool,
}

pub struct WritingView {
    pub image: Seq<u8>,
    pub signatures: Seq<EntryV>,
    pub replacing: bool,
}

impl View for Writing {
    type V = WritingView;

    open spec fn view(&self) -> WritingView {
        WritingView {
            image: self.image@,
            signatures: entries_view(self.signatures@),
            replacing: self.replacing,
        }
    }
}

/// A request to add an image at a virtual path.
#[derive(Debug, Clone)]
pub struct AppendDir {
    pub path: VPath,
    pub image: ImageId,
    pub timestamp: u64,
    pub signatures: Vec<Vec<u8>>,
}

/// A request to put an image at a virtual path, replacing what is there.
#[derive(Debug, Clone)]
pub struct ReplaceDir {
    pub path: VPath,
    pub image: ImageId,
    pub old_image: Option<ImageId>,
    pub timestamp: u64,
    pub signatures: Vec<Vec<u8>>,
}

/// How an accepted request stands.
#[derive(Debug, Clone, Copy, PartialEq, Eq, Structural)]
pub enum Accept {
    New,
    InProgress,
    AlreadyDone,
}

/// Why a request was turned down.
#[derive(Debug, Clone, Copy, PartialEq, Eq, Structural)]
pub enum Rejection {
    DirIsAppendOnly,
    SignatureMismatch,
    AlreadyExists,
    AlreadyUploadingDifferentVersion,
}

impl Rejection {
    /// The short tag reported to the caller.
    pub fn reason(&self) -> (r: &'static str)
        ensures
            *self == Rejection::DirIsAppendOnly ==> r@ == "dir_is_append_only"@,
            *self == Rejection::SignatureMismatch ==> r@ == "signature_mismatch"@,
            *self == Rejection::AlreadyExists ==> r@ == "already_exists"@,
            *self == Rejection::AlreadyUploadingDifferentVersion ==> r@
                == "already_uploading_different_version"@,
    {
        match self {
            Rejection::DirIsAppendOnly => "dir_is_append_only",
            Rejection::SignatureMismatch => "signature_mismatch",
            Rejection::AlreadyExists => "already_exists",
            Rejection::AlreadyUploadingDifferentVersion => "already_uploading_different_version",
        }
    }
}

/// The answer to an append or replace request.
#[derive(Debug, Clone, Copy, PartialEq, Eq, Structural)]
pub enum Upload {
    Accepted(Accept),
    Rejected(Rejection),
}

/// What admission asks of the signature directory for the request's path.
#[derive(Debug, Clone)]
pub enum Persist {
    /// Leave the files as they are.
    Nothing,
    /// Rewrite `<final>.state` with this state.
    ReplaceState(State),
    /// Write `<final>.new.state` with this state.
    WriteNewState(State),
}

/// The answer to a request and the file change it needs.
#[derive(Debug, Clone)]
pub struct Admission {
    pub upload: Upload,
    pub persist: Persist,
}

/// Errors of admission.
#[derive(Debug, Clone)]
pub enum Error {
    /// No directory is configured under the path's key.
    PathNotFound(VPath),
    /// The path has `.0` levels where the directory asks for `.1`.
    LevelMismatch(usize, usize),
}

/// The entries that one request's signatures make.
pub open spec fn entries_of(timestamp: u64, sigs: Seq<Seq<u8>>) -> Seq<EntryV> {
    sigs.map_values(|s: Seq<u8>| (timestamp, s))
}

pub open spec fn bytes_list(v: Seq<Vec<u8>>) -> Seq<Seq<u8>> {
    v.map_values(|b: Vec<u8>| b@)
}

/// Some signature verifies under some key.
pub open spec fn signature_accepted(message: Seq<u8>, sigs: Seq<Seq<u8>>, keys: Seq<Seq<u8>>) -> bool {
    exists|i: int, j: int|
        0 <= i < sigs.len() && 0 <= j < keys.len() && sigs[i].len() == 64 && keys[j].len() == 32
            && ed25519_valid(message, #[trigger] keys[j], #[trigger] sigs[i])
}

/// What admission decides for one request.
pub enum Decision {
    NotFound,
    LevelMismatch(int, int),
    Reject(Rejection),
    /// The committed state holds the image: its signatures become these.
    AlreadyDone(Seq<EntryV>),
    /// An admission of the same image is running: it becomes this in
    /// memory, and no `.new.state` is written.
    InProgress(WritingView),
    /// A new admission starts with this.
    New(WritingView),
}

/// The admission rules, for an append (`replace` false) or a replace.
pub open spec fn decide(
    replace: bool,
    config: Option<Directory>,
    path: Seq<Seq<u8>>,
    image: Seq<u8>,
    entries: Seq<EntryV>,
    verified: bool,
    writing: Option<WritingView>,
    committed: Option<StateView>,
) -> Decision {
    match config {
        None => Decision::NotFound,
        Some(c) => if path.len() - 1 != c.num_levels {
            Decision::LevelMismatch(path.len() - 1, c.num_levels as int)
        } else if replace && c.append_only {
            Decision::Reject(Rejection::DirIsAppendOnly)
        } else if !verified {
            Decision::Reject(Rejection::SignatureMismatch)
        } else {
            settle_decision(replace, image, entries, writing, committed)
        },
    }
}

/// The admission rules once the request is known to be configured and
/// signed.
pub open spec fn settle_decision(
    replace: bool,
    image: Seq<u8>,
    entries: Seq<EntryV>,
    writing: Option<WritingView>,
    committed: Option<StateView>,
) -> Decision {
    match writing {
        Some(w) => if w.image == image {
            Decision::InProgress(
                WritingView { image, signatures: merged(w.signatures, entries), replacing: w.replacing },
            )
        } else {
            Decision::Reject(Rejection::AlreadyUploadingDifferentVersion)
        },
        None => match committed {
            Some(s) => if s.image == image {
                Decision::AlreadyDone(merged(s.signatures, entries))
            } else if replace {
                Decision::New(
                    WritingView { image, signatures: merged(Seq::empty(), entries), replacing: true },
                )
            } else {
                Decision::Reject(Rejection::AlreadyExists)
            },
            None => Decision::New(
                WritingView { image, signatures: merged(Seq::empty(), entries), replacing: false },
            ),
        },
    }
}

/// `r` carries out decision `d` for `path` and `image`.
pub open spec fn carries_out(
    r: Result<Admission, Error>,
    d: Decision,
    path: Seq<Seq<u8>>,
    image: Seq<u8>,
) -> bool {
    match d {
        Decision::NotFound => r matches Err(Error::PathNotFound(p)) && p@ == path,
        Decision::LevelMismatch(has, need) => r matches Err(Error::LevelMismatch(x, y)) && x == has
            && y == need,
        Decision::Reject(why) => r matches Ok(a) && a.upload == Upload::Rejected(why)
            && a.persist is Nothing,
        Decision::AlreadyDone(sigs) => accepted_with(
            r,
            Accept::AlreadyDone,
            false,
            StateView { image, signatures: sigs },
        ),
        Decision::InProgress(_) => r matches Ok(a) && a.upload == Upload::Accepted(Accept::InProgress)
            && a.persist is Nothing,
        Decision::New(w) => accepted_with(
            r,
            Accept::New,
            true,
            StateView { image: w.image, signatures: w.signatures },
        ),
    }
}

/// `r` accepts as `kind` and asks that `s` be written to `.new.state`
/// (`new_file`) or to `.state`.
pub open spec fn accepted_with(
    r: Result<Admission, Error>,
    kind: Accept,
    new_file: bool,
    s: StateView,
) -> bool {
    match r {
        Ok(a) => a.upload == Upload::Accepted(kind) && match a.persist {
            Persist::ReplaceState(x) => !new_file && x@ == s,
            Persist::WriteNewState(x) => new_file && x@ == s,
            Persist::Nothing => false,
        },
        Err(_) => false,
    }
}

/// The admissions in progress after decision `d` for `path`.
pub open spec fn writing_after(
    d: Decision,
    writing: Map<Seq<Seq<u8>>, WritingView>,
    path: Seq<Seq<u8>>,
) -> Map<Seq<Seq<u8>>, WritingView> {
    match d {
        Decision::InProgress(w) => writing.insert(path, w),
        Decision::New(w) => writing.insert(path, w),
        _ => writing,
    }
}

/// Whether some signature in `signatures` verifies over `message` under
/// some key in `keys`.
pub fn check_keys(message: &[u8], signatures: &Vec<Vec<u8>>, keys: &Vec<Vec<u8>>) -> (r: bool)
    ensures
        r == signature_accepted(message@, bytes_list(signatures@), bytes_list(keys@)),
{
    let ghost sigs = bytes_list(signatures@);
    let ghost ks = bytes_list(keys@);
    let mut i: usize = 0;
    while i < signatures.len()
        invariant
            0 <= i <= signatures@.len(),
            sigs == bytes_list(signatures@),
            ks == bytes_list(keys@),
            forall|a: int, b: int|
                0 <= a < i && 0 <= b < ks.len() && sigs[a].len() == 64 && ks[b].len() == 32
                    ==> !ed25519_valid(message@, #[trigger] ks[b], #[trigger] sigs[a]),
        decreases signatures@.len() - i,
    {
        let mut j: usize = 0;
        while j < keys.len()
            invariant
                0 <= i < signatures@.len(),
                0 <= j <= keys@.len(),
                sigs == bytes_list(signatures@),
                ks == bytes_list(keys@),
                forall|a: int, b: int|
                    0 <= a < i && 0 <= b < ks.len() && sigs[a].len() == 64 && ks[b].len() == 32
                        ==> !ed25519_valid(message@, #[trigger] ks[b], #[trigger] sigs[a]),
                forall|b: int|
                    0 <= b < j && sigs[i as int].len() == 64 && ks[b].len() == 32
                        ==> !ed25519_valid(message@, #[trigger] ks[b], sigs[i as int]),
            decreases keys@.len() - j,
        {
            let sig = signatures[i].as_slice();
            let key = keys[j].as_slice();
            assert(sigs[i as int] == sig@ && ks[j as int] == key@);
            if sig.len() == 64 && key.len() == 32 && ed25519_verify(message, key, sig) {
                return true;
            }
            j = j + 1;
        }
        i = i + 1;
    }
    false
}

fn make_entries(timestamp: u64, signatures: &Vec<Vec<u8>>) -> (r: Vec<SignatureEntry>)
    ensures
        entries_view(r@) == entries_of(timestamp, bytes_list(signatures@)),
{
    let mut r: Vec<SignatureEntry> = Vec::new();
    let mut i: usize = 0;
    while i < signatures.len()
        invariant
            0 <= i <= signatures@.len(),
            entries_view(r@) == entries_of(timestamp, bytes_list(signatures@)).subrange(
                0,
                i as int,
            ),
        decreases signatures@.len() - i,
    {
        let e = SignatureEntry {
            timestamp,
            signature: crate::vpath::copy_bytes(signatures[i].as_slice()),
        };
        let ghost before = r@;
        r.push(e);
        assert(r@ == before.push(e));
        assert(entries_view(r@) =~= entries_view(before).push(e@));
        assert(bytes_list(signatures@)[i as int] == signatures@[i as int]@);
        assert(entries_view(r@) =~= entries_of(timestamp, bytes_list(signatures@)).subrange(
            0,
            i + 1,
        ));
        i = i + 1;
    }
    assert(entries_of(timestamp, bytes_list(signatures@)).subrange(0, i as int) =~= entries_of(
        timestamp,
        bytes_list(signatures@),
    ));
    r
}

fn copy_entries(v: &Vec<SignatureEntry>) -> (r: Vec<SignatureEntry>)
    ensures
        entries_view(r@) == entries_view(v@),
{
    let mut r: Vec<SignatureEntry> = Vec::new();
    let mut i: usize = 0;
    while i < v.len()
        invariant
            0 <= i <= v@.len(),
            entries_view(r@) == entries_view(v@).subrange(0, i as int),
        decreases v@.len() - i,
    {
        let e = copy_entry(&v[i]);
        let ghost before = r@;
        r.push(e);
        assert(r@ == before.push(e));
        assert(entries_view(r@) =~= entries_view(before).push(e@));
        assert(entries_view(r@) =~= entries_view(v@).subrange(0, i + 1));
        i = i + 1;
    }
    assert(entries_view(v@).subrange(0, i as int) =~= entries_view(v@));
    r
}

fn rejected(why: Rejection) -> (r: Admission)
    ensures
        r.upload == Upload::Rejected(why),
        r.persist is Nothing,
{
    Admission { upload: Upload::Rejected(why), persist: Persist::Nothing }
}

/// The admission service: the configuration and the admissions in
/// progress, at most one per virtual path.
pub struct Meta {
    config: Config,
    writing: Vec<(VPath, Writing)>,
    model: Ghost<Map<Seq<Seq<u8>>, WritingView>>,
}

/// The admission in progress for `path` in `writing`, if any.
pub open spec fn writing_of(writing: Map<Seq<Seq<u8>>, WritingView>, path: Seq<Seq<u8>>) -> Option<
    WritingView,
> {
    if writing.contains_key(path) {
        Some(writing[path])
    } else {
        None
    }
}

pub open spec fn state_view_of(committed: Option<State>) -> Option<StateView> {
    match committed {
        Some(c) => Some(c@),
        None => None,
    }
}

/// What admission decides for a request of `path`, `image`, `timestamp`
/// and `signatures` under the upload `keys`, given the configuration, the
/// admissions in progress and the committed state.
pub open spec fn request_decision(
    replace: bool,
    dirs: Seq<(Vec<u8>, Directory)>,
    path: Seq<Seq<u8>>,
    image: Seq<u8>,
    timestamp: u64,
    signatures: Seq<Seq<u8>>,
    keys: Seq<Seq<u8>>,
    writing: Map<Seq<Seq<u8>>, WritingView>,
    committed: Option<StateView>,
) -> Decision {
    decide(
        replace,
        lookup_dir(dirs, path[0]),
        path,
        image,
        entries_of(timestamp, signatures),
        signature_accepted(signing_message(join_segments(path), image, timestamp), signatures, keys),
        writing_of(writing, path),
        committed,
    )
}

impl Meta {
    /// The admissions in progress, by path.
    pub closed spec fn writing(&self) -> Map<Seq<Seq<u8>>, WritingView> {
        self.model@
    }

    pub closed spec fn config_dirs(&self) -> Seq<(Vec<u8>, Directory)> {
        self.config.dirs@
    }

    pub closed spec fn wf(&self) -> bool {
        let w = self.writing@;
        &&& self.config.wf()
        &&& forall|i: int, j: int|
            0 <= i < j < w.len() ==> (#[trigger] w[i]).0@ != (#[trigger] w[j]).0@
        &&& forall|i: int|
            0 <= i < w.len() ==> self.model@.contains_key((#[trigger] w[i]).0@) && self.model@[w[i].0@]
                == w[i].1@
        &&& forall|k: Seq<Seq<u8>>|
            #[trigger] self.model@.contains_key(k) ==> exists|i: int|
                0 <= i < w.len() && (#[trigger] w[i]).0@ == k
        &&& forall|k: Seq<Seq<u8>>|
            #[trigger] self.model@.contains_key(k) ==> strictly_sorted(self.model@[k].signatures)
    }

    /// The configuration of a well-formed service has each key once.
    pub proof fn lemma_config_unique(&self)
        requires
            self.wf(),
        ensures
            forall|a: int, b: int|
                0 <= a < b < self.config_dirs().len() ==> (#[trigger] self.config_dirs()[a]).0@ != (
                #[trigger] self.config_dirs()[b]).0@,
    {
    }

    /// Every admission in progress holds its signatures ascending, each once.
    pub proof fn lemma_writing_sorted(&self, path: Seq<Seq<u8>>)
        requires
            self.wf(),
            self.writing().contains_key(path),
        ensures
            strictly_sorted(self.writing()[path].signatures),
    {
    }

    /// A service over `config` with nothing in progress.
    pub fn new(config: Config) -> (r: Meta)
        requires
            config.wf(),
        ensures
            r.wf(),
            r.writing() == Map::<Seq<Seq<u8>>, WritingView>::empty(),
            r.config_dirs() == config.dirs@,
    {
        Meta { config, writing: Vec::new(), model: Ghost(Map::empty()) }
    }

    /// The settings of the directory configured under `key`.
    pub fn dir_config(&self, key: &[u8]) -> (r: Option<Directory>)
        ensures
            r == lookup_dir(self.config_dirs(), key@),
    {
        self.config.lookup(key)
    }

    /// Whether an admission for `path` is in progress.
    pub fn is_writing(&self, path: &VPath) -> (r: bool)
        requires
            self.wf(),
        ensures
            r == self.writing().contains_key(path@),
    {
        self.find(path).is_some()
    }

    fn find(&self, path: &VPath) -> (r: Option<usize>)
        requires
            self.wf(),
        ensures
            match r {
                Some(i) => i < self.writing@.len() && self.writing@[i as int].0@ == path@
                    && self.writing().contains_key(path@),
                None => !self.writing().contains_key(path@),
            },
    {
        let mut i: usize = 0;
        while i < self.writing.len()
            invariant
                self.wf(),
                0 <= i <= self.writing@.len(),
                forall|j: int| 0 <= j < i ==> (#[trigger] self.writing@[j]).0@ != path@,
            decreases self.writing@.len() - i,
        {
            if self.writing[i].0.same_path(path) {
                return Some(i);
            }
            i = i + 1;
        }
        None
    }

    pub(crate) fn start(
        &mut self,
        replace: bool,
        path: VPath,
        image: ImageId,
        timestamp: u64,
        signatures: Vec<Vec<u8>>,
        keys: &Vec<Vec<u8>>,
        committed: Option<State>,
    ) -> (r: Result<Admission, Error>)
        requires
            old(self).wf(),
            path.wf(),
            committed matches Some(c) ==> c.wf(),
        ensures
            final(self).wf(),
            final(self).config_dirs() == old(self).config_dirs(),
            carries_out(
                r,
                request_decision(
                    replace,
                    old(self).config_dirs(),
                    path@,
                    image@,
                    timestamp,
                    bytes_list(signatures@),
                    bytes_list(keys@),
                    old(self).writing(),
                    state_view_of(committed),
                ),
                path@,
                image@,
            ),
            final(self).writing() == writing_after(
                request_decision(
                    replace,
                    old(self).config_dirs(),
                    path@,
                    image@,
                    timestamp,
                    bytes_list(signatures@),
                    bytes_list(keys@),
                    old(self).writing(),
                    state_view_of(committed),
                ),
                old(self).writing(),
                path@,
            ),
    {
        let cfg = match self.config.lookup(path.key()) {
            Some(c) => c,
            None => {
                return Err(Error::PathNotFound(path));
            },
        };
        if path.level() != cfg.num_levels {
            return Err(Error::LevelMismatch(path.level(), cfg.num_levels));
        }
        if replace && cfg.append_only {
            return Ok(rejected(Rejection::DirIsAppendOnly));
        }
        let text = path.to_bytes();
        let message = encode_signing_message(text.as_slice(), image.bytes.as_slice(), timestamp);
        if !check_keys(message.as_slice(), &signatures, keys) {
            return Ok(rejected(Rejection::SignatureMismatch));
        }
        let entries = make_entries(timestamp, &signatures);
        Ok(self.settle(replace, path, image, entries, committed))
    }

    /// The in-memory step of admission, once the request is known to be
    /// configured and signed.
    fn settle(
        &mut self,
        replace: bool,
        path: VPath,
        image: ImageId,
        entries: Vec<SignatureEntry>,
        committed: Option<State>,
    ) -> (r: Admission)
        requires
            old(self).wf(),
            committed matches Some(c) ==> c.wf(),
        ensures
            final(self).wf(),
            final(self).config_dirs() == old(self).config_dirs(),
            carries_out(
                Ok(r),
                settle_decision(
                    replace,
                    image@,
                    entries_view(entries@),
                    writing_of(old(self).writing(), path@),
                    state_view_of(committed),
                ),
                path@,
                image@,
            ),
            final(self).writing() == writing_after(
                settle_decision(
                    replace,
                    image@,
                    entries_view(entries@),
                    writing_of(old(self).writing(), path@),
                    state_view_of(committed),
                ),
                old(self).writing(),
                path@,
            ),
    {
        match self.find(&path) {
            Some(i) => {
                if self.writing[i].1.image.same(&image) {
                    let ghost w = self.writing()[path@];
                    assert(w == self.writing@[i as int].1@);
                    let mut sigs = copy_entries(&self.writing[i].1.signatures);
                    append_signatures(&mut sigs, entries);
                    let replacing = self.writing[i].1.replacing;
                    let updated = Writing { image, signatures: sigs, replacing };
                    self.set_writing(i, updated);
                    Admission {
                        upload: Upload::Accepted(Accept::InProgress),
                        persist: Persist::Nothing,
                    }
                } else {
                    rejected(Rejection::AlreadyUploadingDifferentVersion)
                }
            },
            None => {
                match committed {
                    Some(c) => {
                        if c.image.same(&image) {
                            let mut sigs = c.signatures;
                            append_signatures(&mut sigs, entries);
                            let state = State { image, signatures: sigs };
                            Admission {
                                upload: Upload::Accepted(Accept::AlreadyDone),
                                persist: Persist::ReplaceState(state),
                            }
                        } else if replace {
                            self.insert_new(path, image, entries, true)
                        } else {
                            rejected(Rejection::AlreadyExists)
                        }
                    },
                    None => self.insert_new(path, image, entries, false),
                }
            },
        }
    }

    fn insert_new(&mut self, path: VPath, image: ImageId, entries: Vec<SignatureEntry>, replacing: bool) -> (r:
        Admission)
        requires
            old(self).wf(),
            !old(self).writing().contains_key(path@),
        ensures
            final(self).wf(),
            final(self).config_dirs() == old(self).config_dirs(),
            accepted_with(
                Ok(r),
                Accept::New,
                true,
                StateView { image: image@, signatures: merged(Seq::empty(), entries_view(entries@)) },
            ),
            final(self).writing() == old(self).writing().insert(
                path@,
                WritingView {
                    image: image@,
                    signatures: merged(Seq::empty(), entries_view(entries@)),
                    replacing,
                },
            ),
    {
        let state = State::new(image, entries);
        let w = Writing {
            image: state.image.copy(),
            signatures: copy_entries(&state.signatures),
            replacing,
        };
        let ghost old_w = self.writing@;
        let ghost key = path@;
        self.writing.push((path, w));
        self.model = Ghost(self.model@.insert(key, w@));
        assert forall|k: Seq<Seq<u8>>| #[trigger] self.model@.contains_key(k) implies exists|i: int|
            0 <= i < self.writing@.len() && (#[trigger] self.writing@[i]).0@ == k by {
            if k == key {
                assert(self.writing@[old_w.len() as int].0@ == k);
            } else {
                let i = choose|i: int| 0 <= i < old_w.len() && (#[trigger] old_w[i]).0@ == k;
                assert(self.writing@[i].0@ == k);
            }
        }
        Admission { upload: Upload::Accepted(Accept::New), persist: Persist::WriteNewState(state) }
    }

    fn set_writing(&mut self, i: usize, w: Writing)
        requires
            old(self).wf(),
            i < old(self).writing@.len(),
            strictly_sorted(w@.signatures),
        ensures
            final(self).wf(),
            final(self).config_dirs() == old(self).config_dirs(),
            final(self).writing() == old(self).writing().insert(old(self).writing@[i as int].0@, w@),
    {
        let path = self.writing[i].0.copy();
        let ghost key = path@;
        let ghost old_w = self.writing@;
        self.writing.set(i, (path, w));
        self.model = Ghost(self.model@.insert(key, w@));
        assert forall|k: Seq<Seq<u8>>| #[trigger] self.model@.contains_key(k) implies exists|j: int|
            0 <= j < self.writing@.len() && (#[trigger] self.writing@[j]).0@ == k by {
            let j = choose|j: int| 0 <= j < old_w.len() && (#[trigger] old_w[j]).0@ == k;
            assert(self.writing@[j].0@ == k);
        }
    }

    pub(crate) fn take(&mut self, path: &VPath) -> (r: Option<Writing>)
        requires
            old(self).wf(),
        ensures
            final(self).wf(),
            final(self).config_dirs() == old(self).config_dirs(),
            final(self).writing() == old(self).writing().remove(path@),
            match r {
                Some(w) => old(self).writing().contains_key(path@) && w@ == old(self).writing()[path@],
                None => !old(self).writing().contains_key(path@),
            },
    {
        match self.find(path) {
            None => {
                assert(self.model@.remove(path@) =~= self.model@);
                None
            },
            Some(i) => {
                let ghost old_w = self.writing@;
                let ghost key = path@;
                let (_p, w) = self.writing.remove(i);
                self.model = Ghost(self.model@.remove(key));
                assert forall|k: Seq<Seq<u8>>| #[trigger] self.model@.contains_key(k) implies exists|j: int|
                    0 <= j < self.writing@.len() && (#[trigger] self.writing@[j]).0@ == k by {
                    let j = choose|j: int| 0 <= j < old_w.len() && (#[trigger] old_w[j]).0@ == k;
                    if j < i {
                        assert(self.writing@[j].0@ == k);
                    } else {
                        assert(j != i);
                        assert(self.writing@[j - 1].0@ == k);
                    }
                }
                assert forall|a: int| 0 <= a < self.writing@.len() implies self.model@.contains_key(
                    (#[trigger] self.writing@[a]).0@,
                ) && self.model@[self.writing@[a].0@] == self.writing@[a].1@ by {
                    if a < i {
                        assert(self.writing@[a] == old_w[a]);
                    } else {
                        assert(self.writing@[a] == old_w[a + 1]);
                    }
                }
                Some(w)
            },
        }
    }
}

/// Admits an append of `params.image` at `params.path`, given the
/// upload keys of the path's directory and the state committed for the
/// path, if any.
pub fn start_append(params: AppendDir, meta: &mut Meta, keys: &Vec<Vec<u8>>, committed: Option<State>) -> (r:
    Result<Admission, Error>)
    requires
        old(meta).wf(),
        params.path.wf(),
        committed matches Some(c) ==> c.wf(),
    ensures
        final(meta).wf(),
        final(meta).config_dirs() == old(meta).config_dirs(),
        carries_out(
            r,
            request_decision(
                false,
                old(meta).config_dirs(),
                params.path@,
                params.image@,
                params.timestamp,
                bytes_list(params.signatures@),
                bytes_list(keys@),
                old(meta).writing(),
                state_view_of(committed),
            ),
            params.path@,
            params.image@,
        ),
        final(meta).writing() == writing_after(
            request_decision(
                false,
                old(meta).config_dirs(),
                params.path@,
                params.image@,
                params.timestamp,
                bytes_list(params.signatures@),
                bytes_list(keys@),
                old(meta).writing(),
                state_view_of(committed),
            ),
            old(meta).writing(),
            params.path@,
        ),
{
    meta.start(false, params.path, params.image, params.timestamp, params.signatures, keys, committed)
}

/// Admits a replace of whatever is at `params.path` by `params.image`,
/// given the upload keys of the path's directory and the state
/// committed for the path, if any.
pub fn start_replace(params: ReplaceDir, meta: &mut Meta, keys: &Vec<Vec<u8>>, committed: Option<State>) -> (r:
    Result<Admission, Error>)
    requires
        old(meta).wf(),
        params.path.wf(),
        committed matches Some(c) ==> c.wf(),
    ensures
        final(meta).wf(),
        final(meta).config_dirs() == old(meta).config_dirs(),
        carries_out(
            r,
            request_decision(
                true,
                old(meta).config_dirs(),
                params.path@,
                params.image@,
                params.timestamp,
                bytes_list(params.signatures@),
                bytes_list(keys@),
                old(meta).writing(),
                state_view_of(committed),
            ),
            params.path@,
            params.image@,
        ),
        final(meta).writing() == writing_after(
            request_decision(
                true,
                old(meta).config_dirs(),
                params.path@,
                params.image@,
                params.timestamp,
                bytes_list(params.signatures@),
                bytes_list(keys@),
                old(meta).writing(),
                state_view_of(committed),
            ),
            old(meta).writing(),
            params.path@,
        ),
{
    meta.start(true, params.path, params.image, params.timestamp, params.signatures, keys, committed)
}

/// Ends the admission in progress for `path` once its image is
/// committed on disk; `<final>.new.state` then becomes `<final>.state`.
/// Returns the admission ended, `None` where none was in progress.
pub fn commit_dir(path: &VPath, meta: &mut Meta) -> (r: Option<Writing>)
    requires
        old(meta).wf(),
    ensures
        final(meta).wf(),
        final(meta).config_dirs() == old(meta).config_dirs(),
        final(meta).writing() == old(meta).writing().remove(path@),
        match r {
            Some(w) => old(meta).writing().contains_key(path@) && w@ == old(meta).writing()[path@],
            None => !old(meta).writing().contains_key(path@),
        },
{
    meta.take(path)
}

/// Ends the admission in progress for `path` without committing it;
/// `<final>.new.state` is then removed. Returns the admission ended,
/// `None` where none was in progress.
pub fn abort_dir(path: &VPath, meta: &mut Meta) -> (r: Option<Writing>)
    requires
        old(meta).wf(),
    ensures
        final(meta).wf(),
        final(meta).config_dirs() == old(meta).config_dirs(),
        final(meta).writing() == old(meta).writing().remove(path@),
        match r {
            Some(w) => old(meta).writing().contains_key(path@) && w@ == old(meta).writing()[path@],
            None => !old(meta).writing().contains_key(path@),
        },
{
    meta.take(path)
}

/// A request whose path has another number of levels than its directory
/// asks for fails with `LevelMismatch`.
pub proof fn lemma_level_mismatch(
    replace: bool,
    dirs: Seq<(Vec<u8>, Directory)>,
    path: Seq<Seq<u8>>,
    image: Seq<u8>,
    timestamp: u64,
    signatures: Seq<Seq<u8>>,
    keys: Seq<Seq<u8>>,
    writing: Map<Seq<Seq<u8>>, WritingView>,
    committed: Option<StateView>,
)
    requires
        lookup_dir(dirs, path[0]) matches Some(c) && path.len() - 1 != c.num_levels,
    ensures
        request_decision(replace, dirs, path, image, timestamp, signatures, keys, writing, committed)
            == Decision::LevelMismatch(path.len() - 1, lookup_dir(dirs, path[0])->0.num_levels as int),
{
}

/// A replace in an append-only directory is rejected with
/// `dir_is_append_only`, whatever it carries.
pub proof fn lemma_replace_append_only(
    dirs: Seq<(Vec<u8>, Directory)>,
    path: Seq<Seq<u8>>,
    image: Seq<u8>,
    timestamp: u64,
    signatures: Seq<Seq<u8>>,
    keys: Seq<Seq<u8>>,
    writing: Map<Seq<Seq<u8>>, WritingView>,
    committed: Option<StateView>,
)
    requires
        lookup_dir(dirs, path[0]) matches Some(c) && path.len() - 1 == c.num_levels && c.append_only,
    ensures
        request_decision(true, dirs, path, image, timestamp, signatures, keys, writing, committed)
            == Decision::Reject(Rejection::DirIsAppendOnly),
{
}

/// A configured request none of whose signatures verifies under a key is
/// rejected with `signature_mismatch`, and changes nothing.
pub proof fn lemma_signature_mismatch(
    replace: bool,
    dirs: Seq<(Vec<u8>, Directory)>,
    path: Seq<Seq<u8>>,
    image: Seq<u8>,
    timestamp: u64,
    signatures: Seq<Seq<u8>>,
    keys: Seq<Seq<u8>>,
    writing: Map<Seq<Seq<u8>>, WritingView>,
    committed: Option<StateView>,
)
    requires
        lookup_dir(dirs, path[0]) matches Some(c) && path.len() - 1 == c.num_levels && !(replace
            && c.append_only),
        !signature_accepted(
            signing_message(join_segments(path), image, timestamp),
            signatures,
            keys,
        ),
    ensures
        request_decision(replace, dirs, path, image, timestamp, signatures, keys, writing, committed)
            == Decision::Reject(Rejection::SignatureMismatch),
        writing_after(
            request_decision(replace, dirs, path, image, timestamp, signatures, keys, writing, committed),
            writing,
            path,
        ) == writing,
{
}

/// An admissible request: configured, at the right level, allowed and signed.
pub open spec fn admissible(
    replace: bool,
    dirs: Seq<(Vec<u8>, Directory)>,
    path: Seq<Seq<u8>>,
    image: Seq<u8>,
    timestamp: u64,
    signatures: Seq<Seq<u8>>,
    keys: Seq<Seq<u8>>,
) -> bool {
    &&& lookup_dir(dirs, path[0]) matches Some(c) && path.len() - 1 == c.num_levels && !(replace
        && c.append_only)
    &&& signature_accepted(signing_message(join_segments(path), image, timestamp), signatures, keys)
}

/// An append of another image than the committed one, with nothing in
/// progress, is rejected with `already_exists`.
pub proof fn lemma_append_over_other_image(
    dirs: Seq<(Vec<u8>, Directory)>,
    path: Seq<Seq<u8>>,
    image: Seq<u8>,
    timestamp: u64,
    signatures: Seq<Seq<u8>>,
    keys: Seq<Seq<u8>>,
    writing: Map<Seq<Seq<u8>>, WritingView>,
    committed: StateView,
)
    requires
        admissible(false, dirs, path, image, timestamp, signatures, keys),
        !writing.contains_key(path),
        committed.image != image,
    ensures
        request_decision(false, dirs, path, image, timestamp, signatures, keys, writing, Some(committed))
            == Decision::Reject(Rejection::AlreadyExists),
{
}

/// Replaying an admissible append of the committed image, with nothing in
/// progress, answers `AlreadyDone`: it rewrites `.state` with the merged
/// signatures, writes no `.new.state` and starts no admission.
pub proof fn lemma_replay_committed(
    dirs: Seq<(Vec<u8>, Directory)>,
    path: Seq<Seq<u8>>,
    image: Seq<u8>,
    timestamp: u64,
    signatures: Seq<Seq<u8>>,
    keys: Seq<Seq<u8>>,
    writing: Map<Seq<Seq<u8>>, WritingView>,
    committed: StateView,
    r: Result<Admission, Error>,
)
    requires
        admissible(false, dirs, path, image, timestamp, signatures, keys),
        !writing.contains_key(path),
        committed.image == image,
        carries_out(
            r,
            request_decision(false, dirs, path, image, timestamp, signatures, keys, writing, Some(committed)),
            path,
            image,
        ),
    ensures
        r matches Ok(a) && a.upload == Upload::Accepted(Accept::AlreadyDone),
        r matches Ok(a) && !(a.persist is WriteNewState),
        writing_after(
            request_decision(false, dirs, path, image, timestamp, signatures, keys, writing, Some(committed)),
            writing,
            path,
        ) == writing,
{
}

/// Whenever admission asks for `.new.state` to be written, an admission is
/// in progress for the path afterwards.
pub proof fn lemma_new_state_has_writing(
    d: Decision,
    writing: Map<Seq<Seq<u8>>, WritingView>,
    path: Seq<Seq<u8>>,
    image: Seq<u8>,
    r: Result<Admission, Error>,
)
    requires
        carries_out(r, d, path, image),
    ensures
        (r matches Ok(a) && a.persist is WriteNewState) ==> writing_after(d, writing, path).contains_key(path),
{
}

/// Two admissible appends of the same image at the same path, the second
/// seeing what the first left: both are accepted, and only one starts a
/// new admission.
pub proof fn lemma_same_image_twice(
    dirs: Seq<(Vec<u8>, Directory)>,
    path: Seq<Seq<u8>>,
    image: Seq<u8>,
    timestamp: u64,
    signatures: Seq<Seq<u8>>,
    keys: Seq<Seq<u8>>,
    writing: Map<Seq<Seq<u8>>, WritingView>,
    committed: Option<StateView>,
)
    requires
        admissible(false, dirs, path, image, timestamp, signatures, keys),
    ensures
        ({
            let d1 = request_decision(false, dirs, path, image, timestamp, signatures, keys, writing, committed);
            let w1 = writing_after(d1, writing, path);
            let d2 = request_decision(false, dirs, path, image, timestamp, signatures, keys, w1, committed);
            &&& (d1 is New || d1 is InProgress || d1 is AlreadyDone) ==> (d2 is InProgress || d2 is AlreadyDone)
            &&& !(d1 is New && d2 is New)
            &&& (!writing.contains_key(path) && committed is None) ==> (d1 is New && d2 is InProgress)
        }),
{
}

/// Every state that admission asks to persist, and every admission it
/// leaves in progress, holds its signatures ascending, each once, where
/// those it started from did.
pub proof fn lemma_persisted_states_sorted(
    replace: bool,
    dirs: Seq<(Vec<u8>, Directory)>,
    path: Seq<Seq<u8>>,
    image: Seq<u8>,
    timestamp: u64,
    signatures: Seq<Seq<u8>>,
    keys: Seq<Seq<u8>>,
    writing: Map<Seq<Seq<u8>>, WritingView>,
    committed: Option<StateView>,
)
    requires
        forall|k: Seq<Seq<u8>>| #[trigger] writing.contains_key(k) ==> strictly_sorted(writing[k].signatures),
        committed matches Some(c) ==> strictly_sorted(c.signatures),
    ensures
        match request_decision(replace, dirs, path, image, timestamp, signatures, keys, writing, committed) {
            Decision::AlreadyDone(s) => strictly_sorted(s),
            Decision::InProgress(w) => strictly_sorted(w.signatures),
            Decision::New(w) => strictly_sorted(w.signatures),
            _ => true,
        },
{
    let entries = entries_of(timestamp, signatures);
    lemma_merged_sorted(Seq::empty(), entries);
    if writing.contains_key(path) {
        lemma_merged_sorted(writing[path].signatures, entries);
    }
    if let Some(c) = committed {
        lemma_merged_sorted(c.signatures, entries);
    }
}

} // verus!
