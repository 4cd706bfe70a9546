//! The depth-bounded walk over one folder.
//!
//! Reading a directory is the caller's part. [`Scanner`] says which
//! directory it wants read next, takes what the reading gave, and decides
//! everything else: which subdirectories are entered, which files are
//! recorded, which failures end the scan of a directory and which are
//! passed over. [`scan_dir`] says what the walk amounts to on a file system
//! that answers every reading the same way.
use vstd::prelude::*;
use crate::image::{ImageInfo, ImageRecord, image_extension, image_extension_of};

verus! {

/// Why the scan of a directory was given up.
#[derive(Clone, Copy, Debug, PartialEq, Eq, Structural)]
pub enum ScanError {
    /// The path does not exist or is no directory.
    NotADirectory,
    /// The directory, or one of its entries, could not be read.
    ReadFailed,
    /// The metadata of an image file, or its modification time, could not
    /// be read.
    MetadataReadFailed,
    /// The modification time of an image file lies before the Unix epoch.
    TimeConversionFailed,
}

/// What reading the metadata of a file gave.
#[derive(Clone, Copy, Debug, PartialEq, Eq, Structural)]
pub enum FileStat {
    /// The metadata could not be read.
    Unavailable,
    /// The metadata holds no modification time.
    NoModifiedTime,
    /// The modification time lies before the Unix epoch.
    BeforeEpoch,
    /// Length in bytes, and modification time in whole seconds since the
    /// Unix epoch.
    Known { size: u64, modified: u64 },
}

/// One entry of a directory, as the caller observed it.
#[derive(Debug, PartialEq, Eq)]
pub enum DirEntry {
    /// Listing the directory raised an error at this position.
    Failed,
    /// A directory, or a link to one.
    Directory { path: String },
    /// A regular file, with its path, its base name and its metadata.
    File { path: String, name: String, stat: FileStat },
    /// Anything else.
    Other,
}

/// What reading a directory gave.
#[derive(Debug, PartialEq, Eq)]
pub enum DirRead {
    /// The path does not exist or is no directory.
    NotADirectory,
    /// The directory could not be opened for listing.
    Unreadable,
    /// Its entries, in the order in which the file system gave them.
    Entries(Vec<DirEntry>),
}

/// The mathematical value of a [`DirEntry`].
pub ghost enum EntryView {
    Failed,
    Directory { path: Seq<char> },
    File { path: Seq<char>, name: Seq<char>, stat: FileStat },
    Other,
}

/// The mathematical value of a [`DirRead`].
pub ghost enum DirReadView {
    NotADirectory,
    Unreadable,
    Entries(Seq<EntryView>),
}

impl DeepView for DirEntry {
    type V = EntryView;

    open spec fn deep_view(&self) -> EntryView {
        match self {
            DirEntry::Failed => EntryView::Failed,
            DirEntry::Directory { path } => EntryView::Directory { path: path@ },
            DirEntry::File { path, name, stat } => EntryView::File {
                path: path@,
                name: name@,
                stat: *stat,
            },
            DirEntry::Other => EntryView::Other,
        }
    }
}

impl View for DirEntry {
    type V = EntryView;

    open spec fn view(&self) -> EntryView {
        self.deep_view()
    }
}

impl View for DirRead {
    type V = DirReadView;

    open spec fn view(&self) -> DirReadView {
        match self {
            DirRead::NotADirectory => DirReadView::NotADirectory,
            DirRead::Unreadable => DirReadView::Unreadable,
            DirRead::Entries(entries) => DirReadView::Entries(entries.deep_view()),
        }
    }
}

/// The outcome of a scan: the records found, in the order in which the walk
/// met them, or the failure that ended it.
pub type Scan = Result<Seq<ImageRecord>, ScanError>;

/// A file system, as far as a scan is concerned: what reading the directory
/// at a path gives.
pub type FileSystem = spec_fn(Seq<char>) -> DirReadView;

/// What an entry contributes when the walk does not enter it. A file with
/// the name of an image contributes its record, and ends the scan of its
/// directory where its metadata cannot be had. A failed entry ends it too.
/// Every other entry contributes nothing.
pub open spec fn entry_images(entry: EntryView) -> Scan {
    match entry {
        EntryView::Failed => Err(ScanError::ReadFailed),
        EntryView::File { path, name, stat } => match image_extension(name) {
            None => Ok(Seq::empty()),
            Some(extension) => match stat {
                FileStat::Unavailable => Err(ScanError::MetadataReadFailed),
                FileStat::NoModifiedTime => Err(ScanError::MetadataReadFailed),
                FileStat::BeforeEpoch => Err(ScanError::TimeConversionFailed),
                FileStat::Known { size, modified } => Ok(
                    seq![ImageRecord { path, name, size, modified, extension }],
                ),
            },
        },
        _ => Ok(Seq::empty()),
    }
}

/// The walk enters `entry`, met in a directory at `depth`: it is a
/// directory, and the directory that holds it lies above the bound.
pub open spec fn enters(entry: EntryView, max_depth: nat, depth: nat) -> bool {
    entry is Directory && depth < max_depth
}

/// What a subdirectory contributes to the directory that holds it: its
/// records, or nothing where its own scan was given up.
pub open spec fn gained(sub: Scan) -> Seq<ImageRecord> {
    match sub {
        Ok(images) => images,
        Err(_) => Seq::empty(),
    }
}

/// `images`, followed by what `rest` holds, unless `rest` is a failure.
pub open spec fn followed_by(images: Seq<ImageRecord>, rest: Scan) -> Scan {
    match rest {
        Ok(more) => Ok(images + more),
        Err(e) => Err(e),
    }
}

/// The scan of the directory at `dir`, which lies `depth` levels below the
/// folder where the walk began. The folder itself is at depth 0, and no
/// directory below `max_depth` is read.
pub open spec fn scan_dir(fs: FileSystem, dir: Seq<char>, max_depth: nat, depth: nat) -> Scan
    decreases max_depth - depth, 1nat, 0nat,
{
    match fs(dir) {
        DirReadView::NotADirectory => Err(ScanError::NotADirectory),
        DirReadView::Unreadable => Err(ScanError::ReadFailed),
        DirReadView::Entries(entries) => scan_entries(fs, entries, max_depth, depth),
    }
}

/// The scan of `entries`, which are what is left of a directory at `depth`.
/// Entries are taken in order. The first failure ends the scan of the
/// directory, except that a subdirectory whose own scan fails is passed
/// over.
pub open spec fn scan_entries(
    fs: FileSystem,
    entries: Seq<EntryView>,
    max_depth: nat,
    depth: nat,
) -> Scan
    decreases max_depth - depth, 0nat, entries.len(),
{
    if entries.len() == 0 {
        Ok(Seq::empty())
    } else {
        let found = if enters(entries[0], max_depth, depth) {
            Ok(gained(scan_dir(fs, entries[0]->Directory_path, max_depth, depth + 1)))
        } else {
            entry_images(entries[0])
        };
        match found {
            Err(e) => Err(e),
            Ok(images) => followed_by(
                images,
                scan_entries(fs, entries.drop_first(), max_depth, depth),
            ),
        }
    }
}

/// The number of directories that the scan of the directory at `dir` reads,
/// that directory being the first of them.
pub open spec fn reads_of_dir(fs: FileSystem, dir: Seq<char>, max_depth: nat, depth: nat) -> nat
    decreases max_depth - depth, 1nat, 0nat,
{
    match fs(dir) {
        DirReadView::Entries(entries) => 1 + reads_of_entries(fs, entries, max_depth, depth),
        _ => 1,
    }
}

/// The number of directories that the scan of `entries` reads.
pub open spec fn reads_of_entries(
    fs: FileSystem,
    entries: Seq<EntryView>,
    max_depth: nat,
    depth: nat,
) -> nat
    decreases max_depth - depth, 0nat, entries.len(),
{
    if entries.len() == 0 {
        0
    } else if enters(entries[0], max_depth, depth) {
        reads_of_dir(fs, entries[0]->Directory_path, max_depth, depth + 1) + reads_of_entries(
            fs,
            entries.drop_first(),
            max_depth,
            depth,
        )
    } else if entry_images(entries[0]) is Err {
        0
    } else {
        reads_of_entries(fs, entries.drop_first(), max_depth, depth)
    }
}

/// A directory whose scan waits for one of its subdirectories: the entries
/// that come after that subdirectory, and the records found before it.
pub ghost struct FrameView {
    pub rest: Seq<EntryView>,
    pub images: Seq<ImageRecord>,
}

/// The mathematical value of a [`Scanner`].
///
/// `suspended` holds the directories on the way from the folder where the
/// walk began down to the one that is read next, outermost first: the one
/// at index `i` lies at depth `i`, and the one that is read next at depth
/// `suspended.len()`.
pub ghost struct ScanState {
    pub max_depth: nat,
    pub suspended: Seq<FrameView>,
    /// The directory that is to be read next; `None` once the scan is over.
    pub awaiting: Option<Seq<char>>,
    /// The outcome, once the scan is over.
    pub outcome: Option<Scan>,
}

impl ScanState {
    /// The scan is either waiting for a directory above the bound, or over
    /// with nothing suspended.
    pub open spec fn wf(self) -> bool {
        &&& self.awaiting is Some <==> self.outcome is None
        &&& self.awaiting is Some ==> self.suspended.len() <= self.max_depth
        &&& self.outcome is Some ==> self.suspended.len() == 0
    }

    /// The state in which a scan of `root` begins.
    pub open spec fn start(root: Seq<char>, max_depth: nat) -> ScanState {
        ScanState { max_depth, suspended: Seq::empty(), awaiting: Some(root), outcome: None }
    }

    /// The state reached by going on with `frame`, the directory below
    /// `suspended`, up to the next subdirectory that is entered or the end
    /// of the scan.
    pub open spec fn walk(max_depth: nat, suspended: Seq<FrameView>, frame: FrameView) -> ScanState
        decreases suspended.len(), frame.rest.len() + 1,
    {
        if frame.rest.len() == 0 {
            Self::close(max_depth, suspended, Ok(frame.images))
        } else {
            let entry = frame.rest[0];
            let rest = frame.rest.drop_first();
            if enters(entry, max_depth, suspended.len()) {
                ScanState {
                    max_depth,
                    suspended: suspended.push(FrameView { rest, images: frame.images }),
                    awaiting: Some(entry->Directory_path),
                    outcome: None,
                }
            } else {
                match entry_images(entry) {
                    Err(e) => Self::close(max_depth, suspended, Err(e)),
                    Ok(images) => Self::walk(
                        max_depth,
                        suspended,
                        FrameView { rest, images: frame.images + images },
                    ),
                }
            }
        }
    }

    /// The state reached once the scan of the directory below `suspended`
    /// has ended in `result`: the scan is over if that was the folder where
    /// it began, and goes on with the directory above it otherwise.
    pub open spec fn close(max_depth: nat, suspended: Seq<FrameView>, result: Scan) -> ScanState
        decreases suspended.len(), 0nat,
    {
        if suspended.len() == 0 {
            ScanState { max_depth, suspended, awaiting: None, outcome: Some(result) }
        } else {
            let parent = suspended.last();
            Self::walk(
                max_depth,
                suspended.drop_last(),
                FrameView { rest: parent.rest, images: parent.images + gained(result) },
            )
        }
    }

    /// The state after the directory that was awaited has been read and
    /// gave `listing`. A scan that is over stays as it is.
    pub open spec fn supply(self, listing: DirReadView) -> ScanState {
        if self.awaiting is None {
            self
        } else {
            match listing {
                DirReadView::NotADirectory => Self::close(
                    self.max_depth,
                    self.suspended,
                    Err(ScanError::NotADirectory),
                ),
                DirReadView::Unreadable => Self::close(
                    self.max_depth,
                    self.suspended,
                    Err(ScanError::ReadFailed),
                ),
                DirReadView::Entries(entries) => Self::walk(
                    self.max_depth,
                    self.suspended,
                    FrameView { rest: entries, images: Seq::empty() },
                ),
            }
        }
    }
}

impl ScanState {
    /// What the scan comes to once the directory below `suspended` has
    /// ended in `result`, if every directory still to be read is read as
    /// `fs` has it.
    pub open spec fn resume(
        fs: FileSystem,
        max_depth: nat,
        suspended: Seq<FrameView>,
        result: Scan,
    ) -> Scan
        decreases suspended.len(),
    {
        if suspended.len() == 0 {
            result
        } else {
            let parent = suspended.last();
            let depth = (suspended.len() - 1) as nat;
            Self::resume(
                fs,
                max_depth,
                suspended.drop_last(),
                followed_by(
                    parent.images + gained(result),
                    scan_entries(fs, parent.rest, max_depth, depth),
                ),
            )
        }
    }

    /// The outcome that the scan comes to from this state, if every
    /// directory still to be read is read as `fs` has it.
    pub open spec fn outcome_on(self, fs: FileSystem) -> Scan {
        match self.outcome {
            Some(result) => result,
            None => Self::resume(
                fs,
                self.max_depth,
                self.suspended,
                scan_dir(fs, self.awaiting->0, self.max_depth, self.suspended.len()),
            ),
        }
    }

    /// The number of directories that the directories in `suspended` still
    /// have to read once they go on.
    pub open spec fn reads_above(fs: FileSystem, max_depth: nat, suspended: Seq<FrameView>) -> nat
        decreases suspended.len(),
    {
        if suspended.len() == 0 {
            0
        } else {
            Self::reads_above(fs, max_depth, suspended.drop_last()) + reads_of_entries(
                fs,
                suspended.last().rest,
                max_depth,
                (suspended.len() - 1) as nat,
            )
        }
    }

    /// The number of directories that are still to be read from this state
    /// on, if each is read as `fs` has it.
    pub open spec fn reads_left(self, fs: FileSystem) -> nat {
        if self.awaiting is None {
            0
        } else {
            reads_of_dir(fs, self.awaiting->0, self.max_depth, self.suspended.len())
                + Self::reads_above(fs, self.max_depth, self.suspended)
        }
    }

    /// The state after up to `steps` directories have been read as `fs` has
    /// them, each one handed in as it was asked for.
    pub open spec fn run(self, fs: FileSystem, steps: nat) -> ScanState
        decreases steps,
    {
        if steps == 0 || self.awaiting is None {
            self
        } else {
            self.supply(fs(self.awaiting->0)).run(fs, (steps - 1) as nat)
        }
    }
}

proof fn lemma_walk(fs: FileSystem, max_depth: nat, suspended: Seq<FrameView>, frame: FrameView)
    requires
        suspended.len() <= max_depth,
    ensures
        ScanState::walk(max_depth, suspended, frame).reads_left(fs) == ScanState::reads_above(
            fs,
            max_depth,
            suspended,
        ) + reads_of_entries(fs, frame.rest, max_depth, suspended.len()),
        ScanState::walk(max_depth, suspended, frame).wf(),
        ScanState::walk(max_depth, suspended, frame).max_depth == max_depth,
        ScanState::walk(max_depth, suspended, frame).outcome_on(fs) == ScanState::resume(
            fs,
            max_depth,
            suspended,
            followed_by(frame.images, scan_entries(fs, frame.rest, max_depth, suspended.len())),
        ),
    decreases suspended.len(), frame.rest.len() + 1,
{
    let depth = suspended.len();
    if frame.rest.len() == 0 {
        lemma_close(fs, max_depth, suspended, Ok(frame.images));
        assert(frame.images + Seq::<ImageRecord>::empty() =~= frame.images);
    } else {
        let entry = frame.rest[0];
        let rest = frame.rest.drop_first();
        let tail = scan_entries(fs, rest, max_depth, depth);
        if enters(entry, max_depth, depth) {
            let sub = scan_dir(fs, entry->Directory_path, max_depth, depth + 1);
            let below = suspended.push(FrameView { rest, images: frame.images });
            assert(below.drop_last() =~= suspended);
            assert(below.last() == FrameView { rest, images: frame.images });
            match tail {
                Ok(more) => {
                    assert((frame.images + gained(sub)) + more =~= frame.images + (gained(sub) + more));
                },
                Err(_) => {},
            }
        } else {
            match entry_images(entry) {
                Err(e) => {
                    lemma_close(fs, max_depth, suspended, Err(e));
                },
                Ok(images) => {
                    lemma_walk(
                        fs,
                        max_depth,
                        suspended,
                        FrameView { rest, images: frame.images + images },
                    );
                    match tail {
                        Ok(more) => {
                            assert((frame.images + images) + more =~= frame.images + (images + more));
                        },
                        Err(_) => {},
                    }
                },
            }
        }
    }
}

proof fn lemma_close(fs: FileSystem, max_depth: nat, suspended: Seq<FrameView>, result: Scan)
    requires
        suspended.len() <= max_depth,
    ensures
        ScanState::close(max_depth, suspended, result).reads_left(fs) == ScanState::reads_above(
            fs,
            max_depth,
            suspended,
        ),
        ScanState::close(max_depth, suspended, result).wf(),
        ScanState::close(max_depth, suspended, result).max_depth == max_depth,
        ScanState::close(max_depth, suspended, result).outcome_on(fs) == ScanState::resume(
            fs,
            max_depth,
            suspended,
            result,
        ),
    decreases suspended.len(), 0nat,
{
    if suspended.len() > 0 {
        let parent = suspended.last();
        lemma_walk(
            fs,
            max_depth,
            suspended.drop_last(),
            FrameView { rest: parent.rest, images: parent.images + gained(result) },
        );
    }
}

/// At the bound nothing below is looked at: the scan of what a directory at
/// depth `max_depth` holds reads no directory, and is the same on every
/// file system.
pub proof fn bound_stops_descent(
    fs: FileSystem,
    other: FileSystem,
    entries: Seq<EntryView>,
    max_depth: nat,
)
    ensures
        reads_of_entries(fs, entries, max_depth, max_depth) == 0,
        scan_entries(fs, entries, max_depth, max_depth) == scan_entries(
            other,
            entries,
            max_depth,
            max_depth,
        ),
    decreases entries.len(),
{
    if entries.len() > 0 {
        bound_stops_descent(fs, other, entries.drop_first(), max_depth);
    }
}

/// A scan begins at what the recursive scan of its folder gives: the
/// outcome that the initial state comes to on `fs` is `scan_dir` of the
/// folder at depth 0.
pub proof fn start_comes_to_scan(fs: FileSystem, root: Seq<char>, max_depth: nat)
    ensures
        ScanState::start(root, max_depth).wf(),
        ScanState::start(root, max_depth).outcome_on(fs) == scan_dir(fs, root, max_depth, 0),
{
}

/// Handing in the awaited directory as `fs` has it keeps the state
/// well-formed and does not change the outcome that the scan comes to on
/// `fs`.
pub proof fn supply_keeps_outcome(state: ScanState, fs: FileSystem)
    requires
        state.wf(),
        state.awaiting is Some,
    ensures
        state.supply(fs(state.awaiting->0)).wf(),
        state.supply(fs(state.awaiting->0)).max_depth == state.max_depth,
        state.supply(fs(state.awaiting->0)).outcome_on(fs) == state.outcome_on(fs),
        state.supply(fs(state.awaiting->0)).reads_left(fs) + 1 == state.reads_left(fs),
{
    match fs(state.awaiting->0) {
        DirReadView::NotADirectory => {
            lemma_close(fs, state.max_depth, state.suspended, Err(ScanError::NotADirectory));
        },
        DirReadView::Unreadable => {
            lemma_close(fs, state.max_depth, state.suspended, Err(ScanError::ReadFailed));
        },
        DirReadView::Entries(entries) => {
            lemma_walk(
                fs,
                state.max_depth,
                state.suspended,
                FrameView { rest: entries, images: Seq::empty() },
            );
            match scan_entries(fs, entries, state.max_depth, state.suspended.len()) {
                Ok(more) => {
                    assert(Seq::<ImageRecord>::empty() + more =~= more);
                },
                Err(_) => {},
            }
        },
    }
}

/// A scan that is driven by `fs` and comes to an end ends in what the
/// recursive scan of its folder gives on `fs`, however many directories it
/// took.
pub proof fn finished_run_is_scan(fs: FileSystem, root: Seq<char>, max_depth: nat, steps: nat)
    ensures
        ScanState::start(root, max_depth).run(fs, steps).outcome is Some
            ==> ScanState::start(root, max_depth).run(fs, steps).outcome == Some(
            scan_dir(fs, root, max_depth, 0),
        ),
{
    let start = ScanState::start(root, max_depth);
    start_comes_to_scan(fs, root, max_depth);
    lemma_run_keeps_outcome(start, fs, steps);
}

/// A scan that is driven by `fs` comes to an end: once as many directories
/// have been read as `reads_of_dir` counts for its folder, it is over, and
/// its outcome is what the recursive scan of the folder gives on `fs`.
pub proof fn run_ends_in_scan(fs: FileSystem, root: Seq<char>, max_depth: nat)
    ensures
        ScanState::start(root, max_depth).run(
            fs,
            reads_of_dir(fs, root, max_depth, 0),
        ).outcome == Some(scan_dir(fs, root, max_depth, 0)),
{
    let start = ScanState::start(root, max_depth);
    let steps = reads_of_dir(fs, root, max_depth, 0);
    start_comes_to_scan(fs, root, max_depth);
    lemma_run_keeps_outcome(start, fs, steps);
}

proof fn lemma_run_keeps_outcome(state: ScanState, fs: FileSystem, steps: nat)
    requires
        state.wf(),
    ensures
        state.run(fs, steps).wf(),
        state.run(fs, steps).outcome_on(fs) == state.outcome_on(fs),
        state.run(fs, steps).reads_left(fs) == if steps <= state.reads_left(fs) {
            state.reads_left(fs) - steps
        } else {
            0
        },
    decreases steps,
{
    if steps > 0 && state.awaiting is Some {
        supply_keeps_outcome(state, fs);
        lemma_run_keeps_outcome(state.supply(fs(state.awaiting->0)), fs, (steps - 1) as nat);
    }
}

/// The mathematical value of an outcome.
pub open spec fn scan_view(result: Result<Vec<ImageInfo>, ScanError>) -> Scan {
    match result {
        Ok(images) => Ok(images.deep_view()),
        Err(e) => Err(e),
    }
}

struct Frame {
    entries: Vec<DirEntry>,
    next: usize,
    images: Vec<ImageInfo>,
}

impl View for Frame {
    type V = FrameView;

    closed spec fn view(&self) -> FrameView {
        FrameView {
            rest: self.entries.deep_view().skip(self.next as int),
            images: self.images.deep_view(),
        }
    }
}

enum Work {
    Walk(Frame),
    Close(Result<Vec<ImageInfo>, ScanError>),
}

/// The walk over one folder, as far as it has come.
pub struct Scanner {
    max_depth: usize,
    suspended: Vec<Frame>,
    awaiting: Option<String>,
    outcome: Option<Result<Vec<ImageInfo>, ScanError>>,
}

impl Work {
    /// The state that this piece of work leads to, below `suspended`.
    spec fn target(self, max_depth: nat, suspended: Seq<FrameView>) -> ScanState {
        match self {
            Work::Walk(frame) => ScanState::walk(max_depth, suspended, frame@),
            Work::Close(result) => ScanState::close(max_depth, suspended, scan_view(result)),
        }
    }

    spec fn wf(self) -> bool {
        match self {
            Work::Walk(frame) => frame.next <= frame.entries.len(),
            Work::Close(_) => true,
        }
    }

    /// How much is left to do at the current level.
    spec fn left(self) -> nat {
        match self {
            Work::Walk(frame) => (frame.entries.len() - frame.next + 1) as nat,
            Work::Close(_) => 0,
        }
    }
}

spec fn frame_views(frames: Seq<Frame>) -> Seq<FrameView> {
    Seq::new(frames.len(), |i: int| frames[i]@)
}

spec fn frames_wf(frames: Seq<Frame>) -> bool {
    forall|i: int| 0 <= i < frames.len() ==> (#[trigger] frames[i]).next <= frames[i].entries.len()
}

impl View for Scanner {
    type V = ScanState;

    closed spec fn view(&self) -> ScanState {
        ScanState {
            max_depth: self.max_depth as nat,
            suspended: frame_views(self.suspended@),
            awaiting: match self.awaiting {
                Some(path) => Some(path@),
                None => None,
            },
            outcome: match self.outcome {
                Some(result) => Some(scan_view(result)),
                None => None,
            },
        }
    }
}

impl Scanner {
    /// The invariant of a scanner.
    pub closed spec fn wf(&self) -> bool {
        &&& self@.wf()
        &&& frames_wf(self.suspended@)
    }

    /// Begins the scan of the folder at `root`, entering subdirectories
    /// down to `max_depth` levels below it.
    pub fn new(root: String, max_depth: usize) -> (scanner: Scanner)
        ensures
            scanner.wf(),
            scanner@.wf(),
            scanner@ == ScanState::start(root@, max_depth as nat),
    {
        let scanner = Scanner { max_depth, suspended: Vec::new(), awaiting: Some(root), outcome: None };
        assert(frame_views(scanner.suspended@) =~= Seq::empty());
        scanner
    }

    /// The directory that is to be read next, or `None` once the scan is
    /// over.
    pub fn awaiting(&self) -> (dir: Option<&String>)
        ensures
            match dir {
                Some(path) => self@.awaiting == Some(path@),
                None => self@.awaiting is None,
            },
    {
        self.awaiting.as_ref()
    }

    /// Takes what reading the awaited directory gave, and goes on up to
    /// the next directory that has to be read or to the end of the scan.
    /// A scan that is over stays as it is.
    pub fn supply(&mut self, listing: DirRead)
        requires
            old(self).wf(),
        ensures
            final(self).wf(),
            final(self)@.wf(),
            final(self)@ == old(self)@.supply(listing@),
    {
        if self.awaiting.is_none() {
            return ;
        }
        self.awaiting = None;
        let mut work = match listing {
            DirRead::NotADirectory => Work::Close(Err(ScanError::NotADirectory)),
            DirRead::Unreadable => Work::Close(Err(ScanError::ReadFailed)),
            DirRead::Entries(entries) => {
                let frame = Frame { entries, next: 0, images: Vec::new() };
                assert(frame@.rest =~= entries.deep_view());
                assert(frame@.images =~= Seq::empty());
                Work::Walk(frame)
            },
        };
        let ghost goal = old(self)@.supply(listing@);
        loop
            invariant_except_break
                self.max_depth == old(self).max_depth,
                self.awaiting is None,
                self.outcome is None,
                frames_wf(self.suspended@),
                self.suspended@.len() <= self.max_depth,
                work.wf(),
                work.target(self.max_depth as nat, frame_views(self.suspended@)) == goal,
            ensures
                self.wf(),
                self@ == goal,
            decreases self.suspended@.len(), work.left(),
        {
            let ghost above = frame_views(self.suspended@);
            match work {
                Work::Close(result) => {
                    match self.suspended.pop() {
                        None => {
                            assert(frame_views(self.suspended@) =~= above);
                            self.outcome = Some(result);
                            break ;
                        },
                        Some(parent) => {
                            let mut parent = parent;
                            assert(frame_views(self.suspended@) =~= above.drop_last());
                            assert(parent@ == above.last());
                            if let Ok(images) = result {
                                let mut images = images;
                                let ghost before = parent.images.deep_view();
                                let ghost added = images.deep_view();
                                parent.images.append(&mut images);
                                assert(parent.images.deep_view() =~= before + added);
                            } else {
                                assert(parent.images.deep_view() + Seq::<ImageRecord>::empty()
                                    =~= parent.images.deep_view());
                            }
                            work = Work::Walk(parent);
                        },
                    }
                },
                Work::Walk(frame) => {
                    let mut frame = frame;
                    if frame.next >= frame.entries.len() {
                        assert(frame@.rest.len() == 0);
                        work = Work::Close(Ok(frame.images));
                    } else {
                        let ghost before = frame@;
                        let i = frame.next;
                        frame.next = i + 1;
                        assert(before.rest[0] == frame.entries[i as int].deep_view());
                        assert(frame@.rest =~= before.rest.drop_first());
                        assert(frame@.images == before.images);
                        match &frame.entries[i] {
                            DirEntry::Failed => {
                                work = Work::Close(Err(ScanError::ReadFailed));
                            },
                            DirEntry::Other => {
                                assert(before.images + Seq::<ImageRecord>::empty() =~= before.images);
                                work = Work::Walk(frame);
                            },
                            DirEntry::Directory { path } => {
                                if self.suspended.len() < self.max_depth {
                                    let dir = path.clone();
                                    self.suspended.push(frame);
                                    self.awaiting = Some(dir);
                                    assert(frame_views(self.suspended@) =~= above.push(frame@));
                                    break ;
                                } else {
                                    assert(before.images + Seq::<ImageRecord>::empty() =~= before.images);
                                    work = Work::Walk(frame);
                                }
                            },
                            DirEntry::File { path, name, stat } => {
                                match image_extension_of(name.as_str()) {
                                    None => {
                                        assert(before.images + Seq::<ImageRecord>::empty() =~= before.images);
                                        work = Work::Walk(frame);
                                    },
                                    Some(extension) => match stat {
                                        FileStat::Unavailable => {
                                            work = Work::Close(Err(ScanError::MetadataReadFailed));
                                        },
                                        FileStat::NoModifiedTime => {
                                            work = Work::Close(Err(ScanError::MetadataReadFailed));
                                        },
                                        FileStat::BeforeEpoch => {
                                            work = Work::Close(Err(ScanError::TimeConversionFailed));
                                        },
                                        FileStat::Known { size, modified } => {
                                            let image = ImageInfo {
                                                path: path.clone(),
                                                name: name.clone(),
                                                size: *size,
                                                modified: *modified,
                                                extension,
                                            };
                                            frame.images.push(image);
                                            assert(frame.images.deep_view() =~= before.images + seq![image@]);
                                            work = Work::Walk(frame);
                                        },
                                    },
                                }
                            },
                        }
                    }
                },
            }
        }
    }

    /// The outcome of the scan, or `None` while it is not over.
    pub fn outcome(self) -> (outcome: Option<Result<Vec<ImageInfo>, ScanError>>)
        ensures
            match outcome {
                Some(result) => self@.outcome == Some(scan_view(result)),
                None => self@.outcome is None,
            },
    {
        self.outcome
    }
}

} // verus!
