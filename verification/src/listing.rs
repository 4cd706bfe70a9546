//! The listing over all configured folders, and its pages.
//!
//! A [`ListingJob`] scans the configured folders one after the other, each
//! with a [`Scanner`], and gathers what the scans that succeed find. A
//! folder whose scan fails is passed over: it adds no record and is not
//! named among the folders of the listing.
use vstd::prelude::*;
use crate::config::{ConfigError, ResourceConfig};
use crate::image::{ImageInfo, ImageListResult, ImageRecord, ListingView};
use crate::order::{is_ordering_of, sort_newest_first};
use crate::scan::{
    DirRead, DirReadView, FileSystem, Scan, ScanState, Scanner, gained, reads_of_dir, scan_dir,
    start_comes_to_scan, supply_keeps_outcome,
};

verus! {

/// Why no listing could be begun.
#[derive(Clone, Copy, Debug, PartialEq, Eq, Structural)]
pub enum ListingError {
    /// The configuration could not be loaded.
    Config(ConfigError),
    /// The configuration names no folder to scan.
    NoRootsConfigured,
}

/// How deep a listing goes below each folder where the caller names no
/// bound.
pub const DEFAULT_MAX_DEPTH: usize = 3;

/// What the scans of some folders found: the records in the order in which
/// the walks met them, and the folders whose scan succeeded.
pub ghost struct Gathered {
    pub images: Seq<ImageRecord>,
    pub folders: Seq<Seq<char>>,
}

/// The folder of a scan, where it succeeded; nothing where it failed.
pub open spec fn scanned(root: Seq<char>, scan: Scan) -> Seq<Seq<char>> {
    match scan {
        Ok(_) => seq![root],
        Err(_) => Seq::empty(),
    }
}

/// What the scans of `roots` find on `fs`, taken in order, each down to
/// `max_depth` levels.
pub open spec fn gather(fs: FileSystem, roots: Seq<Seq<char>>, max_depth: nat) -> Gathered
    decreases roots.len(),
{
    if roots.len() == 0 {
        Gathered { images: Seq::empty(), folders: Seq::empty() }
    } else {
        let first = scan_dir(fs, roots[0], max_depth, 0);
        let rest = gather(fs, roots.drop_first(), max_depth);
        Gathered {
            images: gained(first) + rest.images,
            folders: scanned(roots[0], first) + rest.folders,
        }
    }
}

/// The number of directories that the scans of `roots` read on `fs`.
pub open spec fn reads_of_roots(fs: FileSystem, roots: Seq<Seq<char>>, max_depth: nat) -> nat
    decreases roots.len(),
{
    if roots.len() == 0 {
        0
    } else {
        reads_of_dir(fs, roots[0], max_depth, 0) + reads_of_roots(
            fs,
            roots.drop_first(),
            max_depth,
        )
    }
}

/// `listing` presents what was gathered: the same folders, the number of
/// all records, and the records most recently modified first.
pub open spec fn is_listing_of(listing: ListingView, gathered: Gathered) -> bool {
    &&& listing.folders == gathered.folders
    &&& listing.total == gathered.images.len()
    &&& is_ordering_of(listing.images, gathered.images)
}

/// The mathematical value of a [`ListingJob`].
pub ghost struct JobState {
    pub max_depth: nat,
    /// The configured folders.
    pub roots: Seq<Seq<char>>,
    /// Index of the folder that is being scanned; `roots.len()` once all
    /// are done.
    pub current: nat,
    /// The scan of that folder; `None` once all are done.
    pub scan: Option<ScanState>,
    /// What the folders before `current` gave.
    pub images: Seq<ImageRecord>,
    pub folders: Seq<Seq<char>>,
}

impl JobState {
    /// A scan is under way exactly while a folder is left, and that scan is
    /// waiting for a directory.
    pub open spec fn wf(self) -> bool {
        &&& self.current <= self.roots.len()
        &&& self.scan is Some <==> self.current < self.roots.len()
        &&& self.scan is Some ==> {
            &&& self.scan->0.wf()
            &&& self.scan->0.awaiting is Some
            &&& self.scan->0.max_depth == self.max_depth
        }
    }

    /// The state in which the listing over `roots` begins.
    pub open spec fn start(roots: Seq<Seq<char>>, max_depth: nat) -> JobState {
        JobState {
            max_depth,
            roots,
            current: 0,
            scan: if roots.len() > 0 {
                Some(ScanState::start(roots[0], max_depth))
            } else {
                None
            },
            images: Seq::empty(),
            folders: Seq::empty(),
        }
    }

    /// The directory that is to be read next; `None` once all folders are
    /// done.
    pub open spec fn awaiting(self) -> Option<Seq<char>> {
        match self.scan {
            Some(scan) => scan.awaiting,
            None => None,
        }
    }

    /// The state after the awaited directory has been read and gave
    /// `listing`. Where that ends the scan of the current folder, what it
    /// found is gathered and the next folder begins. A job that is done
    /// stays as it is.
    pub open spec fn supply(self, listing: DirReadView) -> JobState {
        match self.scan {
            None => self,
            Some(before) => {
                let scan = before.supply(listing);
                match scan.outcome {
                    None => JobState { scan: Some(scan), ..self },
                    Some(outcome) => {
                        let next = self.current + 1;
                        JobState {
                            max_depth: self.max_depth,
                            roots: self.roots,
                            current: next,
                            scan: if next < self.roots.len() {
                                Some(ScanState::start(self.roots[next as int], self.max_depth))
                            } else {
                                None
                            },
                            images: self.images + gained(outcome),
                            folders: self.folders + scanned(
                                self.roots[self.current as int],
                                outcome,
                            ),
                        }
                    },
                }
            },
        }
    }

    /// What has been gathered once all folders are done.
    pub open spec fn gathered(self) -> Gathered {
        Gathered { images: self.images, folders: self.folders }
    }

    /// What the job comes to gather from this state on, if every directory
    /// still to be read is read as `fs` has it.
    pub open spec fn gathered_on(self, fs: FileSystem) -> Gathered {
        match self.scan {
            None => self.gathered(),
            Some(scan) => {
                let outcome = scan.outcome_on(fs);
                let rest = gather(fs, self.roots.skip((self.current + 1) as int), self.max_depth);
                Gathered {
                    images: self.images + gained(outcome) + rest.images,
                    folders: self.folders + scanned(self.roots[self.current as int], outcome)
                        + rest.folders,
                }
            },
        }
    }

    /// The number of directories that are still to be read from this state
    /// on, if each is read as `fs` has it.
    pub open spec fn reads_left(self, fs: FileSystem) -> nat {
        match self.scan {
            None => 0,
            Some(scan) => scan.reads_left(fs) + reads_of_roots(
                fs,
                self.roots.skip((self.current + 1) as int),
                self.max_depth,
            ),
        }
    }

    /// The state after up to `steps` directories have been read as `fs` has
    /// them, each one handed in as it was asked for.
    pub open spec fn run(self, fs: FileSystem, steps: nat) -> JobState
        decreases steps,
    {
        if steps == 0 || self.awaiting() is None {
            self
        } else {
            self.supply(fs(self.awaiting()->0)).run(fs, (steps - 1) as nat)
        }
    }
}

/// A listing begins at what the scans of its folders give: what the
/// initial state comes to gather on `fs` is `gather` of the folders.
pub proof fn start_comes_to_gather(fs: FileSystem, roots: Seq<Seq<char>>, max_depth: nat)
    ensures
        JobState::start(roots, max_depth).wf(),
        JobState::start(roots, max_depth).gathered_on(fs) == gather(fs, roots, max_depth),
        JobState::start(roots, max_depth).reads_left(fs) == reads_of_roots(fs, roots, max_depth),
{
    let start = JobState::start(roots, max_depth);
    if roots.len() > 0 {
        start_comes_to_scan(fs, roots[0], max_depth);
        assert(roots.skip(1) =~= roots.drop_first());
        let first = scan_dir(fs, roots[0], max_depth, 0);
        let rest = gather(fs, roots.drop_first(), max_depth);
        assert(Seq::<ImageRecord>::empty() + gained(first) + rest.images =~= gained(first)
            + rest.images);
        assert(Seq::<Seq<char>>::empty() + scanned(roots[0], first) + rest.folders =~= scanned(
            roots[0],
            first,
        ) + rest.folders);
        assert(ScanState::reads_above(fs, max_depth, Seq::empty()) == 0);
    }
}

/// Handing in the awaited directory as `fs` has it keeps the state
/// well-formed, leaves one directory fewer to read, and does not change
/// what the job comes to gather on `fs`.
pub proof fn supply_keeps_gathered(state: JobState, fs: FileSystem)
    requires
        state.wf(),
        state.awaiting() is Some,
    ensures
        state.supply(fs(state.awaiting()->0)).wf(),
        state.supply(fs(state.awaiting()->0)).roots == state.roots,
        state.supply(fs(state.awaiting()->0)).max_depth == state.max_depth,
        state.supply(fs(state.awaiting()->0)).gathered_on(fs) == state.gathered_on(fs),
        state.supply(fs(state.awaiting()->0)).reads_left(fs) + 1 == state.reads_left(fs),
{
    let before = state.scan->0;
    let after = state.supply(fs(state.awaiting()->0));
    let scan = before.supply(fs(before.awaiting->0));
    supply_keeps_outcome(before, fs);
    if scan.outcome is Some {
        let outcome = scan.outcome->0;
        let next = state.current + 1;
        let later = state.roots.skip(next as int);
        assert(scan.reads_left(fs) == 0);
        if next < state.roots.len() {
            let root = state.roots[next as int];
            start_comes_to_scan(fs, root, state.max_depth);
            assert(later[0] == root);
            assert(later.drop_first() =~= state.roots.skip((next + 1) as int));
            let first = scan_dir(fs, root, state.max_depth, 0);
            let rest = gather(fs, state.roots.skip((next + 1) as int), state.max_depth);
            assert((state.images + gained(outcome)) + gained(first) + rest.images =~= state.images
                + gained(outcome) + (gained(first) + rest.images));
            assert((state.folders + scanned(state.roots[state.current as int], outcome)) + scanned(
                root,
                first,
            ) + rest.folders =~= state.folders + scanned(
                state.roots[state.current as int],
                outcome,
            ) + (scanned(root, first) + rest.folders));
            assert(ScanState::reads_above(fs, state.max_depth, Seq::empty()) == 0);
        } else {
            assert(later.len() == 0);
            assert(state.images + gained(outcome) + Seq::<ImageRecord>::empty() =~= state.images
                + gained(outcome));
            assert(state.folders + scanned(state.roots[state.current as int], outcome)
                + Seq::<Seq<char>>::empty() =~= state.folders + scanned(
                state.roots[state.current as int],
                outcome,
            ));
        }
    }
}

proof fn lemma_run_keeps_gathered(state: JobState, fs: FileSystem, steps: nat)
    requires
        state.wf(),
    ensures
        state.run(fs, steps).wf(),
        state.run(fs, steps).gathered_on(fs) == state.gathered_on(fs),
        state.run(fs, steps).reads_left(fs) == if steps <= state.reads_left(fs) {
            state.reads_left(fs) - steps
        } else {
            0
        },
    decreases steps,
{
    if steps > 0 && state.awaiting() is Some {
        supply_keeps_gathered(state, fs);
        lemma_run_keeps_gathered(state.supply(fs(state.awaiting()->0)), fs, (steps - 1) as nat);
    }
}

/// A listing that is driven by `fs` comes to an end: once as many
/// directories have been read as `reads_of_roots` counts, every folder is
/// done, and what has been gathered is `gather` of the folders on `fs`.
pub proof fn run_ends_in_gather(fs: FileSystem, roots: Seq<Seq<char>>, max_depth: nat)
    ensures
        JobState::start(roots, max_depth).run(
            fs,
            reads_of_roots(fs, roots, max_depth),
        ).awaiting() is None,
        JobState::start(roots, max_depth).run(
            fs,
            reads_of_roots(fs, roots, max_depth),
        ).gathered() == gather(fs, roots, max_depth),
{
    let start = JobState::start(roots, max_depth);
    start_comes_to_gather(fs, roots, max_depth);
    lemma_run_keeps_gathered(start, fs, reads_of_roots(fs, roots, max_depth));
}

/// The listing over the configured folders, as far as it has come.
pub struct ListingJob {
    max_depth: usize,
    roots: Vec<String>,
    current: usize,
    scanner: Option<Scanner>,
    images: Vec<ImageInfo>,
    folders: Vec<String>,
}

impl View for ListingJob {
    type V = JobState;

    closed spec fn view(&self) -> JobState {
        JobState {
            max_depth: self.max_depth as nat,
            roots: self.roots.deep_view(),
            current: self.current as nat,
            scan: match self.scanner {
                Some(scanner) => Some(scanner@),
                None => None,
            },
            images: self.images.deep_view(),
            folders: self.folders.deep_view(),
        }
    }
}

impl ListingJob {
    /// The invariant of a job.
    pub closed spec fn wf(&self) -> bool {
        &&& self@.wf()
        &&& self.scanner is Some ==> self.scanner->0.wf()
    }

    /// The directory that is to be read next, or `None` once every folder
    /// is done.
    pub fn awaiting(&self) -> (dir: Option<&String>)
        ensures
            match dir {
                Some(path) => self@.awaiting() == Some(path@),
                None => self@.awaiting() is None,
            },
    {
        match &self.scanner {
            Some(scanner) => scanner.awaiting(),
            None => None,
        }
    }

    /// Takes what reading the awaited directory gave. Where that ends the
    /// scan of the current folder, what it found is gathered, or dropped if
    /// the scan failed, and the next folder begins. A job that is done
    /// stays as it is.
    pub fn supply(&mut self, listing: DirRead)
        requires
            old(self).wf(),
        ensures
            final(self).wf(),
            final(self)@ == old(self)@.supply(listing@),
    {
        let taken = self.scanner.take();
        match taken {
            None => {},
            Some(scanner) => {
                let mut scanner = scanner;
                proof {
                    let fs = |path: Seq<char>| listing@;
                    supply_keeps_outcome(scanner@, fs);
                }
                assert(self.current < self.roots.len());
                scanner.supply(listing);
                if scanner.awaiting().is_some() {
                    self.scanner = Some(scanner);
                } else {
                    let ghost outcome = scanner@.outcome->0;
                    let ghost images = self.images.deep_view();
                    let ghost folders = self.folders.deep_view();
                    match scanner.outcome() {
                        Some(Ok(found)) => {
                            let mut found = found;
                            self.images.append(&mut found);
                            self.folders.push(self.roots[self.current].clone());
                            assert(self.images.deep_view() =~= images + gained(outcome));
                            assert(self.folders.deep_view() =~= folders + scanned(
                                self.roots.deep_view()[self.current as int],
                                outcome,
                            ));
                        },
                        _ => {
                            assert(self.images.deep_view() =~= images + gained(outcome));
                            assert(self.folders.deep_view() =~= folders + scanned(
                                self.roots.deep_view()[self.current as int],
                                outcome,
                            ));
                        },
                    }
                    self.current = self.current + 1;
                    if self.current < self.roots.len() {
                        self.scanner = Some(
                            Scanner::new(self.roots[self.current].clone(), self.max_depth),
                        );
                    }
                }
            },
        }
    }

    /// The listing, once every folder is done; `None` while a directory is
    /// still awaited.
    pub fn finish(self) -> (listing: Option<ImageListResult>)
        ensures
            match listing {
                Some(listing) => self@.scan is None && is_listing_of(listing@, self@.gathered()),
                None => self@.scan is Some,
            },
    {
        if self.scanner.is_some() {
            return None;
        }
        let images = sort_newest_first(self.images);
        let total = images.len();
        Some(ImageListResult { images, total, folders: self.folders })
    }
}

/// Begins the listing over the folders that a loaded configuration names,
/// entering subdirectories down to `max_depth` levels below each, or
/// [`DEFAULT_MAX_DEPTH`] where none is given. A configuration that could
/// not be loaded, or that names no folder, gives the error and no job.
pub fn get_image_list(loaded: Result<ResourceConfig, ConfigError>, max_depth: Option<usize>) -> (job:
    Result<ListingJob, ListingError>)
    ensures
        match loaded {
            Err(e) => job == Err::<ListingJob, ListingError>(ListingError::Config(e)),
            Ok(config) => if config@.filters.include_paths.len() == 0 {
                job == Err::<ListingJob, ListingError>(ListingError::NoRootsConfigured)
            } else {
                &&& job is Ok
                &&& job->Ok_0.wf()
                &&& job->Ok_0@ == JobState::start(
                    config@.filters.include_paths,
                    match max_depth {
                        Some(depth) => depth as nat,
                        None => DEFAULT_MAX_DEPTH as nat,
                    },
                )
            },
        },
{
    let config = match loaded {
        Err(e) => {
            return Err(ListingError::Config(e));
        },
        Ok(config) => config,
    };
    let roots = config.filters.include_paths;
    if roots.len() == 0 {
        return Err(ListingError::NoRootsConfigured);
    }
    let depth = match max_depth {
        Some(depth) => depth,
        None => DEFAULT_MAX_DEPTH,
    };
    let scanner = Scanner::new(roots[0].clone(), depth);
    let job = ListingJob {
        max_depth: depth,
        roots,
        current: 0,
        scanner: Some(scanner),
        images: Vec::new(),
        folders: Vec::new(),
    };
    assert(job.images.deep_view() =~= Seq::empty());
    assert(job.folders.deep_view() =~= Seq::empty());
    Ok(job)
}

/// The part of `images` that page number `page` shows, pages being counted
/// from 0 and holding `per_page` records each: nothing where the page
/// begins at or behind the end.
pub open spec fn page_of(images: Seq<ImageRecord>, page: nat, per_page: nat) -> Seq<ImageRecord> {
    let start = page * per_page;
    if start >= images.len() {
        Seq::empty()
    } else if start + per_page >= images.len() {
        images.subrange(start as int, images.len() as int)
    } else {
        images.subrange(start as int, (start + per_page) as int)
    }
}

/// Cuts one page out of a listing. The count of all records and the
/// folders stay as they are, also where the page lies behind the end and
/// shows nothing.
pub fn get_paginated_images(full: ImageListResult, page: usize, items_per_page: usize) -> (shown:
    ImageListResult)
    ensures
        shown@.images == page_of(full@.images, page as nat, items_per_page as nat),
        shown@.total == full@.total,
        shown@.folders == full@.folders,
{
    let ghost all = full.images.deep_view();
    let mut images = full.images;
    let start = match page.checked_mul(items_per_page) {
        Some(start) => start,
        None => images.len(),
    };
    let shown = if start >= images.len() {
        Vec::new()
    } else {
        let mut tail = images.split_off(start);
        tail.truncate(items_per_page);
        tail
    };
    assert(shown.deep_view() =~= page_of(all, page as nat, items_per_page as nat));
    ImageListResult { images: shown, total: full.total, folders: full.folders }
}

} // verus!
