//! Walking a directory tree, one file-system operation at a time.
//!
//! A [`Walker`] never touches the file system. It hands out a [`Request`],
//! the caller carries it out and answers with an [`Event`], and
//! [`Walker::step`] decides what comes next. Results leave the walk as
//! requests too: [`Request::Matches`] for a file that was searched,
//! [`Request::Failure`] for an entry that could not be, each answered with
//! [`Event::Delivered`].
//!
//! Only one failure ends the walk with an error: the root itself cannot be
//! examined. Every other failure is handed out as a [`Request::Failure`] and
//! the walk goes on with the next entry.

use vstd::prelude::*;
use std::path::PathBuf;
use crate::matcher::{search_file, search_outcome, Match, MatchView, SearchError, records};

verus! {

/// What a path turned out to be.
#[derive(Debug, Clone, Copy, PartialEq, Eq)]
pub enum EntryKind {
    Directory,
    File,
    /// Neither a directory nor a regular file; such an entry is passed over.
    Other,
}

/// The caller's answer to a request. Failures carry the file system's message.
#[derive(Debug, PartialEq, Eq)]
pub enum Event {
    /// Answers [`Request::Stat`].
    Stat(Result<EntryKind, String>),
    /// Answers [`Request::List`]: the directory's entries in the order the
    /// file system gave them, each a path or the failure to read that entry.
    Listing(Result<Vec<Result<PathBuf, String>>, String>),
    /// Answers [`Request::Read`]: the file's bytes.
    Content(Result<Vec<u8>, String>),
    /// Answers [`Request::Matches`] and [`Request::Failure`].
    Delivered,
}

/// What the walk asks of its caller next.
#[derive(Debug, PartialEq, Eq)]
pub enum Request {
    /// Find out what kind of entry the path is.
    Stat(PathBuf),
    /// List the directory's direct entries.
    List(PathBuf),
    /// Read the whole file.
    Read(PathBuf),
    /// Take the records of the file at this path, possibly none.
    Matches(PathBuf, Vec<Match>),
    /// Take the failure met at this path.
    Failure(PathBuf, SearchError),
    /// The walk is over, with this result.
    Finished(Result<(), SearchError>),
}

/// A request with its records as plain values.
pub enum RequestView {
    Stat(PathBuf),
    List(PathBuf),
    Read(PathBuf),
    Matches(PathBuf, Seq<MatchView>),
    Failure(PathBuf, SearchError),
    Finished(Result<(), SearchError>),
}

impl View for Request {
    type V = RequestView;

    open spec fn view(&self) -> RequestView {
        match *self {
            Request::Stat(p) => RequestView::Stat(p),
            Request::List(p) => RequestView::List(p),
            Request::Read(p) => RequestView::Read(p),
            Request::Matches(p, found) => RequestView::Matches(p, records(found@)),
            Request::Failure(p, e) => RequestView::Failure(p, e),
            Request::Finished(r) => RequestView::Finished(r),
        }
    }
}

/// The answer the walk is waiting for.
#[derive(Debug, Clone, PartialEq, Eq)]
pub enum Phase {
    Stat(PathBuf),
    List(PathBuf),
    Read(PathBuf),
    /// A result was handed out and is to be acknowledged.
    Report,
    /// The walk is over.
    Done,
}

/// A directory whose entries are being visited.
pub struct Frame {
    dir: PathBuf,
    entries: Vec<Result<PathBuf, String>>,
    next: usize,
}

/// A directory being visited: its path and the entries not yet visited.
pub struct FrameView {
    pub dir: PathBuf,
    pub pending: Seq<Result<PathBuf, String>>,
}

impl View for Frame {
    type V = FrameView;

    closed spec fn view(&self) -> FrameView {
        FrameView {
            dir: self.dir,
            pending: self.entries@.subrange(self.next as int, self.entries.len() as int),
        }
    }
}

/// The state of a walk.
pub struct Walker {
    frames: Vec<Frame>,
    phase: Phase,
}

/// The state of a walk: the directories that are open, the outermost first,
/// and the answer awaited.
pub struct WalkerView {
    pub open: Seq<FrameView>,
    pub phase: Phase,
}

impl View for Walker {
    type V = WalkerView;

    closed spec fn view(&self) -> WalkerView {
        WalkerView { open: self.frames@.map_values(|f: Frame| f@), phase: self.phase }
    }
}

/// The state in which the walk over `root` begins.
pub open spec fn started(root: PathBuf) -> WalkerView {
    WalkerView { open: seq![], phase: Phase::Stat(root) }
}

/// Whether `ev` answers what the walk in state `w` asked.
pub open spec fn awaited(w: WalkerView, ev: Event) -> bool {
    match (w.phase, ev) {
        (Phase::Stat(_), Event::Stat(_)) => true,
        (Phase::List(_), Event::Listing(_)) => true,
        (Phase::Read(_), Event::Content(_)) => true,
        (Phase::Report, Event::Delivered) => true,
        _ => false,
    }
}

/// How the walk goes on when the visit of one entry has ended with `outcome`
/// and the directories in `open` are still being visited.
///
/// With no directory open the walk is over and `outcome` is its result. A
/// failure is reported under the path of the innermost open directory. After a
/// success the next entry of that directory is examined; a directory with no
/// entry left is closed, which ends the visit of that directory with success;
/// an entry that could not be read is reported under the directory's path and
/// dropped, so that the entry after it comes next.
pub open spec fn resumed(open: Seq<FrameView>, outcome: Result<(), SearchError>) -> (
    WalkerView,
    RequestView,
)
    decreases open.len(),
{
    if open.len() == 0 {
        (WalkerView { open, phase: Phase::Done }, RequestView::Finished(outcome))
    } else {
        let top = open.last();
        match outcome {
            Err(e) => (WalkerView { open, phase: Phase::Report }, RequestView::Failure(top.dir, e)),
            Ok(()) => if top.pending.len() == 0 {
                resumed(open.drop_last(), Ok(()))
            } else {
                match top.pending[0] {
                    Ok(child) => (
                        WalkerView {
                            open: open.drop_last().push(
                                FrameView { dir: top.dir, pending: top.pending.drop_first() },
                            ),
                            phase: Phase::Stat(child),
                        },
                        RequestView::Stat(child),
                    ),
                    Err(message) => (
                        WalkerView {
                            open: open.drop_last().push(
                                FrameView { dir: top.dir, pending: top.pending.drop_first() },
                            ),
                            phase: Phase::Report,
                        },
                        RequestView::Failure(top.dir, SearchError::Io(message)),
                    ),
                }
            },
        }
    }
}

/// How the walk goes on when the directory at `path` could not be listed:
/// the failure is reported under the path of the directory that holds it, or
/// under its own path where it is the root, and the walk goes on.
pub open spec fn unlisted(open: Seq<FrameView>, path: PathBuf, e: SearchError) -> (
    WalkerView,
    RequestView,
) {
    (
        WalkerView { open, phase: Phase::Report },
        RequestView::Failure(
            if open.len() == 0 {
                path
            } else {
                open.last().dir
            },
            e,
        ),
    )
}

/// The request that hands out what searching the file at `path` gave.
pub open spec fn report(path: PathBuf, found: Result<Seq<MatchView>, SearchError>) -> RequestView {
    match found {
        Ok(found) => RequestView::Matches(path, found),
        Err(e) => RequestView::Failure(path, e),
    }
}

/// The state and the request that follow when the walk in state `w` is
/// answered with `ev`; `None` where `ev` is not the answer awaited.
pub open spec fn next(w: WalkerView, re: regex::Regex, ev: Event) -> Option<
    (WalkerView, RequestView),
> {
    match (w.phase, ev) {
        (Phase::Stat(path), Event::Stat(Ok(EntryKind::Directory))) => Some(
            (WalkerView { open: w.open, phase: Phase::List(path) }, RequestView::List(path)),
        ),
        (Phase::Stat(path), Event::Stat(Ok(EntryKind::File))) => Some(
            (WalkerView { open: w.open, phase: Phase::Read(path) }, RequestView::Read(path)),
        ),
        (Phase::Stat(_), Event::Stat(Ok(EntryKind::Other))) => Some(resumed(w.open, Ok(()))),
        (Phase::Stat(_), Event::Stat(Err(message))) => Some(
            resumed(w.open, Err(SearchError::Io(message))),
        ),
        (Phase::List(path), Event::Listing(Ok(entries))) => Some(
            resumed(w.open.push(FrameView { dir: path, pending: entries@ }), Ok(())),
        ),
        (Phase::List(path), Event::Listing(Err(message))) => Some(
            unlisted(w.open, path, SearchError::Io(message)),
        ),
        (Phase::Read(path), Event::Content(read)) => Some(
            (
                WalkerView { open: w.open, phase: Phase::Report },
                report(path, search_outcome(path, re, read)),
            ),
        ),
        (Phase::Report, Event::Delivered) => Some(resumed(w.open, Ok(()))),
        _ => None,
    }
}

/// Whether the request ends the walk with an error.
pub open spec fn is_fatal(req: RequestView) -> bool {
    req matches RequestView::Finished(Err(_))
}

/// A root that cannot be examined ends the walk at once: the first answer is
/// followed by the end of the walk with the file system's message as its
/// error, and no result is handed out before.
pub proof fn law_missing_root_is_fatal(root: PathBuf, re: regex::Regex, message: String)
    ensures
        next(started(root), re, Event::Stat(Err(message))) == Some(
            (
                WalkerView { open: seq![], phase: Phase::Done },
                RequestView::Finished(Err(SearchError::Io(message))),
            ),
        ),
{
}

/// A failure met while a directory is open is handed out under that
/// directory's path, leaves the open directories as they are, and once it is
/// acknowledged the walk goes on as after a success.
pub proof fn law_failure_is_reported(open: Seq<FrameView>, e: SearchError, re: regex::Regex)
    requires
        open.len() > 0,
    ensures
        resumed(open, Err(e)) == (
            WalkerView { open, phase: Phase::Report },
            RequestView::Failure(open.last().dir, e),
        ),
        next(resumed(open, Err(e)).0, re, Event::Delivered) == Some(resumed(open, Ok(()))),
{
}

/// Going on after a success never ends the walk with an error.
pub proof fn law_success_is_never_fatal(open: Seq<FrameView>)
    ensures
        !is_fatal(resumed(open, Ok(())).1),
    decreases open.len(),
{
    if open.len() > 0 && open.last().pending.len() == 0 {
        law_success_is_never_fatal(open.drop_last());
    }
}

/// Only the first look at the root can end the walk with an error: a walk
/// ends with an error exactly when no directory is open and the path awaited
/// could not be examined. Every failure met later, whether a listing, a read,
/// bytes that are not text, an entry or a path below the root, is reported
/// and leaves the walk going.
pub proof fn law_only_the_first_lookup_is_fatal(w: WalkerView, re: regex::Regex, ev: Event)
    requires
        next(w, re, ev) is Some,
    ensures
        is_fatal(next(w, re, ev).unwrap().1) <==> w.open.len() == 0 && w.phase is Stat && (
        ev matches Event::Stat(Err(_))),
{
    law_success_is_never_fatal(w.open);
    match (w.phase, ev) {
        (Phase::List(path), Event::Listing(Ok(entries))) => {
            law_success_is_never_fatal(w.open.push(FrameView { dir: path, pending: entries@ }));
        },
        _ => {},
    }
}

/// An entry that cannot be read is reported under its directory's path, and
/// the acknowledgement leads on to the entry after it.
pub proof fn law_unreadable_entry_is_skipped(
    open: Seq<FrameView>,
    dir: PathBuf,
    message: String,
    rest: Seq<Result<PathBuf, String>>,
    re: regex::Regex,
)
    ensures
        ({
            let before = open.push(FrameView { dir, pending: seq![Err(message)] + rest });
            let after = open.push(FrameView { dir, pending: rest });
            &&& resumed(before, Ok(())) == (
                WalkerView { open: after, phase: Phase::Report },
                RequestView::Failure(dir, SearchError::Io(message)),
            )
            &&& next(resumed(before, Ok(())).0, re, Event::Delivered) == Some(
                resumed(after, Ok(())),
            )
        }),
{
    let pending = seq![Err::<PathBuf, String>(message)] + rest;
    let before = open.push(FrameView { dir, pending });
    assert(before.drop_last() =~= open);
    assert(pending.drop_first() =~= rest);
    assert(pending[0] == Err::<PathBuf, String>(message));
}

/// A root that is a directory and cannot be listed does not end the walk
/// with an error: the failure is reported under the root's path, and the walk
/// then ends with success.
pub proof fn law_unlistable_root_is_reported(root: PathBuf, re: regex::Regex, message: String)
    ensures
        ({
            let listing = WalkerView { open: seq![], phase: Phase::List(root) };
            let reporting = WalkerView { open: seq![], phase: Phase::Report };
            &&& next(started(root), re, Event::Stat(Ok(EntryKind::Directory))) == Some(
                (listing, RequestView::List(root)),
            )
            &&& next(listing, re, Event::Listing(Err(message))) == Some(
                (reporting, RequestView::Failure(root, SearchError::Io(message))),
            )
            &&& next(reporting, re, Event::Delivered) == Some(
                (
                    WalkerView { open: seq![], phase: Phase::Done },
                    RequestView::Finished(Ok(())),
                ),
            )
        }),
{
}

/// What is handed out for a file depends on the file's path, the expression
/// and what was read, and on nothing else of the walk.
pub proof fn law_report_depends_on_the_file_alone(
    first: WalkerView,
    second: WalkerView,
    re: regex::Regex,
    path: PathBuf,
    read: Result<Vec<u8>, String>,
)
    requires
        first.phase == Phase::Read(path),
        second.phase == Phase::Read(path),
    ensures
        next(first, re, Event::Content(read)) is Some,
        next(second, re, Event::Content(read)) is Some,
        next(first, re, Event::Content(read)).unwrap().1 == report(
            path,
            search_outcome(path, re, read),
        ),
        next(first, re, Event::Content(read)).unwrap().1 == next(
            second,
            re,
            Event::Content(read),
        ).unwrap().1,
{
}

/// Every awaited answer is taken and no other: `next` is defined exactly on
/// the answers that fit the question.
pub proof fn law_next_iff_awaited(w: WalkerView, re: regex::Regex, ev: Event)
    ensures
        next(w, re, ev) is Some <==> awaited(w, ev),
{
}

impl Walker {
    /// Every open directory's position lies within its entries.
    pub closed spec fn wf(&self) -> bool {
        forall|i: int|
            0 <= i < self.frames.len() ==> (#[trigger] self.frames[i]).next
                <= self.frames[i].entries.len()
    }

    /// Begins a walk at `root`: the first request asks what `root` is.
    pub fn start(root: PathBuf) -> (begun: (Walker, Request))
        ensures
            begun.0.wf(),
            begun.0@ == started(root),
            begun.1@ == RequestView::Stat(root),
    {
        let walker = Walker { frames: Vec::new(), phase: Phase::Stat(root.clone()) };
        assert(walker@.open =~= Seq::<FrameView>::empty());
        (walker, Request::Stat(root))
    }

    /// Whether the walk is over.
    pub fn is_done(&self) -> (done: bool)
        ensures
            done == (self@.phase == Phase::Done),
    {
        match self.phase {
            Phase::Done => true,
            _ => false,
        }
    }

    /// Whether `ev` answers what the walk asked last.
    pub fn awaits(&self, ev: &Event) -> (fits: bool)
        ensures
            fits == awaited(self@, *ev),
    {
        match (&self.phase, ev) {
            (Phase::Stat(_), Event::Stat(_)) => true,
            (Phase::List(_), Event::Listing(_)) => true,
            (Phase::Read(_), Event::Content(_)) => true,
            (Phase::Report, Event::Delivered) => true,
            _ => false,
        }
    }

    /// Goes on after the visit of one entry has ended with `outcome`.
    fn resume(&mut self, outcome: Result<(), SearchError>) -> (req: Request)
        requires
            old(self).wf(),
        ensures
            final(self).wf(),
            (final(self)@, req@) == resumed(old(self)@.open, outcome),
    {
        let mut current = outcome;
        loop
            invariant
                self.wf(),
                resumed(self@.open, current) == resumed(old(self)@.open, outcome),
            decreases self.frames.len(),
        {
            if self.frames.len() == 0 {
                self.phase = Phase::Done;
                assert(self@.open =~= Seq::<FrameView>::empty());
                return Request::Finished(current);
            }
            let ghost open = self@.open;
            match current {
                Err(e) => {
                    let dir = self.frames[self.frames.len() - 1].dir.clone();
                    self.phase = Phase::Report;
                    return Request::Failure(dir, e);
                },
                Ok(()) => {
                    let frame = self.frames.pop().unwrap();
                    assert(self@.open =~= open.drop_last());
                    assert(frame@ == open.last());
                    if frame.next >= frame.entries.len() {
                        current = Ok(());
                    } else {
                        assert(frame@.pending[0] == frame.entries[frame.next as int]);
                        match &frame.entries[frame.next] {
                            Ok(child) => {
                                let child = child.clone();
                                let rest = Frame {
                                    dir: frame.dir,
                                    entries: frame.entries,
                                    next: frame.next + 1,
                                };
                                assert(rest@.pending =~= frame@.pending.drop_first());
                                self.frames.push(rest);
                                self.phase = Phase::Stat(child.clone());
                                assert(self@.open =~= open.drop_last().push(rest@));
                                return Request::Stat(child);
                            },
                            Err(message) => {
                                let e = SearchError::Io(message.clone());
                                let dir = frame.dir.clone();
                                let rest = Frame {
                                    dir: frame.dir,
                                    entries: frame.entries,
                                    next: frame.next + 1,
                                };
                                assert(rest@.pending =~= frame@.pending.drop_first());
                                self.frames.push(rest);
                                self.phase = Phase::Report;
                                assert(self@.open =~= open.drop_last().push(rest@));
                                return Request::Failure(dir, e);
                            },
                        }
                    }
                },
            }
        }
    }

    /// Takes the answer to the last request and decides what comes next.
    /// An answer that was not awaited is refused: the result is `None` and
    /// the walk stays as it was.
    ///
    /// A directory is listed and its entries are visited in the order given; a
    /// regular file is read and searched, and its records or its failure are
    /// handed out under the file's own path; anything else is passed over.
    /// When an entry cannot be examined or, being a directory, cannot be
    /// listed, the failure is handed out under the path of the directory that
    /// holds the entry; an entry of a listing that could not be read is
    /// handed out under the path of the directory listed. In each case the
    /// walk goes on with the next entry. A root that cannot be listed is
    /// reported under its own path. Only a root that cannot be examined ends
    /// the walk with an error.
    pub fn step(&mut self, re: &regex::Regex, ev: Event) -> (req: Option<Request>)
        requires
            old(self).wf(),
        ensures
            final(self).wf(),
            match next(old(self)@, *re, ev) {
                Some((state, asked)) => req is Some && req.unwrap()@ == asked && final(self)@
                    == state,
                None => req is None && final(self)@ == old(self)@,
            },
    {
        if !self.awaits(&ev) {
            return None;
        }
        let req = match ev {
            Event::Stat(Ok(EntryKind::Directory)) => {
                let path = self.awaited_path().unwrap();
                self.phase = Phase::List(path.clone());
                Request::List(path)
            },
            Event::Stat(Ok(EntryKind::File)) => {
                let path = self.awaited_path().unwrap();
                self.phase = Phase::Read(path.clone());
                Request::Read(path)
            },
            Event::Stat(Ok(EntryKind::Other)) => self.resume(Ok(())),
            Event::Stat(Err(message)) => self.resume(Err(SearchError::Io(message))),
            Event::Listing(Ok(entries)) => {
                let ghost open = self@.open;
                let frame = Frame { dir: self.awaited_path().unwrap(), entries, next: 0 };
                assert(frame@.pending =~= entries@);
                self.frames.push(frame);
                assert(self@.open =~= open.push(frame@));
                self.resume(Ok(()))
            },
            Event::Listing(Err(message)) => {
                let path = self.awaited_path().unwrap();
                let context = if self.frames.len() == 0 {
                    path
                } else {
                    self.frames[self.frames.len() - 1].dir.clone()
                };
                self.phase = Phase::Report;
                Request::Failure(context, SearchError::Io(message))
            },
            Event::Content(read) => {
                let path = self.awaited_path().unwrap();
                let found = search_file(&path, re, read);
                self.phase = Phase::Report;
                match found {
                    Ok(found) => Request::Matches(path, found),
                    Err(e) => Request::Failure(path, e),
                }
            },
            Event::Delivered => self.resume(Ok(())),
        };
        Some(req)
    }

    /// The path that the awaited answer is about, if it is about one.
    fn awaited_path(&self) -> (path: Option<PathBuf>)
        ensures
            path == match self@.phase {
                Phase::Stat(p) => Some(p),
                Phase::List(p) => Some(p),
                Phase::Read(p) => Some(p),
                _ => None,
            },
    {
        match &self.phase {
            Phase::Stat(p) => Some(p.clone()),
            Phase::List(p) => Some(p.clone()),
            Phase::Read(p) => Some(p.clone()),
            _ => None,
        }
    }
}

} // verus!
