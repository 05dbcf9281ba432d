//! A directory tree as data, and the proof that a [`Walker`](crate::walker::Walker)
//! visits it as a depth-first traversal does.
//!
//! [`dialogue`] writes the traversal down directly, by recursion over the
//! tree: which requests are made in which order and how the tree answers
//! each. [`law_walk_follows_tree`] shows that the walker, answered from the
//! tree, makes exactly those requests, and that it ends with an error only
//! where the root itself cannot be examined.

use vstd::prelude::*;
use vstd::multiset::Multiset;
use std::path::PathBuf;
use crate::matcher::{search_outcome, SearchError};
use crate::walker::{
    next, report, resumed, started, EntryKind, Event, FrameView, Phase, RequestView, WalkerView,
};

verus! {

/// What the file system holds at a path.
pub enum Tree {
    /// Nothing that can be examined; the text is the file system's message.
    Missing(String),
    /// Neither a directory nor a regular file.
    Other,
    /// A regular file, with what reading it returns.
    File(Result<Vec<u8>, String>),
    /// A directory that cannot be listed.
    Unlistable(String),
    /// A directory: its listing, and for each entry what is found there. What
    /// stands beside an unreadable entry is of no account.
    Dir(Vec<Result<PathBuf, String>>, Seq<Tree>),
}

/// One request together with its answer.
pub type Exchange = (RequestView, Event);

/// Every directory has one subtree for each entry of its listing.
pub open spec fn well_formed(tree: Tree) -> bool
    decreases tree,
{
    match tree {
        Tree::Dir(listing, below) => below.len() == listing.len() && forall|i: int|
            0 <= i < below.len() ==> well_formed(#[trigger] below[i]),
        _ => true,
    }
}

/// How the visit of `tree` ends: it fails where the path cannot be examined
/// or the directory cannot be listed. What happens below a directory that was
/// listed never makes its visit fail.
pub open spec fn outcome(tree: Tree) -> Result<(), SearchError> {
    match tree {
        Tree::Missing(message) => Err(SearchError::Io(message)),
        Tree::Unlistable(message) => Err(SearchError::Io(message)),
        _ => Ok(()),
    }
}

/// The exchanges of a whole walk over `tree`, found at `root`: the visit of
/// the tree, and the report of a root that could not be listed.
pub open spec fn walk_dialogue(root: PathBuf, tree: Tree, re: regex::Regex) -> Seq<Exchange> {
    dialogue(root, tree, re) + match tree {
        Tree::Unlistable(message) => failure_report(root, Err(SearchError::Io(message))),
        _ => seq![],
    }
}

/// How a whole walk over `tree` ends: with an error only where the root
/// cannot be examined.
pub open spec fn walk_outcome(tree: Tree) -> Result<(), SearchError> {
    match tree {
        Tree::Missing(message) => Err(SearchError::Io(message)),
        _ => Ok(()),
    }
}

/// The exchanges of a depth-first visit of `tree`, found at `path`.
pub open spec fn dialogue(path: PathBuf, tree: Tree, re: regex::Regex) -> Seq<Exchange>
    decreases tree, 0int,
{
    match tree {
        Tree::Missing(message) => seq![(RequestView::Stat(path), Event::Stat(Err(message)))],
        Tree::Other => seq![(RequestView::Stat(path), Event::Stat(Ok(EntryKind::Other)))],
        Tree::File(read) => seq![
            (RequestView::Stat(path), Event::Stat(Ok(EntryKind::File))),
            (RequestView::Read(path), Event::Content(read)),
            (report(path, search_outcome(path, re, read)), Event::Delivered),
        ],
        Tree::Unlistable(message) => seq![
            (RequestView::Stat(path), Event::Stat(Ok(EntryKind::Directory))),
            (RequestView::List(path), Event::Listing(Err(message))),
        ],
        Tree::Dir(listing, below) => seq![
            (RequestView::Stat(path), Event::Stat(Ok(EntryKind::Directory))),
            (RequestView::List(path), Event::Listing(Ok(listing))),
        ] + entries_dialogue(path, listing@, below, 0, re),
    }
}

/// The exchanges of visiting the entries of directory `dir` from entry `from`
/// on: for each entry in turn its own visit and a failure report under `dir`
/// where that visit failed, or, for an entry that could not be read, just the
/// failure report under `dir`.
pub open spec fn entries_dialogue(
    dir: PathBuf,
    listing: Seq<Result<PathBuf, String>>,
    below: Seq<Tree>,
    from: int,
    re: regex::Regex,
) -> Seq<Exchange>
    decreases below, listing.len() - from,
{
    if from < 0 || from >= listing.len() || from >= below.len() {
        seq![]
    } else {
        match listing[from] {
            Err(message) => failure_report(dir, Err(SearchError::Io(message)))
                + entries_dialogue(dir, listing, below, from + 1, re),
            Ok(child) => dialogue(child, below[from], re) + failure_report(
                dir,
                outcome(below[from]),
            ) + entries_dialogue(dir, listing, below, from + 1, re),
        }
    }
}

/// The exchange that reports a failed visit under `dir`; nothing after a
/// visit that succeeded.
pub open spec fn failure_report(dir: PathBuf, ended: Result<(), SearchError>) -> Seq<Exchange> {
    match ended {
        Err(e) => seq![(RequestView::Failure(dir, e), Event::Delivered)],
        Ok(()) => seq![],
    }
}

/// Where a walk stands after `script`, if it stood at `at` (a state and the
/// request it made last) and every request it made was the one `script`
/// expects and was answered as `script` says; `None` if the walk asked
/// anything else.
pub open spec fn follows(at: (WalkerView, RequestView), script: Seq<Exchange>, re: regex::Regex)
    -> Option<(WalkerView, RequestView)>
    decreases script.len(),
{
    if script.len() == 0 {
        Some(at)
    } else if at.1 != script[0].0 {
        None
    } else {
        match next(at.0, re, script[0].1) {
            None => None,
            Some(then) => follows(then, script.drop_first(), re),
        }
    }
}

/// Following one exchange and then the rest.
proof fn lemma_follows_one(
    at: (WalkerView, RequestView),
    first: Exchange,
    rest: Seq<Exchange>,
    re: regex::Regex,
)
    requires
        at.1 == first.0,
        next(at.0, re, first.1) is Some,
    ensures
        follows(at, seq![first] + rest, re) == follows(next(at.0, re, first.1).unwrap(), rest, re),
{
    let script = seq![first] + rest;
    assert(script[0] == first);
    assert(script.drop_first() =~= rest);
}

/// Following two scripts one after the other.
proof fn lemma_follows_both(
    at: (WalkerView, RequestView),
    a: Seq<Exchange>,
    b: Seq<Exchange>,
    re: regex::Regex,
)
    requires
        follows(at, a, re) is Some,
    ensures
        follows(at, a + b, re) == follows(follows(at, a, re).unwrap(), b, re),
    decreases a.len(),
{
    if a.len() == 0 {
        assert(a + b =~= b);
    } else {
        let then = next(at.0, re, a[0].1).unwrap();
        assert((a + b)[0] == a[0]);
        assert((a + b).drop_first() =~= a.drop_first() + b);
        lemma_follows_both(then, a.drop_first(), b, re);
    }
}

/// The walker, standing before `tree` with the directories in `open` open,
/// makes the exchanges of [`dialogue`] and then goes on as after a visit that
/// ended with the tree's outcome. The one tree left out is a root that
/// cannot be listed, of which [`law_walk_follows_tree`] speaks.
pub proof fn law_visit_follows_tree(
    open: Seq<FrameView>,
    path: PathBuf,
    tree: Tree,
    re: regex::Regex,
)
    requires
        well_formed(tree),
        open.len() > 0 || !(tree is Unlistable),
    ensures
        follows(
            (WalkerView { open, phase: Phase::Stat(path) }, RequestView::Stat(path)),
            dialogue(path, tree, re),
            re,
        ) == Some(resumed(open, outcome(tree))),
    decreases tree, 0int,
{
    let at = (WalkerView { open, phase: Phase::Stat(path) }, RequestView::Stat(path));
    let none = Seq::<Exchange>::empty();
    match tree {
        Tree::Missing(message) => {
            let x = (RequestView::Stat(path), Event::Stat(Err(message)));
            assert(dialogue(path, tree, re) =~= seq![x] + none);
            lemma_follows_one(at, x, none, re);
        },
        Tree::Other => {
            let x = (RequestView::Stat(path), Event::Stat(Ok(EntryKind::Other)));
            assert(dialogue(path, tree, re) =~= seq![x] + none);
            lemma_follows_one(at, x, none, re);
        },
        Tree::File(read) => {
            let x = (RequestView::Stat(path), Event::Stat(Ok(EntryKind::File)));
            let y = (RequestView::Read(path), Event::Content(read));
            let z = (report(path, search_outcome(path, re, read)), Event::Delivered);
            assert(dialogue(path, tree, re) =~= seq![x] + (seq![y] + (seq![z] + none)));
            lemma_follows_one(at, x, seq![y] + (seq![z] + none), re);
            let at_y = next(at.0, re, x.1).unwrap();
            lemma_follows_one(at_y, y, seq![z] + none, re);
            let at_z = next(at_y.0, re, y.1).unwrap();
            lemma_follows_one(at_z, z, none, re);
        },
        Tree::Unlistable(message) => {
            let x = (RequestView::Stat(path), Event::Stat(Ok(EntryKind::Directory)));
            let y = (RequestView::List(path), Event::Listing(Err(message)));
            assert(dialogue(path, tree, re) =~= seq![x] + (seq![y] + none));
            lemma_follows_one(at, x, seq![y] + none, re);
            let at_y = next(at.0, re, x.1).unwrap();
            lemma_follows_one(at_y, y, none, re);
        },
        Tree::Dir(listing, below) => {
            let x = (RequestView::Stat(path), Event::Stat(Ok(EntryKind::Directory)));
            let y = (RequestView::List(path), Event::Listing(Ok(listing)));
            let rest = entries_dialogue(path, listing@, below, 0, re);
            assert(dialogue(path, tree, re) =~= seq![x] + (seq![y] + rest));
            lemma_follows_one(at, x, seq![y] + rest, re);
            let at_y = next(at.0, re, x.1).unwrap();
            lemma_follows_one(at_y, y, rest, re);
            assert(listing@.subrange(0, listing@.len() as int) =~= listing@);
            law_entries_follow_tree(open, path, listing@, below, 0, re);
        },
    }
}

/// The same for the entries of an open directory from entry `from` on.
pub proof fn law_entries_follow_tree(
    open: Seq<FrameView>,
    dir: PathBuf,
    listing: Seq<Result<PathBuf, String>>,
    below: Seq<Tree>,
    from: int,
    re: regex::Regex,
)
    requires
        0 <= from <= listing.len(),
        below.len() == listing.len(),
        forall|i: int| 0 <= i < below.len() ==> well_formed(#[trigger] below[i]),
    ensures
        follows(
            resumed(
                open.push(
                    FrameView { dir, pending: listing.subrange(from, listing.len() as int) },
                ),
                Ok(()),
            ),
            entries_dialogue(dir, listing, below, from, re),
            re,
        ) == Some(resumed(open, Ok(()))),
    decreases below, listing.len() - from,
{
    let n = listing.len() as int;
    let frame = FrameView { dir, pending: listing.subrange(from, n) };
    let frames = open.push(frame);
    assert(frames.drop_last() =~= open);
    assert(frames.last() == frame);
    if from < n {
        assert(frame.pending[0] == listing[from]);
        match listing[from] {
            Err(message) => {
                let kept = FrameView { dir, pending: listing.subrange(from + 1, n) };
                assert(frame.pending.drop_first() =~= kept.pending);
                let inner = open.push(kept);
                let x = (RequestView::Failure(dir, SearchError::Io(message)), Event::Delivered);
                let c = entries_dialogue(dir, listing, below, from + 1, re);
                assert(failure_report(dir, Err(SearchError::Io(message))) =~= seq![x]);
                assert(entries_dialogue(dir, listing, below, from, re) == seq![x] + c);
                lemma_follows_one(resumed(frames, Ok(())), x, c, re);
                law_entries_follow_tree(open, dir, listing, below, from + 1, re);
            },
            Ok(child) => {
                let kept = FrameView { dir, pending: listing.subrange(from + 1, n) };
                assert(frame.pending.drop_first() =~= kept.pending);
                let inner = open.push(kept);
                let at = (
                    WalkerView { open: inner, phase: Phase::Stat(child) },
                    RequestView::Stat(child),
                );
                assert(resumed(frames, Ok(())) == at);
                let a = dialogue(child, below[from], re);
                let b = failure_report(dir, outcome(below[from]));
                let c = entries_dialogue(dir, listing, below, from + 1, re);
                law_visit_follows_tree(inner, child, below[from], re);
                let after_a = resumed(inner, outcome(below[from]));
                assert(inner.last() == kept);
                assert(follows(after_a, b, re) == Some(resumed(inner, Ok(())))) by {
                    match outcome(below[from]) {
                        Err(e) => {
                            let x = (RequestView::Failure(dir, e), Event::Delivered);
                            assert(b =~= seq![x] + Seq::<Exchange>::empty());
                            lemma_follows_one(after_a, x, Seq::<Exchange>::empty(), re);
                        },
                        Ok(()) => {},
                    }
                }
                law_entries_follow_tree(open, dir, listing, below, from + 1, re);
                lemma_follows_both(at, a, b, re);
                lemma_follows_both(at, a + b, c, re);
                assert(entries_dialogue(dir, listing, below, from, re) == a + b + c);
            },
        }
    }
}

/// What is exchanged for the entries of a directory from entry `from` on
/// does not depend on what was found at the entries before: a failure at one
/// entry takes nothing away from those that follow it.
pub proof fn law_later_entries_are_unaffected(
    dir: PathBuf,
    listing: Seq<Result<PathBuf, String>>,
    first: Seq<Tree>,
    second: Seq<Tree>,
    from: int,
    re: regex::Regex,
)
    requires
        0 <= from,
        first.len() == second.len(),
        forall|i: int| from <= i < first.len() ==> first[i] == second[i],
    ensures
        entries_dialogue(dir, listing, first, from, re) == entries_dialogue(
            dir,
            listing,
            second,
            from,
            re,
        ),
    decreases listing.len() - from,
{
    if from < listing.len() && from < first.len() {
        law_later_entries_are_unaffected(dir, listing, first, second, from + 1, re);
    }
}

/// The exchanges that one entry of directory `dir` gives rise to: the visit
/// of what is found there and the report of its failure, or just the report
/// of an entry that could not be read.
pub open spec fn entry_dialogue(
    dir: PathBuf,
    entry: Result<PathBuf, String>,
    found: Tree,
    re: regex::Regex,
) -> Seq<Exchange> {
    match entry {
        Err(message) => failure_report(dir, Err(SearchError::Io(message))),
        Ok(child) => dialogue(child, found, re) + failure_report(dir, outcome(found)),
    }
}

/// Whether the request hands a result to the caller.
pub open spec fn is_report(req: RequestView) -> bool {
    req is Matches || req is Failure
}

/// The results handed out in the course of `script`, without their order.
pub open spec fn reports(script: Seq<Exchange>) -> Multiset<RequestView>
    decreases script.len(),
{
    if script.len() == 0 {
        Multiset::empty()
    } else {
        let earlier = reports(script.drop_last());
        if is_report(script.last().0) {
            earlier.insert(script.last().0)
        } else {
            earlier
        }
    }
}

/// `s` with the elements at `i` and `i + 1` exchanged.
pub open spec fn swapped<A>(s: Seq<A>, i: int) -> Seq<A> {
    s.update(i, s[i + 1]).update(i + 1, s[i])
}

/// The results of two scripts in a row are those of the one and of the other.
proof fn lemma_reports_of_both(a: Seq<Exchange>, b: Seq<Exchange>)
    ensures
        reports(a + b) == reports(a).add(reports(b)),
    decreases b.len(),
{
    if b.len() == 0 {
        assert(a + b =~= a);
        assert(reports(a).add(reports(b)) =~= reports(a));
    } else {
        assert((a + b).drop_last() =~= a + b.drop_last());
        assert((a + b).last() == b.last());
        lemma_reports_of_both(a, b.drop_last());
        let x = b.last().0;
        let rest = reports(b.drop_last());
        assert(reports(a).add(rest).insert(x) =~= reports(a).add(rest.insert(x)));
    }
}

/// The entries from `from` on are the first of them and then the others.
proof fn lemma_entries_unfold(
    dir: PathBuf,
    listing: Seq<Result<PathBuf, String>>,
    below: Seq<Tree>,
    from: int,
    re: regex::Regex,
)
    requires
        0 <= from < listing.len(),
        below.len() == listing.len(),
    ensures
        entries_dialogue(dir, listing, below, from, re) == entry_dialogue(
            dir,
            listing[from],
            below[from],
            re,
        ) + entries_dialogue(dir, listing, below, from + 1, re),
{
}

/// Two directories that agree from entry `from` on give the same exchanges
/// from there on.
proof fn lemma_entries_agree(
    dir: PathBuf,
    first: Seq<Result<PathBuf, String>>,
    first_below: Seq<Tree>,
    second: Seq<Result<PathBuf, String>>,
    second_below: Seq<Tree>,
    from: int,
    re: regex::Regex,
)
    requires
        0 <= from,
        first.len() == second.len(),
        first_below.len() == first.len(),
        second_below.len() == first.len(),
        forall|k: int| from <= k < first.len() ==> first[k] == second[k],
        forall|k: int| from <= k < first.len() ==> first_below[k] == second_below[k],
    ensures
        entries_dialogue(dir, first, first_below, from, re) == entries_dialogue(
            dir,
            second,
            second_below,
            from,
            re,
        ),
    decreases first.len() - from,
{
    if from < first.len() {
        lemma_entries_agree(dir, first, first_below, second, second_below, from + 1, re);
    }
}

/// Exchanging two neighbouring entries of a directory changes the order in
/// which results are handed out and nothing else: the same results come,
/// each as often as before.
pub proof fn law_entry_order_keeps_reports(
    dir: PathBuf,
    listing: Seq<Result<PathBuf, String>>,
    below: Seq<Tree>,
    i: int,
    from: int,
    re: regex::Regex,
)
    requires
        0 <= from <= i,
        i + 1 < listing.len(),
        below.len() == listing.len(),
    ensures
        reports(entries_dialogue(dir, swapped(listing, i), swapped(below, i), from, re))
            == reports(entries_dialogue(dir, listing, below, from, re)),
    decreases i - from,
{
    let listing2 = swapped(listing, i);
    let below2 = swapped(below, i);
    if from == i {
        let p = entry_dialogue(dir, listing[i], below[i], re);
        let q = entry_dialogue(dir, listing[i + 1], below[i + 1], re);
        let t = entries_dialogue(dir, listing, below, i + 2, re);
        lemma_entries_unfold(dir, listing, below, i, re);
        lemma_entries_unfold(dir, listing, below, i + 1, re);
        lemma_entries_unfold(dir, listing2, below2, i, re);
        lemma_entries_unfold(dir, listing2, below2, i + 1, re);
        lemma_entries_agree(dir, listing2, below2, listing, below, i + 2, re);
        assert(entries_dialogue(dir, listing, below, i, re) == p + (q + t));
        assert(entries_dialogue(dir, listing2, below2, i, re) == q + (p + t));
        lemma_reports_of_both(p, q + t);
        lemma_reports_of_both(q, t);
        lemma_reports_of_both(q, p + t);
        lemma_reports_of_both(p, t);
        assert(reports(p).add(reports(q).add(reports(t))) =~= reports(q).add(
            reports(p).add(reports(t)),
        ));
    } else {
        let p = entry_dialogue(dir, listing[from], below[from], re);
        lemma_entries_unfold(dir, listing, below, from, re);
        lemma_entries_unfold(dir, listing2, below2, from, re);
        law_entry_order_keeps_reports(dir, listing, below, i, from + 1, re);
        lemma_reports_of_both(p, entries_dialogue(dir, listing, below, from + 1, re));
        lemma_reports_of_both(p, entries_dialogue(dir, listing2, below2, from + 1, re));
    }
}

/// Two walks over a directory that differ only in the order in which two
/// neighbouring entries were listed end alike and hand out the same results:
/// every file gets the same records, every failure is reported under the
/// same path, each as often as in the other walk. Any other order of the
/// listing is reached by such exchanges one after another.
pub proof fn law_listing_order_keeps_reports(
    root: PathBuf,
    first: Vec<Result<PathBuf, String>>,
    second: Vec<Result<PathBuf, String>>,
    below: Seq<Tree>,
    i: int,
    re: regex::Regex,
)
    requires
        0 <= i,
        i + 1 < first.len(),
        below.len() == first.len(),
        second@ == swapped(first@, i),
    ensures
        reports(walk_dialogue(root, Tree::Dir(second, swapped(below, i)), re)) == reports(
            walk_dialogue(root, Tree::Dir(first, below), re),
        ),
        walk_outcome(Tree::Dir(second, swapped(below, i))) == walk_outcome(
            Tree::Dir(first, below),
        ),
{
    let one = Tree::Dir(first, below);
    let other = Tree::Dir(second, swapped(below, i));
    assert(walk_dialogue(root, one, re) =~= dialogue(root, one, re));
    assert(walk_dialogue(root, other, re) =~= dialogue(root, other, re));
    lemma_reports_of_dir(root, first, below, re);
    lemma_reports_of_dir(root, second, swapped(below, i), re);
    law_entry_order_keeps_reports(root, first@, below, i, 0, re);
}

/// The results of a directory's visit are empty before its entries are
/// visited: examining and listing hand nothing out.
proof fn lemma_reports_of_dir(
    path: PathBuf,
    listing: Vec<Result<PathBuf, String>>,
    below: Seq<Tree>,
    re: regex::Regex,
)
    ensures
        reports(dialogue(path, Tree::Dir(listing, below), re)) == reports(
            entries_dialogue(path, listing@, below, 0, re),
        ),
{
    let x = (RequestView::Stat(path), Event::Stat(Ok(EntryKind::Directory)));
    let y = (RequestView::List(path), Event::Listing(Ok(listing)));
    let e = entries_dialogue(path, listing@, below, 0, re);
    assert(dialogue(path, Tree::Dir(listing, below), re) =~= seq![x, y] + e);
    lemma_reports_of_both(seq![x, y], e);
    assert(reports(seq![x, y]) =~= Multiset::empty()) by {
        reveal_with_fuel(reports, 3);
        assert(seq![x, y].drop_last() =~= seq![x]);
        assert(seq![x].drop_last() =~= Seq::<Exchange>::empty());
    }
    assert(Multiset::<RequestView>::empty().add(reports(e)) =~= reports(e));
}

/// Where what is found at one entry of a directory changes without changing
/// the results of its own visit or how that visit ends, the results of the
/// directory's visit stay the same. With this, an exchange of entries deep
/// in a tree carries up to the results of the whole walk.
pub proof fn law_change_below_keeps_reports(
    path: PathBuf,
    listing: Vec<Result<PathBuf, String>>,
    first: Seq<Tree>,
    second: Seq<Tree>,
    k: int,
    from: int,
    re: regex::Regex,
)
    requires
        0 <= from <= k < listing.len(),
        first.len() == listing.len(),
        second.len() == listing.len(),
        forall|j: int| 0 <= j < first.len() && j != k ==> first[j] == second[j],
        outcome(first[k]) == outcome(second[k]),
        forall|child: PathBuf|
            listing[k] == Ok::<PathBuf, String>(child) ==> reports(dialogue(child, first[k], re))
                == reports(dialogue(child, second[k], re)),
    ensures
        reports(entries_dialogue(path, listing@, first, from, re)) == reports(
            entries_dialogue(path, listing@, second, from, re),
        ),
        from == 0 ==> reports(dialogue(path, Tree::Dir(listing, first), re)) == reports(
            dialogue(path, Tree::Dir(listing, second), re),
        ),
        outcome(Tree::Dir(listing, first)) == outcome(Tree::Dir(listing, second)),
    decreases k - from,
{
    lemma_entries_unfold(path, listing@, first, from, re);
    lemma_entries_unfold(path, listing@, second, from, re);
    let tail1 = entries_dialogue(path, listing@, first, from + 1, re);
    let tail2 = entries_dialogue(path, listing@, second, from + 1, re);
    lemma_reports_of_both(entry_dialogue(path, listing[from], first[from], re), tail1);
    lemma_reports_of_both(entry_dialogue(path, listing[from], second[from], re), tail2);
    if from == k {
        lemma_entries_agree(path, listing@, first, listing@, second, k + 1, re);
        match listing[k] {
            Err(_) => {},
            Ok(child) => {
                let report1 = failure_report(path, outcome(first[k]));
                lemma_reports_of_both(dialogue(child, first[k], re), report1);
                lemma_reports_of_both(dialogue(child, second[k], re), report1);
            },
        }
    } else {
        law_change_below_keeps_reports(path, listing, first, second, k, from + 1, re);
    }
    if from == 0 {
        lemma_reports_of_dir(path, listing, first, re);
        lemma_reports_of_dir(path, listing, second, re);
    }
}

/// A walk begun at `root` and answered from `tree` makes the exchanges of a
/// depth-first visit of the tree, in that order, and then ends: with the
/// file system's error where the root cannot be examined, with success in
/// every other case, whatever failed below.
pub proof fn law_walk_follows_tree(root: PathBuf, tree: Tree, re: regex::Regex)
    requires
        well_formed(tree),
    ensures
        follows((started(root), RequestView::Stat(root)), walk_dialogue(root, tree, re), re)
            == Some(
            (
                WalkerView { open: seq![], phase: Phase::Done },
                RequestView::Finished(walk_outcome(tree)),
            ),
        ),
        walk_outcome(tree) is Err <==> tree is Missing,
{
    let at = (started(root), RequestView::Stat(root));
    let none = Seq::<Exchange>::empty();
    match tree {
        Tree::Unlistable(message) => {
            let x = (RequestView::Stat(root), Event::Stat(Ok(EntryKind::Directory)));
            let y = (RequestView::List(root), Event::Listing(Err(message)));
            let z = (RequestView::Failure(root, SearchError::Io(message)), Event::Delivered);
            assert(walk_dialogue(root, tree, re) =~= seq![x] + (seq![y] + (seq![z] + none)));
            lemma_follows_one(at, x, seq![y] + (seq![z] + none), re);
            let at_y = next(at.0, re, x.1).unwrap();
            lemma_follows_one(at_y, y, seq![z] + none, re);
            let at_z = next(at_y.0, re, y.1).unwrap();
            lemma_follows_one(at_z, z, none, re);
        },
        _ => {
            law_visit_follows_tree(seq![], root, tree, re);
            assert(walk_dialogue(root, tree, re) =~= dialogue(root, tree, re));
        },
    }
}

} // verus!
