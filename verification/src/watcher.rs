//! Changes of files: what the system reports, what of it counts, and how
//! changes are gathered before they are acted upon.

use vstd::prelude::*;

use crate::text;

verus! {

/// A change of a file or directory.
#[derive(Debug, Clone)]
pub enum FileChange {
    Created(String),
    Modified(String),
    Removed(String),
    Renamed { from: String, to: String },
}

#[verifier::ext_equal]
pub ghost enum FileChangeView {
    Created(Seq<char>),
    Modified(Seq<char>),
    Removed(Seq<char>),
    Renamed { from: Seq<char>, to: Seq<char> },
}

impl View for FileChange {
    type V = FileChangeView;

    open spec fn view(&self) -> FileChangeView {
        match *self {
            FileChange::Created(p) => FileChangeView::Created(p@),
            FileChange::Modified(p) => FileChangeView::Modified(p@),
            FileChange::Removed(p) => FileChangeView::Removed(p@),
            FileChange::Renamed { from, to } => FileChangeView::Renamed { from: from@, to: to@ },
        }
    }
}

impl FileChange {
    /// A copy of the change.
    pub fn copy(&self) -> (res: FileChange)
        ensures
            res@ == self@,
    {
        match self {
            FileChange::Created(p) => FileChange::Created(p.clone()),
            FileChange::Modified(p) => FileChange::Modified(p.clone()),
            FileChange::Removed(p) => FileChange::Removed(p.clone()),
            FileChange::Renamed { from, to } => FileChange::Renamed {
                from: from.clone(),
                to: to.clone(),
            },
        }
    }
}

/// The changes of a batch.
pub open spec fn change_views(v: Seq<FileChange>) -> Seq<FileChangeView> {
    v.map_values(|c: FileChange| c@)
}

/// A copy of a batch.
pub fn copy_changes(v: &Vec<FileChange>) -> (res: Vec<FileChange>)
    ensures
        change_views(res@) == change_views(v@),
{
    let mut res: Vec<FileChange> = Vec::new();
    let mut i: usize = 0;
    while i < v.len()
        invariant
            i <= v@.len(),
            res@.len() == i,
            forall|k: int| 0 <= k < i ==> #[trigger] res@[k]@ == v@[k]@,
        decreases v@.len() - i,
    {
        res.push(v[i].copy());
        i += 1;
    }
    assert(change_views(res@) =~= change_views(v@));
    res
}

/// The kinds of events that the system reports.
#[derive(Debug, Clone, Copy, PartialEq, Eq, Structural)]
pub enum EventClass {
    FileCreated,
    FolderCreated,
    DataModified,
    MetadataModified,
    NameModified,
    FileRemoved,
    FolderRemoved,
    /// Anything else.
    Other,
}

/// The change that an event reports. A new name takes two paths; the other
/// changes take one.
pub open spec fn change_of(class: EventClass, paths: Seq<Seq<char>>) -> Option<FileChangeView> {
    match class {
        EventClass::FileCreated | EventClass::FolderCreated => if paths.len() > 0 {
            Some(FileChangeView::Created(paths[0]))
        } else {
            None
        },
        EventClass::DataModified | EventClass::MetadataModified => if paths.len() > 0 {
            Some(FileChangeView::Modified(paths[0]))
        } else {
            None
        },
        EventClass::FileRemoved | EventClass::FolderRemoved => if paths.len() > 0 {
            Some(FileChangeView::Removed(paths[0]))
        } else {
            None
        },
        EventClass::NameModified => if paths.len() >= 2 {
            Some(FileChangeView::Renamed { from: paths[0], to: paths[1] })
        } else {
            None
        },
        EventClass::Other => None,
    }
}

/// The change that an event reports, if it counts.
pub fn classify_event(class: EventClass, paths: &Vec<String>) -> (res: Option<FileChange>)
    ensures
        match res {
            Some(c) => change_of(class, text::texts(paths@)) == Some(c@),
            None => change_of(class, text::texts(paths@)) is None,
        },
{
    if paths.len() == 0 {
        return None;
    }
    assert(text::texts(paths@)[0] == paths@[0]@);
    match class {
        EventClass::FileCreated | EventClass::FolderCreated => Some(
            FileChange::Created(paths[0].clone()),
        ),
        EventClass::DataModified | EventClass::MetadataModified => Some(
            FileChange::Modified(paths[0].clone()),
        ),
        EventClass::FileRemoved | EventClass::FolderRemoved => Some(
            FileChange::Removed(paths[0].clone()),
        ),
        EventClass::NameModified => if paths.len() >= 2 {
            assert(text::texts(paths@)[1] == paths@[1]@);
            Some(FileChange::Renamed { from: paths[0].clone(), to: paths[1].clone() })
        } else {
            None
        },
        EventClass::Other => None,
    }
}

/// Why nothing is watched.
#[derive(Debug, Clone, Copy, PartialEq, Eq, Structural)]
pub enum WatchError {
    NoPaths,
}

impl WatchError {
    /// The error in words.
    pub fn text(&self) -> (res: String)
        ensures
            res@ == "No paths configured for watching"@,
    {
        "No paths configured for watching".to_owned()
    }
}

/// The directories to watch.
pub struct FileWatcher {
    watched_paths: Vec<String>,
    debounce_ms: u64,
}

impl FileWatcher {
    /// The directories, each once, in the order in which they came.
    pub closed spec fn paths(&self) -> Seq<Seq<char>> {
        text::texts(self.watched_paths@)
    }

    pub closed spec fn debounce(&self) -> u64 {
        self.debounce_ms
    }

    pub fn new(debounce_ms: u64) -> (res: FileWatcher)
        ensures
            res.paths() == Seq::<Seq<char>>::empty(),
            res.debounce() == debounce_ms,
    {
        let res = FileWatcher { watched_paths: Vec::new(), debounce_ms };
        assert(res.paths() =~= Seq::<Seq<char>>::empty());
        res
    }

    /// Adds a directory. One that is not there, or that is watched already, is
    /// passed over.
    pub fn watch_path(&mut self, path: &str, exists: bool)
        ensures
            final(self).paths() == if exists && !old(self).paths().contains(path@) {
                old(self).paths().push(path@)
            } else {
                old(self).paths()
            },
            final(self).debounce() == old(self).debounce(),
    {
        if !exists {
            return;
        }
        let wanted = path.to_owned();
        let mut i: usize = 0;
        while i < self.watched_paths.len()
            invariant
                i <= self.watched_paths@.len(),
                *self == *old(self),
                exists,
                wanted@ == path@,
                forall|k: int| 0 <= k < i ==> (#[trigger] self.watched_paths@[k])@ != path@,
            decreases self.watched_paths@.len() - i,
        {
            if self.watched_paths[i] == wanted {
                assert(self.paths()[i as int] == path@);
                return;
            }
            i += 1;
        }
        proof {
            if self.paths().contains(path@) {
                let k = choose|k: int| 0 <= k < self.paths().len() && self.paths()[k] == path@;
                assert(self.watched_paths@[k]@ == path@);
            }
        }
        self.watched_paths.push(wanted);
        assert(self.paths() =~= old(self).paths().push(path@));
    }

    /// The directories to watch. There has to be one.
    pub fn start(&self) -> (res: Result<&Vec<String>, WatchError>)
        ensures
            res is Ok == (self.paths().len() > 0),
            res matches Ok(paths) ==> text::texts(paths@) == self.paths(),
            res matches Err(e) ==> e == WatchError::NoPaths,
    {
        if self.watched_paths.len() == 0 {
            Err(WatchError::NoPaths)
        } else {
            Ok(&self.watched_paths)
        }
    }
}

/// Two changes are one: of the same kind and of the same path. New names are
/// never merged.
pub open spec fn same_change(a: FileChangeView, b: FileChangeView) -> bool {
    match (a, b) {
        (FileChangeView::Created(p), FileChangeView::Created(q)) => p == q,
        (FileChangeView::Modified(p), FileChangeView::Modified(q)) => p == q,
        (FileChangeView::Removed(p), FileChangeView::Removed(q)) => p == q,
        _ => false,
    }
}

/// One of the changes is `c`.
pub open spec fn has_change(s: Seq<FileChangeView>, c: FileChangeView) -> bool {
    exists|i: int| 0 <= i < s.len() && same_change(#[trigger] s[i], c)
}

/// The changes without those that are there already.
pub open spec fn merged(s: Seq<FileChangeView>) -> Seq<FileChangeView>
    decreases s.len(),
{
    if s.len() == 0 {
        s
    } else {
        let before = merged(s.drop_last());
        if has_change(before, s.last()) {
            before
        } else {
            before.push(s.last())
        }
    }
}

/// Gathers changes until a pause, each once.
pub struct ChangeCollector {
    buffer: Vec<FileChange>,
    debounce_ms: u64,
}

impl ChangeCollector {
    /// What was gathered.
    pub closed spec fn gathered(&self) -> Seq<FileChangeView> {
        change_views(self.buffer@)
    }

    pub closed spec fn debounce(&self) -> u64 {
        self.debounce_ms
    }

    pub fn new(debounce_ms: u64) -> (res: ChangeCollector)
        ensures
            res.gathered() == Seq::<FileChangeView>::empty(),
            res.debounce() == debounce_ms,
    {
        let res = ChangeCollector { buffer: Vec::new(), debounce_ms };
        assert(res.gathered() =~= Seq::<FileChangeView>::empty());
        res
    }

    /// How long to gather after the first change, in milliseconds.
    pub fn debounce_interval(&self) -> (res: u64)
        ensures
            res == self.debounce(),
    {
        self.debounce_ms
    }

    /// Whether the change is there already.
    pub fn contains_same_path(&self, event: &FileChange) -> (res: bool)
        ensures
            res == has_change(self.gathered(), event@),
    {
        let mut i: usize = 0;
        while i < self.buffer.len()
            invariant
                i <= self.buffer@.len(),
                forall|k: int| 0 <= k < i ==> !same_change(#[trigger] self.buffer@[k]@, event@),
            decreases self.buffer@.len() - i,
        {
            let same = match (&self.buffer[i], event) {
                (FileChange::Created(a), FileChange::Created(b)) => *a == *b,
                (FileChange::Modified(a), FileChange::Modified(b)) => *a == *b,
                (FileChange::Removed(a), FileChange::Removed(b)) => *a == *b,
                _ => false,
            };
            assert(same == same_change(self.buffer@[i as int]@, event@));
            if same {
                assert(self.gathered()[i as int] == self.buffer@[i as int]@);
                return true;
            }
            i += 1;
        }
        proof {
            assert forall|k: int| 0 <= k < self.gathered().len() implies !same_change(
                #[trigger] self.gathered()[k],
                event@,
            ) by {
                assert(self.gathered()[k] == self.buffer@[k]@);
            }
        }
        false
    }

    /// Adds a change, unless it is there already.
    pub fn add(&mut self, event: FileChange)
        ensures
            final(self).gathered() == if has_change(old(self).gathered(), event@) {
                old(self).gathered()
            } else {
                old(self).gathered().push(event@)
            },
            final(self).debounce() == old(self).debounce(),
    {
        if !self.contains_same_path(&event) {
            self.buffer.push(event);
            assert(self.gathered() =~= old(self).gathered().push(event@));
        }
    }

    /// Hands out what was gathered, and starts anew.
    pub fn take(&mut self) -> (res: Vec<FileChange>)
        ensures
            change_views(res@) == old(self).gathered(),
            final(self).gathered() == Seq::<FileChangeView>::empty(),
            final(self).debounce() == old(self).debounce(),
    {
        let mut res: Vec<FileChange> = Vec::new();
        std::mem::swap(&mut res, &mut self.buffer);
        assert(self.gathered() =~= Seq::<FileChangeView>::empty());
        res
    }

    /// The batch that comes of `events`, which arrived before the pause.
    pub fn collect_batch(&mut self, events: Vec<FileChange>) -> (res: Vec<FileChange>)
        ensures
            change_views(res@) == merged(change_views(events@)),
            final(self).gathered() == Seq::<FileChangeView>::empty(),
            final(self).debounce() == old(self).debounce(),
    {
        let ghost all = change_views(events@);
        self.buffer.clear();
        let mut i: usize = 0;
        assert(self.gathered() =~= Seq::<FileChangeView>::empty());
        assert(all.take(0).len() == 0);
        while i < events.len()
            invariant
                i <= events@.len(),
                all == change_views(events@),
                self.gathered() == merged(all.take(i as int)),
                self.debounce() == old(self).debounce(),
            decreases events@.len() - i,
        {
            proof {
                assert(all.take(i + 1).drop_last() =~= all.take(i as int));
                assert(all.take(i + 1).last() == events@[i as int]@);
            }
            self.add(events[i].copy());
            i += 1;
        }
        assert(all.take(i as int) =~= all);
        self.take()
    }
}

/// No two changes of a batch are one.
pub proof fn batch_has_no_repeats(s: Seq<FileChangeView>, i: int, j: int)
    requires
        0 <= i < j < merged(s).len(),
    ensures
        !same_change(merged(s)[i], merged(s)[j]),
    decreases s.len(),
{
    if s.len() > 0 {
        let before = merged(s.drop_last());
        if j < before.len() {
            batch_has_no_repeats(s.drop_last(), i, j);
        } else {
            assert(merged(s)[i] == before[i]);
        }
    }
}

/// No change is lost: each is in the batch, or one like it is.
pub proof fn batch_loses_nothing(s: Seq<FileChangeView>, i: int)
    requires
        0 <= i < s.len(),
    ensures
        merged(s).contains(s[i]) || has_change(merged(s), s[i]),
    decreases s.len(),
{
    let head = s.drop_last();
    let before = merged(head);
    if i < head.len() {
        assert(head[i] == s[i]);
        batch_loses_nothing(head, i);
        if before.contains(s[i]) {
            let k = choose|k: int| 0 <= k < before.len() && before[k] == s[i];
            assert(merged(s)[k] == s[i]);
        } else {
            let k = choose|k: int| 0 <= k < before.len() && same_change(#[trigger] before[k], s[i]);
            assert(merged(s)[k] == before[k]);
        }
    } else if !has_change(before, s[i]) {
        assert(merged(s)[before.len() as int] == s[i]);
    }
}

/// The changes are of one kind and of the same paths.
pub open spec fn alike(a: FileChange, b: FileChange) -> bool {
    match (a, b) {
        (FileChange::Created(p), FileChange::Created(q)) => p@ == q@,
        (FileChange::Modified(p), FileChange::Modified(q)) => p@ == q@,
        (FileChange::Removed(p), FileChange::Removed(q)) => p@ == q@,
        (
            FileChange::Renamed { from: p, to: q },
            FileChange::Renamed { from: r, to: s },
        ) => p@ == r@ && q@ == s@,
        _ => false,
    }
}

/// The places in `s` of the changes that are kept.
proof fn lemma_merged_places(s: Seq<FileChangeView>) -> (at: Seq<int>)
    ensures
        at.len() == merged(s).len(),
        forall|j: int|
            0 <= j < at.len() ==> 0 <= #[trigger] at[j] < s.len() && merged(s)[j] == s[at[j]],
        forall|j: int, k: int| 0 <= j < k < at.len() ==> at[j] < at[k],
        forall|i: int|
            0 <= i < s.len() ==> at.contains(i) || exists|j: int|
                0 <= j < at.len() && at[j] < i && same_change(s[#[trigger] at[j]], s[i]),
    decreases s.len(),
{
    if s.len() == 0 {
        return Seq::empty();
    }
    let head = s.drop_last();
    let before = merged(head);
    let n = s.len() - 1;
    let past = lemma_merged_places(head);
    let kept = !has_change(before, s.last());
    let at = if kept {
        past.push(n)
    } else {
        past
    };
    assert forall|i: int| 0 <= i < s.len() implies at.contains(i) || exists|j: int|
        0 <= j < at.len() && at[j] < i && same_change(s[#[trigger] at[j]], s[i]) by {
        if i < n {
            assert(head[i] == s[i]);
            if past.contains(i) {
                let j = choose|j: int| 0 <= j < past.len() && past[j] == i;
                assert(at[j] == i);
            } else {
                let j = choose|j: int|
                    0 <= j < past.len() && past[j] < i && same_change(
                        head[#[trigger] past[j]],
                        head[i],
                    );
                assert(at[j] == past[j]);
                assert(same_change(s[at[j]], s[i]));
            }
        } else if kept {
            assert(at[past.len() as int] == i);
        } else {
            let j = choose|j: int| 0 <= j < before.len() && same_change(
                #[trigger] before[j],
                s.last(),
            );
            assert(at[j] == past[j]);
            assert(same_change(s[at[j]], s[i]));
        }
    }
    at
}

/// A creation, a change of content or metadata and a removal are told with the
/// path of the event, a new name with the old path before the new one. An event
/// of another kind, or one that lacks a path, tells nothing.
pub proof fn events_tell_changes(class: EventClass, paths: &Vec<String>, res: Option<FileChange>)
    requires
        call_ensures(classify_event, (class, paths), res),
    ensures
        class is Other || paths@.len() == 0 ==> res is None,
        class is NameModified && paths@.len() < 2 ==> res is None,
        (class is FileCreated || class is FolderCreated) && paths@.len() > 0 ==> (res matches Some(
            FileChange::Created(p),
        ) && p@ == paths@[0]@),
        (class is DataModified || class is MetadataModified) && paths@.len() > 0 ==> (
        res matches Some(FileChange::Modified(p)) && p@ == paths@[0]@),
        (class is FileRemoved || class is FolderRemoved) && paths@.len() > 0 ==> (res matches Some(
            FileChange::Removed(p),
        ) && p@ == paths@[0]@),
        class is NameModified && paths@.len() >= 2 ==> (res matches Some(
            FileChange::Renamed { from, to },
        ) && from@ == paths@[0]@ && to@ == paths@[1]@),
{
    assert(text::texts(paths@).len() == paths@.len());
    if paths@.len() > 0 {
        assert(text::texts(paths@)[0] == paths@[0]@);
    }
    if paths@.len() > 1 {
        assert(text::texts(paths@)[1] == paths@[1]@);
    }
}

/// `res` holds the changes of `events` at the places `at`, in order; a change
/// that it leaves out is no new name and stands at an earlier one of the places;
/// and it holds nothing twice but new names.
pub open spec fn keeps_firsts(events: Seq<FileChange>, res: Seq<FileChange>, at: Seq<int>) -> bool {
    &&& at.len() == res.len()
    &&& forall|j: int|
        0 <= j < at.len() ==> 0 <= #[trigger] at[j] < events.len() && alike(res[j], events[at[j]])
    &&& forall|j: int, k: int| 0 <= j < k < at.len() ==> at[j] < at[k]
    &&& forall|i: int|
        0 <= i < events.len() && !at.contains(i) ==> !(#[trigger] events[i] is Renamed) && exists|
            j: int,
        | 0 <= j < at.len() && at[j] < i && alike(events[#[trigger] at[j]], events[i])
    &&& forall|j: int, k: int|
        0 <= j < k < res.len() && alike(#[trigger] res[j], #[trigger] res[k]) ==> res[j] is Renamed
}

/// A batch holds each change once, the first time that it comes, in the order of
/// the events; every new name stays.
pub proof fn batches_keep_first_changes(
    collector: &mut ChangeCollector,
    events: Vec<FileChange>,
    res: Vec<FileChange>,
)
    requires
        call_ensures(ChangeCollector::collect_batch, (collector, events), res),
    ensures
        exists|at: Seq<int>| keeps_firsts(events@, res@, at),
{
    let s = change_views(events@);
    let r = change_views(res@);
    let at = lemma_merged_places(s);
    assert forall|j: int| 0 <= j < at.len() implies 0 <= #[trigger] at[j] < events@.len() && alike(
        res@[j],
        events@[at[j]],
    ) by {
        assert(r[j] == res@[j]@ && s[at[j]] == events@[at[j]]@);
    }
    assert forall|i: int| 0 <= i < events@.len() && !at.contains(i) implies !(
    #[trigger] events@[i] is Renamed) && exists|j: int|
        0 <= j < at.len() && at[j] < i && alike(events@[#[trigger] at[j]], events@[i]) by {
        let j = choose|j: int|
            0 <= j < at.len() && at[j] < i && same_change(s[#[trigger] at[j]], s[i]);
        assert(s[i] == events@[i]@ && s[at[j]] == events@[at[j]]@);
        assert(alike(events@[at[j]], events@[i]));
    }
    assert forall|j: int, k: int|
        0 <= j < k < res@.len() && alike(#[trigger] res@[j], #[trigger] res@[k]) implies res@[
        j
    ] is Renamed by {
        batch_has_no_repeats(s, j, k);
        assert(r[j] == res@[j]@ && r[k] == res@[k]@);
    }
    assert(keeps_firsts(events@, res@, at));
}

/// A directory that is there is among those to watch once it was added, and so
/// are those that were added before; one that is not there changes nothing.
pub proof fn added_directories_are_watched(
    watcher: &mut FileWatcher,
    path: &str,
    exists: bool,
    before: &FileWatcher,
    after: &FileWatcher,
    was: Result<&Vec<String>, WatchError>,
    res: Result<&Vec<String>, WatchError>,
)
    requires
        call_ensures(FileWatcher::watch_path, (watcher, path, exists), ()),
        before.paths() == old(watcher).paths(),
        after.paths() == final(watcher).paths(),
        call_ensures(FileWatcher::start, (before,), was),
        call_ensures(FileWatcher::start, (after,), res),
    ensures
        was matches Ok(v) ==> (res matches Ok(w) && v@.len() <= w@.len() <= v@.len() + 1 && forall|
            k: int,
        |
            0 <= k < v@.len() ==> (#[trigger] w@[k])@ == v@[k]@),
        exists ==> (res matches Ok(w) && exists|k: int|
            0 <= k < w@.len() && (#[trigger] w@[k])@ == path@),
        !exists ==> (was is Ok == res is Ok),
        !exists ==> (was matches Ok(v) ==> (res matches Ok(w) ==> v@.len() == w@.len())),
{
    let a = before.paths();
    let b = after.paths();
    if let Ok(v) = was {
        assert(text::texts(v@) == a);
        assert(a.len() == v@.len());
        if let Ok(w) = res {
            assert(b.len() == w@.len());
            assert forall|k: int| 0 <= k < v@.len() implies (#[trigger] w@[k])@ == v@[k]@ by {
                assert(b[k] == w@[k]@);
                assert(a[k] == v@[k]@);
            }
        }
    }
    if exists {
        assert(b.contains(path@)) by {
            if !a.contains(path@) {
                assert(b[a.len() as int] == path@);
            }
        }
        let k = choose|k: int| 0 <= k < b.len() && b[k] == path@;
        if let Ok(w) = res {
            assert(b.len() == w@.len());
            assert(w@[k]@ == b[k]);
        }
    }
}

/// A copy of a batch holds the same changes in the same order.
pub proof fn copied_batches_agree(v: &Vec<FileChange>, res: Vec<FileChange>, i: int)
    requires
        call_ensures(copy_changes, (v,), res),
        0 <= i < v@.len(),
    ensures
        res@.len() == v@.len(),
        alike(res@[i], v@[i]),
{
    let a = change_views(res@);
    let b = change_views(v@);
    assert(a.len() == res@.len() && b.len() == v@.len());
    assert(a[i] == res@[i]@ && b[i] == v@[i]@);
}

/// What was added is taken, behind what was there, unless a change like it, and
/// not of a name, is there already; after that nothing is left.
pub proof fn added_changes_are_taken(
    a: &mut ChangeCollector,
    event: FileChange,
    b: &mut ChangeCollector,
    taken: Vec<FileChange>,
    before: Vec<FileChange>,
)
    requires
        change_views(before@) == old(a).gathered(),
        call_ensures(ChangeCollector::add, (a, event), ()),
        *old(b) == *final(a),
        call_ensures(ChangeCollector::take, (b,), taken),
    ensures
        final(b).gathered().len() == 0,
        ({
            let there = !(event is Renamed) && exists|k: int|
                0 <= k < before@.len() && alike(#[trigger] before@[k], event);
            let n = before@.len() as int;
            &&& taken@.len() == if there {
                n
            } else {
                n + 1
            }
            &&& forall|k: int| 0 <= k < n ==> alike(#[trigger] taken@[k], before@[k])
            &&& !there ==> alike(taken@[n], event)
        }),
{
    let s = old(a).gathered();
    let t = change_views(taken@);
    assert(s.len() == before@.len() && t.len() == taken@.len());
    assert forall|k: int| 0 <= k < s.len() implies s[k] == (#[trigger] before@[k])@ by {}
    assert forall|k: int| 0 <= k < t.len() implies t[k] == (#[trigger] taken@[k])@ by {}
    if has_change(s, event@) {
        let k = choose|k: int| 0 <= k < s.len() && same_change(#[trigger] s[k], event@);
        assert(alike(before@[k], event));
    } else if !(event is Renamed) {
        assert forall|k: int| 0 <= k < before@.len() implies !alike(#[trigger] before@[k], event) by {
            assert(!same_change(s[k], event@));
        }
    }
    assert forall|k: int| 0 <= k < before@.len() implies alike(#[trigger] taken@[k], before@[k]) by {
        assert(t[k] == s[k]);
    }
    if t.len() == s.len() + 1 {
        assert(t[s.len() as int] == event@);
    }
}

} // verus!
