//! What a node remembers of a pair between two runs, so that it need not hash
//! files again that have not changed.

use vstd::prelude::*;

use crate::clock;
use crate::clock::Timestamp;
use crate::config;
use crate::config::{CrossBagConfig, Place, Surroundings};
use crate::digest;
use crate::digest::Digest;
use crate::protocol;
use crate::protocol::FileEntry;
use crate::scan;
use crate::scan::{modified_time, Listed};
use crate::table::Table;
use crate::text;
use vstd::hash_map::StringHashMap;

verus! {

/// The state of a pair.
pub struct SyncState {
    pub pair_id: String,
    pub last_sync: Timestamp,
    /// The files by their relative paths.
    pub files: Table<FileStateEntry>,
}

/// What is remembered of a file.
#[derive(Debug, Clone, Copy)]
pub struct FileStateEntry {
    pub size: u64,
    pub modified: Timestamp,
    pub hash: Digest,
}

#[verifier::ext_equal]
pub ghost struct FileStateView {
    pub size: u64,
    pub modified: (int, int),
    pub hash: Seq<u8>,
}

impl View for FileStateEntry {
    type V = FileStateView;

    open spec fn view(&self) -> FileStateView {
        FileStateView { size: self.size, modified: self.modified@, hash: self.hash@ }
    }
}

/// What is remembered, by relative path.
pub open spec fn files_view(files: Table<FileStateEntry>) -> Map<Seq<char>, FileStateView> {
    files@.map_values(|e: FileStateEntry| e@)
}

/// `l` is a file, not a directory and not the root of the walk.
pub open spec fn is_file(l: Listed) -> bool {
    !l.is_root && !l.is_dir
}

/// What is remembered of `l` still holds: neither its size nor its time has
/// changed.
pub open spec fn unchanged(
    files: Map<Seq<char>, FileStateView>,
    l: Listed,
    now: (int, int),
) -> bool {
    &&& files.contains_key(l.relative_path@)
    &&& files[l.relative_path@].size == l.size
    &&& files[l.relative_path@].modified == scan::modified_of(l, now)
}

/// The digest of the file `l`: the one that is remembered, if that still holds,
/// else that of its content.
pub open spec fn hash_of(
    files: Map<Seq<char>, FileStateView>,
    l: Listed,
    content: Option<Digest>,
    now: (int, int),
) -> Seq<u8> {
    if unchanged(files, l, now) {
        files[l.relative_path@].hash
    } else {
        match content {
            Some(d) => d@,
            None => digest::zero_digest(),
        }
    }
}

/// What is remembered once `l` was met.
pub open spec fn met(
    files: Map<Seq<char>, FileStateView>,
    l: Listed,
    content: Option<Digest>,
    now: (int, int),
) -> Map<Seq<char>, FileStateView> {
    if is_file(l) {
        files.insert(
            l.relative_path@,
            FileStateView {
                size: l.size,
                modified: scan::modified_of(l, now),
                hash: hash_of(files, l, content, now),
            },
        )
    } else {
        files
    }
}

/// What is remembered after a walk, before what is gone is forgotten.
pub open spec fn scanned(
    files: Map<Seq<char>, FileStateView>,
    listing: Seq<Listed>,
    contents: Seq<Option<Digest>>,
    now: (int, int),
) -> Map<Seq<char>, FileStateView>
    decreases listing.len(),
{
    if listing.len() == 0 {
        files
    } else {
        met(
            scanned(files, listing.drop_last(), contents.drop_last(), now),
            listing.last(),
            contents.last(),
            now,
        )
    }
}

/// The entries that a walk finds: files with their digests, and directories
/// without size and with the time of the walk.
pub open spec fn found(
    files: Map<Seq<char>, FileStateView>,
    listing: Seq<Listed>,
    contents: Seq<Option<Digest>>,
    now: (int, int),
) -> Seq<protocol::FileEntryView>
    decreases listing.len(),
{
    if listing.len() == 0 {
        Seq::empty()
    } else {
        let l = listing.last();
        let before = scanned(files, listing.drop_last(), contents.drop_last(), now);
        let entries = found(files, listing.drop_last(), contents.drop_last(), now);
        if l.is_root {
            entries
        } else if l.is_dir {
            entries.push(
                protocol::FileEntryView {
                    relative_path: l.relative_path@,
                    size: 0,
                    modified: now,
                    hash: digest::zero_digest(),
                    is_dir: true,
                    mode: 0,
                },
            )
        } else {
            entries.push(
                protocol::FileEntryView {
                    relative_path: l.relative_path@,
                    size: l.size,
                    modified: scan::modified_of(l, now),
                    hash: hash_of(before, l, contents.last(), now),
                    is_dir: false,
                    mode: 0,
                },
            )
        }
    }
}

/// The walk met a file at the relative path `p`.
pub open spec fn seen(listing: Seq<Listed>, p: Seq<char>) -> bool {
    exists|i: int|
        0 <= i < listing.len() && is_file(#[trigger] listing[i]) && listing[i].relative_path@ == p
}

/// What is remembered after a walk.
pub open spec fn remembered(
    files: Map<Seq<char>, FileStateView>,
    listing: Seq<Listed>,
    contents: Seq<Option<Digest>>,
    now: (int, int),
) -> Map<Seq<char>, FileStateView> {
    scanned(files, listing, contents, now).restrict(Set::new(|p: Seq<char>| seen(listing, p)))
}

/// No content is known.
pub open spec fn unread(n: nat) -> Seq<Option<Digest>> {
    Seq::new(n, |i: int| None)
}

/// The file `i` of a walk has to be hashed.
pub open spec fn is_stale(
    files: Map<Seq<char>, FileStateView>,
    listing: Seq<Listed>,
    now: (int, int),
    i: int,
) -> bool {
    is_file(listing[i]) && !unchanged(
        scanned(files, listing.take(i), unread(i as nat), now),
        listing[i],
        now,
    )
}

impl SyncState {
    /// The state of a pair of which nothing is known yet.
    pub fn starting_at(pair_id: &str, now: Timestamp) -> (res: SyncState)
        ensures
            res.pair_id@ == pair_id@,
            res.last_sync == now,
            files_view(res.files) == Map::<Seq<char>, FileStateView>::empty(),
    {
        let res = SyncState { pair_id: pair_id.to_owned(), last_sync: now, files: Table::new() };
        assert(files_view(res.files) =~= Map::<Seq<char>, FileStateView>::empty());
        res
    }

    /// The state of a pair of which nothing is known yet.
    pub fn new(pair_id: &str) -> (res: SyncState)
        ensures
            res.pair_id@ == pair_id@,
            files_view(res.files) == Map::<Seq<char>, FileStateView>::empty(),
    {
        SyncState::starting_at(pair_id, Timestamp::now())
    }

    /// A copy of the state.
    pub fn copy(&self) -> (res: SyncState)
        ensures
            res.pair_id == self.pair_id,
            res.last_sync == self.last_sync,
            files_view(res.files) == files_view(self.files),
    {
        let mut files: Table<FileStateEntry> = Table::new();
        let n = self.files.len();
        let ghost keys = self.files.keys();
        let mut i: usize = 0;
        while i < n
            invariant
                i <= n,
                n == keys.len(),
                keys == self.files.keys(),
                forall|p: Seq<char>| #[trigger]
                    files@.contains_key(p) == keys.take(i as int).contains(p),
                forall|p: Seq<char>| #[trigger]
                    files@.contains_key(p) ==> self.files@.contains_key(p) && files@[p]
                        == self.files@[p],
            decreases n - i,
        {
            let path = self.files.key_at(i);
            let entry = self.files.value_at(i);
            proof {
                assert(keys.take(i + 1) =~= keys.take(i as int).push(path@));
                assert forall|p: Seq<char>| #[trigger] keys.take(i + 1).contains(p) == (keys.take(
                    i as int,
                ).contains(p) || p == path@) by {
                    text::lemma_contains_push(keys.take(i as int), path@, p);
                }
            }
            files.insert(path.clone(), *entry);
            i += 1;
        }
        proof {
            assert(keys.take(i as int) =~= keys);
            assert(files_view(files) =~= files_view(self.files));
        }
        SyncState { pair_id: self.pair_id.clone(), last_sync: self.last_sync, files }
    }

    /// Which of the files that a walk met have to be hashed.
    pub fn stale_files(&self, listing: &Vec<Listed>, now: &Timestamp) -> (res: Vec<bool>)
        ensures
            res@.len() == listing@.len(),
            forall|i: int|
                0 <= i < listing@.len() ==> #[trigger] res@[i] == is_stale(
                    files_view(self.files),
                    listing@,
                    now@,
                    i,
                ),
    {
        let ghost files = files_view(self.files);
        let mut fresh: Table<FileStateEntry> = Table::new();
        let mut res: Vec<bool> = Vec::new();
        let mut i: usize = 0;
        while i < listing.len()
            invariant
                i <= listing@.len(),
                res@.len() == i,
                files == files_view(self.files),
                forall|k: int|
                    0 <= k < i ==> #[trigger] res@[k] == is_stale(files, listing@, now@, k),
                same_marks(
                    files.union_prefer_right(files_view(fresh)),
                    scanned(files, listing@.take(i as int), unread(i as nat), now@),
                ),
            decreases listing@.len() - i,
        {
            let l = &listing[i];
            let modified = modified_time(l, now);
            let known: Option<&FileStateEntry> = match fresh.get(&l.relative_path) {
                Some(e) => Some(e),
                None => self.files.get(&l.relative_path),
            };
            let kept = match known {
                Some(e) => e.size == l.size && e.modified.same(&modified),
                None => false,
            };
            let ghost running = scanned(files, listing@.take(i as int), unread(i as nat), now@);
            proof {
                assert(listing@.take(i + 1).drop_last() =~= listing@.take(i as int));
                assert(unread((i + 1) as nat).drop_last() =~= unread(i as nat));
                assert(marked(running, l.relative_path@) == marked(
                    files.union_prefer_right(files_view(fresh)),
                    l.relative_path@,
                ));
                assert(kept == unchanged(running, *l, now@));
            }
            res.push(!l.is_root && !l.is_dir && !kept);
            if !l.is_root && !l.is_dir {
                let entry = FileStateEntry { size: l.size, modified, hash: Digest::zero() };
                let ghost before = files_view(fresh);
                fresh.insert(l.relative_path.clone(), entry);
                assert(files_view(fresh) =~= before.insert(l.relative_path@, entry@));
                proof {
                    let a = files.union_prefer_right(files_view(fresh));
                    let b = scanned(files, listing@.take(i + 1), unread((i + 1) as nat), now@);
                    assert forall|p: Seq<char>| #[trigger] marked(a, p) == marked(b, p) by {
                        assert(marked(files.union_prefer_right(before), p) == marked(running, p));
                    }
                }
            }
            i += 1;
        }
        res
    }

    /// Takes in what a walk met. `contents` holds the digest of each file that
    /// had to be hashed and could be read.
    ///
    /// The digest of a file whose size and time have not changed is kept; that
    /// of any other file is taken from its content. What is no file any more is
    /// forgotten.
    pub fn incremental_update(
        &mut self,
        listing: &Vec<Listed>,
        contents: &Vec<Option<Digest>>,
        now: &Timestamp,
    ) -> (res: Vec<FileEntry>)
        requires
            listing@.len() == contents@.len(),
        ensures
            protocol::entry_views(res@) == found(
                files_view(old(self).files),
                listing@,
                contents@,
                now@,
            ),
            files_view(final(self).files) == remembered(
                files_view(old(self).files),
                listing@,
                contents@,
                now@,
            ),
            final(self).last_sync == *now,
            final(self).pair_id == old(self).pair_id,
    {
        let ghost files = files_view(self.files);
        let mut entries: Vec<FileEntry> = Vec::new();
        let mut met_paths: StringHashMap<bool> = StringHashMap::new();
        let mut i: usize = 0;
        assert(protocol::entry_views(entries@) =~= Seq::empty());
        while i < listing.len()
            invariant
                i <= listing@.len(),
                listing@.len() == contents@.len(),
                files_view(self.files) == scanned(
                    files,
                    listing@.take(i as int),
                    contents@.take(i as int),
                    now@,
                ),
                protocol::entry_views(entries@) == found(
                    files,
                    listing@.take(i as int),
                    contents@.take(i as int),
                    now@,
                ),
                forall|p: Seq<char>| #[trigger]
                    met_paths@.contains_key(p) == seen(listing@.take(i as int), p),
                self.pair_id == old(self).pair_id,
            decreases listing@.len() - i,
        {
            let l = &listing[i];
            let ghost head = listing@.take(i as int);
            let ghost now_listing = listing@.take(i + 1);
            let ghost before = files_view(self.files);
            let ghost before_entries = protocol::entry_views(entries@);
            proof {
                assert(now_listing.drop_last() =~= head);
                assert(contents@.take(i + 1).drop_last() =~= contents@.take(i as int));
                assert forall|p: Seq<char>| #[trigger] seen(now_listing, p) == (seen(head, p) || (
                is_file(*l) && l.relative_path@ == p)) by {
                    lemma_seen_push(listing@, i as int, p);
                }
            }
            if !l.is_root {
                if l.is_dir {
                    let entry = FileEntry {
                        relative_path: l.relative_path.clone(),
                        size: 0,
                        modified: *now,
                        hash: Digest::zero(),
                        is_dir: true,
                        mode: 0,
                    };
                    entries.push(entry);
                    assert(protocol::entry_views(entries@) =~= before_entries.push(entry@));
                } else {
                    met_paths.insert(l.relative_path.clone(), true);
                    let modified = modified_time(l, now);
                    let kept: Option<Digest> = match self.files.get(&l.relative_path) {
                        Some(e) => if e.size == l.size && e.modified.same(&modified) {
                            Some(e.hash)
                        } else {
                            None
                        },
                        None => None,
                    };
                    let hash = match kept {
                        Some(d) => d,
                        None => match contents[i] {
                            Some(d) => d,
                            None => Digest::zero(),
                        },
                    };
                    assert(hash@ == hash_of(before, *l, contents@[i as int], now@));
                    let state = FileStateEntry { size: l.size, modified, hash };
                    self.files.insert(l.relative_path.clone(), state);
                    assert(files_view(self.files) =~= before.insert(l.relative_path@, state@));
                    let entry = FileEntry {
                        relative_path: l.relative_path.clone(),
                        size: l.size,
                        modified,
                        hash,
                        is_dir: false,
                        mode: 0,
                    };
                    entries.push(entry);
                    assert(protocol::entry_views(entries@) =~= before_entries.push(entry@));
                }
            }
            i += 1;
        }
        assert(listing@.take(i as int) =~= listing@);
        assert(contents@.take(i as int) =~= contents@);
        self.forget_others(&met_paths);
        self.last_sync = *now;
        assert(files_view(self.files) =~= remembered(files, listing@, contents@, now@));
        entries
    }

    /// Forgets the files whose paths are not in `keep`.
    fn forget_others(&mut self, keep: &StringHashMap<bool>)
        ensures
            files_view(final(self).files) == files_view(old(self).files).restrict(keep@.dom()),
            final(self).pair_id == old(self).pair_id,
            final(self).last_sync == old(self).last_sync,
    {
        let ghost files = files_view(self.files);
        let ghost keys = self.files.keys();
        let mut kept: Table<FileStateEntry> = Table::new();
        let n = self.files.len();
        let mut i: usize = 0;
        while i < n
            invariant
                i <= n,
                n == keys.len(),
                keys == self.files.keys(),
                keys.no_duplicates(),
                files == files_view(self.files),
                self.pair_id == old(self).pair_id,
                self.last_sync == old(self).last_sync,
                forall|p: Seq<char>| #[trigger]
                    kept@.contains_key(p) == (keep@.contains_key(p) && keys.take(
                        i as int,
                    ).contains(p)),
                forall|p: Seq<char>| #[trigger]
                    kept@.contains_key(p) ==> self.files@.contains_key(p) && kept@[p]
                        == self.files@[p],
            decreases n - i,
        {
            let path = self.files.key_at(i);
            let entry = self.files.value_at(i);
            proof {
                assert(keys.take(i + 1) =~= keys.take(i as int).push(path@));
                assert forall|p: Seq<char>| #[trigger] keys.take(i + 1).contains(p) == (keys.take(
                    i as int,
                ).contains(p) || p == path@) by {
                    text::lemma_contains_push(keys.take(i as int), path@, p);
                }
            }
            if keep.contains_key(path) {
                kept.insert(path.clone(), *entry);
            }
            i += 1;
        }
        proof {
            assert(keys.take(i as int) =~= keys);
            assert(files_view(kept) =~= files.restrict(keep@.dom()));
        }
        self.files = kept;
    }

    /// Where the state of a pair is kept: beside the configuration.
    pub fn default_path(pair_id: &str, s: &Surroundings) -> (res: Place)
        ensures
            config::place_view(res) == (
                config::config_home(*s).0,
                config::config_home(*s).1.push(".crossbag"@).push(
                    "state_"@ + pair_id@ + ".json"@,
                ),
            ),
    {
        let mut res = CrossBagConfig::default_path(s);
        let ghost home = config::config_home(*s).1;
        let ghost whole = text::texts(res.steps@);
        let _ = res.steps.pop();
        proof {
            assert(text::texts(res.steps@) =~= whole.drop_last());
            assert(whole.drop_last() =~= home);
        }
        res.steps.push(".crossbag".to_owned());
        assert(text::texts(res.steps@) =~= home.push(".crossbag"@));
        let mut name = "state_".to_owned();
        name.append(pair_id);
        name.append(".json");
        res.steps.push(name);
        assert(text::texts(res.steps@) =~= home.push(".crossbag"@).push(
            "state_"@ + pair_id@ + ".json"@,
        ));
        res
    }
}

proof fn lemma_seen_push(listing: Seq<Listed>, i: int, p: Seq<char>)
    requires
        0 <= i < listing.len(),
    ensures
        seen(listing.take(i + 1), p) == (seen(listing.take(i), p) || (is_file(listing[i])
            && listing[i].relative_path@ == p)),
{
    let now = listing.take(i + 1);
    let head = listing.take(i);
    if seen(head, p) {
        let k = choose|k: int|
            0 <= k < head.len() && is_file(#[trigger] head[k]) && head[k].relative_path@ == p;
        assert(now[k] == head[k]);
    }
    if is_file(listing[i]) && listing[i].relative_path@ == p {
        assert(now[i] == listing[i]);
    }
    if seen(now, p) {
        let k = choose|k: int|
            0 <= k < now.len() && is_file(#[trigger] now[k]) && now[k].relative_path@ == p;
        if k < i {
            assert(head[k] == now[k]);
        }
    }
}

/// Size and time that are remembered of the file at `p`.
spec fn marked(files: Map<Seq<char>, FileStateView>, p: Seq<char>) -> Option<(u64, (int, int))> {
    if files.contains_key(p) {
        Some((files[p].size, files[p].modified))
    } else {
        None
    }
}

/// The same sizes and times are remembered.
spec fn same_marks(
    a: Map<Seq<char>, FileStateView>,
    b: Map<Seq<char>, FileStateView>,
) -> bool {
    forall|p: Seq<char>| #[trigger] marked(a, p) == marked(b, p)
}

/// No two of the files that a walk met have one relative path.
pub open spec fn distinct_files(listing: Seq<Listed>) -> bool {
    forall|i: int, j: int|
        0 <= i < j < listing.len() && is_file(#[trigger] listing[i]) && is_file(
            #[trigger] listing[j],
        ) ==> listing[i].relative_path@ != listing[j].relative_path@
}

/// The times of all files that a walk met are known, and no two of them have
/// one relative path.
pub open spec fn settled(listing: Seq<Listed>) -> bool {
    &&& forall|i: int|
        0 <= i < listing.len() && is_file(#[trigger] listing[i]) ==> (
        listing[i].modified_secs matches Some(secs) && clock::valid_time(secs as int, 0))
    &&& distinct_files(listing)
}

/// The digest that is remembered of each file that has not changed is that of
/// its content.
pub open spec fn truthful(
    files: Map<Seq<char>, FileStateView>,
    listing: Seq<Listed>,
    contents: Seq<Option<Digest>>,
    now: (int, int),
) -> bool {
    forall|i: int|
        0 <= i < listing.len() && is_file(#[trigger] listing[i]) && unchanged(
            files,
            listing[i],
            now,
        ) ==> (contents[i] matches Some(d) && d@ == files[listing[i].relative_path@].hash)
}

/// Starting from what is remembered gives the entries that starting afresh
/// gives, where every file is hashed, if what is remembered is true.
pub proof fn remembering_changes_no_entry(
    files: Map<Seq<char>, FileStateView>,
    listing: Seq<Listed>,
    contents: Seq<Option<Digest>>,
    now: (int, int),
)
    requires
        contents.len() == listing.len(),
        distinct_files(listing),
        truthful(files, listing, contents, now),
    ensures
        found(files, listing, contents, now) == found(Map::empty(), listing, contents, now),
    decreases listing.len(),
{
    if listing.len() > 0 {
        let n = listing.len() - 1;
        let head = listing.drop_last();
        let known = contents.drop_last();
        let l = listing[n];
        assert forall|i: int| 0 <= i < head.len() implies head[i] == listing[i] && known[i]
            == contents[i] by {}
        assert forall|i: int|
            0 <= i < head.len() && is_file(#[trigger] head[i]) && unchanged(
                files,
                head[i],
                now,
            ) implies (known[i] matches Some(d) && d@ == files[head[i].relative_path@].hash) by {
            assert(head[i] == listing[i]);
        }
        assert(distinct_files(head)) by {
            assert forall|i: int, j: int|
                0 <= i < j < head.len() && is_file(#[trigger] head[i]) && is_file(
                    #[trigger] head[j],
                ) implies head[i].relative_path@ != head[j].relative_path@ by {
                assert(head[i] == listing[i] && head[j] == listing[j]);
            }
        }
        remembering_changes_no_entry(files, head, known, now);
        if is_file(l) {
            let p = l.relative_path@;
            assert forall|i: int| 0 <= i < head.len() && is_file(#[trigger] head[i]) implies
                head[i].relative_path@ != p by {
                assert(head[i] == listing[i]);
            }
            lemma_scanned_other(files, head, known, now, p);
            lemma_scanned_other(Map::empty(), head, known, now, p);
        }
    }
}

proof fn lemma_scanned_marks(
    files: Map<Seq<char>, FileStateView>,
    listing: Seq<Listed>,
    a: Seq<Option<Digest>>,
    b: Seq<Option<Digest>>,
    now: (int, int),
)
    requires
        a.len() == listing.len(),
        b.len() == listing.len(),
    ensures
        same_marks(scanned(files, listing, a, now), scanned(files, listing, b, now)),
    decreases listing.len(),
{
    if listing.len() > 0 {
        let head = listing.drop_last();
        lemma_scanned_marks(files, head, a.drop_last(), b.drop_last(), now);
        let x = scanned(files, head, a.drop_last(), now);
        let y = scanned(files, head, b.drop_last(), now);
        assert forall|p: Seq<char>| #[trigger]
            marked(scanned(files, listing, a, now), p) == marked(
                scanned(files, listing, b, now),
                p,
            ) by {
            assert(marked(x, p) == marked(y, p));
        }
    }
}

/// Only the files that have to be hashed need their content: whatever is handed
/// over for the others, the outcome is the same.
pub proof fn only_stale_content_matters(
    files: Map<Seq<char>, FileStateView>,
    listing: Seq<Listed>,
    a: Seq<Option<Digest>>,
    b: Seq<Option<Digest>>,
    now: (int, int),
)
    requires
        a.len() == listing.len(),
        b.len() == listing.len(),
        forall|i: int| 0 <= i < listing.len() && is_stale(files, listing, now, i) ==> a[i] == b[i],
    ensures
        scanned(files, listing, a, now) == scanned(files, listing, b, now),
        found(files, listing, a, now) == found(files, listing, b, now),
        remembered(files, listing, a, now) == remembered(files, listing, b, now),
    decreases listing.len(),
{
    if listing.len() > 0 {
        let n = listing.len() - 1;
        let head = listing.drop_last();
        assert forall|i: int| 0 <= i < head.len() && is_stale(files, head, now, i) implies
            a.drop_last()[i] == b.drop_last()[i] by {
            assert(head.take(i) =~= listing.take(i));
            assert(head[i] == listing[i]);
            assert(is_stale(files, listing, now, i));
        }
        only_stale_content_matters(files, head, a.drop_last(), b.drop_last(), now);
        assert(listing.take(n) =~= head);
        lemma_scanned_marks(files, head, a.drop_last(), unread(n as nat), now);
        let x = scanned(files, head, a.drop_last(), now);
        let l = listing.last();
        assert(marked(x, l.relative_path@) == marked(
            scanned(files, head, unread(n as nat), now),
            l.relative_path@,
        ));
        if is_file(l) && !unchanged(x, l, now) {
            assert(is_stale(files, listing, now, n));
        }
    }
}

proof fn lemma_scanned_file(
    files: Map<Seq<char>, FileStateView>,
    listing: Seq<Listed>,
    contents: Seq<Option<Digest>>,
    now: (int, int),
    i: int,
)
    requires
        settled(listing),
        contents.len() == listing.len(),
        0 <= i < listing.len(),
        is_file(listing[i]),
    ensures
        unchanged(scanned(files, listing, contents, now), listing[i], now),
    decreases listing.len(),
{
    let n = listing.len() - 1;
    let head = listing.drop_last();
    if i < n {
        assert(listing[i] == head[i]);
        assert(distinct_files(head)) by {
            assert forall|k: int, j: int|
                0 <= k < j < head.len() && is_file(#[trigger] head[k]) && is_file(
                    #[trigger] head[j],
                ) implies head[k].relative_path@ != head[j].relative_path@ by {
                assert(head[k] == listing[k] && head[j] == listing[j]);
            }
        }
        assert forall|k: int| 0 <= k < head.len() && is_file(#[trigger] head[k]) implies (
        head[k].modified_secs matches Some(secs) && clock::valid_time(secs as int, 0)) by {
            assert(head[k] == listing[k]);
        }
        lemma_scanned_file(files, head, contents.drop_last(), now, i);
        assert(listing[i].relative_path@ != listing[n].relative_path@ || !is_file(listing[n]));
    }
}

proof fn lemma_scanned_other(
    files: Map<Seq<char>, FileStateView>,
    listing: Seq<Listed>,
    contents: Seq<Option<Digest>>,
    now: (int, int),
    p: Seq<char>,
)
    requires
        contents.len() == listing.len(),
        forall|i: int|
            0 <= i < listing.len() && is_file(#[trigger] listing[i]) ==> listing[i].relative_path@
                != p,
    ensures
        scanned(files, listing, contents, now).contains_key(p) == files.contains_key(p),
        files.contains_key(p) ==> scanned(files, listing, contents, now)[p] == files[p],
        marked(scanned(files, listing, contents, now), p) == marked(files, p),
    decreases listing.len(),
{
    if listing.len() > 0 {
        let head = listing.drop_last();
        assert forall|i: int| 0 <= i < head.len() && is_file(#[trigger] head[i]) implies
            head[i].relative_path@ != p by {
            assert(head[i] == listing[i]);
        }
        lemma_scanned_other(files, head, contents.drop_last(), now, p);
        assert(listing[listing.len() - 1] == listing.last());
    }
}

/// One of the entries is that of a file at `p`.
pub open spec fn lists_file(entries: Seq<protocol::FileEntryView>, p: Seq<char>) -> bool {
    exists|i: int|
        0 <= i < entries.len() && !(#[trigger] entries[i]).is_dir && entries[i].relative_path == p
}

/// After a walk, what is remembered are the files that it found, and nothing
/// else: neither what is gone nor what is a directory now.
pub proof fn only_files_are_remembered(
    files: Map<Seq<char>, FileStateView>,
    listing: Seq<Listed>,
    contents: Seq<Option<Digest>>,
    now: (int, int),
    p: Seq<char>,
)
    requires
        contents.len() == listing.len(),
    ensures
        remembered(files, listing, contents, now).contains_key(p) == lists_file(
            found(files, listing, contents, now),
            p,
        ),
{
    lemma_files_found(files, listing, contents, now, p);
}

proof fn lemma_files_found(
    files: Map<Seq<char>, FileStateView>,
    listing: Seq<Listed>,
    contents: Seq<Option<Digest>>,
    now: (int, int),
    p: Seq<char>,
)
    requires
        contents.len() == listing.len(),
    ensures
        seen(listing, p) ==> scanned(files, listing, contents, now).contains_key(p),
        seen(listing, p) == lists_file(found(files, listing, contents, now), p),
    decreases listing.len(),
{
    if listing.len() > 0 {
        let n = listing.len() - 1;
        let head = listing.drop_last();
        let entries = found(files, head, contents.drop_last(), now);
        let all = found(files, listing, contents, now);
        lemma_files_found(files, head, contents.drop_last(), now, p);
        assert(listing.take(n + 1) =~= listing);
        assert(listing.take(n) =~= head);
        lemma_seen_push(listing, n, p);
        if lists_file(entries, p) {
            let i = choose|i: int|
                0 <= i < entries.len() && !(#[trigger] entries[i]).is_dir
                    && entries[i].relative_path == p;
            assert(all[i] == entries[i]);
        }
        if lists_file(all, p) {
            let i = choose|i: int|
                0 <= i < all.len() && !(#[trigger] all[i]).is_dir && all[i].relative_path == p;
            if i < entries.len() {
                assert(entries[i] == all[i]);
            }
        }
        if is_file(listing[n]) {
            assert(all[entries.len() as int].relative_path == listing[n].relative_path@);
        }
    }
}

/// A file that has not changed since the last walk is not hashed again.
pub proof fn unchanged_files_are_not_hashed_again(
    files: Map<Seq<char>, FileStateView>,
    listing: Seq<Listed>,
    contents: Seq<Option<Digest>>,
    now: (int, int),
    later: (int, int),
    i: int,
)
    requires
        settled(listing),
        contents.len() == listing.len(),
        0 <= i < listing.len(),
    ensures
        !is_stale(remembered(files, listing, contents, now), listing, later, i),
{
    let l = listing[i];
    if is_file(l) {
        let p = l.relative_path@;
        let all = scanned(files, listing, contents, now);
        let kept = remembered(files, listing, contents, now);
        lemma_scanned_file(files, listing, contents, now, i);
        assert(seen(listing, p));
        assert(marked(kept, p) == marked(all, p));
        let head = listing.take(i);
        assert forall|k: int| 0 <= k < head.len() && is_file(#[trigger] head[k]) implies
            head[k].relative_path@ != p by {
            assert(head[k] == listing[k]);
        }
        lemma_scanned_other(kept, head, unread(i as nat), later, p);
        assert(scan::modified_of(l, now) == scan::modified_of(l, later));
    }
}

/// Walking again, with nothing changed, changes nothing of what is remembered:
/// every digest is kept, whatever is handed over for the contents.
pub proof fn walking_again_keeps_digests(
    files: Map<Seq<char>, FileStateView>,
    listing: Seq<Listed>,
    contents: Seq<Option<Digest>>,
    now: (int, int),
    others: Seq<Option<Digest>>,
    later: (int, int),
)
    requires
        settled(listing),
        contents.len() == listing.len(),
        others.len() == listing.len(),
    ensures
        remembered(remembered(files, listing, contents, now), listing, others, later)
            == remembered(files, listing, contents, now),
{
    let kept = remembered(files, listing, contents, now);
    lemma_walk_again(files, listing, contents, now, others, later, listing.len() as int);
    assert(listing.take(listing.len() as int) =~= listing);
    assert(others.take(listing.len() as int) =~= others);
    assert(remembered(kept, listing, others, later) =~= kept);
}

proof fn lemma_walk_again(
    files: Map<Seq<char>, FileStateView>,
    listing: Seq<Listed>,
    contents: Seq<Option<Digest>>,
    now: (int, int),
    others: Seq<Option<Digest>>,
    later: (int, int),
    n: int,
)
    requires
        settled(listing),
        contents.len() == listing.len(),
        others.len() == listing.len(),
        0 <= n <= listing.len(),
    ensures
        scanned(
            remembered(files, listing, contents, now),
            listing.take(n),
            others.take(n),
            later,
        ) == remembered(files, listing, contents, now),
    decreases n,
{
    let kept = remembered(files, listing, contents, now);
    if n > 0 {
        lemma_walk_again(files, listing, contents, now, others, later, n - 1);
        assert(listing.take(n).drop_last() =~= listing.take(n - 1));
        assert(others.take(n).drop_last() =~= others.take(n - 1));
        let l = listing[n - 1];
        if is_file(l) {
            let p = l.relative_path@;
            lemma_scanned_file(files, listing, contents, now, n - 1);
            assert(seen(listing, p));
            assert(scan::modified_of(l, now) == scan::modified_of(l, later));
            assert(kept.insert(p, kept[p]) =~= kept);
        }
    }
}

/// No two files of a walk have one relative path.
pub open spec fn files_met_once(listing: Seq<Listed>) -> bool {
    forall|i: int, j: int|
        0 <= i < j < listing.len() && !(#[trigger] listing[i]).is_root && !listing[i].is_dir && !(
        #[trigger] listing[j]).is_root && !listing[j].is_dir ==> listing[i].relative_path@
            != listing[j].relative_path@
}

/// When the file was changed last, where the system says so and the calendar
/// reaches that far, else `now`.
pub open spec fn told_time(l: Listed, now: (int, int)) -> (int, int) {
    match l.modified_secs {
        Some(secs) => if clock::MIN_SECS <= secs <= clock::MAX_SECS {
            (secs as int, 0)
        } else {
            now
        },
        None => now,
    }
}

/// Size and time of the file are those that are remembered.
pub open spec fn looks_the_same(
    files: Table<FileStateEntry>,
    l: Listed,
    now: (int, int),
) -> bool {
    &&& files@.contains_key(l.relative_path@)
    &&& files@[l.relative_path@].size == l.size
    &&& files@[l.relative_path@].modified@ == told_time(l, now)
}

proof fn lemma_found_at(
    files: Map<Seq<char>, FileStateView>,
    listing: Seq<Listed>,
    contents: Seq<Option<Digest>>,
    now: (int, int),
    i: int,
) -> (n: int)
    requires
        contents.len() == listing.len(),
        0 <= i < listing.len(),
        !listing[i].is_root,
    ensures
        0 <= n < found(files, listing, contents, now).len(),
        ({
            let l = listing[i];
            let e = found(files, listing, contents, now)[n];
            let before = scanned(files, listing.take(i), contents.take(i), now);
            &&& e.relative_path == l.relative_path@
            &&& e.is_dir == l.is_dir
            &&& e.mode == 0
            &&& l.is_dir ==> e.size == 0 && e.modified == now && e.hash == digest::zero_digest()
            &&& !l.is_dir ==> e.size == l.size && e.modified == scan::modified_of(l, now)
                && e.hash == hash_of(before, l, contents[i], now)
        }),
    decreases listing.len(),
{
    let last = listing.len() - 1;
    let head = listing.drop_last();
    let all = found(files, listing, contents, now);
    let entries = found(files, head, contents.drop_last(), now);
    if i == last {
        assert(listing.take(i) =~= head);
        assert(contents.take(i) =~= contents.drop_last());
        entries.len() as int
    } else {
        assert(head[i] == listing[i]);
        assert(head.take(i) =~= listing.take(i));
        assert(contents.drop_last().take(i) =~= contents.take(i));
        let n = lemma_found_at(files, head, contents.drop_last(), now, i);
        assert(all[n] == entries[n]);
        n
    }
}

proof fn lemma_scanned_at(
    files: Map<Seq<char>, FileStateView>,
    listing: Seq<Listed>,
    contents: Seq<Option<Digest>>,
    now: (int, int),
    i: int,
)
    requires
        contents.len() == listing.len(),
        files_met_once(listing),
        0 <= i < listing.len(),
        is_file(listing[i]),
    ensures
        ({
            let l = listing[i];
            let all = scanned(files, listing, contents, now);
            let before = scanned(files, listing.take(i), contents.take(i), now);
            &&& all.contains_key(l.relative_path@)
            &&& all[l.relative_path@] == FileStateView {
                size: l.size,
                modified: scan::modified_of(l, now),
                hash: hash_of(before, l, contents[i], now),
            }
        }),
    decreases listing.len(),
{
    let last = listing.len() - 1;
    let head = listing.drop_last();
    if i == last {
        assert(listing.take(i) =~= head);
        assert(contents.take(i) =~= contents.drop_last());
    } else {
        assert(files_met_once(head)) by {
            assert forall|a: int, b: int|
                0 <= a < b < head.len() && !(#[trigger] head[a]).is_root && !head[a].is_dir && !(
                #[trigger] head[b]).is_root && !head[b].is_dir implies head[a].relative_path@
                != head[b].relative_path@ by {
                assert(head[a] == listing[a] && head[b] == listing[b]);
            }
        }
        assert(head[i] == listing[i]);
        assert(head.take(i) =~= listing.take(i));
        assert(contents.drop_last().take(i) =~= contents.take(i));
        lemma_scanned_at(files, head, contents.drop_last(), now, i);
        assert(!is_file(listing[last]) || listing[i].relative_path@
            != listing[last].relative_path@);
    }
}

proof fn lemma_before(
    files: Table<FileStateEntry>,
    listing: Seq<Listed>,
    contents: Seq<Option<Digest>>,
    now: (int, int),
    i: int,
)
    requires
        contents.len() >= i,
        files_met_once(listing),
        0 <= i < listing.len(),
        is_file(listing[i]),
    ensures
        ({
            let l = listing[i];
            let before = scanned(files_view(files), listing.take(i), contents.take(i), now);
            &&& unchanged(before, l, now) == looks_the_same(files, l, now)
            &&& looks_the_same(files, l, now) ==> before[l.relative_path@].hash
                == files@[l.relative_path@].hash.bytes@
        }),
{
    let l = listing[i];
    let head = listing.take(i);
    let p = l.relative_path@;
    assert forall|k: int| 0 <= k < head.len() && is_file(#[trigger] head[k]) implies
        head[k].relative_path@ != p by {
        assert(head[k] == listing[k]);
        assert(!listing[k].is_root && !listing[i].is_root);
    }
    lemma_scanned_other(files_view(files), head, contents.take(i), now, p);
    assert(files_view(files).contains_key(p) == files@.contains_key(p));
    if files@.contains_key(p) {
        assert(files_view(files)[p] == files@[p]@);
    }
}

/// A file has to be hashed exactly if it is not remembered, or with another size
/// or another time.
pub proof fn changed_files_are_stale(
    state: &SyncState,
    listing: &Vec<Listed>,
    now: &Timestamp,
    res: Vec<bool>,
    i: int,
)
    requires
        call_ensures(SyncState::stale_files, (state, listing, now), res),
        files_met_once(listing@),
        0 <= i < listing@.len(),
    ensures
        res@.len() == listing@.len(),
        res@[i] == (!listing@[i].is_root && !listing@[i].is_dir && !looks_the_same(
            state.files,
            listing@[i],
            now@,
        )),
{
    let l = listing@[i];
    if !l.is_root && !l.is_dir {
        lemma_before(state.files, listing@, unread(i as nat), now@, i);
        assert(unread(i as nat).take(i) =~= unread(i as nat));
    }
}

/// What the record and the entry of a file hold after an update.
pub(crate) proof fn lemma_updated(
    before: Table<FileStateEntry>,
    after: Table<FileStateEntry>,
    listing: Seq<Listed>,
    contents: Seq<Option<Digest>>,
    now: (int, int),
    i: int,
) -> (n: int)
    requires
        files_view(after) == remembered(files_view(before), listing, contents, now),
        listing.len() == contents.len(),
        files_met_once(listing),
        0 <= i < listing.len(),
        !listing[i].is_root,
        !listing[i].is_dir,
    ensures
        ({
            let l = listing[i];
            let p = l.relative_path@;
            let record = after@[p];
            let entries = found(files_view(before), listing, contents, now);
            &&& after@.contains_key(p)
            &&& record.size == l.size
            &&& record.modified@ == told_time(l, now)
            &&& record.hash.bytes@ == if looks_the_same(before, l, now) {
                before@[p].hash.bytes@
            } else {
                match contents[i] {
                    Some(d) => d.bytes@,
                    None => digest::zero_digest(),
                }
            }
            &&& 0 <= n < entries.len()
            &&& entries[n] == protocol::FileEntryView {
                relative_path: p,
                size: l.size,
                modified: told_time(l, now),
                hash: record.hash.bytes@,
                is_dir: false,
                mode: 0,
            }
        }),
{
    let l = listing[i];
    let p = l.relative_path@;
    let files = files_view(before);
    let all = scanned(files, listing, contents, now);
    lemma_before(before, listing, contents, now, i);
    lemma_scanned_at(files, listing, contents, now, i);
    assert(is_file(listing[i]));
    assert(seen(listing, p));
    assert(files_view(after).contains_key(p));
    assert(files_view(after)[p] == all[p]);
    assert(files_view(after)[p] == after@[p]@);
    lemma_found_at(files, listing, contents, now, i)
}

/// After an update the record of each file that the walk met holds its size and
/// its time, and so does its entry. Both hold the digest that was remembered if
/// size and time are those that were, and else the digest of the content, or
/// zeros where it could not be read.
pub proof fn updates_follow_the_files(
    state: &mut SyncState,
    listing: &Vec<Listed>,
    contents: &Vec<Option<Digest>>,
    now: &Timestamp,
    res: Vec<FileEntry>,
    i: int,
)
    requires
        call_ensures(SyncState::incremental_update, (state, listing, contents, now), res),
        listing@.len() == contents@.len(),
        files_met_once(listing@),
        0 <= i < listing@.len(),
        !listing@[i].is_root,
        !listing@[i].is_dir,
    ensures
        ({
            let l = listing@[i];
            let p = l.relative_path@;
            let record = final(state).files@[p];
            &&& final(state).files@.contains_key(p)
            &&& record.size == l.size
            &&& record.modified@ == told_time(l, now@)
            &&& if looks_the_same(old(state).files, l, now@) {
                record.hash.bytes@ == old(state).files@[p].hash.bytes@
            } else {
                match contents@[i] {
                    Some(d) => record.hash.bytes@ == d.bytes@,
                    None => forall|k: int| 0 <= k < 32 ==> record.hash.bytes@[k] == 0,
                }
            }
            &&& exists|n: int|
                0 <= n < res@.len() && (#[trigger] res@[n]).relative_path@ == p && !res@[n].is_dir
                    && res@[n].size == l.size && res@[n].modified@ == told_time(l, now@)
                    && res@[n].hash.bytes@ == record.hash.bytes@ && res@[n].mode == 0
        }),
{
    let files = files_view(old(state).files);
    let n = lemma_updated(old(state).files, final(state).files, listing@, contents@, now@, i);
    assert(protocol::entry_views(res@)[n] == res@[n]@);
    assert(res@[n].relative_path@ == listing@[i].relative_path@);
}

/// After an update a path is remembered only if the walk met a file there.
pub proof fn what_is_gone_is_forgotten(
    state: &mut SyncState,
    listing: &Vec<Listed>,
    contents: &Vec<Option<Digest>>,
    now: &Timestamp,
    res: Vec<FileEntry>,
    p: Seq<char>,
)
    requires
        call_ensures(SyncState::incremental_update, (state, listing, contents, now), res),
        listing@.len() == contents@.len(),
        final(state).files@.contains_key(p),
    ensures
        exists|i: int|
            0 <= i < listing@.len() && !(#[trigger] listing@[i]).is_root && !listing@[i].is_dir
                && listing@[i].relative_path@ == p,
        final(state).last_sync@ == now@,
        final(state).pair_id@ == old(state).pair_id@,
{
    assert(files_view(final(state).files).contains_key(p));
    assert(seen(listing@, p));
    let i = choose|i: int|
        0 <= i < listing@.len() && is_file(#[trigger] listing@[i]) && listing@[i].relative_path@
            == p;
    assert(!listing@[i].is_root);
}

/// A directory that the walk met has its entry too, without size and digest.
pub proof fn directories_are_listed(
    state: &mut SyncState,
    listing: &Vec<Listed>,
    contents: &Vec<Option<Digest>>,
    now: &Timestamp,
    res: Vec<FileEntry>,
    i: int,
)
    requires
        call_ensures(SyncState::incremental_update, (state, listing, contents, now), res),
        listing@.len() == contents@.len(),
        0 <= i < listing@.len(),
        !listing@[i].is_root,
        listing@[i].is_dir,
    ensures
        exists|n: int|
            0 <= n < res@.len() && (#[trigger] res@[n]).relative_path@
                == listing@[i].relative_path@ && res@[n].is_dir && res@[n].size == 0
                && res@[n].modified@ == now@ && (forall|k: int|
                0 <= k < 32 ==> res@[n].hash.bytes@[k] == 0),
{
    let files = files_view(old(state).files);
    let n = lemma_found_at(files, listing@, contents@, now@, i);
    assert(protocol::entry_views(res@)[n] == res@[n]@);
    assert(res@[n].relative_path@ == listing@[i].relative_path@);
}

pub(crate) proof fn lemma_found_paths(
    files: Map<Seq<char>, FileStateView>,
    listing: Seq<Listed>,
    contents: Seq<Option<Digest>>,
    now: (int, int),
)
    requires
        contents.len() == listing.len(),
    ensures
        found(files, listing, contents, now).map_values(
            |e: protocol::FileEntryView| e.relative_path,
        ) == listing.filter(|l: Listed| !l.is_root).map_values(|l: Listed| l.relative_path@),
    decreases listing.len(),
{
    reveal(Seq::filter);
    let below = |l: Listed| !l.is_root;
    let path = |e: protocol::FileEntryView| e.relative_path;
    let name = |l: Listed| l.relative_path@;
    if listing.len() > 0 {
        let head = listing.drop_last();
        lemma_found_paths(files, head, contents.drop_last(), now);
        let entries = found(files, head, contents.drop_last(), now);
        let all = found(files, listing, contents, now);
        if below(listing.last()) {
            assert(all.map_values(path) =~= entries.map_values(path).push(
                listing.last().relative_path@,
            ));
            assert(listing.filter(below).map_values(name) =~= head.filter(below).map_values(
                name,
            ).push(listing.last().relative_path@));
        }
    } else {
        assert(found(files, listing, contents, now).map_values(path) =~= listing.filter(
            below,
        ).map_values(name));
    }
}

/// There is one entry for each place below the root that the walk met, in the
/// order of the walk.
pub proof fn entries_follow_the_walk(
    state: &mut SyncState,
    listing: &Vec<Listed>,
    contents: &Vec<Option<Digest>>,
    now: &Timestamp,
    res: Vec<FileEntry>,
)
    requires
        call_ensures(SyncState::incremental_update, (state, listing, contents, now), res),
        listing@.len() == contents@.len(),
    ensures
        res@.map_values(|e: FileEntry| e.relative_path@) == listing@.filter(
            |l: Listed| !l.is_root,
        ).map_values(|l: Listed| l.relative_path@),
{
    let files = files_view(old(state).files);
    lemma_found_paths(files, listing@, contents@, now@);
    assert(res@.map_values(|e: FileEntry| e.relative_path@) =~= protocol::entry_views(
        res@,
    ).map_values(|e: protocol::FileEntryView| e.relative_path));
}

/// A new state is of the pair, at the time that was given, and knows no file.
pub proof fn new_states_know_no_file(
    pair_id: &str,
    now: Timestamp,
    res: SyncState,
    other: SyncState,
    p: Seq<char>,
)
    requires
        call_ensures(SyncState::starting_at, (pair_id, now), res),
        call_ensures(SyncState::new, (pair_id,), other),
    ensures
        res.pair_id@ == pair_id@ && other.pair_id@ == pair_id@,
        res.last_sync@ == now@,
        !res.files@.contains_key(p),
        !other.files@.contains_key(p),
{
    assert(files_view(res.files).contains_key(p) == res.files@.contains_key(p));
    assert(files_view(other.files).contains_key(p) == other.files@.contains_key(p));
}

/// A copy of a state remembers the same files with the same sizes, times and
/// digests.
pub proof fn copied_states_remember_the_same(state: &SyncState, res: SyncState, p: Seq<char>)
    requires
        call_ensures(SyncState::copy, (state,), res),
    ensures
        res.pair_id@ == state.pair_id@,
        res.last_sync@ == state.last_sync@,
        res.files@.contains_key(p) == state.files@.contains_key(p),
        state.files@.contains_key(p) ==> {
            let a = res.files@[p];
            let b = state.files@[p];
            a.size == b.size && a.modified@ == b.modified@ && a.hash.bytes@ == b.hash.bytes@
        },
{
    let a = files_view(res.files);
    let b = files_view(state.files);
    assert(a.contains_key(p) == res.files@.contains_key(p));
    assert(b.contains_key(p) == state.files@.contains_key(p));
    if b.contains_key(p) {
        assert(a[p] == b[p]);
    }
}

/// The state of a pair stands in a directory beside the configuration file, in a
/// file of the pair's name.
pub proof fn states_stand_beside_the_configuration(
    pair_id: &str,
    s: &Surroundings,
    res: Place,
    file: Place,
)
    requires
        call_ensures(SyncState::default_path, (pair_id, s), res),
        call_ensures(CrossBagConfig::default_path, (s,), file),
    ensures
        res.base@ == file.base@,
        ({
            let n = file.steps@.len() as int;
            &&& n > 0
            &&& res.steps@.len() == n + 1
            &&& forall|i: int| 0 <= i < n - 1 ==> (#[trigger] res.steps@[i])@ == file.steps@[i]@
            &&& res.steps@[n - 1]@ == ".crossbag"@
            &&& res.steps@[n]@ == "state_"@ + pair_id@ + ".json"@
        }),
{
    let a = text::texts(res.steps@);
    let b = text::texts(file.steps@);
    let n = file.steps@.len() as int;
    assert(a.len() == res.steps@.len() && b.len() == n);
    assert forall|i: int| 0 <= i < n - 1 implies (#[trigger] res.steps@[i])@ == file.steps@[i]@ by {
        assert(a[i] == res.steps@[i]@);
        assert(b[i] == file.steps@[i]@);
    }
    assert(a[n - 1] == res.steps@[n - 1]@);
    assert(a[n] == res.steps@[n]@);
}

} // verus!
