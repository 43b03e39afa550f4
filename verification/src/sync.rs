//! Indexes of directories, what differs between two of them, and the chunks in
//! which files travel.

use vstd::prelude::*;

use crate::clock;
use crate::clock::Timestamp;
use crate::config::{CrossBagConfig, SyncPair};
use crate::digest;
use crate::digest::{ContentHasher, Digest};
use crate::protocol;
use crate::protocol::FileEntry;
use crate::scan;
use crate::scan::Listed;
use crate::table::Table;
use crate::text;
use std::sync::Arc;
use vstd::hash_map::StringHashMap;
use vstd::slice::slice_subrange;

verus! {

/// Keeps the last index of each pair.
pub struct SyncEngine {
    config: Arc<CrossBagConfig>,
    index_cache: Table<Table<FileEntry>>,
}

/// What a full synchronisation did.
#[derive(Debug)]
pub struct SyncResult {
    pub pair_id: String,
    pub files_synced: usize,
    pub files_deleted: usize,
    pub bytes_transferred: u64,
    pub errors: Vec<String>,
}

/// Which version of a file wins.
#[derive(Debug, Clone, Copy, PartialEq, Eq, Structural)]
pub enum ConflictStrategy {
    NewerWins,
    LocalWins,
    RemoteWins,
    CreateBackup,
}

impl Default for ConflictStrategy {
    fn default() -> (res: ConflictStrategy)
        ensures
            res == ConflictStrategy::NewerWins,
    {
        ConflictStrategy::NewerWins
    }
}

/// The entries of an index, in the order of its keys.
pub open spec fn values(index: Table<FileEntry>) -> Seq<protocol::FileEntryView> {
    index.keys().map_values(|k: Seq<char>| index@[k]@)
}

/// The entries by their relative paths. Of two entries with one path the later
/// counts.
pub open spec fn by_path(entries: Seq<protocol::FileEntryView>) -> Map<
    Seq<char>,
    protocol::FileEntryView,
>
    decreases entries.len(),
{
    if entries.len() == 0 {
        Map::empty()
    } else {
        by_path(entries.drop_last()).insert(entries.last().relative_path, entries.last())
    }
}

/// `e` is to go to the other side: it has no such file, or another and older
/// version.
pub open spec fn newer_here(
    e: protocol::FileEntryView,
    other: Map<Seq<char>, protocol::FileEntryView>,
) -> bool {
    ||| !other.contains_key(e.relative_path)
    ||| other[e.relative_path].hash != e.hash && clock::later(
        e.modified,
        other[e.relative_path].modified,
    )
}

/// The other side has another version of `e`, and one that is not older.
pub open spec fn newer_there(
    e: protocol::FileEntryView,
    other: Map<Seq<char>, protocol::FileEntryView>,
) -> bool {
    &&& other.contains_key(e.relative_path)
    &&& other[e.relative_path].hash != e.hash
    &&& !clock::later(e.modified, other[e.relative_path].modified)
}

/// What a side with the entries `local` has to give to one with `remote`.
pub open spec fn offered(
    local: Seq<protocol::FileEntryView>,
    remote: Seq<protocol::FileEntryView>,
) -> Seq<protocol::FileEntryView> {
    local.filter(|e: protocol::FileEntryView| newer_here(e, by_path(remote)))
}

/// The versions of its own files that a side with the entries `local` has to
/// get from one with `remote`.
pub open spec fn updates(
    local: Seq<protocol::FileEntryView>,
    remote: Seq<protocol::FileEntryView>,
) -> Seq<protocol::FileEntryView> {
    local.filter(|e: protocol::FileEntryView| newer_there(e, by_path(remote))).map_values(
        |e: protocol::FileEntryView| by_path(remote)[e.relative_path],
    )
}

/// The files of `remote` that `local` lacks.
pub open spec fn lacking(
    local: Seq<protocol::FileEntryView>,
    remote: Seq<protocol::FileEntryView>,
) -> Seq<protocol::FileEntryView> {
    remote.filter(|e: protocol::FileEntryView| !by_path(local).contains_key(e.relative_path))
}

/// What a side with the entries `local` has to get from one with `remote`.
pub open spec fn wanted(
    local: Seq<protocol::FileEntryView>,
    remote: Seq<protocol::FileEntryView>,
) -> Seq<protocol::FileEntryView> {
    updates(local, remote) + lacking(local, remote)
}

/// `data` cut into chunks of `size` bytes, the last one shorter if need be.
pub open spec fn chunks(data: Seq<u8>, size: nat) -> Seq<Seq<u8>>
    decreases data.len(),
{
    if data.len() == 0 || size == 0 {
        Seq::empty()
    } else if data.len() <= size {
        seq![data]
    } else {
        seq![data.take(size as int)] + chunks(data.skip(size as int), size)
    }
}

/// The chunks one after the other.
pub open spec fn glued(parts: Seq<Seq<u8>>) -> Seq<u8>
    decreases parts.len(),
{
    if parts.len() == 0 {
        Seq::empty()
    } else {
        glued(parts.drop_last()) + parts.last()
    }
}

/// The chunks, as bytes.
pub open spec fn chunk_views(v: Seq<Vec<u8>>) -> Seq<Seq<u8>> {
    v.map_values(|c: Vec<u8>| c@)
}

/// Where each relative path of `index` stands last among its first `n` entries.
spec fn places_known(
    entries: Seq<protocol::FileEntryView>,
    n: int,
    places: Map<Seq<char>, usize>,
) -> bool {
    let known = by_path(entries.take(n));
    &&& forall|p: Seq<char>| #[trigger] places.contains_key(p) == known.contains_key(p)
    &&& forall|p: Seq<char>| #[trigger]
        places.contains_key(p) ==> places[p] < n && entries[places[p] as int] == known[p]
}

/// Where each relative path of `index` stands last.
fn places_by_path(index: &Table<FileEntry>) -> (res: StringHashMap<usize>)
    ensures
        places_known(values(*index), values(*index).len() as int, res@),
{
    let ghost entries = values(*index);
    let mut res: StringHashMap<usize> = StringHashMap::new();
    let n = index.len();
    let mut i: usize = 0;
    assert(entries.take(0).len() == 0);
    while i < n
        invariant
            i <= n,
            n == index.keys().len(),
            entries == values(*index),
            places_known(entries, i as int, res@),
        decreases n - i,
    {
        let entry = index.value_at(i);
        proof {
            assert(entries[i as int] == entry@);
            assert(entries.take(i + 1).drop_last() =~= entries.take(i as int));
            assert(entries.take(i + 1).last() == entry@);
        }
        res.insert(entry.relative_path.clone(), i);
        i += 1;
    }
    assert(entries.take(i as int) =~= entries);
    res
}

impl SyncEngine {
    pub closed spec fn settings(&self) -> CrossBagConfig {
        *self.config
    }

    /// The index of each pair that was built last.
    pub closed spec fn cached(&self) -> Map<Seq<char>, Table<FileEntry>> {
        self.index_cache@
    }

    pub fn new(config: Arc<CrossBagConfig>) -> (res: SyncEngine)
        ensures
            res.settings() == *config,
            res.cached() == Map::<Seq<char>, Table<FileEntry>>::empty(),
    {
        SyncEngine { config, index_cache: Table::new() }
    }

    /// The digest of the content of a file, taken in piece by piece.
    pub fn compute_file_hash(content: &[u8]) -> (res: Digest)
        ensures
            res@ == digest::blake3_digest(content@),
    {
        let mut hasher = ContentHasher::new();
        let mut at: usize = 0;
        assert(content@.take(0) =~= Seq::empty());
        while at < content.len()
            invariant
                at <= content@.len(),
                hasher@ == content@.take(at as int),
            decreases content@.len() - at,
        {
            let next: usize = if content.len() - at > 8192 {
                at + 8192
            } else {
                content.len()
            };
            hasher.update(slice_subrange(content, at, next));
            assert(content@.take(next as int) =~= content@.take(at as int) + content@.subrange(
                at as int,
                next as int,
            ));
            at = next;
        }
        assert(content@.take(at as int) =~= content@);
        hasher.finish()
    }

    /// Makes the index of a walk. `contents` holds the digest of each file that
    /// could be read.
    pub fn build_file_index(
        listing: &Vec<Listed>,
        contents: &Vec<Option<Digest>>,
        now: &Timestamp,
    ) -> (res: Table<FileEntry>)
        requires
            listing@.len() == contents@.len(),
        ensures
            scan::index_view(res) == scan::index_of(listing@, contents@, now@),
            res.lists_its_keys(),
    {
        let mut res: Table<FileEntry> = Table::new();
        let mut i: usize = 0;
        assert(scan::index_view(res) =~= Map::<Seq<char>, protocol::FileEntryView>::empty());
        while i < listing.len()
            invariant
                i <= listing@.len(),
                listing@.len() == contents@.len(),
                scan::index_view(res) == scan::index_of(
                    listing@.take(i as int),
                    contents@.take(i as int),
                    now@,
                ),
                res.lists_its_keys(),
            decreases listing@.len() - i,
        {
            let l = &listing[i];
            proof {
                assert(listing@.take(i + 1).drop_last() =~= listing@.take(i as int));
                assert(contents@.take(i + 1).drop_last() =~= contents@.take(i as int));
            }
            if !l.is_root {
                let hash = match contents[i] {
                    Some(d) => if l.is_dir {
                        Digest::zero()
                    } else {
                        d
                    },
                    None => Digest::zero(),
                };
                let entry = FileEntry {
                    relative_path: l.relative_path.clone(),
                    size: l.size,
                    modified: scan::modified_time(l, now),
                    hash,
                    is_dir: l.is_dir,
                    mode: 0,
                };
                let ghost before = scan::index_view(res);
                res.insert(l.path.clone(), entry);
                assert(scan::index_view(res) =~= before.insert(l.path@, entry@));
                assert(entry@ == scan::entry_of(*l, contents@[i as int], now@));
            }
            i += 1;
        }
        assert(listing@.take(i as int) =~= listing@);
        assert(contents@.take(i as int) =~= contents@);
        res
    }

    /// What differs between two indexes: first what the local side has to give,
    /// then what it has to get. Of two versions of a file the one changed later
    /// counts; of two changed at the same time, the remote one.
    pub fn diff_indexes(local: &Table<FileEntry>, remote: &Table<FileEntry>) -> (res: (
        Vec<FileEntry>,
        Vec<FileEntry>,
    ))
        ensures
            protocol::entry_views(res.0@) == offered(values(*local), values(*remote)),
            protocol::entry_views(res.1@) == wanted(values(*local), values(*remote)),
    {
        let ghost l = values(*local);
        let ghost r = values(*remote);
        let ghost here = |e: protocol::FileEntryView| newer_here(e, by_path(r));
        let ghost there = |e: protocol::FileEntryView| newer_there(e, by_path(r));
        let ghost other = |e: protocol::FileEntryView| by_path(r)[e.relative_path];
        let remote_places = places_by_path(remote);
        let local_places = places_by_path(local);
        assert(r.take(r.len() as int) =~= r);
        assert(l.take(l.len() as int) =~= l);
        let mut local_only: Vec<FileEntry> = Vec::new();
        let mut remote_only: Vec<FileEntry> = Vec::new();
        let n = local.len();
        let m = remote.len();
        let mut i: usize = 0;
        proof {
            reveal(Seq::filter);
            assert(protocol::entry_views(local_only@) =~= l.take(0).filter(here));
            assert(protocol::entry_views(remote_only@) =~= l.take(0).filter(there).map_values(other));
        }
        while i < n
            invariant
                i <= n,
                n == local.keys().len(),
                m == remote.keys().len(),
                l == values(*local),
                r == values(*remote),
                r.take(r.len() as int) == r,
                here == (|e: protocol::FileEntryView| newer_here(e, by_path(r))),
                there == (|e: protocol::FileEntryView| newer_there(e, by_path(r))),
                other == (|e: protocol::FileEntryView| by_path(r)[e.relative_path]),
                places_known(r, r.len() as int, remote_places@),
                protocol::entry_views(local_only@) == l.take(i as int).filter(here),
                protocol::entry_views(remote_only@) == l.take(i as int).filter(there).map_values(
                    other,
                ),
            decreases n - i,
        {
            let entry = local.value_at(i);
            let ghost before_local = protocol::entry_views(local_only@);
            let ghost before_remote = protocol::entry_views(remote_only@);
            proof {
                assert(l[i as int] == entry@);
                assert(l.take(i + 1) =~= l.take(i as int).push(entry@));
                text::lemma_filter_push(l.take(i as int), entry@, here);
                text::lemma_filter_push(l.take(i as int), entry@, there);
            }
            match remote_places.get(&entry.relative_path) {
                Some(j) => {
                    let found = remote.value_at(*j);
                    assert(r[*j as int] == found@);
                    if !entry.is_same_as(found) {
                        if entry.modified.is_after(&found.modified) {
                            local_only.push(entry.copy());
                        } else {
                            remote_only.push(found.copy());
                        }
                    }
                },
                None => {
                    local_only.push(entry.copy());
                },
            }
            proof {
                if here(entry@) {
                    assert(protocol::entry_views(local_only@) =~= before_local.push(entry@));
                }
                if there(entry@) {
                    assert(protocol::entry_views(remote_only@) =~= before_remote.push(
                        other(entry@),
                    ));
                    assert(l.take(i + 1).filter(there).map_values(other) =~= l.take(i as int).filter(
                        there,
                    ).map_values(other).push(other(entry@)));
                }
            }
            i += 1;
        }
        assert(l.take(i as int) =~= l);
        let ghost firsts = protocol::entry_views(remote_only@);
        let ghost absent = |e: protocol::FileEntryView|
            !by_path(l).contains_key(e.relative_path);
        let mut k: usize = 0;
        proof {
            reveal(Seq::filter);
            assert(protocol::entry_views(remote_only@) =~= firsts + r.take(0).filter(absent));
        }
        while k < m
            invariant
                k <= m,
                m == remote.keys().len(),
                l == values(*local),
                r == values(*remote),
                l.take(l.len() as int) == l,
                absent == (|e: protocol::FileEntryView|
                    !by_path(l).contains_key(e.relative_path)),
                places_known(l, l.len() as int, local_places@),
                protocol::entry_views(remote_only@) == firsts + r.take(k as int).filter(absent),
            decreases m - k,
        {
            let entry = remote.value_at(k);
            let ghost before = protocol::entry_views(remote_only@);
            proof {
                assert(r[k as int] == entry@);
                assert(r.take(k + 1) =~= r.take(k as int).push(entry@));
                text::lemma_filter_push(r.take(k as int), entry@, absent);
            }
            if !local_places.contains_key(&entry.relative_path) {
                remote_only.push(entry.copy());
                assert(protocol::entry_views(remote_only@) =~= before.push(entry@));
                assert(protocol::entry_views(remote_only@) =~= firsts + r.take(k + 1).filter(
                    absent,
                ));
            }
            k += 1;
        }
        assert(r.take(k as int) =~= r);
        (local_only, remote_only)
    }

    /// Takes in the index of a pair that was built, or why it could not be.
    pub fn full_sync(&mut self, pair: &SyncPair, built: Result<Table<FileEntry>, String>) -> (res:
        SyncResult)
        ensures
            res.pair_id@ == pair.id@,
            res.files_synced == 0,
            res.files_deleted == 0,
            res.bytes_transferred == 0,
            match built {
                Ok(index) => res.errors@.len() == 0 && final(self).cached() == old(
                    self,
                ).cached().insert(pair.id@, index),
                Err(e) => text::texts(res.errors@) == seq![
                    "Failed to build local index: "@ + e@,
                ] && final(self).cached() == old(self).cached(),
            },
            final(self).settings() == old(self).settings(),
    {
        let mut errors: Vec<String> = Vec::new();
        match built {
            Ok(index) => {
                self.index_cache.insert(pair.id.clone(), index);
            },
            Err(e) => {
                let mut message = "Failed to build local index: ".to_owned();
                message.append(&e);
                errors.push(message);
                assert(text::texts(errors@) =~= seq!["Failed to build local index: "@ + e@]);
            },
        }
        SyncResult {
            pair_id: pair.id.clone(),
            files_synced: 0,
            files_deleted: 0,
            bytes_transferred: 0,
            errors,
        }
    }

    /// Cuts the content of a file into chunks.
    pub fn read_file_chunks(data: &[u8], chunk_size: usize) -> (res: Vec<Vec<u8>>)
        requires
            chunk_size > 0,
        ensures
            chunk_views(res@) == chunks(data@, chunk_size as nat),
    {
        let mut res: Vec<Vec<u8>> = Vec::new();
        let mut at: usize = 0;
        assert(data@.skip(0) =~= data@);
        assert(chunk_views(res@) + chunks(data@.skip(0), chunk_size as nat) =~= chunks(
            data@,
            chunk_size as nat,
        ));
        while at < data.len()
            invariant
                at <= data@.len(),
                chunk_size > 0,
                chunk_views(res@) + chunks(data@.skip(at as int), chunk_size as nat) == chunks(
                    data@,
                    chunk_size as nat,
                ),
            decreases data@.len() - at,
        {
            let ghost rest = data@.skip(at as int);
            let ghost before = chunk_views(res@);
            let next: usize = if data.len() - at > chunk_size {
                at + chunk_size
            } else {
                data.len()
            };
            let mut chunk: Vec<u8> = Vec::new();
            chunk.extend_from_slice(slice_subrange(data, at, next));
            res.push(chunk);
            proof {
                assert(chunk@ =~= rest.take(next - at));
                assert(chunk_views(res@) =~= before.push(chunk@));
                assert(data@.skip(next as int) =~= rest.skip(next - at));
                if data@.len() - at > chunk_size {
                    assert(chunks(rest, chunk_size as nat) == seq![chunk@] + chunks(
                        data@.skip(next as int),
                        chunk_size as nat,
                    ));
                } else {
                    assert(chunk@ =~= rest);
                    assert(data@.skip(next as int).len() == 0);
                }
                assert(chunk_views(res@) + chunks(data@.skip(next as int), chunk_size as nat)
                    =~= chunks(data@, chunk_size as nat));
            }
            at = next;
        }
        assert(data@.skip(at as int).len() == 0);
        assert(chunk_views(res@) =~= chunks(data@, chunk_size as nat));
        res
    }

    /// Puts the chunks of a file together.
    pub fn write_file_chunks(parts: &Vec<Vec<u8>>) -> (res: Vec<u8>)
        ensures
            res@ == glued(chunk_views(parts@)),
    {
        let ghost views = chunk_views(parts@);
        let mut res: Vec<u8> = Vec::new();
        let mut i: usize = 0;
        assert(views.take(0).len() == 0);
        while i < parts.len()
            invariant
                i <= parts@.len(),
                views == chunk_views(parts@),
                res@ == glued(views.take(i as int)),
            decreases parts@.len() - i,
        {
            res.extend_from_slice(parts[i].as_slice());
            proof {
                assert(views.take(i + 1).drop_last() =~= views.take(i as int));
                assert(views.take(i + 1).last() == parts@[i as int]@);
            }
            i += 1;
        }
        assert(views.take(i as int) =~= views);
        res
    }

    /// Whether the content of a file has this digest.
    pub fn verify_file(content: &[u8], expected_hash: &Digest) -> (res: bool)
        ensures
            res == (digest::blake3_digest(content@) == expected_hash@),
    {
        let actual = SyncEngine::compute_file_hash(content);
        actual.same(expected_hash)
    }
}

/// No two entries have one relative path.
pub open spec fn distinct_paths(entries: Seq<protocol::FileEntryView>) -> bool {
    forall|i: int, j: int|
        0 <= i < j < entries.len() ==> (#[trigger] entries[i]).relative_path != (
        #[trigger] entries[j]).relative_path
}

proof fn lemma_by_path_from(entries: Seq<protocol::FileEntryView>, p: Seq<char>)
    requires
        by_path(entries).contains_key(p),
    ensures
        exists|i: int|
            0 <= i < entries.len() && (#[trigger] entries[i]).relative_path == p && by_path(
                entries,
            )[p] == entries[i],
    decreases entries.len(),
{
    let last = entries.last();
    if last.relative_path == p {
        assert(entries[entries.len() - 1].relative_path == p);
    } else {
        lemma_by_path_from(entries.drop_last(), p);
        let i = choose|i: int|
            0 <= i < entries.len() - 1 && (#[trigger] entries.drop_last()[i]).relative_path == p
                && by_path(entries.drop_last())[p] == entries.drop_last()[i];
        assert(entries[i] == entries.drop_last()[i]);
    }
}

proof fn lemma_by_path_has(entries: Seq<protocol::FileEntryView>, i: int)
    requires
        0 <= i < entries.len(),
    ensures
        by_path(entries).contains_key(entries[i].relative_path),
        distinct_paths(entries) ==> by_path(entries)[entries[i].relative_path] == entries[i],
    decreases entries.len(),
{
    if i < entries.len() - 1 {
        assert(entries.drop_last()[i] == entries[i]);
        lemma_by_path_has(entries.drop_last(), i);
        if distinct_paths(entries) {
            assert(entries[i].relative_path != entries[entries.len() - 1].relative_path);
        }
    }
}

proof fn lemma_by_path_after(
    a: Seq<protocol::FileEntryView>,
    b: Seq<protocol::FileEntryView>,
    p: Seq<char>,
)
    ensures
        by_path(a + b).contains_key(p) == (by_path(a).contains_key(p) || by_path(b).contains_key(
            p,
        )),
        by_path(b).contains_key(p) ==> by_path(a + b)[p] == by_path(b)[p],
        !by_path(b).contains_key(p) && by_path(a).contains_key(p) ==> by_path(a + b)[p] == by_path(
            a,
        )[p],
    decreases b.len(),
{
    if b.len() == 0 {
        assert(a + b =~= a);
    } else {
        lemma_by_path_after(a, b.drop_last(), p);
        assert((a + b).drop_last() =~= a + b.drop_last());
    }
}

proof fn lemma_filter_member<A>(s: Seq<A>, f: spec_fn(A) -> bool)
    ensures
        forall|k: int|
            0 <= k < s.filter(f).len() ==> f(#[trigger] s.filter(f)[k]) && s.contains(
                s.filter(f)[k],
            ),
        forall|i: int| 0 <= i < s.len() && f(#[trigger] s[i]) ==> s.filter(f).contains(s[i]),
    decreases s.len(),
{
    reveal(Seq::filter);
    if s.len() > 0 {
        let head = s.drop_last();
        let kept = head.filter(f);
        lemma_filter_member(head, f);
        assert forall|k: int| 0 <= k < s.filter(f).len() implies f(#[trigger] s.filter(f)[k])
            && s.contains(s.filter(f)[k]) by {
            if k < kept.len() {
                assert(s.filter(f)[k] == kept[k]);
                assert(head.contains(kept[k]));
                let i = choose|i: int| 0 <= i < head.len() && head[i] == kept[k];
                assert(s[i] == kept[k]);
            } else {
                assert(s[s.len() - 1] == s.filter(f)[k]);
            }
        }
        assert forall|i: int| 0 <= i < s.len() && f(#[trigger] s[i]) implies s.filter(f).contains(
            s[i],
        ) by {
            if i < head.len() {
                assert(head[i] == s[i]);
                assert(kept.contains(s[i]));
                let k = choose|k: int| 0 <= k < kept.len() && kept[k] == s[i];
                assert(s.filter(f)[k] == s[i]);
            } else {
                assert(s.filter(f)[kept.len() as int] == s[i]);
            }
        }
    }
}

/// Which paths are offered and which are wanted, and in which version.
proof fn lemma_lists(
    local: Seq<protocol::FileEntryView>,
    remote: Seq<protocol::FileEntryView>,
    p: Seq<char>,
)
    requires
        distinct_paths(local),
        distinct_paths(remote),
    ensures
        ({
            let l = by_path(local);
            let r = by_path(remote);
            let o = by_path(offered(local, remote));
            let w = by_path(wanted(local, remote));
            &&& o.contains_key(p) == (l.contains_key(p) && newer_here(l[p], r))
            &&& o.contains_key(p) ==> o[p] == l[p]
            &&& w.contains_key(p) == (r.contains_key(p) && (!l.contains_key(p) || newer_there(
                l[p],
                r,
            )))
            &&& w.contains_key(p) ==> w[p] == r[p]
        }),
{
    let l = by_path(local);
    let r = by_path(remote);
    let here = |e: protocol::FileEntryView| newer_here(e, by_path(remote));
    let there = |e: protocol::FileEntryView| newer_there(e, by_path(remote));
    let absent = |e: protocol::FileEntryView| !by_path(local).contains_key(e.relative_path);
    let off = offered(local, remote);
    let upd = updates(local, remote);
    let lack = lacking(local, remote);
    lemma_filter_member(local, here);
    lemma_filter_member(local, there);
    lemma_filter_member(remote, absent);
    lemma_by_path_after(upd, lack, p);
    if l.contains_key(p) {
        lemma_by_path_from(local, p);
        let i = choose|i: int|
            0 <= i < local.len() && (#[trigger] local[i]).relative_path == p && l[p] == local[i];
        if here(local[i]) {
            assert(off.contains(local[i]));
            let k = choose|k: int| 0 <= k < off.len() && off[k] == local[i];
            lemma_by_path_has(off, k);
        }
        if there(local[i]) {
            let kept = local.filter(there);
            assert(kept.contains(local[i]));
            let k = choose|k: int| 0 <= k < kept.len() && kept[k] == local[i];
            assert(upd[k] == r[p]);
            lemma_by_path_from(remote, p);
            lemma_by_path_has(upd, k);
        }
    }
    if by_path(off).contains_key(p) {
        lemma_by_path_from(off, p);
        let k = choose|k: int|
            0 <= k < off.len() && (#[trigger] off[k]).relative_path == p && by_path(off)[p]
                == off[k];
        assert(local.contains(off[k]));
        let i = choose|i: int| 0 <= i < local.len() && local[i] == off[k];
        lemma_by_path_has(local, i);
    }
    if by_path(upd).contains_key(p) {
        lemma_by_path_from(upd, p);
        let k = choose|k: int|
            0 <= k < upd.len() && (#[trigger] upd[k]).relative_path == p && by_path(upd)[p]
                == upd[k];
        let e = local.filter(there)[k];
        assert(there(e) && local.contains(e));
        let i = choose|i: int| 0 <= i < local.len() && local[i] == e;
        lemma_by_path_has(local, i);
        assert(upd[k] == r[e.relative_path]);
        lemma_by_path_from(remote, e.relative_path);
    }
    if r.contains_key(p) {
        lemma_by_path_from(remote, p);
        let j = choose|j: int|
            0 <= j < remote.len() && (#[trigger] remote[j]).relative_path == p && r[p] == remote[j];
        if absent(remote[j]) {
            assert(lack.contains(remote[j]));
            let k = choose|k: int| 0 <= k < lack.len() && lack[k] == remote[j];
            lemma_by_path_has(lack, k);
        }
    }
    if by_path(lack).contains_key(p) {
        lemma_by_path_from(lack, p);
        let k = choose|k: int|
            0 <= k < lack.len() && (#[trigger] lack[k]).relative_path == p && by_path(lack)[p]
                == lack[k];
        assert(remote.contains(lack[k]));
        let j = choose|j: int| 0 <= j < remote.len() && remote[j] == lack[k];
        lemma_by_path_has(remote, j);
    }
}

/// A walk that meets no relative path twice makes an index that holds none twice.
pub proof fn walks_meet_paths_once(
    index: Table<FileEntry>,
    listing: Seq<Listed>,
    contents: Seq<Option<Digest>>,
    now: (int, int),
)
    requires
        listing.len() == contents.len(),
        index.lists_its_keys(),
        scan::index_view(index) == scan::index_of(listing, contents, now),
        scan::paths_met_once(listing),
    ensures
        distinct_paths(values(index)),
{
    let keys = index.keys();
    let entries = values(index);
    assert forall|i: int, j: int| 0 <= i < j < entries.len() implies (
    #[trigger] entries[i]).relative_path != (#[trigger] entries[j]).relative_path by {
        assert(keys.contains(keys[i]) && keys.contains(keys[j]));
        assert(index@.contains_key(keys[i]) && index@.contains_key(keys[j]));
        assert(entries[i] == scan::index_view(index)[keys[i]]);
        assert(entries[j] == scan::index_view(index)[keys[j]]);
        scan::lemma_index_from(listing, contents, now, keys[i]);
        scan::lemma_index_from(listing, contents, now, keys[j]);
    }
}

/// Two sides with the same files have nothing to give and nothing to get.
pub proof fn same_files_no_difference(
    local: Seq<protocol::FileEntryView>,
    remote: Seq<protocol::FileEntryView>,
)
    requires
        forall|i: int|
            0 <= i < local.len() ==> by_path(remote).contains_key(
                (#[trigger] local[i]).relative_path,
            ) && by_path(remote)[local[i].relative_path].hash == local[i].hash,
        forall|j: int|
            0 <= j < remote.len() ==> by_path(local).contains_key(
                (#[trigger] remote[j]).relative_path,
            ),
    ensures
        offered(local, remote).len() == 0,
        wanted(local, remote).len() == 0,
{
    let here = |e: protocol::FileEntryView| newer_here(e, by_path(remote));
    let there = |e: protocol::FileEntryView| newer_there(e, by_path(remote));
    let absent = |e: protocol::FileEntryView| !by_path(local).contains_key(e.relative_path);
    lemma_filter_member(local, here);
    lemma_filter_member(local, there);
    lemma_filter_member(remote, absent);
    if local.filter(here).len() > 0 {
        let e = local.filter(here)[0];
        assert(here(e) && local.contains(e));
    }
    if local.filter(there).len() > 0 {
        let e = local.filter(there)[0];
        assert(there(e) && local.contains(e));
    }
    if remote.filter(absent).len() > 0 {
        let e = remote.filter(absent)[0];
        assert(absent(e) && remote.contains(e));
    }
}

/// A path is given or got, and not both, exactly if the two sides differ in it.
pub proof fn difference_has_one_winner(
    local: Seq<protocol::FileEntryView>,
    remote: Seq<protocol::FileEntryView>,
    p: Seq<char>,
)
    requires
        distinct_paths(local),
        distinct_paths(remote),
    ensures
        ({
            let l = by_path(local);
            let r = by_path(remote);
            let given = by_path(offered(local, remote)).contains_key(p);
            let got = by_path(wanted(local, remote)).contains_key(p);
            let same = l.contains_key(p) == r.contains_key(p) && (l.contains_key(p) ==> l[p].hash
                == r[p].hash);
            &&& !(given && got)
            &&& (given || got) == !same
        }),
{
    lemma_lists(local, remote, p);
    if by_path(local).contains_key(p) {
        lemma_by_path_from(local, p);
    }
    if by_path(remote).contains_key(p) {
        lemma_by_path_from(remote, p);
    }
}

/// What one side gives is what the other gets, but for files that both changed
/// at the same time, which each side then takes from the other.
pub proof fn sides_agree(
    local: Seq<protocol::FileEntryView>,
    remote: Seq<protocol::FileEntryView>,
    p: Seq<char>,
)
    requires
        distinct_paths(local),
        distinct_paths(remote),
        by_path(local).contains_key(p) && by_path(remote).contains_key(p) && by_path(local)[p].hash
            != by_path(remote)[p].hash ==> by_path(local)[p].modified != by_path(
            remote,
        )[p].modified,
    ensures
        by_path(offered(local, remote)).contains_key(p) == by_path(
            wanted(remote, local),
        ).contains_key(p),
        by_path(wanted(local, remote)).contains_key(p) == by_path(
            offered(remote, local),
        ).contains_key(p),
{
    lemma_lists(local, remote, p);
    lemma_lists(remote, local, p);
    if by_path(local).contains_key(p) {
        lemma_by_path_from(local, p);
    }
    if by_path(remote).contains_key(p) {
        lemma_by_path_from(remote, p);
    }
}

/// Once each side has got what the comparison told, the two have the same files
/// with the same content.
pub proof fn exchange_converges(
    local: Seq<protocol::FileEntryView>,
    remote: Seq<protocol::FileEntryView>,
    p: Seq<char>,
)
    requires
        distinct_paths(local),
        distinct_paths(remote),
    ensures
        ({
            let l = by_path(local + wanted(local, remote));
            let r = by_path(remote + offered(local, remote));
            &&& l.contains_key(p) == r.contains_key(p)
            &&& l.contains_key(p) ==> l[p].hash == r[p].hash
            &&& l.contains_key(p) == (by_path(local).contains_key(p) || by_path(
                remote,
            ).contains_key(p))
        }),
{
    lemma_lists(local, remote, p);
    lemma_by_path_after(local, wanted(local, remote), p);
    lemma_by_path_after(remote, offered(local, remote), p);
    if by_path(local).contains_key(p) {
        lemma_by_path_from(local, p);
    }
    if by_path(remote).contains_key(p) {
        lemma_by_path_from(remote, p);
    }
}

/// Once each side has got what its own comparison told it to get, the two have
/// the same files with the same content, but for files that both changed at the
/// same time.
pub proof fn fetching_converges(
    local: Seq<protocol::FileEntryView>,
    remote: Seq<protocol::FileEntryView>,
    p: Seq<char>,
)
    requires
        distinct_paths(local),
        distinct_paths(remote),
        by_path(local).contains_key(p) && by_path(remote).contains_key(p) && by_path(local)[p].hash
            != by_path(remote)[p].hash ==> by_path(local)[p].modified != by_path(
            remote,
        )[p].modified,
    ensures
        ({
            let l = by_path(local + wanted(local, remote));
            let r = by_path(remote + wanted(remote, local));
            &&& l.contains_key(p) == r.contains_key(p)
            &&& l.contains_key(p) ==> l[p].hash == r[p].hash
            &&& l.contains_key(p) == (by_path(local).contains_key(p) || by_path(
                remote,
            ).contains_key(p))
        }),
{
    lemma_lists(local, remote, p);
    lemma_lists(remote, local, p);
    lemma_by_path_after(local, wanted(local, remote), p);
    lemma_by_path_after(remote, wanted(remote, local), p);
    if by_path(local).contains_key(p) {
        lemma_by_path_from(local, p);
    }
    if by_path(remote).contains_key(p) {
        lemma_by_path_from(remote, p);
    }
}

proof fn lemma_glued_first(first: Seq<u8>, parts: Seq<Seq<u8>>)
    ensures
        glued(seq![first] + parts) == first + glued(parts),
    decreases parts.len(),
{
    reveal_with_fuel(glued, 2);
    let all = seq![first] + parts;
    if parts.len() == 0 {
        assert(all.drop_last() =~= Seq::empty());
        assert(glued(all) =~= first + glued(parts));
    } else {
        lemma_glued_first(first, parts.drop_last());
        assert(all.drop_last() =~= seq![first] + parts.drop_last());
        assert(glued(all) =~= first + glued(parts));
    }
}

/// Putting the chunks of a file together gives the file back.
pub proof fn chunks_make_the_file(data: Seq<u8>, size: nat)
    requires
        size > 0,
    ensures
        glued(chunks(data, size)) == data,
    decreases data.len(),
{
    reveal_with_fuel(glued, 2);
    if data.len() == 0 {
        assert(glued(chunks(data, size)) =~= data);
    } else if data.len() <= size {
        assert(seq![data].drop_last() =~= Seq::empty());
        assert(glued(seq![data]) =~= data);
    } else {
        let rest = data.skip(size as int);
        chunks_make_the_file(rest, size);
        lemma_glued_first(data.take(size as int), chunks(rest, size));
        assert(data.take(size as int) + rest =~= data);
    }
}

/// There are as many chunks as it takes, all of them full but the last, and
/// none empty.
pub proof fn chunks_are_full(data: Seq<u8>, size: nat)
    requires
        size > 0,
    ensures
        chunks(data, size).len() == (data.len() + size - 1) / size as int,
        forall|i: int|
            0 <= i < chunks(data, size).len() ==> 0 < (#[trigger] chunks(data, size)[i]).len()
                <= size,
        forall|i: int|
            0 <= i < chunks(data, size).len() - 1 ==> (#[trigger] chunks(data, size)[i]).len()
                == size,
    decreases data.len(),
{
    let n = data.len() as int;
    let c = size as int;
    if n == 0 {
        assert((n + c - 1) / c == 0) by (nonlinear_arith)
            requires
                n == 0,
                c > 0,
        ;
    } else if n <= c {
        assert((n + c - 1) / c == 1) by (nonlinear_arith)
            requires
                0 < n <= c,
        ;
    } else {
        let rest = data.skip(c);
        chunks_are_full(rest, size);
        assert((n + c - 1) / c == (n - c + c - 1) / c + 1) by (nonlinear_arith)
            requires
                n > c > 0,
        ;
        let all = chunks(data, size);
        assert forall|i: int| 0 <= i < all.len() implies 0 < (#[trigger] all[i]).len() <= size by {
            if i > 0 {
                assert(all[i] == chunks(rest, size)[i - 1]);
            }
        }
        assert forall|i: int| 0 <= i < all.len() - 1 implies (#[trigger] all[i]).len() == size by {
            if i > 0 {
                assert(all[i] == chunks(rest, size)[i - 1]);
            }
        }
    }
}

/// No two entries of the index have one relative path.
pub open spec fn paths_once(t: Table<FileEntry>) -> bool {
    forall|a: int, b: int|
        0 <= a < b < t.keys().len() ==> t@[#[trigger] t.keys()[a]].relative_path@
            != t@[#[trigger] t.keys()[b]].relative_path@
}

proof fn lemma_paths_once(t: Table<FileEntry>)
    requires
        paths_once(t),
    ensures
        distinct_paths(values(t)),
        values(t).len() == t.keys().len(),
        forall|i: int|
            0 <= i < t.keys().len() ==> #[trigger] values(t)[i] == t@[t.keys()[i]]@,
{
    let v = values(t);
    assert forall|a: int, b: int| 0 <= a < b < v.len() implies (#[trigger] v[a]).relative_path != (
    #[trigger] v[b]).relative_path by {
        assert(t@[t.keys()[a]].relative_path@ != t@[t.keys()[b]].relative_path@);
    }
}

proof fn lemma_names_path(v: Seq<FileEntry>, p: Seq<char>)
    ensures
        protocol::names_path(v, p) == by_path(protocol::entry_views(v)).contains_key(p),
{
    let views = protocol::entry_views(v);
    if protocol::names_path(v, p) {
        let n = choose|n: int| 0 <= n < v.len() && (#[trigger] v[n]).relative_path@ == p;
        assert(views[n] == v[n]@);
        lemma_by_path_has(views, n);
    }
    if by_path(views).contains_key(p) {
        lemma_by_path_from(views, p);
        let n = choose|n: int|
            0 <= n < views.len() && (#[trigger] views[n]).relative_path == p && by_path(views)[p]
                == views[n];
        assert(v[n].relative_path@ == p);
    }
}

/// Of two versions of a file that differ, the one that was changed later
/// travels: the one here is given exactly if its time is later, and else the
/// one there is got.
pub proof fn later_version_wins(
    local: &Table<FileEntry>,
    remote: &Table<FileEntry>,
    res: (Vec<FileEntry>, Vec<FileEntry>),
    i: int,
    j: int,
)
    requires
        call_ensures(SyncEngine::diff_indexes, (local, remote), res),
        paths_once(*local),
        paths_once(*remote),
        0 <= i < local.keys().len(),
        0 <= j < remote.keys().len(),
        local@[local.keys()[i]].relative_path@ == remote@[remote.keys()[j]].relative_path@,
    ensures
        ({
            let mine = local@[local.keys()[i]];
            let theirs = remote@[remote.keys()[j]];
            let differ = mine.hash.bytes@ != theirs.hash.bytes@;
            let later = mine.modified@.0 > theirs.modified@.0 || (mine.modified@.0
                == theirs.modified@.0 && mine.modified@.1 > theirs.modified@.1);
            &&& protocol::names_path(res.0@, mine.relative_path@) == (differ && later)
            &&& protocol::names_path(res.1@, mine.relative_path@) == (differ && !later)
        }),
{
    let p = local@[local.keys()[i]].relative_path@;
    let l = values(*local);
    let r = values(*remote);
    lemma_paths_once(*local);
    lemma_paths_once(*remote);
    lemma_lists(l, r, p);
    lemma_by_path_has(l, i);
    lemma_by_path_has(r, j);
    assert(l[i].relative_path == p && r[j].relative_path == p);
    lemma_names_path(res.0@, p);
    lemma_names_path(res.1@, p);
}

/// A file that the other side lacks is given, and is not asked for.
pub proof fn files_lacking_there_are_given(
    local: &Table<FileEntry>,
    remote: &Table<FileEntry>,
    res: (Vec<FileEntry>, Vec<FileEntry>),
    i: int,
)
    requires
        call_ensures(SyncEngine::diff_indexes, (local, remote), res),
        paths_once(*local),
        paths_once(*remote),
        0 <= i < local.keys().len(),
        forall|j: int|
            0 <= j < remote.keys().len() ==> remote@[#[trigger] remote.keys()[j]].relative_path@
                != local@[local.keys()[i]].relative_path@,
    ensures
        protocol::names_path(res.0@, local@[local.keys()[i]].relative_path@),
        !protocol::names_path(res.1@, local@[local.keys()[i]].relative_path@),
{
    let p = local@[local.keys()[i]].relative_path@;
    let l = values(*local);
    let r = values(*remote);
    lemma_paths_once(*local);
    lemma_paths_once(*remote);
    lemma_lists(l, r, p);
    lemma_by_path_has(l, i);
    assert(l[i].relative_path == p);
    if by_path(r).contains_key(p) {
        lemma_by_path_from(r, p);
        let j = choose|j: int|
            0 <= j < r.len() && (#[trigger] r[j]).relative_path == p && by_path(r)[p] == r[j];
        assert(remote@[remote.keys()[j]].relative_path@ == p);
    }
    lemma_names_path(res.0@, p);
    lemma_names_path(res.1@, p);
}

/// A file that is lacking here is got, and is not offered.
pub proof fn files_lacking_here_are_got(
    local: &Table<FileEntry>,
    remote: &Table<FileEntry>,
    res: (Vec<FileEntry>, Vec<FileEntry>),
    j: int,
)
    requires
        call_ensures(SyncEngine::diff_indexes, (local, remote), res),
        paths_once(*local),
        paths_once(*remote),
        0 <= j < remote.keys().len(),
        forall|i: int|
            0 <= i < local.keys().len() ==> local@[#[trigger] local.keys()[i]].relative_path@
                != remote@[remote.keys()[j]].relative_path@,
    ensures
        protocol::names_path(res.1@, remote@[remote.keys()[j]].relative_path@),
        !protocol::names_path(res.0@, remote@[remote.keys()[j]].relative_path@),
{
    let p = remote@[remote.keys()[j]].relative_path@;
    let l = values(*local);
    let r = values(*remote);
    lemma_paths_once(*local);
    lemma_paths_once(*remote);
    lemma_lists(l, r, p);
    lemma_by_path_has(r, j);
    assert(r[j].relative_path == p);
    if by_path(l).contains_key(p) {
        lemma_by_path_from(l, p);
        let i = choose|i: int|
            0 <= i < l.len() && (#[trigger] l[i]).relative_path == p && by_path(l)[p] == l[i];
        assert(local@[local.keys()[i]].relative_path@ == p);
    }
    lemma_names_path(res.0@, p);
    lemma_names_path(res.1@, p);
}

proof fn lemma_filter_paths(
    s: Seq<protocol::FileEntryView>,
    f: spec_fn(protocol::FileEntryView) -> bool,
)
    requires
        distinct_paths(s),
    ensures
        distinct_paths(s.filter(f)),
    decreases s.len(),
{
    reveal(Seq::filter);
    if s.len() > 0 {
        let head = s.drop_last();
        assert(distinct_paths(head)) by {
            assert forall|a: int, b: int| 0 <= a < b < head.len() implies (
            #[trigger] head[a]).relative_path != (#[trigger] head[b]).relative_path by {
                assert(s[a] == head[a] && s[b] == head[b]);
            }
        }
        lemma_filter_paths(head, f);
        lemma_filter_member(head, f);
        let kept = head.filter(f);
        let all = s.filter(f);
        assert forall|a: int, b: int| 0 <= a < b < all.len() implies (
        #[trigger] all[a]).relative_path != (#[trigger] all[b]).relative_path by {
            if b < kept.len() {
                assert(all[a] == kept[a] && all[b] == kept[b]);
            } else {
                assert(all[a] == kept[a] && head.contains(kept[a]));
                let k = choose|k: int| 0 <= k < head.len() && head[k] == kept[a];
                assert(s[k] == kept[a] && s[s.len() - 1] == all[b]);
            }
        }
    }
}

/// What is given are versions from here and what is got are versions from there,
/// each in full, and no path is named twice.
pub proof fn lists_hold_whole_versions(
    local: &Table<FileEntry>,
    remote: &Table<FileEntry>,
    res: (Vec<FileEntry>, Vec<FileEntry>),
)
    requires
        call_ensures(SyncEngine::diff_indexes, (local, remote), res),
        paths_once(*local),
        paths_once(*remote),
    ensures
        forall|n: int|
            0 <= n < res.0@.len() ==> exists|i: int|
                0 <= i < local.keys().len() && protocol::is_copy(
                    #[trigger] res.0@[n],
                    local@[#[trigger] local.keys()[i]],
                ),
        forall|n: int|
            0 <= n < res.1@.len() ==> exists|j: int|
                0 <= j < remote.keys().len() && protocol::is_copy(
                    #[trigger] res.1@[n],
                    remote@[#[trigger] remote.keys()[j]],
                ),
        forall|a: int, b: int|
            0 <= a < b < res.0@.len() ==> (#[trigger] res.0@[a]).relative_path@ != (
            #[trigger] res.0@[b]).relative_path@,
        forall|a: int, b: int|
            0 <= a < b < res.1@.len() ==> (#[trigger] res.1@[a]).relative_path@ != (
            #[trigger] res.1@[b]).relative_path@,
{
    let l = values(*local);
    let r = values(*remote);
    lemma_paths_once(*local);
    lemma_paths_once(*remote);
    let here = |e: protocol::FileEntryView| newer_here(e, by_path(r));
    let there = |e: protocol::FileEntryView| newer_there(e, by_path(r));
    let absent = |e: protocol::FileEntryView| !by_path(l).contains_key(e.relative_path);
    let given = protocol::entry_views(res.0@);
    let got = protocol::entry_views(res.1@);
    lemma_filter_member(l, here);
    lemma_filter_member(l, there);
    lemma_filter_member(r, absent);
    lemma_filter_paths(l, here);
    lemma_filter_paths(l, there);
    lemma_filter_paths(r, absent);
    let kept = l.filter(there);
    let upd = updates(l, r);
    let lack = lacking(l, r);
    assert(got =~= upd + lack);
    assert forall|k: int| 0 <= k < upd.len() implies (#[trigger] upd[k]).relative_path
        == kept[k].relative_path && r.contains(upd[k]) && by_path(l).contains_key(
        upd[k].relative_path,
    ) by {
        let e = kept[k];
        assert(there(e) && l.contains(e));
        lemma_by_path_from(r, e.relative_path);
        let i = choose|i: int| 0 <= i < l.len() && l[i] == e;
        lemma_by_path_has(l, i);
        assert(upd[k] == by_path(r)[e.relative_path]);
    }
    assert forall|n: int| 0 <= n < res.0@.len() implies exists|i: int|
        0 <= i < local.keys().len() && protocol::is_copy(
            #[trigger] res.0@[n],
            local@[#[trigger] local.keys()[i]],
        ) by {
        assert(given[n] == res.0@[n]@);
        assert(l.contains(given[n]));
        let i = choose|i: int| 0 <= i < l.len() && l[i] == given[n];
        assert(local@[local.keys()[i]]@ == res.0@[n]@);
        assert(protocol::is_copy(res.0@[n], local@[local.keys()[i]]));
    }
    assert forall|n: int| 0 <= n < res.1@.len() implies exists|j: int|
        0 <= j < remote.keys().len() && protocol::is_copy(
            #[trigger] res.1@[n],
            remote@[#[trigger] remote.keys()[j]],
        ) by {
        assert(got[n] == res.1@[n]@);
        if n < upd.len() {
            assert(got[n] == upd[n]);
        } else {
            assert(got[n] == lack[n - upd.len()]);
        }
        assert(r.contains(got[n]));
        let j = choose|j: int| 0 <= j < r.len() && r[j] == got[n];
        assert(remote@[remote.keys()[j]]@ == res.1@[n]@);
        assert(protocol::is_copy(res.1@[n], remote@[remote.keys()[j]]));
    }
    assert forall|a: int, b: int| 0 <= a < b < res.0@.len() implies (
    #[trigger] res.0@[a]).relative_path@ != (#[trigger] res.0@[b]).relative_path@ by {
        assert(given[a] == res.0@[a]@ && given[b] == res.0@[b]@);
    }
    assert forall|a: int, b: int| 0 <= a < b < res.1@.len() implies (
    #[trigger] res.1@[a]).relative_path@ != (#[trigger] res.1@[b]).relative_path@ by {
        assert(got[a] == res.1@[a]@ && got[b] == res.1@[b]@);
        if b < upd.len() {
            assert(got[a] == upd[a] && got[b] == upd[b]);
        } else if a >= upd.len() {
            assert(got[a] == lack[a - upd.len()] && got[b] == lack[b - upd.len()]);
        } else {
            assert(got[a] == upd[a] && got[b] == lack[b - upd.len()]);
            assert(absent(lack[b - upd.len()]));
        }
    }
}

/// Each place below the root that a walk met has its entry in the index, under
/// its whole path: with its relative path, its size, its time, or that of the
/// walk where none is known, and the digest of its content, or zeros for a
/// directory and for what could not be read.
pub proof fn walks_are_indexed(
    listing: &Vec<Listed>,
    contents: &Vec<Option<Digest>>,
    now: &Timestamp,
    res: Table<FileEntry>,
    i: int,
)
    requires
        call_ensures(SyncEngine::build_file_index, (listing, contents, now), res),
        listing@.len() == contents@.len(),
        0 <= i < listing@.len(),
        !listing@[i].is_root,
        forall|k: int|
            i < k < listing@.len() ==> (#[trigger] listing@[k]).is_root || listing@[k].path@
                != listing@[i].path@,
    ensures
        res@.contains_key(listing@[i].path@),
        ({
            let l = listing@[i];
            let e = res@[l.path@];
            &&& e.relative_path@ == l.relative_path@
            &&& e.size == l.size
            &&& e.is_dir == l.is_dir
            &&& e.mode == 0
            &&& e.modified@ == match l.modified_secs {
                Some(secs) => if clock::MIN_SECS <= secs <= clock::MAX_SECS {
                    (secs as int, 0)
                } else {
                    now@
                },
                None => now@,
            }
            &&& match contents@[i] {
                Some(d) => !l.is_dir ==> e.hash.bytes@ == d.bytes@,
                None => forall|k: int| 0 <= k < 32 ==> e.hash.bytes@[k] == 0,
            }
            &&& l.is_dir ==> forall|k: int| 0 <= k < 32 ==> e.hash.bytes@[k] == 0
        }),
{
    scan::lemma_index_last(listing@, contents@, now@, i);
    assert(scan::index_view(res).contains_key(listing@[i].path@));
    assert(scan::index_view(res)[listing@[i].path@] == res@[listing@[i].path@]@);
}

/// Nothing stands in the index of a walk but what the walk met below the root.
pub proof fn indexes_hold_what_was_met(
    listing: &Vec<Listed>,
    contents: &Vec<Option<Digest>>,
    now: &Timestamp,
    res: Table<FileEntry>,
    path: Seq<char>,
)
    requires
        call_ensures(SyncEngine::build_file_index, (listing, contents, now), res),
        listing@.len() == contents@.len(),
        res@.contains_key(path),
    ensures
        exists|i: int|
            0 <= i < listing@.len() && !(#[trigger] listing@[i]).is_root && listing@[i].path@
                == path && res@[path].relative_path@ == listing@[i].relative_path@,
{
    assert(scan::index_view(res).contains_key(path));
    assert(scan::index_view(res)[path] == res@[path]@);
    scan::lemma_index_from(listing@, contents@, now@, path);
}

pub(crate) proof fn lemma_chunk_at(data: Seq<u8>, size: nat, i: int)
    requires
        size > 0,
        0 <= i < chunks(data, size).len(),
    ensures
        0 <= i * size < data.len(),
        chunks(data, size)[i] == data.subrange(
            i * size,
            if (i + 1) * size < data.len() {
                (i + 1) * size
            } else {
                data.len() as int
            },
        ),
    decreases data.len(),
{
    let c = size as int;
    if data.len() <= size {
        assert(i == 0);
        assert(data.subrange(0, data.len() as int) =~= data);
    } else if i == 0 {
        assert(data.take(c) =~= data.subrange(0, c));
    } else {
        let rest = data.skip(c);
        lemma_chunk_at(rest, size, i - 1);
        assert(chunks(data, size)[i] == chunks(rest, size)[i - 1]);
        assert((i - 1) * c + c == i * c) by (nonlinear_arith);
        assert(i * c + c == (i + 1) * c) by (nonlinear_arith);
        let end = if (i + 1) * c < data.len() {
            (i + 1) * c
        } else {
            data.len() as int
        };
        assert(rest.subrange((i - 1) * c, end - c) =~= data.subrange(i * c, end));
    }
}

/// A chunk is the stretch of the file that its number tells.
pub proof fn chunks_are_stretches(data: &[u8], chunk_size: usize, res: Vec<Vec<u8>>, i: int)
    requires
        call_ensures(SyncEngine::read_file_chunks, (data, chunk_size), res),
        chunk_size > 0,
        0 <= i < res@.len(),
    ensures
        0 <= i * chunk_size < data@.len(),
        res@.len() == (data@.len() + chunk_size - 1) / chunk_size as int,
        res@[i]@ == data@.subrange(
            i * chunk_size,
            if (i + 1) * chunk_size < data@.len() {
                (i + 1) * chunk_size
            } else {
                data@.len() as int
            },
        ),
{
    assert(chunk_views(res@)[i] == res@[i]@);
    lemma_chunk_at(data@, chunk_size as nat, i);
    chunks_are_full(data@, chunk_size as nat);
}

proof fn lemma_glued_both(a: Seq<Seq<u8>>, b: Seq<Seq<u8>>)
    ensures
        glued(a + b) == glued(a) + glued(b),
    decreases b.len(),
{
    if b.len() == 0 {
        assert(a + b =~= a);
        assert(glued(a) + glued(b) =~= glued(a));
    } else {
        assert((a + b).drop_last() =~= a + b.drop_last());
        lemma_glued_both(a, b.drop_last());
        assert(glued(a + b) =~= glued(a) + glued(b));
    }
}

/// What is written of two rows of chunks is what is written of the one, and
/// then what is written of the other.
pub proof fn chunks_are_written_in_order(
    one: &Vec<Vec<u8>>,
    other: &Vec<Vec<u8>>,
    both: &Vec<Vec<u8>>,
    res_one: Vec<u8>,
    res_other: Vec<u8>,
    res_both: Vec<u8>,
)
    requires
        call_ensures(SyncEngine::write_file_chunks, (one,), res_one),
        call_ensures(SyncEngine::write_file_chunks, (other,), res_other),
        call_ensures(SyncEngine::write_file_chunks, (both,), res_both),
        both@ == one@ + other@,
    ensures
        res_both@ == res_one@ + res_other@,
        one@.len() == 0 ==> res_one@.len() == 0,
        one@.len() == 1 ==> res_one@ == one@[0]@,
{
    assert(chunk_views(both@) =~= chunk_views(one@) + chunk_views(other@));
    lemma_glued_both(chunk_views(one@), chunk_views(other@));
    if one@.len() == 1 {
        reveal_with_fuel(glued, 2);
        assert(chunk_views(one@)[0] == one@[0]@);
        assert(chunk_views(one@).drop_last().len() == 0);
        assert(res_one@ =~= one@[0]@);
    }
}

/// Writing the chunks that were read gives the file back.
pub proof fn written_chunks_are_the_file(
    data: &[u8],
    chunk_size: usize,
    parts: Vec<Vec<u8>>,
    res: Vec<u8>,
)
    requires
        chunk_size > 0,
        call_ensures(SyncEngine::read_file_chunks, (data, chunk_size), parts),
        call_ensures(SyncEngine::write_file_chunks, (&parts,), res),
    ensures
        res@ == data@,
{
    chunks_make_the_file(data@, chunk_size as nat);
}

/// A file is taken for the expected one exactly if the digest of its whole
/// content is the expected one.
pub proof fn files_are_known_by_their_digests(
    content: &[u8],
    expected: &Digest,
    hash: Digest,
    res: bool,
)
    requires
        call_ensures(SyncEngine::compute_file_hash, (content,), hash),
        call_ensures(SyncEngine::verify_file, (content, expected), res),
    ensures
        hash.bytes@ == digest::blake3_digest(content@),
        res == (expected.bytes@ == digest::blake3_digest(content@)),
{
}

/// A full synchronisation keeps the index that was built for its pair, and
/// leaves those of the other pairs alone.
pub proof fn full_sync_keeps_the_index(
    engine: &mut SyncEngine,
    pair: &SyncPair,
    built: Table<FileEntry>,
    res: SyncResult,
    other: Seq<char>,
)
    requires
        call_ensures(SyncEngine::full_sync, (engine, pair, Ok(built)), res),
        other != pair.id@,
    ensures
        res.pair_id@ == pair.id@,
        res.errors@.len() == 0,
        final(engine).cached().contains_key(pair.id@),
        final(engine).cached()[pair.id@] == built,
        final(engine).cached().contains_key(other) == old(engine).cached().contains_key(other),
        old(engine).cached().contains_key(other) ==> final(engine).cached()[other] == old(
            engine,
        ).cached()[other],
{
}

} // verus!
