//! The torrent-metadata index: at most one record per content hash, holding
//! the engine's volatile numeric id, the optional catalog id, media kind and
//! episode locator, and the record's timestamps. The index is the in-memory
//! document; after every mutation that reports a change, the caller rewrites
//! the durable file atomically.

use vstd::prelude::*;

use crate::seqs::{find_first, lemma_find_first_found, lemma_find_first_none,
    lemma_find_first_props};
use crate::text::str_eq;

verus! {

/// One record of the index.
#[derive(Debug)]
pub struct TorrentEntry {
    /// The engine's current numeric id; volatile, resynchronized on every
    /// upsert.
    pub torrent_id: i32,
    /// The content hash: the record's stable identity.
    pub info_hash: String,
    /// Catalog id of the associated media, when known.
    pub tmdb_id: Option<u64>,
    /// Media kind tag, `"movie"` or `"tv"`, when known.
    pub media_type: Option<String>,
    /// Creation time, seconds since the Unix epoch.
    pub created_at: i64,
    /// Last update time, seconds since the Unix epoch.
    pub updated_at: i64,
    /// Season and episode, only meaningful for episodic media.
    pub episode_info: Option<(i32, i32)>,
    /// Deprecated external reference, kept only for old documents.
    pub imdb_code: Option<String>,
}

/// The mathematical image of one record.
pub ghost struct EntryView {
    pub torrent_id: i32,
    pub info_hash: Seq<char>,
    pub tmdb_id: Option<u64>,
    pub media_type: Option<Seq<char>>,
    pub created_at: i64,
    pub updated_at: i64,
    pub episode_info: Option<(i32, i32)>,
    pub imdb_code: Option<Seq<char>>,
}

pub open spec fn opt_str_view(o: Option<String>) -> Option<Seq<char>> {
    match o {
        Some(s) => Some(s@),
        None => None,
    }
}

impl View for TorrentEntry {
    type V = EntryView;

    open spec fn view(&self) -> EntryView {
        EntryView {
            torrent_id: self.torrent_id,
            info_hash: self.info_hash@,
            tmdb_id: self.tmdb_id,
            media_type: opt_str_view(self.media_type),
            created_at: self.created_at,
            updated_at: self.updated_at,
            episode_info: self.episode_info,
            imdb_code: opt_str_view(self.imdb_code),
        }
    }
}

/// Copy an optional string, keeping its characters.
fn clone_opt_string(o: &Option<String>) -> (r: Option<String>)
    ensures
        opt_str_view(r) == opt_str_view(*o),
{
    match o {
        Some(s) => Some(s.clone()),
        None => None,
    }
}

impl Clone for TorrentEntry {
    fn clone(&self) -> (r: Self)
        ensures
            r@ == self@,
    {
        TorrentEntry {
            torrent_id: self.torrent_id,
            info_hash: self.info_hash.clone(),
            tmdb_id: self.tmdb_id,
            media_type: clone_opt_string(&self.media_type),
            created_at: self.created_at,
            updated_at: self.updated_at,
            episode_info: self.episode_info,
            imdb_code: clone_opt_string(&self.imdb_code),
        }
    }
}

/// The views of a sequence of records.
pub open spec fn views_of(s: Seq<TorrentEntry>) -> Seq<EntryView> {
    s.map_values(|e: TorrentEntry| e@)
}

/// The predicate picking records with a given hash.
pub open spec fn hash_pred(h: Seq<char>) -> spec_fn(EntryView) -> bool {
    |e: EntryView| e.info_hash == h
}

/// Index of the record with hash `h`, or -1 when absent.
pub open spec fn index_of_hash(s: Seq<EntryView>, h: Seq<char>) -> int {
    find_first(s, hash_pred(h))
}

pub open spec fn has_hash(s: Seq<EntryView>, h: Seq<char>) -> bool {
    index_of_hash(s, h) >= 0
}

/// The record stored under hash `h`, if any.
pub open spec fn get_model(s: Seq<EntryView>, h: Seq<char>) -> Option<EntryView> {
    if has_hash(s, h) {
        Some(s[index_of_hash(s, h)])
    } else {
        None
    }
}

/// No two records share a hash.
pub open spec fn hashes_unique(s: Seq<EntryView>) -> bool {
    forall|i: int, j: int|
        0 <= i < j < s.len() ==> (#[trigger] s[i].info_hash) != (#[trigger] s[j].info_hash)
}

/// An upsert on an existing record: the numeric id and the update time are
/// always overwritten; catalog id, media kind and episode locator only when
/// the argument is present; identity, creation time and the deprecated
/// reference never change.
pub open spec fn merge_entry(
    e: EntryView,
    torrent_id: i32,
    tmdb_id: Option<u64>,
    media_type: Option<Seq<char>>,
    episode_info: Option<(i32, i32)>,
    now: i64,
) -> EntryView {
    EntryView {
        torrent_id,
        info_hash: e.info_hash,
        tmdb_id: if tmdb_id is Some {
            tmdb_id
        } else {
            e.tmdb_id
        },
        media_type: if media_type is Some {
            media_type
        } else {
            e.media_type
        },
        created_at: e.created_at,
        updated_at: now,
        episode_info: if episode_info is Some {
            episode_info
        } else {
            e.episode_info
        },
        imdb_code: e.imdb_code,
    }
}

/// A record created by an upsert on a hash not yet present.
pub open spec fn fresh_entry(
    info_hash: Seq<char>,
    torrent_id: i32,
    tmdb_id: Option<u64>,
    media_type: Option<Seq<char>>,
    episode_info: Option<(i32, i32)>,
    now: i64,
) -> EntryView {
    EntryView {
        torrent_id,
        info_hash,
        tmdb_id,
        media_type,
        created_at: now,
        updated_at: now,
        episode_info,
        imdb_code: None,
    }
}

/// What an upsert leaves in the index.
pub open spec fn upsert_model(
    s: Seq<EntryView>,
    info_hash: Seq<char>,
    torrent_id: i32,
    tmdb_id: Option<u64>,
    media_type: Option<Seq<char>>,
    episode_info: Option<(i32, i32)>,
    now: i64,
) -> Seq<EntryView> {
    if has_hash(s, info_hash) {
        s.update(
            index_of_hash(s, info_hash),
            merge_entry(
                s[index_of_hash(s, info_hash)],
                torrent_id,
                tmdb_id,
                media_type,
                episode_info,
                now,
            ),
        )
    } else {
        s.push(fresh_entry(info_hash, torrent_id, tmdb_id, media_type, episode_info, now))
    }
}

/// Drop every record whose hash already occurred earlier in the sequence.
pub open spec fn dedup_by_hash(s: Seq<EntryView>) -> Seq<EntryView>
    decreases s.len(),
{
    if s.len() == 0 {
        s
    } else {
        let rest = dedup_by_hash(s.drop_last());
        if has_hash(s.drop_last(), s.last().info_hash) {
            rest
        } else {
            rest.push(s.last())
        }
    }
}

/// A record's hash is in a pushed sequence exactly when it is the pushed
/// record's hash or was there before.
proof fn lemma_has_hash_push(s: Seq<EntryView>, e: EntryView, h: Seq<char>)
    ensures
        has_hash(s.push(e), h) == (has_hash(s, h) || e.info_hash == h),
        has_hash(s, h) ==> index_of_hash(s.push(e), h) == index_of_hash(s, h),
        !has_hash(s, h) && e.info_hash == h ==> index_of_hash(s.push(e), h) == s.len(),
{
    lemma_find_first_props(s, hash_pred(h));
    lemma_find_first_props(s.push(e), hash_pred(h));
    if has_hash(s, h) {
        let i = index_of_hash(s, h);
        assert(s.push(e)[i] == s[i]);
        assert forall|j: int| 0 <= j < i implies !hash_pred(h)(#[trigger] s.push(e)[j]) by {
            assert(s.push(e)[j] == s[j]);
        }
        lemma_find_first_found(s.push(e), hash_pred(h), i);
    } else if e.info_hash == h {
        assert(s.push(e)[s.len() as int] == e);
        assert forall|j: int| 0 <= j < s.len() implies !hash_pred(h)(#[trigger] s.push(e)[j]) by {
            assert(s.push(e)[j] == s[j]);
        }
        lemma_find_first_found(s.push(e), hash_pred(h), s.len() as int);
    } else {
        assert forall|j: int| 0 <= j < s.push(e).len() implies !hash_pred(h)(
            #[trigger] s.push(e)[j],
        ) by {
            if j < s.len() {
                assert(s.push(e)[j] == s[j]);
            }
        }
        lemma_find_first_none(s.push(e), hash_pred(h));
    }
}

/// The index document.
pub struct TorrentDb {
    entries: Vec<TorrentEntry>,
}

impl View for TorrentDb {
    type V = Seq<EntryView>;

    closed spec fn view(&self) -> Seq<EntryView> {
        views_of(self.entries@)
    }
}

impl TorrentDb {
    /// Each hash keys at most one record.
    pub open spec fn wf(&self) -> bool {
        hashes_unique(self@)
    }

    /// An empty index, as when no durable file exists yet.
    pub fn new() -> (db: Self)
        ensures
            db.wf(),
            db@ == Seq::<EntryView>::empty(),
    {
        let db = TorrentDb { entries: Vec::new() };
        proof {
            assert(db@ =~= Seq::<EntryView>::empty());
        }
        db
    }

    /// Build an index from loaded records, keeping the first record of each
    /// hash and dropping later duplicates.
    pub fn from_entries(entries: Vec<TorrentEntry>) -> (db: Self)
        ensures
            db.wf(),
            db@ == dedup_by_hash(views_of(entries@)),
    {
        let mut out: Vec<TorrentEntry> = Vec::new();
        let mut i: usize = 0;
        proof {
            assert(views_of(entries@.subrange(0, 0)) =~= Seq::<EntryView>::empty());
            assert(views_of(out@) =~= Seq::<EntryView>::empty());
        }
        while i < entries.len()
            invariant
                i <= entries@.len(),
                views_of(out@) == dedup_by_hash(views_of(entries@.subrange(0, i as int))),
                hashes_unique(views_of(out@)),
                forall|h: Seq<char>| #[trigger]
                    has_hash(views_of(out@), h) == has_hash(
                        views_of(entries@.subrange(0, i as int)),
                        h,
                    ),
            decreases entries@.len() - i,
        {
            let ghost p = views_of(entries@.subrange(0, i as int));
            let ghost pnext = views_of(entries@.subrange(0, i + 1));
            let ghost ev = entries@[i as int]@;
            proof {
                assert(pnext.drop_last() =~= p);
                assert(pnext.last() == ev);
                assert(pnext =~= p.push(ev));
            }
            let e = &entries[i];
            let present = contains_hash(&out, e.info_hash.as_str());
            if !present {
                let c = e.clone();
                let ghost old_out = views_of(out@);
                out.push(c);
                proof {
                    assert(views_of(out@) =~= old_out.push(ev));
                    lemma_find_first_props(old_out, hash_pred(ev.info_hash));
                    assert forall|a: int, b: int|
                        0 <= a < b < views_of(out@).len() implies (#[trigger] views_of(
                        out@,
                    )[a].info_hash) != (#[trigger] views_of(out@)[b].info_hash) by {
                        assert(views_of(out@)[a] == old_out[a]);
                        if b < old_out.len() {
                            assert(views_of(out@)[b] == old_out[b]);
                        } else {
                            assert(views_of(out@)[b] == ev);
                            assert(!hash_pred(ev.info_hash)(old_out[a]));
                        }
                    }
                    assert(views_of(out@) == dedup_by_hash(pnext));
                    assert forall|h: Seq<char>| #[trigger]
                        has_hash(views_of(out@), h) == has_hash(pnext, h) by {
                        lemma_has_hash_push(old_out, ev, h);
                        lemma_has_hash_push(p, ev, h);
                    }
                }
            } else {
                proof {
                    assert(dedup_by_hash(pnext) == dedup_by_hash(p));
                    assert forall|h: Seq<char>| #[trigger]
                        has_hash(views_of(out@), h) == has_hash(pnext, h) by {
                        lemma_has_hash_push(p, ev, h);
                    }
                }
            }
            i = i + 1;
        }
        proof {
            assert(entries@.subrange(0, entries@.len() as int) =~= entries@);
        }
        TorrentDb { entries: out }
    }

    /// Position of the record with the given hash in the underlying storage,
    /// if any.
    fn find_by_hash(&self, info_hash: &str) -> (r: Option<usize>)
        ensures
            match r {
                Some(i) => 0 <= i < self@.len() && index_of_hash(self@, info_hash@) == i,
                None => !has_hash(self@, info_hash@),
            },
    {
        let mut j: usize = 0;
        while j < self.entries.len()
            invariant
                j <= self.entries@.len(),
                self@.len() == self.entries@.len(),
                forall|k: int| 0 <= k < j ==> !hash_pred(info_hash@)(#[trigger] self@[k]),
            decreases self.entries@.len() - j,
        {
            if str_eq(self.entries[j].info_hash.as_str(), info_hash) {
                proof {
                    assert(self@[j as int] == self.entries@[j as int]@);
                    lemma_find_first_found(self@, hash_pred(info_hash@), j as int);
                }
                return Some(j);
            }
            proof {
                assert(self@[j as int] == self.entries@[j as int]@);
            }
            j = j + 1;
        }
        proof {
            lemma_find_first_none(self@, hash_pred(info_hash@));
        }
        None
    }

    /// The record stored under this hash, if any.
    pub fn get_by_hash(&self, info_hash: &str) -> (r: Option<TorrentEntry>)
        ensures
            match r {
                Some(e) => get_model(self@, info_hash@) == Some(e@),
                None => get_model(self@, info_hash@) is None,
            },
    {
        match self.find_by_hash(info_hash) {
            Some(i) => Some(self.entries[i].clone()),
            None => None,
        }
    }

    /// Add or update the record for `info_hash` at the given time: the
    /// numeric id is always overwritten; catalog id, media kind and episode
    /// locator only when present; an absent argument never erases data. A
    /// new record carries `now` as both of its timestamps.
    pub fn upsert_torrent_at(
        &mut self,
        torrent_id: i32,
        info_hash: String,
        tmdb_id: Option<u64>,
        media_type: Option<String>,
        episode_info: Option<(i32, i32)>,
        now: i64,
    )
        requires
            old(self).wf(),
        ensures
            final(self).wf(),
            final(self)@ == upsert_model(
                old(self)@,
                info_hash@,
                torrent_id,
                tmdb_id,
                opt_str_view(media_type),
                episode_info,
                now,
            ),
    {
        let ghost s0 = self@;
        match self.find_by_hash(info_hash.as_str()) {
            Some(i) => {
                let mut e = self.entries[i].clone();
                e.torrent_id = torrent_id;
                if tmdb_id.is_some() {
                    e.tmdb_id = tmdb_id;
                }
                if media_type.is_some() {
                    e.media_type = media_type;
                }
                if episode_info.is_some() {
                    e.episode_info = episode_info;
                }
                e.updated_at = now;
                proof {
                    assert(e@ == merge_entry(
                        s0[i as int],
                        torrent_id,
                        tmdb_id,
                        opt_str_view(media_type),
                        episode_info,
                        now,
                    ));
                }
                self.entries.set(i, e);
                proof {
                    assert(self@ =~= s0.update(
                        i as int,
                        merge_entry(
                            s0[i as int],
                            torrent_id,
                            tmdb_id,
                            opt_str_view(media_type),
                            episode_info,
                            now,
                        ),
                    ));
                    assert forall|a: int, b: int|
                        0 <= a < b < self@.len() implies (#[trigger] self@[a].info_hash) != (
                    #[trigger] self@[b].info_hash) by {
                        assert(self@[a].info_hash == s0[a].info_hash);
                        assert(self@[b].info_hash == s0[b].info_hash);
                    }
                }
            },
            None => {
                let e = TorrentEntry {
                    torrent_id,
                    info_hash,
                    tmdb_id,
                    media_type,
                    created_at: now,
                    updated_at: now,
                    episode_info,
                    imdb_code: None,
                };
                let ghost ev = e@;
                self.entries.push(e);
                proof {
                    assert(self@ =~= s0.push(ev));
                    lemma_find_first_props(s0, hash_pred(ev.info_hash));
                    assert forall|a: int, b: int|
                        0 <= a < b < self@.len() implies (#[trigger] self@[a].info_hash) != (
                    #[trigger] self@[b].info_hash) by {
                        assert(self@[a] == s0[a]);
                        if b < s0.len() {
                            assert(self@[b] == s0[b]);
                        } else {
                            assert(self@[b] == ev);
                            assert(!hash_pred(ev.info_hash)(s0[a]));
                        }
                    }
                }
            },
        }
    }

    /// Add or update the record for `info_hash`, stamping it with the
    /// current time.
    pub fn upsert_torrent(
        &mut self,
        torrent_id: i32,
        info_hash: String,
        tmdb_id: Option<u64>,
        media_type: Option<String>,
        episode_info: Option<(i32, i32)>,
    )
        requires
            old(self).wf(),
        ensures
            final(self).wf(),
            exists|now: i64|
                final(self)@ == #[trigger] upsert_model(
                    old(self)@,
                    info_hash@,
                    torrent_id,
                    tmdb_id,
                    opt_str_view(media_type),
                    episode_info,
                    now,
                ),
    {
        let now = now_timestamp();
        let ghost h = info_hash@;
        let ghost t = tmdb_id;
        let ghost m = opt_str_view(media_type);
        let ghost ep = episode_info;
        self.upsert_torrent_at(torrent_id, info_hash, tmdb_id, media_type, episode_info, now);
        proof {
            assert(self@ == upsert_model(old(self)@, h, torrent_id, t, m, ep, now));
        }
    }
}

/// The predicate picking records with a given engine id.
pub open spec fn id_pred(torrent_id: i32) -> spec_fn(EntryView) -> bool {
    |e: EntryView| e.torrent_id == torrent_id
}

/// Index of the first record with this engine id, or -1 when none has it.
pub open spec fn index_of_id(s: Seq<EntryView>, torrent_id: i32) -> int {
    find_first(s, id_pred(torrent_id))
}

/// The views of a sequence of strings.
pub open spec fn strs_view(ss: Seq<String>) -> Seq<Seq<char>> {
    ss.map_values(|x: String| x@)
}

/// Whether a hash occurs in a list of hashes.
pub open spec fn hash_in_list(hs: Seq<Seq<char>>, h: Seq<char>) -> bool {
    exists|i: int| 0 <= i < hs.len() && hs[i] == h
}

/// The predicate keeping records whose hash the engine still tracks.
pub open spec fn keep_pred(active: Seq<Seq<char>>) -> spec_fn(EntryView) -> bool {
    |e: EntryView| hash_in_list(active, e.info_hash)
}

impl TorrentDb {
    /// Position of the first record with the given engine id, if any.
    fn find_by_id(&self, torrent_id: i32) -> (r: Option<usize>)
        ensures
            match r {
                Some(i) => 0 <= i < self@.len() && index_of_id(self@, torrent_id) == i,
                None => index_of_id(self@, torrent_id) < 0,
            },
    {
        let mut j: usize = 0;
        while j < self.entries.len()
            invariant
                j <= self.entries@.len(),
                self@.len() == self.entries@.len(),
                forall|k: int| 0 <= k < j ==> !id_pred(torrent_id)(#[trigger] self@[k]),
            decreases self.entries@.len() - j,
        {
            if self.entries[j].torrent_id == torrent_id {
                proof {
                    assert(self@[j as int] == self.entries@[j as int]@);
                    lemma_find_first_found(self@, id_pred(torrent_id), j as int);
                }
                return Some(j);
            }
            proof {
                assert(self@[j as int] == self.entries@[j as int]@);
            }
            j = j + 1;
        }
        proof {
            lemma_find_first_none(self@, id_pred(torrent_id));
        }
        None
    }

    /// The first record carrying this engine id, if any. Ids are volatile
    /// and not unique, so this is a linear scan, unlike the hash lookup.
    pub fn get_by_id(&self, torrent_id: i32) -> (r: Option<TorrentEntry>)
        ensures
            match r {
                Some(e) => index_of_id(self@, torrent_id) >= 0 && self@[index_of_id(
                    self@,
                    torrent_id,
                )] == e@,
                None => index_of_id(self@, torrent_id) < 0,
            },
    {
        match self.find_by_id(torrent_id) {
            Some(i) => Some(self.entries[i].clone()),
            None => None,
        }
    }

    /// The catalog id stored under this hash, if any.
    pub fn get_tmdb_id(&self, info_hash: &str) -> (r: Option<u64>)
        ensures
            r == (match get_model(self@, info_hash@) {
                Some(e) => e.tmdb_id,
                None => None,
            }),
    {
        match self.find_by_hash(info_hash) {
            Some(i) => self.entries[i].tmdb_id,
            None => None,
        }
    }

    /// The deprecated external reference stored under this hash, if any.
    pub fn get_imdb_code(&self, info_hash: &str) -> (r: Option<String>)
        ensures
            match r {
                Some(c) => get_model(self@, info_hash@) matches Some(e) && e.imdb_code == Some(c@),
                None => (match get_model(self@, info_hash@) {
                    Some(e) => e.imdb_code is None,
                    None => true,
                }),
            },
    {
        match self.find_by_hash(info_hash) {
            Some(i) => clone_opt_string(&self.entries[i].imdb_code),
            None => None,
        }
    }

    /// Remove the record under this hash. Reports whether anything was
    /// removed, so the caller knows to rewrite the durable file; removing an
    /// absent hash is a no-op.
    pub fn remove_by_hash(&mut self, info_hash: &str) -> (changed: bool)
        requires
            old(self).wf(),
        ensures
            final(self).wf(),
            changed == has_hash(old(self)@, info_hash@),
            changed ==> final(self)@ == old(self)@.remove(
                index_of_hash(old(self)@, info_hash@),
            ),
            !changed ==> final(self)@ == old(self)@,
    {
        let ghost s0 = self@;
        match self.find_by_hash(info_hash) {
            Some(i) => {
                self.entries.remove(i);
                proof {
                    assert(self@ =~= s0.remove(i as int));
                    lemma_remove_keeps_unique(s0, i as int);
                }
                true
            },
            None => false,
        }
    }

    /// Remove the first record carrying this engine id. Reports whether
    /// anything was removed; an id nobody carries is a no-op.
    pub fn remove_by_id(&mut self, torrent_id: i32) -> (changed: bool)
        requires
            old(self).wf(),
        ensures
            final(self).wf(),
            changed == (index_of_id(old(self)@, torrent_id) >= 0),
            changed ==> final(self)@ == old(self)@.remove(
                index_of_id(old(self)@, torrent_id),
            ),
            !changed ==> final(self)@ == old(self)@,
    {
        let ghost s0 = self@;
        match self.find_by_id(torrent_id) {
            Some(i) => {
                self.entries.remove(i);
                proof {
                    assert(self@ =~= s0.remove(i as int));
                    lemma_remove_keeps_unique(s0, i as int);
                }
                true
            },
            None => false,
        }
    }

    /// Keep exactly the records whose hash the engine still tracks, dropping
    /// the rest in order. Reports whether anything was dropped, so the
    /// caller knows to rewrite the durable file.
    pub fn sync_with_torrent_list(&mut self, active_info_hashes: &[String]) -> (changed: bool)
        requires
            old(self).wf(),
        ensures
            final(self).wf(),
            final(self)@ == old(self)@.filter(keep_pred(strs_view(active_info_hashes@))),
            changed == (final(self)@.len() != old(self)@.len()),
    {
        let ghost s0 = self@;
        let ghost pred = keep_pred(strs_view(active_info_hashes@));
        let mut out: Vec<TorrentEntry> = Vec::new();
        let mut i: usize = 0;
        proof {
            assert(views_of(self.entries@.subrange(0, 0)) =~= Seq::<EntryView>::empty());
            assert(views_of(out@) =~= Seq::<EntryView>::empty());
            reveal(Seq::filter);
            assert(Seq::<EntryView>::empty().filter(pred) =~= Seq::<EntryView>::empty());
        }
        while i < self.entries.len()
            invariant
                i <= self.entries@.len(),
                s0 == self@,
                s0.len() == self.entries@.len(),
                hashes_unique(s0),
                views_of(out@) == views_of(self.entries@.subrange(0, i as int)).filter(pred),
                pred == keep_pred(strs_view(active_info_hashes@)),
                forall|k: int|
                    0 <= k < views_of(out@).len() ==> has_hash(
                        views_of(self.entries@.subrange(0, i as int)),
                        (#[trigger] views_of(out@)[k]).info_hash,
                    ),
                hashes_unique(views_of(out@)),
            decreases self.entries@.len() - i,
        {
            let ghost p = views_of(self.entries@.subrange(0, i as int));
            let ghost pnext = views_of(self.entries@.subrange(0, i + 1));
            let ghost ev = self.entries@[i as int]@;
            proof {
                assert(pnext.drop_last() =~= p);
                assert(pnext.last() == ev);
                assert(pnext =~= p.push(ev));
                assert(s0[i as int] == ev);
            }
            let keep = list_contains(active_info_hashes, self.entries[i].info_hash.as_str());
            if keep {
                let c = self.entries[i].clone();
                let ghost old_out = views_of(out@);
                out.push(c);
                proof {
                    assert(views_of(out@) =~= old_out.push(ev));
                    p.lemma_filter_push(ev, pred);
                    assert(views_of(out@) == pnext.filter(pred));
                    assert forall|a: int, b: int|
                        0 <= a < b < views_of(out@).len() implies (#[trigger] views_of(
                        out@,
                    )[a].info_hash) != (#[trigger] views_of(out@)[b].info_hash) by {
                        assert(views_of(out@)[a] == old_out[a]);
                        if b < old_out.len() {
                            assert(views_of(out@)[b] == old_out[b]);
                        } else {
                            assert(views_of(out@)[b] == ev);
                            let j = index_of_hash(p, old_out[a].info_hash);
                            lemma_find_first_props(p, hash_pred(old_out[a].info_hash));
                            if old_out[a].info_hash == ev.info_hash {
                                assert(p[j] == s0[j]);
                                assert(s0[j].info_hash == s0[i as int].info_hash);
                            }
                        }
                    }
                    assert forall|k: int|
                        0 <= k < views_of(out@).len() implies has_hash(
                        pnext,
                        (#[trigger] views_of(out@)[k]).info_hash,
                    ) by {
                        if k < old_out.len() {
                            assert(views_of(out@)[k] == old_out[k]);
                            lemma_has_hash_push(p, ev, old_out[k].info_hash);
                        } else {
                            assert(views_of(out@)[k] == ev);
                            lemma_has_hash_push(p, ev, ev.info_hash);
                        }
                    }
                }
            } else {
                proof {
                    p.lemma_filter_push(ev, pred);
                    assert(views_of(out@) == pnext.filter(pred));
                    assert forall|k: int|
                        0 <= k < views_of(out@).len() implies has_hash(
                        pnext,
                        (#[trigger] views_of(out@)[k]).info_hash,
                    ) by {
                        lemma_has_hash_push(p, ev, views_of(out@)[k].info_hash);
                    }
                }
            }
            i = i + 1;
        }
        proof {
            assert(self.entries@.subrange(0, self.entries@.len() as int) =~= self.entries@);
        }
        let changed = out.len() != self.entries.len();
        self.entries = out;
        changed
    }

    /// Every record, in storage order.
    pub fn get_all(&self) -> (r: Vec<TorrentEntry>)
        ensures
            views_of(r@) == self@,
    {
        let mut out: Vec<TorrentEntry> = Vec::new();
        let mut i: usize = 0;
        proof {
            assert(views_of(out@) =~= self@.subrange(0, 0));
        }
        while i < self.entries.len()
            invariant
                i <= self.entries@.len(),
                self@.len() == self.entries@.len(),
                views_of(out@) == self@.subrange(0, i as int),
            decreases self.entries@.len() - i,
        {
            let ghost old_out = views_of(out@);
            let c = self.entries[i].clone();
            out.push(c);
            proof {
                assert(views_of(out@) =~= old_out.push(self@[i as int]));
                assert(views_of(out@) =~= self@.subrange(0, i + 1));
            }
            i = i + 1;
        }
        proof {
            assert(self@.subrange(0, self@.len() as int) =~= self@);
        }
        out
    }

    /// How many records the index holds.
    pub fn count(&self) -> (r: usize)
        ensures
            r == self@.len(),
    {
        self.entries.len()
    }
}

/// Removing one record of a duplicate-free index leaves it duplicate-free.
proof fn lemma_remove_keeps_unique(s: Seq<EntryView>, i: int)
    requires
        hashes_unique(s),
        0 <= i < s.len(),
    ensures
        hashes_unique(s.remove(i)),
{
    let t = s.remove(i);
    assert forall|a: int, b: int|
        0 <= a < b < t.len() implies (#[trigger] t[a].info_hash) != (#[trigger] t[b].info_hash) by {
        let a0 = if a < i {
            a
        } else {
            a + 1
        };
        let b0 = if b < i {
            b
        } else {
            b + 1
        };
        assert(t[a] == s[a0] && t[b] == s[b0]);
    }
}

/// Whether a hash occurs in the engine's list of active hashes.
fn list_contains(active: &[String], h: &str) -> (r: bool)
    ensures
        r == hash_in_list(strs_view(active@), h@),
{
    let ghost hs = strs_view(active@);
    let n = active.len();
    let mut j: usize = 0;
    while j < n
        invariant
            j <= n,
            n == active@.len(),
            hs == strs_view(active@),
            forall|k: int| 0 <= k < j ==> #[trigger] hs[k] != h@,
        decreases n - j,
    {
        let s = &active[j];
        if str_eq(s.as_str(), h) {
            proof {
                assert(hs[j as int] == active@[j as int]@);
            }
            return true;
        }
        proof {
            assert(hs[j as int] == active@[j as int]@);
        }
        j = j + 1;
    }
    proof {
        assert forall|k: int| 0 <= k < hs.len() implies #[trigger] hs[k] != h@ by {}
    }
    false
}

/// Records whose catalog id is set.
pub open spec fn tmdb_pred() -> spec_fn(EntryView) -> bool {
    |e: EntryView| e.tmdb_id is Some
}

/// Records whose deprecated external reference is set.
pub open spec fn imdb_pred() -> spec_fn(EntryView) -> bool {
    |e: EntryView| e.imdb_code is Some
}

/// Records under a given catalog id and media kind.
pub open spec fn tmdb_kind_pred(tmdb_id: u64, media_type: Seq<char>) -> spec_fn(EntryView) -> bool {
    |e: EntryView| e.tmdb_id == Some(tmdb_id) && e.media_type == Some(media_type)
}

/// Records under a given deprecated external reference.
pub open spec fn imdb_code_pred(code: Seq<char>) -> spec_fn(EntryView) -> bool {
    |e: EntryView| e.imdb_code == Some(code)
}

/// The catalog id and media kind of every fully tagged record, in order.
pub open spec fn library_pairs(s: Seq<EntryView>) -> Seq<(u64, Seq<char>)> {
    s.filter(|e: EntryView| e.tmdb_id is Some && e.media_type is Some).map_values(
        |e: EntryView| (e.tmdb_id->Some_0, e.media_type->Some_0),
    )
}

/// The deprecated references of every record that carries one, in order.
pub open spec fn library_codes(s: Seq<EntryView>) -> Seq<Seq<char>> {
    s.filter(imdb_pred()).map_values(|e: EntryView| e.imdb_code->Some_0)
}

impl TorrentDb {
    /// Every record whose catalog id is set, in order.
    pub fn get_all_with_tmdb(&self) -> (r: Vec<TorrentEntry>)
        ensures
            views_of(r@) == self@.filter(tmdb_pred()),
    {
        let ghost pred = tmdb_pred();
        let mut out: Vec<TorrentEntry> = Vec::new();
        let mut i: usize = 0;
        proof {
            reveal(Seq::filter);
            assert(views_of(out@) =~= self@.subrange(0, 0).filter(pred));
        }
        while i < self.entries.len()
            invariant
                i <= self.entries@.len(),
                self@.len() == self.entries@.len(),
                views_of(out@) == self@.subrange(0, i as int).filter(tmdb_pred()),
            decreases self.entries@.len() - i,
        {
            let ghost p = self@.subrange(0, i as int);
            let ghost ev = self@[i as int];
            proof {
                assert(self@.subrange(0, i + 1).drop_last() =~= p);
                assert(self@.subrange(0, i + 1) =~= p.push(ev));
                p.lemma_filter_push(ev, tmdb_pred());
            }
            if self.entries[i].tmdb_id.is_some() {
                let ghost old_out = views_of(out@);
                let c = self.entries[i].clone();
                out.push(c);
                proof {
                    assert(views_of(out@) =~= old_out.push(ev));
                }
            }
            i = i + 1;
        }
        proof {
            assert(self@.subrange(0, self@.len() as int) =~= self@);
        }
        out
    }

    /// Every record whose deprecated reference is set, in order.
    pub fn get_all_with_imdb(&self) -> (r: Vec<TorrentEntry>)
        ensures
            views_of(r@) == self@.filter(imdb_pred()),
    {
        let mut out: Vec<TorrentEntry> = Vec::new();
        let mut i: usize = 0;
        proof {
            reveal(Seq::filter);
            assert(views_of(out@) =~= self@.subrange(0, 0).filter(imdb_pred()));
        }
        while i < self.entries.len()
            invariant
                i <= self.entries@.len(),
                self@.len() == self.entries@.len(),
                views_of(out@) == self@.subrange(0, i as int).filter(imdb_pred()),
            decreases self.entries@.len() - i,
        {
            let ghost p = self@.subrange(0, i as int);
            let ghost ev = self@[i as int];
            proof {
                assert(self@.subrange(0, i + 1).drop_last() =~= p);
                assert(self@.subrange(0, i + 1) =~= p.push(ev));
                p.lemma_filter_push(ev, imdb_pred());
            }
            if self.entries[i].imdb_code.is_some() {
                let ghost old_out = views_of(out@);
                let c = self.entries[i].clone();
                out.push(c);
                proof {
                    assert(views_of(out@) =~= old_out.push(ev));
                }
            }
            i = i + 1;
        }
        proof {
            assert(self@.subrange(0, self@.len() as int) =~= self@);
        }
        out
    }

    /// Every record under this catalog id and media kind, in order.
    pub fn get_by_tmdb_id(&self, tmdb_id: u64, media_type: &str) -> (r: Vec<TorrentEntry>)
        ensures
            views_of(r@) == self@.filter(tmdb_kind_pred(tmdb_id, media_type@)),
    {
        let ghost pred = tmdb_kind_pred(tmdb_id, media_type@);
        let mut out: Vec<TorrentEntry> = Vec::new();
        let mut i: usize = 0;
        proof {
            reveal(Seq::filter);
            assert(views_of(out@) =~= self@.subrange(0, 0).filter(pred));
        }
        while i < self.entries.len()
            invariant
                i <= self.entries@.len(),
                self@.len() == self.entries@.len(),
                views_of(out@) == self@.subrange(0, i as int).filter(
                    tmdb_kind_pred(tmdb_id, media_type@),
                ),
            decreases self.entries@.len() - i,
        {
            let ghost p = self@.subrange(0, i as int);
            let ghost ev = self@[i as int];
            proof {
                assert(self@.subrange(0, i + 1).drop_last() =~= p);
                assert(self@.subrange(0, i + 1) =~= p.push(ev));
                p.lemma_filter_push(ev, tmdb_kind_pred(tmdb_id, media_type@));
            }
            let matches_key = match (&self.entries[i].tmdb_id, &self.entries[i].media_type) {
                (Some(t), Some(m)) => *t == tmdb_id && str_eq(m.as_str(), media_type),
                _ => false,
            };
            proof {
                assert(matches_key == tmdb_kind_pred(tmdb_id, media_type@)(ev));
            }
            if matches_key {
                let ghost old_out = views_of(out@);
                let c = self.entries[i].clone();
                out.push(c);
                proof {
                    assert(views_of(out@) =~= old_out.push(ev));
                }
            }
            i = i + 1;
        }
        proof {
            assert(self@.subrange(0, self@.len() as int) =~= self@);
        }
        out
    }

    /// Every record under this deprecated reference, in order.
    pub fn get_by_imdb_code(&self, imdb_code: &str) -> (r: Vec<TorrentEntry>)
        ensures
            views_of(r@) == self@.filter(imdb_code_pred(imdb_code@)),
    {
        let ghost pred = imdb_code_pred(imdb_code@);
        let mut out: Vec<TorrentEntry> = Vec::new();
        let mut i: usize = 0;
        proof {
            reveal(Seq::filter);
            assert(views_of(out@) =~= self@.subrange(0, 0).filter(pred));
        }
        while i < self.entries.len()
            invariant
                i <= self.entries@.len(),
                self@.len() == self.entries@.len(),
                views_of(out@) == self@.subrange(0, i as int).filter(imdb_code_pred(imdb_code@)),
            decreases self.entries@.len() - i,
        {
            let ghost p = self@.subrange(0, i as int);
            let ghost ev = self@[i as int];
            proof {
                assert(self@.subrange(0, i + 1).drop_last() =~= p);
                assert(self@.subrange(0, i + 1) =~= p.push(ev));
                p.lemma_filter_push(ev, imdb_code_pred(imdb_code@));
            }
            let matches_key = match &self.entries[i].imdb_code {
                Some(c) => str_eq(c.as_str(), imdb_code),
                None => false,
            };
            proof {
                assert(matches_key == imdb_code_pred(imdb_code@)(ev));
            }
            if matches_key {
                let ghost old_out = views_of(out@);
                let c = self.entries[i].clone();
                out.push(c);
                proof {
                    assert(views_of(out@) =~= old_out.push(ev));
                }
            }
            i = i + 1;
        }
        proof {
            assert(self@.subrange(0, self@.len() as int) =~= self@);
        }
        out
    }

    /// The catalog id and media kind of every fully tagged record.
    pub fn get_all_library_tmdb_ids(&self) -> (r: Vec<(u64, String)>)
        ensures
            r@.map_values(|p: (u64, String)| (p.0, p.1@)) == library_pairs(self@),
    {
        let ghost pred = |e: EntryView| e.tmdb_id is Some && e.media_type is Some;
        let ghost f = |e: EntryView| (e.tmdb_id->Some_0, e.media_type->Some_0);
        let mut out: Vec<(u64, String)> = Vec::new();
        let mut i: usize = 0;
        proof {
            reveal(Seq::filter);
            assert(out@.map_values(|p: (u64, String)| (p.0, p.1@)) =~= self@.subrange(
                0,
                0,
            ).filter(pred).map_values(f));
        }
        while i < self.entries.len()
            invariant
                i <= self.entries@.len(),
                self@.len() == self.entries@.len(),
                pred == (|e: EntryView| e.tmdb_id is Some && e.media_type is Some),
                f == (|e: EntryView| (e.tmdb_id->Some_0, e.media_type->Some_0)),
                out@.map_values(|p: (u64, String)| (p.0, p.1@)) == self@.subrange(
                    0,
                    i as int,
                ).filter(pred).map_values(f),
            decreases self.entries@.len() - i,
        {
            let ghost p = self@.subrange(0, i as int);
            let ghost ev = self@[i as int];
            proof {
                assert(self@.subrange(0, i + 1).drop_last() =~= p);
                assert(self@.subrange(0, i + 1) =~= p.push(ev));
                p.lemma_filter_push(ev, pred);
            }
            match (&self.entries[i].tmdb_id, &self.entries[i].media_type) {
                (Some(tm), Some(mk)) => {
                    let ghost old_mapped = out@.map_values(|q: (u64, String)| (q.0, q.1@));
                    let pair = (*tm, mk.clone());
                    out.push(pair);
                    proof {
                        assert(out@.map_values(|q: (u64, String)| (q.0, q.1@)) =~= old_mapped.push(
                            f(ev),
                        ));
                        assert(p.filter(pred).push(ev).map_values(f) =~= p.filter(
                            pred,
                        ).map_values(f).push(f(ev)));
                        assert(self@.subrange(0, i + 1).filter(pred).map_values(f) =~= p.filter(
                            pred,
                        ).map_values(f).push(f(ev)));
                    }
                },
                _ => {
                    proof {
                        assert(!pred(ev));
                    }
                },
            }
            i = i + 1;
        }
        proof {
            assert(self@.subrange(0, self@.len() as int) =~= self@);
        }
        out
    }

    /// The deprecated reference of every record that carries one.
    pub fn get_all_library_imdb_codes(&self) -> (r: Vec<String>)
        ensures
            r@.map_values(|s: String| s@) == library_codes(self@),
    {
        let ghost f = |e: EntryView| e.imdb_code->Some_0;
        let mut out: Vec<String> = Vec::new();
        let mut i: usize = 0;
        proof {
            reveal(Seq::filter);
            assert(out@.map_values(|s: String| s@) =~= self@.subrange(0, 0).filter(
                imdb_pred(),
            ).map_values(f));
        }
        while i < self.entries.len()
            invariant
                i <= self.entries@.len(),
                self@.len() == self.entries@.len(),
                f == (|e: EntryView| e.imdb_code->Some_0),
                out@.map_values(|s: String| s@) == self@.subrange(0, i as int).filter(
                    imdb_pred(),
                ).map_values(f),
            decreases self.entries@.len() - i,
        {
            let ghost p = self@.subrange(0, i as int);
            let ghost ev = self@[i as int];
            proof {
                assert(self@.subrange(0, i + 1).drop_last() =~= p);
                assert(self@.subrange(0, i + 1) =~= p.push(ev));
                p.lemma_filter_push(ev, imdb_pred());
            }
            match &self.entries[i].imdb_code {
                Some(code) => {
                    let ghost old_mapped = out@.map_values(|s: String| s@);
                    let c = code.clone();
                    out.push(c);
                    proof {
                        assert(out@.map_values(|s: String| s@) =~= old_mapped.push(f(ev)));
                        assert(self@.subrange(0, i + 1).filter(imdb_pred()).map_values(f)
                            =~= p.filter(imdb_pred()).map_values(f).push(f(ev)));
                    }
                },
                None => {
                    proof {
                        assert(!imdb_pred()(ev));
                    }
                },
            }
            i = i + 1;
        }
        proof {
            assert(self@.subrange(0, self@.len() as int) =~= self@);
        }
        out
    }
}

/// The metadata attached to one download, as handed to the user interface.
#[derive(Debug)]
pub struct TorrentMetadata {
    pub tmdb_id: Option<u64>,
    pub media_type: Option<String>,
    pub episode_info: Option<(i32, i32)>,
}

/// A record joined with the engine's display name.
#[derive(Debug)]
pub struct TorrentWithMetadata {
    pub torrent_id: i32,
    pub info_hash: String,
    pub tmdb_id: Option<u64>,
    pub media_type: Option<String>,
    pub imdb_code: Option<String>,
    pub name: Option<String>,
}

/// A record joined with the engine's display name, deprecated shape.
#[derive(Debug)]
pub struct TorrentWithImdb {
    pub torrent_id: i32,
    pub info_hash: String,
    pub imdb_code: Option<String>,
    pub name: Option<String>,
}

impl TorrentWithMetadata {
    /// Join one record with the name the engine reports for it.
    pub fn from_entry(entry: &TorrentEntry, name: Option<String>) -> (r: Self)
        ensures
            r.torrent_id == entry@.torrent_id,
            r.info_hash@ == entry@.info_hash,
            r.tmdb_id == entry@.tmdb_id,
            opt_str_view(r.media_type) == entry@.media_type,
            opt_str_view(r.imdb_code) == entry@.imdb_code,
            opt_str_view(r.name) == opt_str_view(name),
    {
        TorrentWithMetadata {
            torrent_id: entry.torrent_id,
            info_hash: entry.info_hash.clone(),
            tmdb_id: entry.tmdb_id,
            media_type: clone_opt_string(&entry.media_type),
            imdb_code: clone_opt_string(&entry.imdb_code),
            name,
        }
    }
}

impl TorrentWithImdb {
    /// Join one record with the name the engine reports for it.
    pub fn from_entry(entry: &TorrentEntry, name: Option<String>) -> (r: Self)
        ensures
            r.torrent_id == entry@.torrent_id,
            r.info_hash@ == entry@.info_hash,
            opt_str_view(r.imdb_code) == entry@.imdb_code,
            opt_str_view(r.name) == opt_str_view(name),
    {
        TorrentWithImdb {
            torrent_id: entry.torrent_id,
            info_hash: entry.info_hash.clone(),
            imdb_code: clone_opt_string(&entry.imdb_code),
            name,
        }
    }
}

impl TorrentDb {
    /// The metadata stored under this hash, if any.
    pub fn get_torrent_metadata(&self, info_hash: &str) -> (r: Option<TorrentMetadata>)
        ensures
            match r {
                Some(m) => get_model(self@, info_hash@) matches Some(e) && m.tmdb_id == e.tmdb_id
                    && opt_str_view(m.media_type) == e.media_type && m.episode_info
                    == e.episode_info,
                None => get_model(self@, info_hash@) is None,
            },
    {
        match self.find_by_hash(info_hash) {
            Some(i) => Some(
                TorrentMetadata {
                    tmdb_id: self.entries[i].tmdb_id,
                    media_type: clone_opt_string(&self.entries[i].media_type),
                    episode_info: self.entries[i].episode_info,
                },
            ),
            None => None,
        }
    }

    /// The catalog id and media kind stored under this hash, when both are
    /// present.
    pub fn get_torrent_tmdb_id(&self, info_hash: &str) -> (r: Option<(u64, String)>)
        ensures
            match r {
                Some(p) => get_model(self@, info_hash@) matches Some(e) && e.tmdb_id == Some(p.0)
                    && e.media_type == Some(p.1@),
                None => (match get_model(self@, info_hash@) {
                    Some(e) => e.tmdb_id is None || e.media_type is None,
                    None => true,
                }),
            },
    {
        match self.find_by_hash(info_hash) {
            Some(i) => match (&self.entries[i].tmdb_id, &self.entries[i].media_type) {
                (Some(t), Some(m)) => Some((*t, m.clone())),
                _ => None,
            },
            None => None,
        }
    }
}


/// An upsert followed by a lookup of the same hash returns exactly the
/// merged record (or the fresh one, when the hash was new), keeps every
/// other hash's record untouched, and preserves the index invariant.
pub proof fn lemma_upsert_then_get(
    s: Seq<EntryView>,
    info_hash: Seq<char>,
    torrent_id: i32,
    tmdb_id: Option<u64>,
    media_type: Option<Seq<char>>,
    episode_info: Option<(i32, i32)>,
    now: i64,
)
    requires
        hashes_unique(s),
    ensures
        ({
            let t = upsert_model(s, info_hash, torrent_id, tmdb_id, media_type, episode_info, now);
            &&& hashes_unique(t)
            &&& get_model(t, info_hash) == Some(
                if has_hash(s, info_hash) {
                    merge_entry(
                        s[index_of_hash(s, info_hash)],
                        torrent_id,
                        tmdb_id,
                        media_type,
                        episode_info,
                        now,
                    )
                } else {
                    fresh_entry(info_hash, torrent_id, tmdb_id, media_type, episode_info, now)
                },
            )
            &&& forall|h: Seq<char>|
                h != info_hash ==> #[trigger] get_model(t, h) == get_model(s, h)
        }),
{
    let t = upsert_model(s, info_hash, torrent_id, tmdb_id, media_type, episode_info, now);
    lemma_find_first_props(s, hash_pred(info_hash));
    if has_hash(s, info_hash) {
        let i = index_of_hash(s, info_hash);
        let merged = merge_entry(s[i], torrent_id, tmdb_id, media_type, episode_info, now);
        assert(t =~= s.update(i, merged));
        assert(merged.info_hash == info_hash);
        assert forall|a: int, b: int|
            0 <= a < b < t.len() implies (#[trigger] t[a].info_hash) != (
        #[trigger] t[b].info_hash) by {
            assert(t[a].info_hash == s[a].info_hash);
            assert(t[b].info_hash == s[b].info_hash);
        }
        assert forall|j: int| 0 <= j < i implies !hash_pred(info_hash)(#[trigger] t[j]) by {
            assert(t[j] == s[j]);
        }
        lemma_find_first_found(t, hash_pred(info_hash), i);
        assert forall|h: Seq<char>| h != info_hash implies #[trigger] get_model(t, h)
            == get_model(s, h) by {
            lemma_find_first_props(s, hash_pred(h));
            lemma_find_first_props(t, hash_pred(h));
            let k = index_of_hash(s, h);
            if k >= 0 {
                assert(k != i);
                assert(t[k] == s[k]);
                assert forall|j: int| 0 <= j < k implies !hash_pred(h)(#[trigger] t[j]) by {
                    assert(t[j].info_hash == s[j].info_hash);
                }
                lemma_find_first_found(t, hash_pred(h), k);
            } else {
                assert forall|j: int| 0 <= j < t.len() implies !hash_pred(h)(#[trigger] t[j]) by {
                    assert(t[j].info_hash == s[j].info_hash);
                }
                lemma_find_first_none(t, hash_pred(h));
            }
        }
    } else {
        let fresh = fresh_entry(info_hash, torrent_id, tmdb_id, media_type, episode_info, now);
        assert(t =~= s.push(fresh));
        lemma_has_hash_push(s, fresh, info_hash);
        assert(t[index_of_hash(t, info_hash)] == fresh);
        assert forall|a: int, b: int|
            0 <= a < b < t.len() implies (#[trigger] t[a].info_hash) != (
        #[trigger] t[b].info_hash) by {
            assert(t[a] == s[a]);
            if b < s.len() {
                assert(t[b] == s[b]);
            } else {
                assert(t[b] == fresh);
                assert(!hash_pred(info_hash)(s[a]));
            }
        }
        assert forall|h: Seq<char>| h != info_hash implies #[trigger] get_model(t, h)
            == get_model(s, h) by {
            lemma_has_hash_push(s, fresh, h);
            lemma_find_first_props(s, hash_pred(h));
            if has_hash(s, h) {
                let k = index_of_hash(s, h);
                assert(t[k] == s[k]);
            }
        }
    }
}

/// Upserting only a fresh engine id onto an existing record resynchronizes
/// the id and the update time and leaves every other field as it was.
pub proof fn lemma_upsert_id_only_preserves_metadata(
    s: Seq<EntryView>,
    info_hash: Seq<char>,
    torrent_id: i32,
    now: i64,
)
    requires
        hashes_unique(s),
        has_hash(s, info_hash),
    ensures
        ({
            let before = get_model(s, info_hash)->Some_0;
            let after = get_model(
                upsert_model(s, info_hash, torrent_id, None, None, None, now),
                info_hash,
            )->Some_0;
            &&& after.torrent_id == torrent_id
            &&& after.updated_at == now
            &&& after.info_hash == before.info_hash
            &&& after.tmdb_id == before.tmdb_id
            &&& after.media_type == before.media_type
            &&& after.episode_info == before.episode_info
            &&& after.created_at == before.created_at
            &&& after.imdb_code == before.imdb_code
        }),
{
    lemma_upsert_then_get(s, info_hash, torrent_id, None, None, None, now);
    lemma_find_first_props(s, hash_pred(info_hash));
}

/// Every element of a filtered sequence comes from the sequence filtered.
proof fn lemma_filter_subset<A>(s: Seq<A>, pred: spec_fn(A) -> bool)
    ensures
        forall|k: int|
            0 <= k < s.filter(pred).len() ==> s.contains(#[trigger] s.filter(pred)[k]),
    decreases s.len(),
{
    if s.len() > 0 {
        let t = s.drop_last();
        lemma_filter_subset(t, pred);
        t.lemma_filter_push(s.last(), pred);
        assert(t.push(s.last()) =~= s);
        assert forall|k: int|
            0 <= k < s.filter(pred).len() implies s.contains(#[trigger] s.filter(pred)[k]) by {
            if k < t.filter(pred).len() {
                assert(s.filter(pred)[k] == t.filter(pred)[k]);
                assert(t.contains(t.filter(pred)[k]));
                let j = choose|j: int| 0 <= j < t.len() && t[j] == t.filter(pred)[k];
                assert(s[j] == t[j]);
            } else {
                assert(s.filter(pred)[k] == s.last());
                assert(s[s.len() - 1] == s.last());
            }
        }
    }
}

/// Synchronizing against the engine's active hashes removes exactly the
/// records whose hash the engine no longer tracks: every record with an
/// active hash survives, and everything that survives has an active hash and
/// was there before.
pub proof fn lemma_sync_removes_exactly(s: Seq<EntryView>, active: Seq<Seq<char>>)
    ensures
        ({
            let t = s.filter(keep_pred(active));
            &&& forall|i: int|
                0 <= i < s.len() && hash_in_list(active, (#[trigger] s[i]).info_hash)
                    ==> t.contains(s[i])
            &&& forall|k: int|
                0 <= k < t.len() ==> hash_in_list(active, (#[trigger] t[k]).info_hash)
                    && s.contains(t[k])
        }),
{
    let pred = keep_pred(active);
    let t = s.filter(pred);
    lemma_filter_subset(s, pred);
    assert forall|i: int|
        0 <= i < s.len() && hash_in_list(active, (#[trigger] s[i]).info_hash) implies t.contains(
        s[i],
    ) by {
        assert(pred(s[i]));
        s.lemma_filter_contains(pred, i);
    }
    assert forall|k: int|
        0 <= k < t.len() implies hash_in_list(active, (#[trigger] t[k]).info_hash) && s.contains(
        t[k],
    ) by {
        s.lemma_filter_pred(pred, k);
    }
}


/// Relies on chrono::Utc::now for the wall clock: seconds since the Unix
/// epoch. Nothing is assumed of the value.
#[verifier::external_body]
fn now_timestamp() -> i64 {
    chrono::Utc::now().timestamp()
}

/// Whether some record in the vector carries this hash.
fn contains_hash(v: &Vec<TorrentEntry>, h: &str) -> (r: bool)
    ensures
        r == has_hash(views_of(v@), h@),
{
    let ghost s = views_of(v@);
    let mut j: usize = 0;
    while j < v.len()
        invariant
            j <= v@.len(),
            s == views_of(v@),
            s.len() == v@.len(),
            forall|k: int| 0 <= k < j ==> !hash_pred(h@)(#[trigger] s[k]),
        decreases v@.len() - j,
    {
        if str_eq(v[j].info_hash.as_str(), h) {
            proof {
                assert(s[j as int] == v@[j as int]@);
                lemma_find_first_found(s, hash_pred(h@), j as int);
            }
            return true;
        }
        proof {
            assert(s[j as int] == v@[j as int]@);
        }
        j = j + 1;
    }
    proof {
        lemma_find_first_none(s, hash_pred(h@));
    }
    false
}

} // verus!
