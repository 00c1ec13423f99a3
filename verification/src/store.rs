//! The version store: one record per note, each holding an ordered list of
//! version records, plus the operations that create notes, promote changed
//! working copies to new versions, roll back, and delete.
//!
//! The store works on plain values: content bytes and timestamps come in as
//! parameters, and the record of every decision goes out through exact
//! postconditions. The surrounding binary reads and writes the files the
//! records point at.

use vstd::prelude::*;

use vstd::set_lib::{lemma_int_range, lemma_len_subset, set_int_range};

use crate::clock::{default_title_of, timestamp_title, MAX_TIMESTAMP};
use crate::errors::NoteError;
use crate::hash::{hash_bytes, sha256_hex};
use crate::numfmt::{format_u64, lemma_spec_dec_ascii, lemma_spec_dec_injective, spec_dec};
use crate::paths::{paths_wf, spec_join, spec_version_rel_path, version_rel_path, DataPaths};
use crate::slug::{slugify, spec_slugify};
use crate::text::{lower_of, str_eq, to_lowercase};

verus! {

/// One recorded snapshot, immutable once created.
#[derive(Clone)]
pub struct VersionMeta {
    pub version: u32,
    pub path: String,
    pub hash: String,
    pub created_at: i64,
}

/// One note: its identity, its ordered version history, and the advisory
/// hash of the working copy as of the last observation.
pub struct NoteMeta {
    pub title: String,
    pub slug: String,
    pub created_at: i64,
    pub updated_at: i64,
    pub current_version: u32,
    pub versions: Vec<VersionMeta>,
    pub working_hash: Option<String>,
}

/// The metadata for all notes.
pub struct Index {
    pub notes: Vec<NoteMeta>,
}

/// The store: the file layout and the in-memory index, owned together for
/// one load, mutate, save cycle.
pub struct NotesApp {
    pub paths: DataPaths,
    pub index: Index,
}

impl View for Index {
    type V = Seq<NoteMeta>;

    open spec fn view(&self) -> Seq<NoteMeta> {
        self.notes@
    }
}

/// A single note's invariants: at least one version, version numbers
/// `1..=len` in order with no gaps, and a current version that equals the
/// highest recorded one, so it always references an existing entry.
pub open spec fn note_wf(n: NoteMeta) -> bool {
    &&& 1 <= n.versions@.len() < u32::MAX as int
    &&& forall|i: int| 0 <= i < n.versions@.len() ==> (#[trigger] n.versions@[i]).version == i + 1
    &&& n.current_version == n.versions@.len()
}

/// The whole index's invariants: well-formed notes with pairwise distinct
/// slugs.
pub open spec fn index_wf(notes: Seq<NoteMeta>) -> bool {
    &&& forall|i: int| 0 <= i < notes.len() ==> note_wf(#[trigger] notes[i])
    &&& forall|i: int, j: int|
        0 <= i < j < notes.len() ==> (#[trigger] notes[i].slug@) != (#[trigger] notes[j].slug@)
}

/// Some note carries this slug.
pub open spec fn has_slug(notes: Seq<NoteMeta>, s: Seq<char>) -> bool {
    exists|i: int| 0 <= i < notes.len() && (#[trigger] notes[i].slug@) == s
}

/// The index of the note carrying this slug (meaningful when `has_slug`).
pub open spec fn slug_idx(notes: Seq<NoteMeta>, s: Seq<char>) -> int {
    choose|i: int| 0 <= i < notes.len() && (#[trigger] notes[i].slug@) == s
}

/// Under `index_wf`, a slug determines its note's position.
pub proof fn lemma_slug_idx_unique(notes: Seq<NoteMeta>, s: Seq<char>, i: int)
    requires
        index_wf(notes),
        0 <= i < notes.len(),
        notes[i].slug@ == s,
    ensures
        has_slug(notes, s),
        slug_idx(notes, s) == i,
{
    assert(has_slug(notes, s));
    let j = slug_idx(notes, s);
    if j != i {
        if j < i {
            assert(notes[j].slug@ != notes[i].slug@);
        } else {
            assert(notes[i].slug@ != notes[j].slug@);
        }
    }
}

/// The last recorded version already has this content's hash.
pub open spec fn up_to_date(n: NoteMeta, content: Seq<u8>) -> bool {
    n.versions@.last().hash@ == sha256_hex(content)
}

/// The fields a freshly recorded version carries.
pub open spec fn version_fields(
    v: VersionMeta,
    num: int,
    slug: Seq<char>,
    content: Seq<u8>,
    now: int,
) -> bool {
    &&& v.version == num
    &&& v.path@ == spec_version_rel_path(slug, num)
    &&& v.hash@ == sha256_hex(content)
    &&& v.created_at == now
}

/// An unchanged snapshot pass: everything stays, only the advisory working
/// hash is refreshed to the observed content's hash.
pub open spec fn note_refreshed(o: NoteMeta, n: NoteMeta, content: Seq<u8>) -> bool {
    &&& n.title == o.title
    &&& n.slug == o.slug
    &&& n.created_at == o.created_at
    &&& n.updated_at == o.updated_at
    &&& n.current_version == o.current_version
    &&& n.versions == o.versions
    &&& n.working_hash matches Some(h) && h@ == sha256_hex(content)
}

/// A promoting pass: one version is appended, never rewritten, and the
/// current version advances to it.
pub open spec fn note_appended(o: NoteMeta, n: NoteMeta, content: Seq<u8>, now: int) -> bool {
    &&& n.title == o.title
    &&& n.slug == o.slug
    &&& n.created_at == o.created_at
    &&& n.versions@.len() == o.versions@.len() + 1
    &&& n.versions@.take(o.versions@.len() as int) == o.versions@
    &&& version_fields(
        n.versions@.last(),
        o.current_version + 1,
        o.slug@,
        content,
        now,
    )
    &&& n.current_version == o.current_version + 1
    &&& n.updated_at == now
    &&& n.working_hash matches Some(h) && h@ == sha256_hex(content)
}

/// What one snapshot pass over a note does, for either outcome.
pub open spec fn snapshot_post(
    o: NoteMeta,
    n: NoteMeta,
    content: Seq<u8>,
    now: int,
    changed: bool,
) -> bool {
    if up_to_date(o, content) {
        !changed && note_refreshed(o, n, content)
    } else {
        changed && note_appended(o, n, content, now)
    }
}

/// The `k`-th slug candidate for a base slug: the base itself first, then
/// the base with an increasing numeric suffix.
pub open spec fn slug_candidate(base: Seq<char>, k: int) -> Seq<char> {
    if k == 1 {
        base
    } else {
        base + "-"@ + spec_dec(k)
    }
}

/// `s` is the first slug candidate for `base` that no note carries yet.
pub open spec fn chosen_slug(notes: Seq<NoteMeta>, base: Seq<char>, s: Seq<char>) -> bool {
    exists|k: int|
        {
            &&& 1 <= k
            &&& s == #[trigger] slug_candidate(base, k)
            &&& !has_slug(notes, slug_candidate(base, k))
            &&& forall|k2: int|
                1 <= k2 < k ==> has_slug(notes, #[trigger] slug_candidate(base, k2))
        }
}

/// Distinct counters give distinct slug candidates.
proof fn lemma_candidate_injective(base: Seq<char>, k1: int, k2: int)
    requires
        1 <= k1 < k2,
    ensures
        slug_candidate(base, k1) != slug_candidate(base, k2),
{
    reveal_strlit("-");
    lemma_spec_dec_ascii(k2);
    if k1 == 1 {
        assert(slug_candidate(base, k2).len() > base.len());
    } else {
        lemma_spec_dec_ascii(k1);
        if slug_candidate(base, k1) == slug_candidate(base, k2) {
            let c1 = slug_candidate(base, k1);
            let c2 = slug_candidate(base, k2);
            let p = base.len() + 1;
            assert(spec_dec(k1).len() == c1.len() - p);
            assert(spec_dec(k2).len() == c2.len() - p);
            assert forall|i: int| 0 <= i < spec_dec(k1).len() implies spec_dec(k1)[i] == spec_dec(
                k2,
            )[i] by {
                assert(c1[p + i] == spec_dec(k1)[i]);
                assert(c2[p + i] == spec_dec(k2)[i]);
            }
            assert(spec_dec(k1) =~= spec_dec(k2));
            lemma_spec_dec_injective(k1, k2);
            assert(false);
        }
    }
}

/// An identifier matches a note by case-insensitive title equality.
pub open spec fn title_match(n: NoteMeta, idl: Seq<char>) -> bool {
    lower_of(n.title@) == idl
}

/// An identifier matches a note by case-insensitive slug equality.
pub open spec fn ci_slug_match(n: NoteMeta, idl: Seq<char>) -> bool {
    n.slug@ == idl
}

/// The first position at or after `i` whose note's lower-cased title
/// equals the lowered identifier, if any.
pub open spec fn first_title_match_from(notes: Seq<NoteMeta>, idl: Seq<char>, i: int) -> Option<
    int,
>
    decreases notes.len() - i,
{
    if i < 0 || i >= notes.len() {
        None
    } else if title_match(notes[i], idl) {
        Some(i)
    } else {
        first_title_match_from(notes, idl, i + 1)
    }
}

/// The first position at or after `i` whose note's slug equals the
/// lowered identifier, if any.
pub open spec fn first_ci_slug_match_from(notes: Seq<NoteMeta>, idl: Seq<char>, i: int) -> Option<
    int,
>
    decreases notes.len() - i,
{
    if i < 0 || i >= notes.len() {
        None
    } else if ci_slug_match(notes[i], idl) {
        Some(i)
    } else {
        first_ci_slug_match_from(notes, idl, i + 1)
    }
}

/// How an identifier resolves to a slug: an exact slug match wins, then
/// case-insensitive title equality, then case-insensitive slug equality,
/// each taking the first note in index order.
pub open spec fn spec_resolve(notes: Seq<NoteMeta>, id: Seq<char>) -> Option<Seq<char>> {
    if has_slug(notes, id) {
        Some(id)
    } else {
        match first_title_match_from(notes, lower_of(id), 0) {
            Some(i) => Some(notes[i].slug@),
            None => match first_ci_slug_match_from(notes, lower_of(id), 0) {
                Some(i) => Some(notes[i].slug@),
                None => None,
            },
        }
    }
}

/// The match deletion requires: the note's lower-cased slug equals the
/// identifier as given.
pub open spec fn delete_match(n: NoteMeta, id: Seq<char>) -> bool {
    lower_of(n.slug@) == id
}

/// How many notes the deletion identifier matches, from position `i` on.
pub open spec fn count_delete_matches(notes: Seq<NoteMeta>, id: Seq<char>, i: int) -> int
    decreases notes.len() - i,
{
    if i < 0 || i >= notes.len() {
        0
    } else {
        (if delete_match(notes[i], id) {
            1int
        } else {
            0int
        }) + count_delete_matches(notes, id, i + 1)
    }
}

/// The first position at or after `i` the deletion identifier matches.
pub open spec fn first_delete_match_from(notes: Seq<NoteMeta>, id: Seq<char>, i: int) -> Option<
    int,
>
    decreases notes.len() - i,
{
    if i < 0 || i >= notes.len() {
        None
    } else if delete_match(notes[i], id) {
        Some(i)
    } else {
        first_delete_match_from(notes, id, i + 1)
    }
}

/// The record a freshly created note carries: exactly one version, number
/// 1, with the hash and blob of empty content, and the working hash set to
/// the hash of empty bytes.
pub open spec fn fresh_note(n: NoteMeta, t: Seq<char>, s: Seq<char>, now: int) -> bool {
    &&& n.title@ == t
    &&& n.slug@ == s
    &&& n.created_at == now
    &&& n.updated_at == now
    &&& n.current_version == 1
    &&& n.versions@.len() == 1
    &&& version_fields(n.versions@[0], 1, s, Seq::<u8>::empty(), now)
    &&& n.working_hash matches Some(h) && h@ == sha256_hex(Seq::<u8>::empty())
}

impl Index {
    /// The store a fresh data root starts from.
    pub fn empty() -> (r: Index)
        ensures
            r@ =~= Seq::<NoteMeta>::empty(),
    {
        Index { notes: Vec::new() }
    }

    /// Decides whether loaded metadata satisfies the store's invariants;
    /// the shell must not hand the operations an index that fails this.
    #[verifier::loop_isolation(false)]
    pub fn check_wf(&self) -> (r: bool)
        ensures
            r == index_wf(self@),
    {
        let n = self.notes.len();
        let mut i: usize = 0;
        while i < n
            invariant
                0 <= i <= n,
                forall|k: int| 0 <= k < i ==> note_wf(#[trigger] self.notes@[k]),
                forall|p: int, q: int|
                    0 <= p < q < i ==> (#[trigger] self.notes@[p].slug@) != (
                    #[trigger] self.notes@[q].slug@),
            decreases n - i,
        {
            let note = &self.notes[i];
            let vn = note.versions.len();
            if vn < 1 || vn >= u32::MAX as usize {
                return false;
            }
            if note.current_version as usize != vn {
                return false;
            }
            let mut v: usize = 0;
            while v < vn
                invariant
                    0 <= v <= vn,
                    forall|k: int|
                        0 <= k < v ==> (#[trigger] note.versions@[k]).version == k + 1,
                decreases vn - v,
            {
                if note.versions[v].version as usize != v + 1 {
                    return false;
                }
                v = v + 1;
            }
            let mut j: usize = 0;
            while j < i
                invariant
                    0 <= j <= i,
                    forall|k: int| 0 <= k < j ==> self.notes@[k].slug@ != self.notes@[i as int].slug@,
                decreases i - j,
            {
                if str_eq(self.notes[j].slug.as_str(), note.slug.as_str()) {
                    return false;
                }
                j = j + 1;
            }
            i = i + 1;
        }
        true
    }
}

impl NotesApp {
    /// The notes as the contracts speak of them.
    pub open spec fn notes(&self) -> Seq<NoteMeta> {
        self.index@
    }

    /// The store's invariants.
    pub open spec fn wf(&self) -> bool {
        paths_wf(self.paths) && index_wf(self.notes())
    }

    /// Assembles a store from a file layout and a loaded index.
    pub fn from_parts(paths: DataPaths, index: Index) -> (r: NotesApp)
        ensures
            r.paths == paths,
            r.index == index,
    {
        NotesApp { paths, index }
    }

    /// The file layout this store works against.
    pub fn paths(&self) -> (r: &DataPaths)
        ensures
            r == self.paths,
    {
        &self.paths
    }

    /// Finds the position of the note with exactly this slug.
    #[verifier::loop_isolation(false)]
    pub fn find_note(&self, slug: &str) -> (r: Option<usize>)
        requires
            self.wf(),
        ensures
            match r {
                Some(i) => i < self.notes().len() && self.notes()[i as int].slug@ == slug@ && i
                    == slug_idx(self.notes(), slug@),
                None => !has_slug(self.notes(), slug@),
            },
    {
        let n = self.index.notes.len();
        let mut i: usize = 0;
        while i < n
            invariant
                0 <= i <= n,
                forall|k: int| 0 <= k < i ==> self.notes()[k].slug@ != slug@,
            decreases n - i,
        {
            if str_eq(self.index.notes[i].slug.as_str(), slug) {
                proof {
                    lemma_slug_idx_unique(self.notes(), slug@, i as int);
                }
                return Some(i);
            }
            i = i + 1;
        }
        None
    }

    /// One snapshot pass over the note at position `i`.
    fn snapshot_note_at(&mut self, i: usize, content: &[u8], now: i64) -> (changed: bool)
        requires
            old(self).wf(),
            i < old(self).notes().len(),
            old(self).notes()[i as int].versions@.len() + 1 < u32::MAX as int,
        ensures
            final(self).wf(),
            final(self).paths == old(self).paths,
            final(self).notes().len() == old(self).notes().len(),
            forall|j: int|
                0 <= j < final(self).notes().len() && j != i ==> final(self).notes()[j] == old(
                    self,
                ).notes()[j],
            snapshot_post(
                old(self).notes()[i as int],
                final(self).notes()[i as int],
                content@,
                now as int,
                changed,
            ),
    {
        let ghost prev = self.notes();
        let h = hash_bytes(content);
        let mut note = self.index.notes.remove(i);
        let ghost o = prev[i as int];
        proof {
            assert(note_wf(o));
        }
        let vn = note.versions.len();
        let changed: bool;
        if str_eq(note.versions[vn - 1].hash.as_str(), h.as_str()) {
            note.working_hash = Some(h);
            changed = false;
        } else {
            let newv = note.current_version + 1;
            let rel = version_rel_path(note.slug.as_str(), newv);
            let vm = VersionMeta { version: newv, path: rel, hash: h.clone(), created_at: now };
            note.versions.push(vm);
            note.current_version = newv;
            note.updated_at = now;
            note.working_hash = Some(h);
            changed = true;
            proof {
                assert(note.versions@.take(o.versions@.len() as int) =~= o.versions@);
                assert(note_wf(note));
            }
        }
        proof {
            assert(note_wf(note));
        }
        self.index.notes.insert(i, note);
        proof {
            assert(self.notes() =~= prev.update(i as int, self.notes()[i as int]));
            assert forall|p: int, q: int|
                0 <= p < q < self.notes().len() implies (#[trigger] self.notes()[p].slug@) != (
            #[trigger] self.notes()[q].slug@) by {
                assert(self.notes()[p].slug@ == prev[p].slug@);
                assert(self.notes()[q].slug@ == prev[q].slug@);
            }
        }
        changed
    }

    /// Creates a note: derives a unique slug, records version 1 with empty
    /// content, and returns the working-copy path. The shell then writes
    /// the empty blob and working file at the recorded locations.
    #[verifier::loop_isolation(false)]
    pub fn create_note(&mut self, title: Option<String>, now: i64) -> (r: String)
        requires
            old(self).wf(),
            old(self).notes().len() < usize::MAX as int,
            title is None ==> 0 <= now < MAX_TIMESTAMP,
        ensures
            final(self).wf(),
            final(self).paths == old(self).paths,
            final(self).notes().len() == old(self).notes().len() + 1,
            final(self).notes().take(old(self).notes().len() as int) == old(self).notes(),
            ({
                let nn = final(self).notes().last();
                let t = match title {
                    Some(t) => t@,
                    None => default_title_of(now as int),
                };
                &&& fresh_note(nn, t, nn.slug@, now as int)
                &&& chosen_slug(old(self).notes(), spec_slugify(t), nn.slug@)
                &&& r@ == old(self).paths.files@ + "/"@ + nn.slug@ + ".md"@
            }),
    {
        let base_title = match title {
            Some(t) => t,
            None => timestamp_title(now),
        };
        let ghost tview = base_title@;
        let base = slugify(base_title.as_str());
        let ghost notes = self.notes();
        let n = self.index.notes.len();
        let mut counter: u64 = 1;
        let mut slug: String = base.clone();
        let ghost mut used: Set<int> = Set::empty();
        proof {
            assert(slug@ == slug_candidate(base@, 1));
        }
        let mut found = self.find_note(slug.as_str());
        while found.is_some()
            invariant
                1 <= counter <= n + 1,
                slug@ == slug_candidate(base@, counter as int),
                forall|k: int| 1 <= k < counter ==> has_slug(notes, slug_candidate(base@, k)),
                used.finite(),
                used.len() == counter - 1,
                used.subset_of(set_int_range(0, n as int)),
                forall|j: int|
                    used.contains(j) ==> exists|k: int|
                        1 <= k < counter && notes[j].slug@ == #[trigger] slug_candidate(base@, k),
                match found {
                    Some(i) => i < n && notes[i as int].slug@ == slug@,
                    None => !has_slug(notes, slug@),
                },
            decreases n + 1 - counter,
        {
            let i = found.unwrap();
            proof {
                if used.contains(i as int) {
                    let k = choose|k: int|
                        1 <= k < counter && notes[i as int].slug@ == #[trigger] slug_candidate(
                            base@,
                            k,
                        );
                    lemma_candidate_injective(base@, k, counter as int);
                    assert(false);
                }
                assert(has_slug(notes, slug@));
                used = used.insert(i as int);
                lemma_int_range(0, n as int);
                lemma_len_subset(used, set_int_range(0, n as int));
                assert(used.len() == counter);
                assert(counter <= n);
            }
            counter = counter + 1;
            let mut s = base.clone();
            s.append("-");
            let d = format_u64(counter);
            s.append(d.as_str());
            slug = s;
            proof {
                reveal_strlit("-");
                assert(slug@ == slug_candidate(base@, counter as int));
            }
            found = self.find_note(slug.as_str());
        }
        proof {
            assert(!has_slug(notes, slug@));
            assert(chosen_slug(notes, base@, slug@));
        }
        let empty: Vec<u8> = Vec::new();
        let h = hash_bytes(empty.as_slice());
        proof {
            assert(empty@ =~= Seq::<u8>::empty());
        }
        let rel = version_rel_path(slug.as_str(), 1);
        let vm = VersionMeta { version: 1, path: rel, hash: h.clone(), created_at: now };
        let mut versions: Vec<VersionMeta> = Vec::new();
        versions.push(vm);
        let note = NoteMeta {
            title: base_title,
            slug: slug.clone(),
            created_at: now,
            updated_at: now,
            current_version: 1,
            versions,
            working_hash: Some(h),
        };
        let wp = self.paths.working_file(slug.as_str());
        proof {
            assert(note_wf(note));
        }
        self.index.notes.push(note);
        proof {
            assert(self.notes().take(notes.len() as int) =~= notes);
            assert forall|p: int, q: int|
                0 <= p < q < self.notes().len() implies (#[trigger] self.notes()[p].slug@) != (
            #[trigger] self.notes()[q].slug@) by {
                if q == notes.len() {
                    assert(self.notes()[p] == notes[p]);
                    if self.notes()[p].slug@ == slug@ {
                        assert(has_slug(notes, slug@));
                    }
                } else {
                    assert(self.notes()[p] == notes[p]);
                    assert(self.notes()[q] == notes[q]);
                }
            }
        }
        wp
    }

    /// Observes a working copy's bytes for the note with this slug and
    /// promotes them to a new version exactly when they differ from the
    /// last recorded version; reports whether a version was appended.
    pub fn snapshot_if_changed(&mut self, slug: &str, content: &[u8], now: i64) -> (r: Result<
        bool,
        NoteError,
    >)
        requires
            old(self).wf(),
            has_slug(old(self).notes(), slug@) ==> old(self).notes()[slug_idx(
                old(self).notes(),
                slug@,
            )].versions@.len() + 1 < u32::MAX as int,
        ensures
            final(self).wf(),
            final(self).paths == old(self).paths,
            match r {
                Ok(changed) => {
                    let i = slug_idx(old(self).notes(), slug@);
                    &&& has_slug(old(self).notes(), slug@)
                    &&& final(self).notes().len() == old(self).notes().len()
                    &&& snapshot_post(
                        old(self).notes()[i],
                        final(self).notes()[i],
                        content@,
                        now as int,
                        changed,
                    )
                    &&& forall|j: int|
                        0 <= j < final(self).notes().len() && j != i ==> final(self).notes()[j]
                            == old(self).notes()[j]
                },
                Err(e) => !has_slug(old(self).notes(), slug@) && e is NotFound && *final(self)
                    == *old(self),
            },
    {
        match self.find_note(slug) {
            Some(i) => {
                let changed = self.snapshot_note_at(i, content, now);
                Ok(changed)
            },
            None => Err(NoteError::NotFound),
        }
    }

    /// One synchronization pass: observes every note's working-copy bytes,
    /// in index order, promotes each one that diverged from its last
    /// version, and reports the slugs that were promoted.
    #[verifier::loop_isolation(false)]
    pub fn snapshot_all_changes(&mut self, contents: &Vec<Vec<u8>>, now: i64) -> (r: Vec<String>)
        requires
            old(self).wf(),
            contents@.len() == old(self).notes().len(),
            forall|i: int|
                0 <= i < old(self).notes().len() ==> (#[trigger] old(
                    self,
                ).notes()[i]).versions@.len() + 1 < u32::MAX as int,
        ensures
            final(self).wf(),
            final(self).paths == old(self).paths,
            final(self).notes().len() == old(self).notes().len(),
            forall|i: int|
                0 <= i < old(self).notes().len() ==> snapshot_post(
                    old(self).notes()[i],
                    #[trigger] final(self).notes()[i],
                    contents@[i]@,
                    now as int,
                    !up_to_date(old(self).notes()[i], contents@[i]@),
                ),
            r@.map_values(|s: String| s@) == changed_slugs_upto(
                old(self).notes(),
                contents@.map_values(|v: Vec<u8>| v@),
                old(self).notes().len() as int,
            ),
    {
        let ghost orig = old(self).notes();
        let ghost cs = contents@.map_values(|v: Vec<u8>| v@);
        let n = self.index.notes.len();
        let mut updated: Vec<String> = Vec::new();
        let mut i: usize = 0;
        proof {
            assert(updated@.map_values(|s: String| s@) =~= changed_slugs_upto(orig, cs, 0));
        }
        while i < n
            invariant
                0 <= i <= n,
                self.wf(),
                self.paths == old(self).paths,
                self.notes().len() == n,
                forall|j: int| i <= j < n ==> self.notes()[j] == orig[j],
                forall|j: int|
                    0 <= j < i ==> snapshot_post(
                        orig[j],
                        #[trigger] self.notes()[j],
                        cs[j],
                        now as int,
                        !up_to_date(orig[j], cs[j]),
                    ),
                updated@.map_values(|s: String| s@) == changed_slugs_upto(orig, cs, i as int),
            decreases n - i,
        {
            let ghost pre = self.notes();
            let changed = self.snapshot_note_at(i, contents[i].as_slice(), now);
            if changed {
                let slug = self.index.notes[i].slug.clone();
                proof {
                    assert(self.notes()[i as int].slug@ == orig[i as int].slug@);
                }
                updated.push(slug);
            }
            proof {
                assert(cs[i as int] == contents@[i as int]@);
                assert(updated@.map_values(|s: String| s@) =~= changed_slugs_upto(
                    orig,
                    cs,
                    i + 1,
                ));
            }
            i = i + 1;
        }
        updated
    }

    /// Resolves an identifier to a slug: exact slug first, then the first
    /// note whose title equals it case-insensitively, then the first whose
    /// slug equals it case-insensitively.
    #[verifier::loop_isolation(false)]
    pub fn resolve_slug(&self, identifier: &str) -> (r: Option<String>)
        requires
            self.wf(),
        ensures
            match r {
                Some(s) => spec_resolve(self.notes(), identifier@) == Some(s@),
                None => spec_resolve(self.notes(), identifier@) is None,
            },
    {
        if self.find_note(identifier).is_some() {
            return Some(identifier.to_owned());
        }
        let idl = to_lowercase(identifier);
        let n = self.index.notes.len();
        let mut i: usize = 0;
        while i < n
            invariant
                0 <= i <= n,
                first_title_match_from(self.notes(), idl@, 0) == first_title_match_from(
                    self.notes(),
                    idl@,
                    i as int,
                ),
            decreases n - i,
        {
            let tl = to_lowercase(self.index.notes[i].title.as_str());
            if str_eq(tl.as_str(), idl.as_str()) {
                return Some(self.index.notes[i].slug.clone());
            }
            i = i + 1;
        }
        let mut j: usize = 0;
        while j < n
            invariant
                0 <= j <= n,
                (first_title_match_from(self.notes(), idl@, 0) is None),
                first_ci_slug_match_from(self.notes(), idl@, 0) == first_ci_slug_match_from(
                    self.notes(),
                    idl@,
                    j as int,
                ),
            decreases n - j,
        {
            if str_eq(self.index.notes[j].slug.as_str(), idl.as_str()) {
                return Some(self.index.notes[j].slug.clone());
            }
            j = j + 1;
        }
        None
    }

    /// Resolves the identifier deletion takes: it must equal exactly one
    /// note's lower-cased slug; none is `NotFound`, several are `Ambiguous`.
    #[verifier::loop_isolation(false)]
    pub fn resolve_unique_title_slug(&self, title: &str) -> (r: Result<String, NoteError>)
        requires
            self.wf(),
        ensures
            match r {
                Ok(s) => {
                    &&& count_delete_matches(self.notes(), title@, 0) == 1
                    &&& first_delete_match_from(self.notes(), title@, 0) matches Some(i) && s
                        == self.notes()[i].slug
                },
                Err(e) => match e {
                    NoteError::NotFound => count_delete_matches(self.notes(), title@, 0) == 0,
                    NoteError::Ambiguous => count_delete_matches(self.notes(), title@, 0) >= 2,
                    _ => false,
                },
            },
    {
        let n = self.index.notes.len();
        let mut i: usize = 0;
        let mut count: usize = 0;
        let mut first: Option<usize> = None;
        while i < n
            invariant
                0 <= i <= n,
                count <= i,
                count_delete_matches(self.notes(), title@, 0) == count + count_delete_matches(
                    self.notes(),
                    title@,
                    i as int,
                ),
                match first {
                    Some(f) => f < i && count >= 1 && first_delete_match_from(
                        self.notes(),
                        title@,
                        0,
                    ) == Some(f as int),
                    None => count == 0 && first_delete_match_from(self.notes(), title@, 0)
                        == first_delete_match_from(self.notes(), title@, i as int),
                },
            decreases n - i,
        {
            let sl = to_lowercase(self.index.notes[i].slug.as_str());
            if str_eq(sl.as_str(), title) {
                count = count + 1;
                if first.is_none() {
                    first = Some(i);
                }
            }
            i = i + 1;
        }
        if count == 0 {
            return Err(NoteError::NotFound);
        }
        if count > 1 {
            return Err(NoteError::Ambiguous);
        }
        let f = first.unwrap();
        Ok(self.index.notes[f].slug.clone())
    }

    /// Deletes the note the identifier uniquely names and reports its slug;
    /// an ambiguous identifier fails and deletes nothing. The shell then
    /// removes the working file and the version blobs.
    pub fn delete_note_by_title(&mut self, title: &str) -> (r: Result<String, NoteError>)
        requires
            old(self).wf(),
        ensures
            final(self).wf(),
            final(self).paths == old(self).paths,
            match r {
                Ok(s) => {
                    &&& count_delete_matches(old(self).notes(), title@, 0) == 1
                    &&& first_delete_match_from(old(self).notes(), title@, 0) matches Some(i)
                        && s == old(self).notes()[i].slug && final(self).notes() == old(
                        self,
                    ).notes().remove(i)
                },
                Err(e) => {
                    &&& *final(self) == *old(self)
                    &&& match e {
                        NoteError::NotFound => count_delete_matches(old(self).notes(), title@, 0)
                            == 0,
                        NoteError::Ambiguous => count_delete_matches(old(self).notes(), title@, 0)
                            >= 2,
                        _ => false,
                    }
                },
            },
    {
        let slug = match self.resolve_unique_title_slug(title) {
            Ok(s) => s,
            Err(e) => {
                return Err(e);
            },
        };
        let ghost prev = self.notes();
        let i = match self.find_note(slug.as_str()) {
            Some(i) => i,
            None => {
                proof {
                    lemma_first_delete_match_in_range(prev, title@, 0);
                    let f = first_delete_match_from(prev, title@, 0).unwrap();
                    assert(prev[f].slug@ == slug@);
                    assert(has_slug(prev, slug@));
                }
                return Err(NoteError::NotFound);
            },
        };
        let note = self.index.notes.remove(i);
        proof {
            lemma_first_delete_match_in_range(prev, title@, 0);
            let f = first_delete_match_from(prev, title@, 0).unwrap();
            assert(prev[f].slug@ == slug@);
            lemma_slug_idx_unique(prev, slug@, f);
            assert(i as int == f);
            let cur = self.notes();
            assert forall|p: int, q: int|
                0 <= p < q < cur.len() implies (#[trigger] cur[p].slug@) != (
            #[trigger] cur[q].slug@) by {
                let p0 = if p < i as int {
                    p
                } else {
                    p + 1
                };
                let q0 = if q < i as int {
                    q
                } else {
                    q + 1
                };
                assert(cur[p] == prev[p0]);
                assert(cur[q] == prev[q0]);
            }
            assert forall|p: int| 0 <= p < cur.len() implies note_wf(#[trigger] cur[p]) by {
                let p0 = if p < i as int {
                    p
                } else {
                    p + 1
                };
                assert(cur[p] == prev[p0]);
            }
        }
        Ok(note.slug)
    }

    /// The location of the blob holding a note's current version: the entry
    /// the current version number names, or, defensively, the last entry.
    #[verifier::loop_isolation(false)]
    pub fn current_version_path(&self, i: usize) -> (r: String)
        requires
            self.wf(),
            i < self.notes().len(),
        ensures
            r@ == spec_join(
                self.paths.root@,
                self.notes()[i as int].versions@[self.notes()[i as int].current_version
                    - 1].path@,
            ),
    {
        let note = &self.index.notes[i];
        let vn = note.versions.len();
        let mut v: usize = 0;
        while v < vn
            invariant
                0 <= v <= vn,
                forall|k: int| 0 <= k < v ==> (#[trigger] note.versions@[k]).version
                    != note.current_version,
            decreases vn - v,
        {
            if note.versions[v].version == note.current_version {
                return self.blob_rel(note.versions[v].path.as_str());
            }
            v = v + 1;
        }
        self.blob_rel(note.versions[vn - 1].path.as_str())
    }

    /// Joins a recorded relative blob path onto this store's root.
    fn blob_rel(&self, rel: &str) -> (r: String)
        ensures
            r@ == spec_join(self.paths.root@, rel@),
    {
        self.paths.blob_path(rel)
    }

    /// Resolves the version a rollback targets — the one given, or the one
    /// before the current version — and reports its number and blob path.
    pub fn rollback_target(&self, slug: &str, target_version: Option<u32>) -> (r: Result<
        (u32, String),
        NoteError,
    >)
        requires
            self.wf(),
        ensures
            match r {
                Ok((v, p)) => {
                    let n = self.notes()[slug_idx(self.notes(), slug@)];
                    &&& has_slug(self.notes(), slug@)
                    &&& v == (match target_version {
                        Some(t) => t as int,
                        None => n.current_version - 1,
                    })
                    &&& 1 <= v <= n.versions@.len()
                    &&& p@ == n.versions@[v - 1].path@
                },
                Err(e) => match e {
                    NoteError::NotFound => !has_slug(self.notes(), slug@) || {
                        let n = self.notes()[slug_idx(self.notes(), slug@)];
                        let d = match target_version {
                            Some(t) => t as int,
                            None => n.current_version - 1,
                        };
                        d > n.versions@.len()
                    },
                    NoteError::InvalidOperation => has_slug(self.notes(), slug@) && (
                    match target_version {
                        Some(t) => t as int,
                        None => {
                            let n = self.notes()[slug_idx(self.notes(), slug@)];
                            n.current_version - 1
                        },
                    }) == 0,
                    _ => false,
                },
            },
    {
        let i = match self.find_note(slug) {
            Some(i) => i,
            None => {
                return Err(NoteError::NotFound);
            },
        };
        let note = &self.index.notes[i];
        let desired = match target_version {
            Some(v) => v,
            None => note.current_version - 1,
        };
        if desired == 0 {
            return Err(NoteError::InvalidOperation);
        }
        let vn = note.versions.len();
        if desired as usize > vn {
            return Err(NoteError::NotFound);
        }
        Ok((desired, note.versions[desired as usize - 1].path.clone()))
    }

    /// Records rolled-back content as a brand-new version — history is
    /// append-only, never rewound — and reports the working-copy path the
    /// shell must overwrite with that content.
    pub fn apply_rollback(&mut self, slug: &str, content: &[u8], now: i64) -> (r: Result<
        String,
        NoteError,
    >)
        requires
            old(self).wf(),
            has_slug(old(self).notes(), slug@) ==> old(self).notes()[slug_idx(
                old(self).notes(),
                slug@,
            )].versions@.len() + 1 < u32::MAX as int,
        ensures
            final(self).wf(),
            final(self).paths == old(self).paths,
            match r {
                Ok(p) => {
                    let i = slug_idx(old(self).notes(), slug@);
                    &&& has_slug(old(self).notes(), slug@)
                    &&& final(self).notes().len() == old(self).notes().len()
                    &&& note_appended(
                        old(self).notes()[i],
                        final(self).notes()[i],
                        content@,
                        now as int,
                    )
                    &&& forall|j: int|
                        0 <= j < final(self).notes().len() && j != i ==> final(self).notes()[j]
                            == old(self).notes()[j]
                    &&& p@ == old(self).paths.files@ + "/"@ + slug@ + ".md"@
                },
                Err(e) => !has_slug(old(self).notes(), slug@) && e is NotFound && *final(self)
                    == *old(self),
            },
    {
        let ghost prev = self.notes();
        let i = match self.find_note(slug) {
            Some(i) => i,
            None => {
                return Err(NoteError::NotFound);
            },
        };
        let h = hash_bytes(content);
        let mut note = self.index.notes.remove(i);
        let ghost o = prev[i as int];
        proof {
            assert(note_wf(o));
        }
        let newv = note.current_version + 1;
        let rel = version_rel_path(note.slug.as_str(), newv);
        let vm = VersionMeta { version: newv, path: rel, hash: h.clone(), created_at: now };
        note.versions.push(vm);
        note.current_version = newv;
        note.updated_at = now;
        note.working_hash = Some(h);
        proof {
            assert(note.versions@.take(o.versions@.len() as int) =~= o.versions@);
            assert(note_wf(note));
        }
        let wp = self.paths.working_file(slug);
        self.index.notes.insert(i, note);
        proof {
            assert(self.notes() =~= prev.update(i as int, self.notes()[i as int]));
            assert forall|p: int, q: int|
                0 <= p < q < self.notes().len() implies (#[trigger] self.notes()[p].slug@) != (
            #[trigger] self.notes()[q].slug@) by {
                assert(self.notes()[p].slug@ == prev[p].slug@);
                assert(self.notes()[q].slug@ == prev[q].slug@);
            }
        }
        Ok(wp)
    }

    /// Snapshots pending changes for the note an identifier resolves to and
    /// reports its working-copy path; the shell reads that file's bytes
    /// first and hands them in.
    pub fn open_note(&mut self, identifier: &str, content: &[u8], now: i64) -> (r: Result<
        String,
        NoteError,
    >)
        requires
            old(self).wf(),
            forall|i: int|
                0 <= i < old(self).notes().len() ==> (#[trigger] old(self).notes()[i]).versions@.len()
                    + 1 < u32::MAX as int,
        ensures
            final(self).wf(),
            final(self).paths == old(self).paths,
            match r {
                Ok(p) => spec_resolve(old(self).notes(), identifier@) matches Some(s) && {
                    let i = slug_idx(old(self).notes(), s);
                    &&& final(self).notes().len() == old(self).notes().len()
                    &&& snapshot_post(
                        old(self).notes()[i],
                        final(self).notes()[i],
                        content@,
                        now as int,
                        !up_to_date(old(self).notes()[i], content@),
                    )
                    &&& forall|j: int|
                        0 <= j < final(self).notes().len() && j != i ==> final(self).notes()[j]
                            == old(self).notes()[j]
                    &&& p@ == old(self).paths.files@ + "/"@ + s + ".md"@
                },
                Err(e) => spec_resolve(old(self).notes(), identifier@) is None && e is NotFound
                    && *final(self) == *old(self),
            },
    {
        let slug = match self.resolve_slug(identifier) {
            Some(s) => s,
            None => {
                return Err(NoteError::NotFound);
            },
        };
        proof {
            let resolved = spec_resolve(self.notes(), identifier@).unwrap();
            if !has_slug(self.notes(), identifier@) {
                let idl = lower_of(identifier@);
                match first_title_match_from(self.notes(), idl, 0) {
                    Some(_) => {
                        lemma_first_title_match_in_range(self.notes(), idl, 0);
                        let f = first_title_match_from(self.notes(), idl, 0).unwrap();
                        assert(self.notes()[f].slug@ == resolved);
                        assert(has_slug(self.notes(), resolved));
                    },
                    None => {
                        lemma_first_ci_slug_match_in_range(self.notes(), idl, 0);
                        let f = first_ci_slug_match_from(self.notes(), idl, 0).unwrap();
                        assert(self.notes()[f].slug@ == resolved);
                        assert(has_slug(self.notes(), resolved));
                    },
                }
            }
        }
        match self.snapshot_if_changed(slug.as_str(), content, now) {
            Ok(_) => Ok(self.paths.working_file(slug.as_str())),
            Err(_) => {
                proof {
                    assert(false);
                }
                Err(NoteError::NotFound)
            },
        }
    }
}

/// The slugs of the notes a full pass promotes, among the first `i`, in
/// index order.
pub open spec fn changed_slugs_upto(notes: Seq<NoteMeta>, cs: Seq<Seq<u8>>, i: int) -> Seq<
    Seq<char>,
>
    decreases i,
{
    if i <= 0 {
        Seq::empty()
    } else {
        changed_slugs_upto(notes, cs, i - 1) + (if !up_to_date(notes[i - 1], cs[i - 1]) {
            seq![notes[i - 1].slug@]
        } else {
            Seq::<Seq<char>>::empty()
        })
    }
}

/// A deletion-match position is always inside the index.
pub proof fn lemma_first_delete_match_in_range(notes: Seq<NoteMeta>, id: Seq<char>, i: int)
    requires
        (first_delete_match_from(notes, id, i) is Some),
    ensures
        ({
            let f = first_delete_match_from(notes, id, i).unwrap();
            &&& i <= f < notes.len()
            &&& delete_match(notes[f], id)
        }),
    decreases notes.len() - i,
{
    if !(i < 0 || i >= notes.len()) && !delete_match(notes[i], id) {
        lemma_first_delete_match_in_range(notes, id, i + 1);
    }
}

/// A title-match position is always inside the index.
pub proof fn lemma_first_title_match_in_range(notes: Seq<NoteMeta>, idl: Seq<char>, i: int)
    requires
        (first_title_match_from(notes, idl, i) is Some),
    ensures
        ({
            let f = first_title_match_from(notes, idl, i).unwrap();
            &&& 0 <= f < notes.len()
            &&& title_match(notes[f], idl)
        }),
    decreases notes.len() - i,
{
    if !(i < 0 || i >= notes.len()) && !title_match(notes[i], idl) {
        lemma_first_title_match_in_range(notes, idl, i + 1);
    }
}

/// A slug-match position is always inside the index.
pub proof fn lemma_first_ci_slug_match_in_range(notes: Seq<NoteMeta>, idl: Seq<char>, i: int)
    requires
        (first_ci_slug_match_from(notes, idl, i) is Some),
    ensures
        ({
            let f = first_ci_slug_match_from(notes, idl, i).unwrap();
            &&& 0 <= f < notes.len()
            &&& ci_slug_match(notes[f], idl)
        }),
    decreases notes.len() - i,
{
    if !(i < 0 || i >= notes.len()) && !ci_slug_match(notes[i], idl) {
        lemma_first_ci_slug_match_in_range(notes, idl, i + 1);
    }
}

/// Snapshotting is idempotent: after a pass that observed some content,
/// the note is up to date with it, so a second pass over the same content
/// reports "unchanged" and appends nothing.
pub proof fn lemma_snapshot_idempotent(
    o: NoteMeta,
    n1: NoteMeta,
    n2: NoteMeta,
    content: Seq<u8>,
    t1: int,
    t2: int,
    c1: bool,
    c2: bool,
)
    requires
        snapshot_post(o, n1, content, t1, c1),
        snapshot_post(n1, n2, content, t2, c2),
    ensures
        !c2,
        note_refreshed(n1, n2, content),
        n2.versions == n1.versions,
        n2.current_version == n1.current_version,
        n2.updated_at == n1.updated_at,
{
    assert(up_to_date(n1, content));
}

/// Promotion round trip: snapshotting a working copy that differs from the
/// last version appends exactly one version record, whose hash is the
/// content's hash, and advances the current version by exactly one; the
/// records already present stay untouched.
pub proof fn lemma_snapshot_promotes(
    o: NoteMeta,
    n: NoteMeta,
    content: Seq<u8>,
    now: int,
    changed: bool,
)
    requires
        snapshot_post(o, n, content, now, changed),
        !up_to_date(o, content),
    ensures
        changed,
        n.versions@.len() == o.versions@.len() + 1,
        n.versions@.take(o.versions@.len() as int) == o.versions@,
        n.versions@.last().hash@ == sha256_hex(content),
        n.current_version == o.current_version + 1,
{
}

} // verus!
