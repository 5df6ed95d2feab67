//! What is known of a piece of music to synchronise a video with: its stems, its named
//! markers, and its tempo.
use vstd::prelude::*;
use std::collections::HashMap;
use std::ops::Range;
use crate::text::text_eq;

verus! {

broadcast use vstd::std_specs::hash::group_hash_axioms;

/// The entries of a marker map, in the order the map is walked.
pub fn marker_entries(markers: &HashMap<usize, String>) -> (entries: Vec<(usize, String)>)
    ensures
        entries@.len() == markers@.len(),
        forall|i: int|
            0 <= i < entries@.len() ==> markers@.contains_key(#[trigger] entries@[i].0)
                && markers@[entries@[i].0] == entries@[i].1,
        forall|k: usize|
            #[trigger] markers@.contains_key(k) ==> exists|i: int|
                0 <= i < entries@.len() && entries@[i].0 == k,
{
    let mut entries: Vec<(usize, String)> = Vec::new();
    for entry in it: markers.iter()
        invariant
            entries@.len() == it.index(),
            forall|i: int|
                0 <= i < it.index() ==> entries@[i].0 == *it.seq()[i].0 && entries@[i].1
                    == *it.seq()[i].1,
    {
        let (k, v) = entry;
        entries.push((*k, v.clone()));
    }
    entries
}

/// The index of the first entry named `marker` from `from` on, or -1.
pub open spec fn first_named(walk: Seq<(usize, String)>, marker: Seq<char>, from: int) -> int
    decreases walk.len() - from,
{
    if from >= walk.len() || from < 0 {
        -1
    } else if walk[from].1@ == marker {
        from
    } else {
        first_named(walk, marker, from + 1)
    }
}

/// The index of the first entry named `marker` at a time after `after`, from `from` on, or -1.
pub open spec fn first_named_after(
    walk: Seq<(usize, String)>,
    marker: Seq<char>,
    after: usize,
    from: int,
) -> int
    decreases walk.len() - from,
{
    if from >= walk.len() || from < 0 {
        -1
    } else if walk[from].1@ == marker && walk[from].0 > after {
        from
    } else {
        first_named_after(walk, marker, after, from + 1)
    }
}

/// The range of a marker along a walk of the markers: from the time of the first entry so
/// named to the time of the first entry so named at a later time; none without both.
pub open spec fn range_in(walk: Seq<(usize, String)>, marker: Seq<char>) -> Option<Range<usize>> {
    let s = first_named(walk, marker, 0);
    if s < 0 {
        None
    } else {
        let e = first_named_after(walk, marker, walk[s].0, 0);
        if e < 0 {
            None
        } else {
            Some(Range { start: walk[s].0, end: walk[e].0 })
        }
    }
}

/// `walk` lists the markers of `markers`: each entry is one of them, each of them is an
/// entry, and there are as many entries as markers.
pub open spec fn walks(markers: Map<usize, String>, walk: Seq<(usize, String)>) -> bool {
    &&& walk.len() == markers.len()
    &&& forall|i: int|
        0 <= i < walk.len() ==> markers.contains_key(#[trigger] walk[i].0) && markers[walk[i].0]
            == walk[i].1
    &&& forall|k: usize|
        #[trigger] markers.contains_key(k) ==> exists|i: int| 0 <= i < walk.len() && walk[i].0 == k
}

/// The range of `marker` along the entries, in their order (see `range_in`).
pub fn marker_range_in(entries: &Vec<(usize, String)>, marker: &str) -> (r: Option<Range<usize>>)
    ensures
        r == range_in(entries@, marker@),
{
    let ghost walk = entries@;
    let mut i: usize = 0;
    while i < entries.len()
        invariant
            i <= walk.len(),
            walk == entries@,
            first_named(walk, marker@, 0) == first_named(walk, marker@, i as int),
        ensures
            i <= walk.len(),
            i < walk.len() ==> first_named(walk, marker@, 0) == i,
            i == walk.len() ==> first_named(walk, marker@, 0) == -1,
        decreases walk.len() - i,
    {
        if text_eq(entries[i].1.as_str(), marker) {
            break;
        }
        i = i + 1;
    }
    if i == entries.len() {
        return None;
    }
    let start = entries[i].0;
    let mut j: usize = 0;
    while j < entries.len()
        invariant
            j <= walk.len(),
            walk == entries@,
            first_named_after(walk, marker@, start, 0) == first_named_after(
                walk,
                marker@,
                start,
                j as int,
            ),
        ensures
            j <= walk.len(),
            j < walk.len() ==> first_named_after(walk, marker@, start, 0) == j,
            j == walk.len() ==> first_named_after(walk, marker@, start, 0) == -1,
        decreases walk.len() - j,
    {
        if entries[j].0 > start && text_eq(entries[j].1.as_str(), marker) {
            break;
        }
        j = j + 1;
    }
    if j == entries.len() {
        return None;
    }
    Some(Range { start: start, end: entries[j].0 })
}

/// The stems by name: for a name given more than once, the last stem given.
pub open spec fn stem_map<S>(stems: Seq<(String, S)>) -> Map<Seq<char>, S>
    decreases stems.len(),
{
    if stems.len() == 0 {
        Map::empty()
    } else {
        stem_map(stems.drop_last()).insert(stems.last().0@, stems.last().1)
    }
}

/// The index of the last stem named `k`, or -1.
pub open spec fn last_stem_index<S>(stems: Seq<(String, S)>, k: Seq<char>) -> int
    decreases stems.len(),
{
    if stems.len() == 0 {
        -1
    } else if stems.last().0@ == k {
        stems.len() - 1
    } else {
        last_stem_index(stems.drop_last(), k)
    }
}

pub proof fn lemma_last_stem_index<S>(stems: Seq<(String, S)>, k: Seq<char>)
    ensures
        -1 <= last_stem_index(stems, k) < stems.len(),
        last_stem_index(stems, k) >= 0 ==> stems[last_stem_index(stems, k)].0@ == k,
        last_stem_index(stems, k) == -1 <==> !stem_map(stems).contains_key(k),
    decreases stems.len(),
{
    if stems.len() > 0 && stems.last().0@ != k {
        lemma_last_stem_index(stems.drop_last(), k);
        let i = last_stem_index(stems, k);
        if i >= 0 {
            assert(stems[i] == stems.drop_last()[i]);
        }
    }
}

/// Giving the last stem named `k` a new stem gives `k` that stem in the map.
pub proof fn lemma_stem_map_update<S>(stems: Seq<(String, S)>, k: String, v: S)
    requires
        last_stem_index(stems, k@) >= 0,
    ensures
        stem_map(stems.update(last_stem_index(stems, k@), (k, v))) == stem_map(stems).insert(
            k@,
            v,
        ),
    decreases stems.len(),
{
    lemma_last_stem_index(stems, k@);
    let i = last_stem_index(stems, k@);
    let u = stems.update(i, (k, v));
    if i == stems.len() - 1 {
        assert(u.drop_last() =~= stems.drop_last());
        assert(stem_map(u) =~= stem_map(stems).insert(k@, v));
    } else {
        assert(stems.last().0@ != k@);
        assert(i == last_stem_index(stems.drop_last(), k@));
        lemma_stem_map_update(stems.drop_last(), k, v);
        assert(u.drop_last() =~= stems.drop_last().update(i, (k, v)));
        assert(u.last() == stems.last());
        assert(stem_map(u) =~= stem_map(stems).insert(k@, v));
    }
}

/// What is known of a piece of music: its stems by name, its markers by time in
/// milliseconds, and its tempo in beats per minute.
pub struct SyncData<S> {
    pub stems: Vec<(String, S)>,
    pub markers: HashMap<usize, String>,
    pub bpm: Option<usize>,
}

impl<S> SyncData<S> {
    /// No stem, no marker, no tempo.
    pub fn new() -> (d: SyncData<S>)
        ensures
            d.stems@.len() == 0,
            d.markers@ == Map::<usize, String>::empty(),
            d.bpm is None,
    {
        SyncData { stems: Vec::new(), markers: HashMap::new(), bpm: None }
    }

    /// Sets the stem named `name`: the last stem so named is replaced, or the stem is added.
    pub fn set_stem(&mut self, name: String, stem: S)
        ensures
            stem_map(final(self).stems@) == stem_map(old(self).stems@).insert(name@, stem),
            final(self).markers == old(self).markers,
            final(self).bpm == old(self).bpm,
    {
        proof {
            lemma_last_stem_index(self.stems@, name@);
        }
        let mut i: usize = self.stems.len();
        assert(self.stems@.subrange(0, i as int) =~= self.stems@);
        while i > 0
            invariant
                i <= self.stems@.len(),
                self.stems@ == old(self).stems@,
                last_stem_index(self.stems@, name@) == last_stem_index(
                    self.stems@.subrange(0, i as int),
                    name@,
                ),
            ensures
                i > 0 ==> last_stem_index(self.stems@, name@) == i - 1,
                i == 0 ==> last_stem_index(self.stems@, name@) == -1,
                self.stems@ == old(self).stems@,
            decreases i,
        {
            if text_eq(self.stems[i - 1].0.as_str(), name.as_str()) {
                break;
            }
            assert(self.stems@.subrange(0, i as int).drop_last() =~= self.stems@.subrange(
                0,
                i - 1,
            ));
            i = i - 1;
        }
        if i > 0 {
            let ghost before = self.stems@;
            proof {
                lemma_stem_map_update(before, name, stem);
            }
            self.stems.set(i - 1, (name, stem));
        } else {
            self.stems.push((name, stem));
            assert(self.stems@.drop_last() =~= old(self).stems@);
        }
    }

    /// Takes the tempo of `other` when it has one, its stems and markers over those of the
    /// same name or time.
    pub fn merge_with(&mut self, other: SyncData<S>)
        ensures
            final(self).bpm == (if other.bpm is Some {
                other.bpm
            } else {
                old(self).bpm
            }),
            stem_map(final(self).stems@) == stem_map(old(self).stems@).union_prefer_right(
                stem_map(other.stems@),
            ),
            final(self).markers@ == old(self).markers@.union_prefer_right(other.markers@),
    {
        self.bpm = match other.bpm {
            Some(b) => Some(b),
            None => self.bpm,
        };
        let ghost given = other.stems@;
        let ghost start = stem_map(self.stems@);
        let entries = marker_entries(&other.markers);
        let mut rest = other.stems;
        let mut k: usize = 0;
        let total = rest.len();
        assert(given.take(0) =~= Seq::<(String, S)>::empty());
        assert(start.union_prefer_right(Map::<Seq<char>, S>::empty()) =~= start);
        assert(given.skip(0) =~= given);
        while rest.len() > 0
            invariant
                k <= total,
                total == given.len(),
                rest@ == given.skip(k as int),
                stem_map(self.stems@) == start.union_prefer_right(stem_map(given.take(k as int))),
                self.bpm == (if other.bpm is Some {
                    other.bpm
                } else {
                    old(self).bpm
                }),
                self.markers == old(self).markers,
                start == stem_map(old(self).stems@),
                given == other.stems@,
            decreases rest@.len(),
        {
            assert(rest@.len() == total - k);
            assert(rest@[0] == given[k as int]);
            let (name, stem) = rest.remove(0);
            self.set_stem(name, stem);
            proof {
                assert(given.take(k + 1).drop_last() =~= given.take(k as int));
                assert(start.union_prefer_right(stem_map(given.take(k + 1))) =~= start.union_prefer_right(
                    stem_map(given.take(k as int)),
                ).insert(given[k as int].0@, given[k as int].1));
                assert(rest@ =~= given.skip(k + 1));
            }
            k = k + 1;
        }
        assert(given.take(total as int) =~= given);
        let ghost before = self.markers@;
        assert(before == old(self).markers@);
        let mut i: usize = 0;
        while i < entries.len()
            invariant
                i <= entries@.len(),
                entries@.len() == other.markers@.len(),
                forall|j: int|
                    0 <= j < entries@.len() ==> other.markers@.contains_key(#[trigger] entries@[j].0)
                        && other.markers@[entries@[j].0] == entries@[j].1,
                forall|k: usize|
                    #[trigger] other.markers@.contains_key(k) ==> exists|j: int|
                        0 <= j < entries@.len() && entries@[j].0 == k,
                forall|k: usize|
                    #[trigger] self.markers@.contains_key(k) <==> before.contains_key(k) || exists|
                        j: int,
                    |
                        0 <= j < i && entries@[j].0 == k,
                forall|k: usize|
                    #[trigger] self.markers@.contains_key(k) ==> self.markers@[k] == if exists|
                        j: int,
                    |
                        0 <= j < i && entries@[j].0 == k {
                        other.markers@[k]
                    } else {
                        before[k]
                    },
                self.bpm == (if other.bpm is Some {
                    other.bpm
                } else {
                    old(self).bpm
                }),
                stem_map(self.stems@) == stem_map(old(self).stems@).union_prefer_right(
                    stem_map(other.stems@),
                ),
            decreases entries@.len() - i,
        {
            let ghost prev = self.markers@;
            let key = entries[i].0;
            let value = entries[i].1.clone();
            self.markers.insert(key, value);
            proof {
                assert forall|k: usize| #[trigger]
                    self.markers@.contains_key(k) <==> before.contains_key(k) || exists|j: int|
                        0 <= j < i + 1 && entries@[j].0 == k by {
                    if k == key {
                        assert(entries@[i as int].0 == k);
                    } else if exists|j: int| 0 <= j < i + 1 && entries@[j].0 == k {
                        let j = choose|j: int| 0 <= j < i + 1 && entries@[j].0 == k;
                        assert(j < i);
                    }
                }
                assert forall|k: usize| #[trigger]
                    self.markers@.contains_key(k) implies self.markers@[k] == if exists|j: int|
                        0 <= j < i + 1 && entries@[j].0 == k {
                        other.markers@[k]
                    } else {
                        before[k]
                    } by {
                    if k == key {
                        assert(entries@[i as int].0 == k);
                    } else if exists|j: int| 0 <= j < i + 1 && entries@[j].0 == k {
                        let j = choose|j: int| 0 <= j < i + 1 && entries@[j].0 == k;
                        assert(j < i);
                    }
                }
            }
            i = i + 1;
        }
        assert(self.markers@ =~= before.union_prefer_right(other.markers@));
    }

    /// The range of `marker` along some walk of the markers (see `range_in`): from the time of
    /// the first marker so named met to that of the first so named met at a later time. The
    /// order of the walk is the map's own; whichever it is, `walks` holds of it.
    pub fn marker_ms_range(&self, marker: &str) -> (r: Option<Range<usize>>)
        ensures
            exists|walk: Seq<(usize, String)>|
                #[trigger] walks(self.markers@, walk) && r == range_in(walk, marker@),
    {
        let entries = marker_entries(&self.markers);
        let r = marker_range_in(&entries, marker);
        assert(walks(self.markers@, entries@));
        r
    }
}

/// Finds the markers of an audio file from its cue points.
pub struct CueMarkersSynchronizer {
    pub path: String,
}

impl CueMarkersSynchronizer {
    /// A synchronizer for the audio file at `path`.
    pub fn new(path: &str) -> (s: CueMarkersSynchronizer)
        ensures
            s.path@ == path@,
    {
        CueMarkersSynchronizer { path: String::from_str(path) }
    }

    /// What a file without cue points gives: no stem, no marker, 120 beats per minute. A
    /// file with cue points is not supported.
    pub fn loaded<S>(&self, cue_count: usize) -> (d: SyncData<S>)
        requires
            cue_count == 0,
        ensures
            d.stems@.len() == 0,
            d.markers@ == Map::<usize, String>::empty(),
            d.bpm == Some(120usize),
    {
        let mut d = SyncData::new();
        d.bpm = Some(120);
        d
    }

    /// Reads the cue points of the synchronizer's audio file from its bytes: a WAV or FLAC
    /// file, by the path's extension (as `std::path::Path::extension` finds it; for a plain
    /// file name, what follows its last dot), without cue points gives no stem, no marker and
    /// 120 beats per minute (see `cues_from_bytes`).
    pub fn load_from_bytes<S>(&self, bytes: Vec<u8>) -> (r: Result<SyncData<S>, CueError>)
        ensures
            exists|extension: Option<Seq<char>>| #[trigger] cue_outcome(extension, bytes@, r),
            plain_file_name(self.path@) ==> cue_outcome(name_extension(self.path@), bytes@, r),
    {
        let extension = path_extension(self.path.as_str());
        let r = match extension {
            Some(e) => cues_from_bytes(Some(e.as_str()), bytes),
            None => cues_from_bytes(None, bytes),
        };
        assert(cue_outcome(
            match extension {
                Some(e) => Some(e@),
                None => None,
            },
            bytes@,
            r,
        ));
        r
    }
}

/// Why the cue points of an audio file could not be read.
#[derive(Debug, Clone, Copy, PartialEq, Eq, Structural)]
pub enum CueError {
    /// The file is neither WAV nor FLAC.
    UnsupportedFormat,
    /// The file could not be read as its format.
    Unreadable,
    /// The file has cue points, which are not supported yet.
    CuesFound,
}

/// What symphonia's WAV reader finds in `bytes`: nothing when it cannot read them, else the
/// number of items of the file's chapter group, if it has one.
pub uninterp spec fn wav_chapter_items(bytes: Seq<u8>) -> Option<Option<nat>>;

/// What symphonia's FLAC reader finds in `bytes`: nothing when it cannot read them, else the
/// number of items of the file's chapter group (its cue sheet), if it has one.
pub uninterp spec fn flac_chapter_items(bytes: Seq<u8>) -> Option<Option<nat>>;

/// `symphonia::default::formats::WavReader::try_new` over the bytes, with default options,
/// then `FormatReader::chapters`: the number of items of the chapter group, if any; nothing
/// when the reader cannot be made.
#[verifier::external_body]
fn read_wav_chapter_items(bytes: Vec<u8>) -> (r: Option<Option<usize>>)
    ensures
        r matches Some(Some(k)) ==> wav_chapter_items(bytes@) == Some(Some(k as nat)),
        r matches Some(None) ==> wav_chapter_items(bytes@) == Some(None::<nat>),
        r is None ==> wav_chapter_items(bytes@) is None,
{
    let stream = symphonia::core::io::MediaSourceStream::new(
        Box::new(std::io::Cursor::new(bytes)),
        Default::default(),
    );
    match symphonia::default::formats::WavReader::try_new(stream, Default::default()) {
        Ok(reader) => Some(match symphonia::core::formats::FormatReader::chapters(&reader) {
            Some(group) => Some(group.items.len()),
            None => None,
        }),
        Err(_) => None,
    }
}

/// `symphonia::default::formats::FlacReader::try_new` over the bytes, with default options,
/// then `FormatReader::chapters`: the number of items of the chapter group, if any; nothing
/// when the reader cannot be made.
#[verifier::external_body]
fn read_flac_chapter_items(bytes: Vec<u8>) -> (r: Option<Option<usize>>)
    ensures
        r matches Some(Some(k)) ==> flac_chapter_items(bytes@) == Some(Some(k as nat)),
        r matches Some(None) ==> flac_chapter_items(bytes@) == Some(None::<nat>),
        r is None ==> flac_chapter_items(bytes@) is None,
{
    let stream = symphonia::core::io::MediaSourceStream::new(
        Box::new(std::io::Cursor::new(bytes)),
        Default::default(),
    );
    match symphonia::default::formats::FlacReader::try_new(stream, Default::default()) {
        Ok(reader) => Some(match symphonia::core::formats::FormatReader::chapters(&reader) {
            Some(group) => Some(group.items.len()),
            None => None,
        }),
        Err(_) => None,
    }
}

/// A path that is one plain file name on every platform: no separator (`/` or `\\`), no
/// `:` (which starts a drive or a scheme), and not `..`.
pub open spec fn plain_file_name(p: Seq<char>) -> bool {
    &&& !p.contains('/')
    &&& !p.contains('\\')
    &&& !p.contains(':')
    &&& p != seq!['.', '.']
}

/// The index of the last `.` of `p`, or -1.
pub open spec fn last_dot(p: Seq<char>) -> int
    decreases p.len(),
{
    if p.len() == 0 {
        -1
    } else if p.last() == '.' {
        p.len() - 1
    } else {
        last_dot(p.drop_last())
    }
}

/// The extension of a file name: what follows its last `.`, when something precedes that
/// dot; none otherwise.
pub open spec fn name_extension(p: Seq<char>) -> Option<Seq<char>> {
    if last_dot(p) > 0 {
        Some(p.subrange(last_dot(p) + 1, p.len() as int))
    } else {
        None
    }
}

/// `std::path::Path::extension`, as text. Which part of a path is its file name follows the
/// platform's separators, so only what holds on every platform is said: a plain file name's
/// extension is what follows its last dot, when something precedes that dot (see
/// `name_extension`).
#[verifier::external_body]
fn path_extension(path: &str) -> (r: Option<String>)
    ensures
        plain_file_name(path@) ==> match r {
            Some(e) => name_extension(path@) == Some(e@),
            None => name_extension(path@) is None,
        },
{
    std::path::Path::new(path).extension().and_then(|e| e.to_str()).map(|e| e.to_string())
}

/// What the reader of the format named by `extension` finds in `bytes` (see
/// `wav_chapter_items`); nothing for another extension.
pub open spec fn chapter_items(extension: Option<Seq<char>>, bytes: Seq<u8>) -> Option<Option<nat>> {
    match extension {
        Some(e) => if e == "wav"@ {
            wav_chapter_items(bytes)
        } else if e == "flac"@ {
            flac_chapter_items(bytes)
        } else {
            None
        },
        None => None,
    }
}

/// The outcome of reading cue points from `bytes` of a file with this extension: an
/// unsupported format unless it is `wav` or `flac`; unreadable when its reader fails; cue
/// points found when its chapter group has items; else no stem, no marker and 120 beats per
/// minute.
pub open spec fn cue_outcome<S>(
    extension: Option<Seq<char>>,
    bytes: Seq<u8>,
    r: Result<SyncData<S>, CueError>,
) -> bool {
    if !(extension == Some("wav"@) || extension == Some("flac"@)) {
        r == Err::<SyncData<S>, CueError>(CueError::UnsupportedFormat)
    } else {
        match chapter_items(extension, bytes) {
            None => r == Err::<SyncData<S>, CueError>(CueError::Unreadable),
            Some(Some(n)) if n > 0 => r == Err::<SyncData<S>, CueError>(CueError::CuesFound),
            _ => r matches Ok(d) && d.stems@.len() == 0 && d.markers@ == Map::<
                usize,
                String,
            >::empty() && d.bpm == Some(120usize),
        }
    }
}

/// Reads the cue points of an audio file from its extension and its bytes (see
/// `cue_outcome`).
pub fn cues_from_bytes<S>(extension: Option<&str>, bytes: Vec<u8>) -> (r: Result<
    SyncData<S>,
    CueError,
>)
    ensures
        cue_outcome(
            match extension {
                Some(e) => Some(e@),
                None => None,
            },
            bytes@,
            r,
        ),
{
    proof {
        reveal_strlit("wav");
        reveal_strlit("flac");
    }
    let items = match extension {
        Some(e) => if text_eq(e, "wav") {
            read_wav_chapter_items(bytes)
        } else if text_eq(e, "flac") {
            read_flac_chapter_items(bytes)
        } else {
            return Err(CueError::UnsupportedFormat);
        },
        None => {
            return Err(CueError::UnsupportedFormat);
        },
    };
    match items {
        None => Err(CueError::Unreadable),
        Some(Some(n)) => if n > 0 {
            Err(CueError::CuesFound)
        } else {
            let sync = CueMarkersSynchronizer { path: String::new() };
            Ok(sync.loaded(0))
        },
        Some(None) => {
            let sync = CueMarkersSynchronizer { path: String::new() };
            Ok(sync.loaded(0))
        },
    }
}

} // verus!
