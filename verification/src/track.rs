//! Tracks as the player knows them, and the shared handles through which the
//! list and the queue refer to one of them.

use std::sync::Arc;
use symphonia::default::get_probe;
use vstd::prelude::*;

verus! {

/// An audio file and what its tags say about it.
#[derive(Debug, Default)]
pub struct Track {
    pub album: Option<String>,
    pub artist: Option<String>,
    /// How long the track plays, in nanoseconds, where the file says.
    pub duration_nanos: Option<u64>,
    /// Where the file lies, as the bytes of its path.
    pub path: Vec<u8>,
    /// The ReplayGain track gain as the tag writes it, without its ` dB` unit.
    pub replay_gain: Option<String>,
    pub title: Option<String>,
}

/// The text of an optional tag, or the empty text where there is none.
pub open spec fn text_or_empty(value: Option<String>) -> Seq<char> {
    match value {
        Some(text) => text@,
        None => Seq::empty(),
    }
}

fn str_or_empty(value: &Option<String>) -> (text: &str)
    ensures
        text@ == text_or_empty(*value),
{
    proof {
        reveal_strlit("");
    }
    match value {
        Some(text) => text.as_str(),
        None => "",
    }
}

impl Track {
    pub fn album_str(&self) -> (album: &str)
        ensures
            album@ == text_or_empty(self.album),
    {
        str_or_empty(&self.album)
    }

    pub fn artist_str(&self) -> (artist: &str)
        ensures
            artist@ == text_or_empty(self.artist),
    {
        str_or_empty(&self.artist)
    }

    pub fn title_str(&self) -> (title: &str)
        ensures
            title@ == text_or_empty(self.title),
    {
        str_or_empty(&self.title)
    }
}

fn copy_text(value: &Option<String>) -> (copy: Option<String>)
    ensures
        copy == *value,
{
    match value {
        Some(text) => Some(text.clone()),
        None => None,
    }
}

/// Two tracks say the same: the same tags and play time, at the same path.
pub open spec fn same_track(first: Track, second: Track) -> bool {
    &&& first.album == second.album
    &&& first.artist == second.artist
    &&& first.duration_nanos == second.duration_nanos
    &&& first.path@ == second.path@
    &&& first.replay_gain == second.replay_gain
    &&& first.title == second.title
}

impl Clone for Track {
    fn clone(&self) -> (copy: Self)
        ensures
            same_track(copy, *self),
    {
        Track {
            album: copy_text(&self.album),
            artist: copy_text(&self.artist),
            duration_nanos: self.duration_nanos,
            path: self.path.clone(),
            replay_gain: copy_text(&self.replay_gain),
            title: copy_text(&self.title),
        }
    }
}

/// The tags that the player reads; every other tag is `Other`.
#[derive(Clone, Copy, Debug, Default, PartialEq, Eq)]
pub enum TagKey {
    Album,
    Artist,
    ReplayGainTrackGain,
    TrackTitle,
    #[default]
    Other,
}

/// Tags as contracts speak of them: what each says, and its text.
pub open spec fn tag_views(tags: Seq<(TagKey, String)>) -> Seq<(TagKey, Seq<char>)> {
    tags.map_values(|tag: (TagKey, String)| (tag.0, tag.1@))
}

/// The text of the last tag of kind `key` in `tags`, if there is one.
pub open spec fn last_value(tags: Seq<(TagKey, Seq<char>)>, key: TagKey) -> Option<Seq<char>>
    decreases tags.len(),
{
    if tags.len() == 0 {
        None
    } else if tags.last().0 == key {
        Some(tags.last().1)
    } else {
        last_value(tags.drop_last(), key)
    }
}

/// The view of an optional text.
pub open spec fn text_view(value: Option<String>) -> Option<Seq<char>> {
    match value {
        Some(text) => Some(text@),
        None => None,
    }
}

/// `text` without the ` dB` units at its end, however often the unit repeats.
pub open spec fn without_unit(text: Seq<char>) -> Seq<char>
    decreases text.len(),
{
    if text.len() >= 3 && text.subrange(text.len() - 3, text.len() as int) == seq![' ', 'd', 'B'] {
        without_unit(text.subrange(0, text.len() - 3))
    } else {
        text
    }
}

/// Strips every ` dB` unit from the end of a gain.
#[verifier::rlimit(30)]
pub fn trim_unit(text: &str) -> (trimmed: String)
    ensures
        trimmed@ == without_unit(text@),
{
    let mut end = text.unicode_len();
    assert(text@.subrange(0, end as int) =~= text@);
    while end >= 3 && text.get_char(end - 3) == ' ' && text.get_char(end - 2) == 'd'
        && text.get_char(end - 1) == 'B'
        invariant
            end <= text@.len(),
            without_unit(text@) == without_unit(text@.subrange(0, end as int)),
        decreases end,
    {
        let ghost prefix = text@.subrange(0, end as int);
        proof {
            assert(prefix.subrange(prefix.len() - 3, prefix.len() as int) =~= seq![' ', 'd', 'B']);
            assert(prefix.subrange(0, prefix.len() - 3) =~= text@.subrange(0, end - 3));
        }
        end -= 3;
    }
    proof {
        let prefix = text@.subrange(0, end as int);
        if prefix.len() >= 3 {
            if prefix.subrange(prefix.len() - 3, prefix.len() as int) == seq![' ', 'd', 'B'] {
                assert(prefix.subrange(prefix.len() - 3, prefix.len() as int)[0] == text@[end - 3]);
                assert(prefix.subrange(prefix.len() - 3, prefix.len() as int)[1] == text@[end - 2]);
                assert(prefix.subrange(prefix.len() - 3, prefix.len() as int)[2] == text@[end - 1]);
            }
        }
    }
    String::from_str(text.substring_char(0, end))
}

/// Builds the track at `path` from the tags of its file, the last tag of a
/// kind winning, and from its play time. The gain keeps the text of the
/// last ReplayGain track gain tag without its ` dB` unit.
pub fn track_from_tags(path: Vec<u8>, tags: &[(TagKey, String)], duration_nanos: Option<u64>) -> (track: Track)
    ensures
        text_view(track.album) == last_value(tag_views(tags@), TagKey::Album),
        text_view(track.artist) == last_value(tag_views(tags@), TagKey::Artist),
        text_view(track.title) == last_value(tag_views(tags@), TagKey::TrackTitle),
        text_view(track.replay_gain) == match last_value(tag_views(tags@), TagKey::ReplayGainTrackGain) {
            Some(gain) => Some(without_unit(gain)),
            None => None,
        },
        track.duration_nanos == duration_nanos,
        track.path == path,
{
    let mut album: Option<String> = None;
    let mut artist: Option<String> = None;
    let mut replay_gain: Option<String> = None;
    let mut title: Option<String> = None;
    let mut i: usize = 0;
    while i < tags.len()
        invariant
            i <= tags@.len(),
            text_view(album) == last_value(tag_views(tags@.take(i as int)), TagKey::Album),
            text_view(artist) == last_value(tag_views(tags@.take(i as int)), TagKey::Artist),
            text_view(title) == last_value(tag_views(tags@.take(i as int)), TagKey::TrackTitle),
            text_view(replay_gain) == match last_value(
                tag_views(tags@.take(i as int)),
                TagKey::ReplayGainTrackGain,
            ) {
                Some(gain) => Some(without_unit(gain)),
                None => None,
            },
        decreases tags.len() - i,
    {
        let (key, value) = &tags[i];
        proof {
            let next = tag_views(tags@.take(i + 1));
            assert(next.drop_last() =~= tag_views(tags@.take(i as int)));
            assert(next.last() == (tags@[i as int].0, tags@[i as int].1@));
        }
        match key {
            TagKey::Album => album = Some(value.clone()),
            TagKey::Artist => artist = Some(value.clone()),
            TagKey::ReplayGainTrackGain => replay_gain = Some(trim_unit(value.as_str())),
            TagKey::TrackTitle => title = Some(value.clone()),
            TagKey::Other => {},
        }
        i += 1;
    }
    proof {
        assert(tags@.take(tags@.len() as int) =~= tags@);
    }
    Track { album, artist, duration_nanos, path, replay_gain, title }
}

/// What symphonia reads from the bytes of an audio file: nothing where it
/// cannot read the file; else the tags of the latest revision of its metadata,
/// each with what it says and its text, or nothing where the file has no
/// metadata.
pub uninterp spec fn probed_tags(bytes: Seq<u8>) -> Option<Option<Seq<(TagKey, Seq<char>)>>>;

/// The time base (numerator, denominator) and the length in time-base ticks
/// of the default audio track of an audio file, as symphonia reads them from
/// the file's bytes; nothing where it cannot read the file or the track does
/// not say.
pub uninterp spec fn probed_length(bytes: Seq<u8>) -> Option<(u32, u32, u64)>;

/// The data of the pictures of the latest metadata of an audio file, as
/// symphonia reads them from the file's bytes; nothing where it cannot read
/// the file or the file has no metadata.
pub uninterp spec fn probed_visuals(bytes: Seq<u8>) -> Option<Seq<Seq<u8>>>;

/// symphonia's media stream over a reader.
type MediaStream<'s> = symphonia::core::io::MediaSourceStream<'s>;

/// symphonia's standard tags.
type StdTag = symphonia::core::meta::StandardTag;

/// symphonia's default probe on `bytes`, then `skip_to_latest` on the
/// metadata; each tag is told apart by its standard tag, every kind that the
/// player does not read becoming `Other` with no text. Claimed: the result,
/// taken by its view, is `probed_tags` of the bytes.
#[verifier::external_body]
fn probe_tags(bytes: &[u8]) -> (tags: Option<Option<Vec<(TagKey, String)>>>)
    ensures
        tags matches Some(Some(found)) ==> probed_tags(bytes@) == Some(Some(tag_views(found@))),
        tags matches Some(None) ==> probed_tags(bytes@) == Some(None::<Seq<(TagKey, Seq<char>)>>),
        tags is None ==> probed_tags(bytes@) is None,
{
    Some(get_probe()
        .probe(&Default::default(), MediaStream::new(Box::new(std::io::Cursor::new(bytes)), Default::default()), Default::default(), Default::default())
        .ok()?.metadata().skip_to_latest()
        .map(|latest| latest.media.tags.iter().map(|tag| match &tag.std {
            Some(StdTag::Album(text)) => (TagKey::Album, text.to_string()),
            Some(StdTag::Artist(text)) => (TagKey::Artist, text.to_string()),
            Some(StdTag::ReplayGainTrackGain(text)) => (TagKey::ReplayGainTrackGain, text.to_string()),
            Some(StdTag::TrackTitle(text)) => (TagKey::TrackTitle, text.to_string()),
            _ => Default::default(),
        }).collect()))
}

/// symphonia's default probe on `bytes`, then the `time_base` and `duration`
/// of `default_track(TrackType::Audio)`. Claimed: the result is
/// `probed_length` of the bytes, and both parts of a time base are positive,
/// as symphonia keeps them `NonZero`.
#[verifier::external_body]
fn probe_length(bytes: &[u8]) -> (length: Option<(u32, u32, u64)>)
    ensures
        length == probed_length(bytes@),
        length matches Some((numer, denom, ticks)) ==> numer > 0 && denom > 0,
{
    let format = get_probe()
        .probe(&Default::default(), MediaStream::new(Box::new(std::io::Cursor::new(bytes)), Default::default()), Default::default(), Default::default())
        .ok()?;
    let track = format.default_track(symphonia::core::formats::TrackType::Audio)?;
    let time_base = track.time_base?;
    Some((time_base.numer.get(), time_base.denom.get(), track.duration?.get()))
}

/// symphonia's default probe on `bytes`, then `skip_to_latest` on the
/// metadata, and the data of each of its pictures. Claimed: the result, taken
/// by its view, is `probed_visuals` of the bytes.
#[verifier::external_body]
fn probe_visuals(bytes: &[u8]) -> (visuals: Option<Vec<Vec<u8>>>)
    ensures
        visuals matches Some(found) ==> probed_visuals(bytes@) == Some(
            found@.map_values(|picture: Vec<u8>| picture@),
        ),
        visuals is None ==> probed_visuals(bytes@) is None,
{
    let mut format = get_probe()
        .probe(&Default::default(), MediaStream::new(Box::new(std::io::Cursor::new(bytes)), Default::default()), Default::default(), Default::default())
        .ok()?;
    let mut metadata = format.metadata();
    let latest = metadata.skip_to_latest()?;
    Some(latest.media.visuals.iter().map(|visual| visual.data.to_vec()).collect())
}

/// The play time, in whole nanoseconds, of `ticks` ticks of the time base
/// `numer / denom`: where the ticks fit a signed 64-bit timestamp and the
/// nanoseconds fit 64 bits, as symphonia's `TimeBase::calc_time` and
/// `Time::as_nanos` give it.
pub open spec fn nanos_of(numer: u32, denom: u32, ticks: u64) -> Option<u64> {
    let total = ticks * numer * 1_000_000_000 / (denom as int);
    if ticks <= i64::MAX && total <= u64::MAX {
        Some(total as u64)
    } else {
        None
    }
}

/// The play time of `ticks` ticks of the time base `numer / denom`, in whole
/// nanoseconds, where it fits.
pub fn duration_nanos(numer: u32, denom: u32, ticks: u64) -> (nanos: Option<u64>)
    requires
        denom > 0,
    ensures
        nanos == nanos_of(numer, denom, ticks),
{
    if ticks > 0x7fff_ffff_ffff_ffff {
        return None;
    }
    proof {
        assert(ticks * numer <= 0x7fff_ffff_ffff_ffff * 0xffff_ffff) by (nonlinear_arith)
            requires
                ticks <= 0x7fff_ffff_ffff_ffff,
                numer <= 0xffff_ffff,
        ;
        assert(ticks * numer * 1_000_000_000 <= 0x7fff_ffff_ffff_ffff * 0xffff_ffff * 1_000_000_000)
            by (nonlinear_arith)
            requires
                ticks * numer <= 0x7fff_ffff_ffff_ffff * 0xffff_ffff,
        ;
    }
    let product: u128 = ticks as u128 * numer as u128 * 1_000_000_000;
    let total = product / denom as u128;
    if total > 0xffff_ffff_ffff_ffff {
        None
    } else {
        Some(total as u64)
    }
}

/// With the time base one over the sample rate, the play time of a count of
/// frames is its whole seconds plus the nanoseconds of the frames left over.
pub proof fn lemma_nanos_from_frames(frames: u64, sample_rate: u32)
    requires
        sample_rate > 0,
    ensures
        nanos_of(1, sample_rate, frames) matches Some(nanos) ==> nanos == (frames as int / sample_rate as int)
            * 1_000_000_000 + (frames as int % sample_rate as int) * 1_000_000_000 / (sample_rate as int),
{
    let n = frames as int;
    let d = sample_rate as int;
    let q = n / d;
    let r = n % d;
    vstd::arithmetic::div_mod::lemma_fundamental_div_mod(n, d);
    assert(n * 1 * 1_000_000_000 == r * 1_000_000_000 + (q * 1_000_000_000) * d) by (nonlinear_arith)
        requires
            n == d * q + r,
    ;
    vstd::arithmetic::div_mod::lemma_hoist_over_denominator(r * 1_000_000_000, q * 1_000_000_000, d as nat);
}

/// The tags that `from_file` reads from the bytes of a file: those of its
/// latest metadata, none where it has no metadata.
pub open spec fn file_tags(bytes: Seq<u8>) -> Seq<(TagKey, Seq<char>)> {
    match probed_tags(bytes) {
        Some(Some(tags)) => tags,
        _ => Seq::empty(),
    }
}

/// Reads the track at `path` from the bytes of its file: its tags, the last
/// of a kind winning, and its play time; nothing where symphonia cannot read
/// the file.
pub fn from_file(path: Vec<u8>, bytes: &[u8]) -> (track: Option<Track>)
    ensures
        track is None <==> probed_tags(bytes@) is None,
        track matches Some(found) ==> {
            let tags = file_tags(bytes@);
            &&& text_view(found.album) == last_value(tags, TagKey::Album)
            &&& text_view(found.artist) == last_value(tags, TagKey::Artist)
            &&& text_view(found.title) == last_value(tags, TagKey::TrackTitle)
            &&& text_view(found.replay_gain) == match last_value(tags, TagKey::ReplayGainTrackGain) {
                Some(gain) => Some(without_unit(gain)),
                None => None,
            }
            &&& found.duration_nanos == match probed_length(bytes@) {
                Some((numer, denom, ticks)) => nanos_of(numer, denom, ticks),
                None => None,
            }
            &&& found.path == path
        },
{
    let tags = match probe_tags(bytes) {
        Some(Some(tags)) => tags,
        Some(None) => {
            proof {
                assert(tag_views(Seq::<(TagKey, String)>::empty()) =~= Seq::empty());
            }
            Vec::new()
        },
        None => return None,
    };
    let duration = match probe_length(bytes) {
        Some((numer, denom, ticks)) => duration_nanos(numer, denom, ticks),
        None => None,
    };
    Some(track_from_tags(path, tags.as_slice(), duration))
}

/// The cover of an audio file, from the bytes of the file: the first picture
/// of its latest metadata; nothing where the file has no picture or symphonia
/// cannot read it.
pub fn cover_from_file(bytes: &[u8]) -> (cover: Option<Vec<u8>>)
    ensures
        cover is None <==> (probed_visuals(bytes@) is None || probed_visuals(bytes@)->0.len() == 0),
        cover matches Some(picture) ==> picture@ == probed_visuals(bytes@)->0[0],
{
    match probe_visuals(bytes) {
        Some(visuals) => {
            let mut visuals = visuals;
            if visuals.len() > 0 {
                proof {
                    assert(visuals@.map_values(|picture: Vec<u8>| picture@)[0] == visuals@[0]@);
                }
                Some(visuals.swap_remove(0))
            } else {
                None
            }
        },
        None => None,
    }
}

/// The tags of `track` that are there, in the order title, artist, album.
pub open spec fn present_parts(track: Track) -> Seq<Seq<char>> {
    let title = match track.title {
        Some(text) => seq![text@],
        None => Seq::empty(),
    };
    let artist = match track.artist {
        Some(text) => seq![text@],
        None => Seq::empty(),
    };
    let album = match track.album {
        Some(text) => seq![text@],
        None => Seq::empty(),
    };
    title + artist + album
}

/// `parts` joined by `separator`.
pub open spec fn joined(parts: Seq<Seq<char>>, separator: Seq<char>) -> Seq<char>
    decreases parts.len(),
{
    if parts.len() == 0 {
        Seq::empty()
    } else if parts.len() == 1 {
        parts[0]
    } else {
        joined(parts.drop_last(), separator) + separator + parts.last()
    }
}

/// The line that tells what plays: title, artist and album, those that the
/// track has, joined by ` :: `.
pub fn information(track: &Track) -> (line: String)
    ensures
        line@ == joined(present_parts(*track), " :: "@),
{
    let mut line = String::new();
    let mut count: usize = 0;
    let ghost mut parts: Seq<Seq<char>> = Seq::empty();
    let fields = [&track.title, &track.artist, &track.album];
    let mut i: usize = 0;
    while i < 3
        invariant
            i <= 3,
            fields@ == seq![&track.title, &track.artist, &track.album],
            count == parts.len(),
            count <= i,
            line@ == joined(parts, " :: "@),
            parts == present_parts_of(fields@.take(i as int)),
        decreases 3 - i,
    {
        let ghost before = parts;
        match fields[i] {
            Some(text) => {
                if count > 0 {
                    line.append(" :: ");
                }
                line.append(text.as_str());
                proof {
                    parts = parts.push(text@);
                    assert(parts.drop_last() =~= before);
                }
                count += 1;
            },
            None => {},
        }
        proof {
            assert(fields@.take(i + 1).drop_last() =~= fields@.take(i as int));
        }
        i += 1;
    }
    proof {
        assert(fields@.take(3) =~= fields@);
        assert(present_parts_of(fields@) =~= present_parts(*track)) by {
            reveal_with_fuel(present_parts_of, 4);
            assert(fields@.drop_last().drop_last().drop_last() =~= Seq::<&Option<String>>::empty());
        }
    }
    line
}

/// The texts of those of `fields` that are there, in their order.
pub open spec fn present_parts_of(fields: Seq<&Option<String>>) -> Seq<Seq<char>>
    decreases fields.len(),
{
    if fields.len() == 0 {
        Seq::empty()
    } else {
        let rest = present_parts_of(fields.drop_last());
        match *fields.last() {
            Some(text) => rest.push(text@),
            None => rest,
        }
    }
}

/// `Arc::clone`: a second handle on the same allocation, so it reads the same track.
#[verifier::external_body]
fn share(track: &Arc<Track>) -> (shared: Arc<Track>)
    ensures
        shared == *track,
{
    Arc::clone(track)
}

/// A track as one list holds it: the track and the position at which that list
/// stored it, by which the list, its queue and its screens tell tracks apart.
#[derive(Debug)]
pub struct TrackRef {
    id: usize,
    track: Arc<Track>,
}

impl TrackRef {
    /// The position at which the list stored this track.
    pub closed spec fn identity(&self) -> usize {
        self.id
    }

    /// The track itself.
    pub closed spec fn content(&self) -> Track {
        *self.track
    }

    pub(crate) fn new(id: usize, track: Track) -> (track_ref: TrackRef)
        ensures
            track_ref.identity() == id,
            track_ref.content() == track,
    {
        TrackRef { id, track: Arc::new(track) }
    }

    pub fn id(&self) -> (id: usize)
        ensures
            id == self.identity(),
    {
        self.id
    }

    pub fn track(&self) -> (track: &Track)
        ensures
            *track == self.content(),
    {
        &self.track
    }
}

impl Clone for TrackRef {
    fn clone(&self) -> (copy: Self)
        ensures
            copy == *self,
    {
        TrackRef { id: self.id, track: share(&self.track) }
    }
}

/// The first position, counting from `start`, that holds the track with
/// identity `id`; the length of `tracks` where none does.
pub open spec fn position_from(tracks: Seq<TrackRef>, id: usize, start: int) -> int
    decreases tracks.len() - start,
{
    if start >= tracks.len() || tracks[start].identity() == id {
        start
    } else {
        position_from(tracks, id, start + 1)
    }
}

/// The first position of the track with identity `id` in `tracks`, or the
/// length of `tracks` where it is not there.
pub open spec fn first_index(tracks: Seq<TrackRef>, id: usize) -> int {
    position_from(tracks, id, 0)
}

/// No two tracks in `tracks` share an identity.
pub open spec fn distinct_identities(tracks: Seq<TrackRef>) -> bool {
    forall|k: int, l: int|
        0 <= k < l < tracks.len() ==> #[trigger] tracks[k].identity() != #[trigger] tracks[l].identity()
}

/// Where the track at `k` is the first with its identity from `start` on, the
/// search from `start` finds it at `k`.
pub proof fn lemma_position_from(tracks: Seq<TrackRef>, id: usize, start: int, k: int)
    requires
        0 <= start <= k <= tracks.len(),
        k == tracks.len() || tracks[k].identity() == id,
        forall|j: int| start <= j < k ==> #[trigger] tracks[j].identity() != id,
    ensures
        position_from(tracks, id, start) == k,
    decreases k - start,
{
    if start < k {
        lemma_position_from(tracks, id, start + 1, k);
    }
}

/// In a sequence without repeated identities, the first position of the track
/// at `k` is `k`.
pub proof fn lemma_first_index_of_distinct(tracks: Seq<TrackRef>, k: int)
    requires
        distinct_identities(tracks),
        0 <= k < tracks.len(),
    ensures
        first_index(tracks, tracks[k].identity()) == k,
{
    assert forall|j: int| 0 <= j < k implies #[trigger] tracks[j].identity() != tracks[k].identity() by {
    }
    lemma_position_from(tracks, tracks[k].identity(), 0, k);
}

/// A first position short of the length holds the track sought, and no
/// earlier position does.
pub proof fn lemma_first_index_found(tracks: Seq<TrackRef>, id: usize)
    ensures
        0 <= first_index(tracks, id) <= tracks.len(),
        first_index(tracks, id) < tracks.len() ==> tracks[first_index(tracks, id)].identity() == id,
        forall|j: int| 0 <= j < first_index(tracks, id) ==> #[trigger] tracks[j].identity() != id,
{
    lemma_position_from_bounds(tracks, id, 0);
}

proof fn lemma_position_from_bounds(tracks: Seq<TrackRef>, id: usize, start: int)
    requires
        0 <= start,
    ensures
        start <= position_from(tracks, id, start),
        start <= tracks.len() ==> position_from(tracks, id, start) <= tracks.len(),
        position_from(tracks, id, start) < tracks.len() ==> tracks[position_from(tracks, id, start)].identity() == id,
        forall|j: int| start <= j < position_from(tracks, id, start) ==> #[trigger] tracks[j].identity() != id,
    decreases tracks.len() - start,
{
    if !(start >= tracks.len() || tracks[start].identity() == id) {
        lemma_position_from_bounds(tracks, id, start + 1);
    }
}

/// Finds the first position of the track with identity `id`, or the length of
/// `tracks` where it is not there.
pub fn find_position(tracks: &[TrackRef], id: usize) -> (position: usize)
    ensures
        position as int == first_index(tracks@, id),
        position <= tracks@.len(),
{
    let mut i: usize = 0;
    while i < tracks.len()
        invariant
            i <= tracks@.len(),
            forall|j: int| 0 <= j < i ==> #[trigger] tracks@[j].identity() != id,
        decreases tracks.len() - i,
    {
        if tracks[i].id() == id {
            proof {
                lemma_position_from(tracks@, id, 0, i as int);
            }
            return i;
        }
        i += 1;
    }
    proof {
        lemma_position_from(tracks@, id, 0, i as int);
    }
    i
}

} // verus!
