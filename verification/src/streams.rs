//! One playback's stream catalog and confirmed selection: which audio tracks exist, which
//! streams a track request selects, and what a new catalog or a confirmation changes.
use vstd::prelude::*;
use crate::audio::Track;
use crate::audio_components::{stream_pid, tag_of, Components};
use crate::text::is_word;
use vstd::utf8::encode_utf8;

verus! {

#[derive(Clone, Copy, Debug, PartialEq, Eq, Structural)]
pub enum StreamsError {
    /// The track is not in the current catalog.
    Unavailable,
    /// The pipeline refused the selection.
    Rejected,
}

/// One stream of the demuxer's catalog: its ID, whether it carries audio or video, and the
/// language and title tags it has.
#[derive(Clone, Debug)]
pub struct StreamInfo {
    pub id: Option<String>,
    pub audio: bool,
    pub video: bool,
    pub language: Option<String>,
    pub title: Option<String>,
}

/// The catalog, the confirmed selection, the track waiting for confirmation, the last
/// failure and the audio components of the service.
pub struct Streams {
    pub collection: Option<Vec<StreamInfo>>,
    pub selected: Vec<String>,
    pub requested: Option<String>,
    pub failure: Option<StreamsError>,
    pub components: Components,
}

pub open spec fn has_id(ids: Seq<String>, id: Seq<char>) -> bool {
    exists|j: int| 0 <= j < ids.len() && (#[trigger] ids[j])@ == id
}

/// The IDs of the selected streams that are not audio, in catalog order.
pub open spec fn kept_ids(streams: Seq<StreamInfo>, selected: Seq<String>) -> Seq<Seq<char>>
    decreases streams.len(),
{
    if streams.len() == 0 {
        Seq::empty()
    } else {
        let rest = kept_ids(streams.drop_last(), selected);
        let stream = streams.last();
        if !stream.audio && stream.id is Some && has_id(selected, stream.id->0@) {
            rest.push(stream.id->0@)
        } else {
            rest
        }
    }
}

/// Whether a selected stream that is not audio is video.
pub open spec fn keeps_video(streams: Seq<StreamInfo>, selected: Seq<String>) -> bool {
    exists|i: int|
        0 <= i < streams.len() && !(#[trigger] streams[i]).audio && streams[i].video && streams[i].id is Some
            && has_id(selected, streams[i].id->0@)
}

/// The first video stream, not audio, that is not selected.
pub open spec fn spare_video(streams: Seq<StreamInfo>, selected: Seq<String>) -> Option<Seq<char>>
    decreases streams.len(),
{
    if streams.len() == 0 {
        None
    } else {
        match spare_video(streams.drop_last(), selected) {
            Some(id) => Some(id),
            None => {
                let stream = streams.last();
                if !stream.audio && stream.video && stream.id is Some && !has_id(selected, stream.id->0@) {
                    Some(stream.id->0@)
                } else {
                    None
                }
            },
        }
    }
}

pub open spec fn has_audio(streams: Seq<StreamInfo>, audio_id: Seq<char>) -> bool {
    exists|i: int|
        0 <= i < streams.len() && (#[trigger] streams[i]).audio && streams[i].id is Some && streams[i].id->0@ == audio_id
}

/// The streams to select for an audio track: the selected streams that are not audio, a
/// video stream while none is selected yet, then the track. Unavailable without a catalog
/// or when the catalog has no such audio stream.
pub open spec fn selection_spec(collection: Option<Seq<StreamInfo>>, selected: Seq<String>, audio_id: Seq<char>) -> Result<
    Seq<Seq<char>>,
    StreamsError,
> {
    match collection {
        None => Err(StreamsError::Unavailable),
        Some(streams) => if !has_audio(streams, audio_id) {
            Err(StreamsError::Unavailable)
        } else {
            let kept = kept_ids(streams, selected);
            let with_video = if !keeps_video(streams, selected) && spare_video(streams, selected) is Some {
                kept.push(spare_video(streams, selected)->0)
            } else {
                kept
            };
            Ok(with_video.push(audio_id))
        },
    }
}

/// The audio streams with an ID, in catalog order.
pub open spec fn audio_streams(streams: Seq<StreamInfo>) -> Seq<StreamInfo>
    decreases streams.len(),
{
    if streams.len() == 0 {
        Seq::empty()
    } else {
        let rest = audio_streams(streams.drop_last());
        if streams.last().audio && streams.last().id is Some {
            rest.push(streams.last())
        } else {
            rest
        }
    }
}

pub open spec fn tag_text(tag: Option<String>) -> Seq<char> {
    match tag {
        Some(text) => text@,
        None => Seq::empty(),
    }
}

/// The track a stream gives: its ID, its component tag, its language and title (empty
/// without a tag) and whether it is selected.
pub open spec fn is_track(track: Track, stream: StreamInfo, selected: Seq<String>, components: Components) -> bool {
    &&& track.id@ == stream.id->0@
    &&& track.component_tag == match stream_pid(encode_utf8(stream.id->0@)) {
        Some(pid) => tag_of(components.components(), pid),
        None => None,
    }
    &&& track.language@ == tag_text(stream.language)
    &&& track.title@ == tag_text(stream.title)
    &&& track.selected == has_id(selected, stream.id->0@)
}

/// Whether a stream of the catalog has the ID.
pub open spec fn in_catalog(streams: Seq<StreamInfo>, id: Seq<char>) -> bool {
    exists|k: int| 0 <= k < streams.len() && (#[trigger] streams[k]).id is Some && streams[k].id->0@ == id
}

/// The IDs, in order, that the catalog still lists.
pub open spec fn still_listed(ids: Seq<String>, streams: Seq<StreamInfo>) -> Seq<Seq<char>>
    decreases ids.len(),
{
    if ids.len() == 0 {
        Seq::empty()
    } else {
        let rest = still_listed(ids.drop_last(), streams);
        if in_catalog(streams, ids.last()@) {
            rest.push(ids.last()@)
        } else {
            rest
        }
    }
}

/// The IDs of the streams that have one, in order.
pub open spec fn stream_ids(streams: Seq<StreamInfo>) -> Seq<Seq<char>>
    decreases streams.len(),
{
    if streams.len() == 0 {
        Seq::empty()
    } else {
        let rest = stream_ids(streams.drop_last());
        match streams.last().id {
            Some(id) => rest.push(id@),
            None => rest,
        }
    }
}

/// Whether `ids` are exactly `expected`, in order.
pub open spec fn ids_are(ids: Seq<String>, expected: Seq<Seq<char>>) -> bool {
    &&& ids.len() == expected.len()
    &&& forall|i: int| 0 <= i < ids.len() ==> (#[trigger] ids[i])@ == expected[i]
}

fn contains_id(ids: &Vec<String>, id: &str) -> (found: bool)
    ensures
        found == has_id(ids@, id@),
{
    let mut j: usize = 0;
    while j < ids.len()
        invariant
            j <= ids.len(),
            forall|k: int| 0 <= k < j ==> (#[trigger] ids@[k])@ != id@,
        decreases ids.len() - j,
    {
        if is_word(ids[j].as_str(), id) {
            return true;
        }
        j = j + 1;
    }
    false
}

fn tag_or_empty(tag: &Option<String>) -> (text: String)
    ensures
        text@ == tag_text(*tag),
{
    match tag {
        Some(text) => text.clone(),
        None => String::new(),
    }
}

impl Streams {
    pub fn for_service(service: Option<u16>) -> (streams: Streams)
        ensures
            streams.collection is None,
            streams.selected@.len() == 0,
            streams.requested is None,
            streams.failure is None,
            streams.components.service_spec() == service,
            streams.components.components() == Seq::<crate::audio_components::Component>::empty(),
    {
        Streams {
            collection: None,
            selected: Vec::new(),
            requested: None,
            failure: None,
            components: Components::for_service(service),
        }
    }

    /// The audio tracks of the catalog, in its order.
    pub fn tracks(&self) -> (tracks: Vec<Track>)
        ensures
            ({
                let streams = match self.collection {
                    Some(c) => audio_streams(c@),
                    None => Seq::empty(),
                };
                &&& tracks@.len() == streams.len()
                &&& forall|i: int| 0 <= i < tracks@.len() ==> is_track(#[trigger] tracks@[i], streams[i], self.selected@, self.components)
            }),
    {
        let mut tracks: Vec<Track> = Vec::new();
        match &self.collection {
            None => tracks,
            Some(collection) => {
                let mut i: usize = 0;
                while i < collection.len()
                    invariant
                        i <= collection.len(),
                        tracks@.len() == audio_streams(collection@.take(i as int)).len(),
                        forall|k: int| 0 <= k < tracks@.len() ==> is_track(#[trigger] tracks@[k], audio_streams(collection@.take(i as int))[k], self.selected@, self.components),
                    decreases collection.len() - i,
                {
                    let stream = &collection[i];
                    proof {
                        assert(collection@.take(i as int + 1).drop_last() =~= collection@.take(i as int));
                        assert(collection@.take(i as int + 1).last() == collection@[i as int]);
                    }
                    if stream.audio {
                        if let Some(id) = &stream.id {
                            let track = Track {
                                id: id.clone(),
                                component_tag: self.components.tag_for_stream(id.as_str()),
                                language: tag_or_empty(&stream.language),
                                title: tag_or_empty(&stream.title),
                                selected: contains_id(&self.selected, id.as_str()),
                            };
                            tracks.push(track);
                        }
                    }
                    i = i + 1;
                }
                proof {
                    assert(collection@.take(collection@.len() as int) =~= collection@);
                }
                tracks
            },
        }
    }

    /// The stream IDs that select the audio track `audio_id`.
    pub fn selection(&self, audio_id: &str) -> (ids: Result<Vec<String>, StreamsError>)
        ensures
            match (ids, selection_spec(
                match self.collection {
                    Some(c) => Some(c@),
                    None => None,
                },
                self.selected@,
                audio_id@,
            )) {
                (Ok(ids), Ok(expected)) => ids_are(ids@, expected),
                (Err(e), Err(expected)) => e == expected,
                _ => false,
            },
    {
        let collection = match &self.collection {
            Some(collection) => collection,
            None => return Err(StreamsError::Unavailable),
        };
        let mut found = false;
        let mut i: usize = 0;
        while i < collection.len()
            invariant
                i <= collection.len(),
                found == exists|k: int| 0 <= k < i && (#[trigger] collection@[k]).audio && collection@[k].id is Some && collection@[k].id->0@ == audio_id@,
            decreases collection.len() - i,
        {
            if collection[i].audio {
                if let Some(id) = &collection[i].id {
                    if is_word(id.as_str(), audio_id) {
                        found = true;
                    }
                }
            }
            i = i + 1;
        }
        if !found {
            return Err(StreamsError::Unavailable);
        }
        let mut ids: Vec<String> = Vec::new();
        let mut video: Option<String> = None;
        let mut selected_video = false;
        let mut i: usize = 0;
        while i < collection.len()
            invariant
                i <= collection.len(),
                ids_are(ids@, kept_ids(collection@.take(i as int), self.selected@)),
                selected_video == keeps_video(collection@.take(i as int), self.selected@),
                match video {
                    Some(v) => spare_video(collection@.take(i as int), self.selected@) == Some(v@),
                    None => spare_video(collection@.take(i as int), self.selected@) is None,
                },
            decreases collection.len() - i,
        {
            let stream = &collection[i];
            let ghost prefix = collection@.take(i as int);
            let ghost next = collection@.take(i as int + 1);
            proof {
                assert(next.drop_last() =~= prefix);
                assert(next.last() == collection@[i as int]);
            }
            if !stream.audio {
                if let Some(id) = &stream.id {
                    if contains_id(&self.selected, id.as_str()) {
                        if stream.video {
                            selected_video = true;
                        }
                        ids.push(id.clone());
                    } else if stream.video && video.is_none() {
                        video = Some(id.clone());
                    }
                }
            }
            proof {
                assert(keeps_video(next, self.selected@) == (keeps_video(prefix, self.selected@) || (!next.last().audio
                    && next.last().video && next.last().id is Some && has_id(self.selected@, next.last().id->0@)))) by {
                    if keeps_video(next, self.selected@) {
                        let k = choose|k: int|
                            0 <= k < next.len() && !(#[trigger] next[k]).audio && next[k].video && next[k].id is Some
                                && has_id(self.selected@, next[k].id->0@);
                        if k < i {
                            assert(prefix[k] == next[k]);
                        }
                    }
                    if keeps_video(prefix, self.selected@) {
                        let k = choose|k: int|
                            0 <= k < prefix.len() && !(#[trigger] prefix[k]).audio && prefix[k].video && prefix[k].id is Some
                                && has_id(self.selected@, prefix[k].id->0@);
                        assert(next[k] == prefix[k]);
                    }
                    if !next.last().audio && next.last().video && next.last().id is Some && has_id(
                        self.selected@,
                        next.last().id->0@,
                    ) {
                        assert(next[i as int] == next.last());
                    }
                }
            }
            i = i + 1;
        }
        proof {
            assert(collection@.take(collection@.len() as int) =~= collection@);
        }
        if !selected_video {
            if let Some(video) = video {
                ids.push(video);
            }
        }
        ids.push(audio_id.to_owned());
        Ok(ids)
    }

    /// After a selection was sent, or failed before or while sending: the failure is
    /// remembered, and a sent request waits for confirmation.
    pub fn requested(&mut self, audio_id: &str, result: Result<(), StreamsError>)
        ensures
            final(self).failure == match result {
                Ok(()) => None,
                Err(e) => Some(e),
            },
            result is Ok ==> (final(self).requested matches Some(r) && r@ == audio_id@),
            result is Err ==> final(self).requested == old(self).requested,
            final(self).collection == old(self).collection,
            final(self).selected == old(self).selected,
            final(self).components == old(self).components,
    {
        match result {
            Ok(()) => {
                self.failure = None;
                self.requested = Some(audio_id.to_owned());
            },
            Err(e) => {
                self.failure = Some(e);
            },
        }
    }

    /// A new catalog: selected streams that left it are forgotten, the rest keep their
    /// order, and a request waiting for confirmation is handed back to be sent again
    /// against the new catalog.
    pub fn collection_changed(&mut self, collection: Vec<StreamInfo>) -> (resend: Option<String>)
        ensures
            final(self).collection matches Some(c) && c@ == collection@,
            ids_are(final(self).selected@, still_listed(old(self).selected@, collection@)),
            resend == old(self).requested,
            final(self).requested is None,
            final(self).failure == old(self).failure,
            final(self).components == old(self).components,
    {
        let mut kept: Vec<String> = Vec::new();
        let mut i: usize = 0;
        while i < self.selected.len()
            invariant
                i <= self.selected.len(),
                ids_are(kept@, still_listed(self.selected@.take(i as int), collection@)),
            decreases self.selected.len() - i,
        {
            let id = &self.selected[i];
            let mut present = false;
            let mut k: usize = 0;
            while k < collection.len()
                invariant
                    k <= collection.len(),
                    present == exists|m: int| 0 <= m < k && (#[trigger] collection@[m]).id is Some && collection@[m].id->0@ == id@,
                decreases collection.len() - k,
            {
                if let Some(other) = &collection[k].id {
                    if is_word(other.as_str(), id.as_str()) {
                        present = true;
                    }
                }
                k = k + 1;
            }
            proof {
                assert(self.selected@.take(i as int + 1).drop_last() =~= self.selected@.take(i as int));
                assert(self.selected@.take(i as int + 1).last() == *id);
            }
            let ghost before = kept@;
            if present {
                kept.push(id.clone());
                proof {
                    assert forall|j: int| 0 <= j < kept@.len() implies (#[trigger] kept@[j])@
                        == still_listed(self.selected@.take(i as int + 1), collection@)[j] by {
                        if j < before.len() {
                            assert(kept@[j] == before[j]);
                        }
                    }
                }
            }
            i = i + 1;
        }
        proof {
            assert(self.selected@.take(self.selected@.len() as int) =~= self.selected@);
        }
        self.selected = kept;
        self.collection = Some(collection);
        let resend = self.requested.take();
        resend
    }

    /// The pipeline confirmed a selection: the catalog and the selected streams, in the
    /// confirmed order, are the confirmed ones; streams without an ID are not counted.
    pub fn streams_selected(&mut self, collection: Vec<StreamInfo>, selected: &Vec<StreamInfo>)
        ensures
            final(self).collection matches Some(c) && c@ == collection@,
            ids_are(final(self).selected@, stream_ids(selected@)),
            final(self).requested == old(self).requested,
            final(self).failure == old(self).failure,
            final(self).components == old(self).components,
    {
        let mut ids: Vec<String> = Vec::new();
        let mut i: usize = 0;
        while i < selected.len()
            invariant
                i <= selected.len(),
                ids_are(ids@, stream_ids(selected@.take(i as int))),
            decreases selected.len() - i,
        {
            proof {
                assert(selected@.take(i as int + 1).drop_last() =~= selected@.take(i as int));
                assert(selected@.take(i as int + 1).last() == selected@[i as int]);
            }
            let ghost before = ids@;
            if let Some(id) = &selected[i].id {
                ids.push(id.clone());
                proof {
                    assert forall|j: int| 0 <= j < ids@.len() implies (#[trigger] ids@[j])@
                        == stream_ids(selected@.take(i as int + 1))[j] by {
                        if j < before.len() {
                            assert(ids@[j] == before[j]);
                        }
                    }
                }
            }
            i = i + 1;
        }
        proof {
            assert(selected@.take(selected@.len() as int) =~= selected@);
        }
        self.selected = ids;
        self.collection = Some(collection);
    }
}

} // verus!
