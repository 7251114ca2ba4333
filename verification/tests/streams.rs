use nagametv::streams::{StreamInfo, Streams, StreamsError};

#[derive(Clone, Copy)]
enum Kind {
    Video,
    Audio,
    Text,
}

fn catalog(ids: &[(&str, Kind)]) -> Vec<StreamInfo> {
    ids.iter()
        .map(|(id, kind)| StreamInfo {
            id: Some((*id).to_owned()),
            audio: matches!(kind, Kind::Audio),
            video: matches!(kind, Kind::Video),
            language: None,
            title: None,
        })
        .collect()
}

fn four_streams() -> Vec<StreamInfo> {
    catalog(&[("v", Kind::Video), ("ja", Kind::Audio), ("en", Kind::Audio), ("t", Kind::Text)])
}

fn streams() -> Streams {
    let mut streams = Streams::for_service(None);
    streams.collection = Some(four_streams());
    streams.selected = vec!["v".into(), "ja".into(), "t".into()];
    streams
}

/// What the pipeline is asked to select for `audio_id`, with the outcome recorded.
fn select(streams: &mut Streams, audio_id: &str) -> Result<Vec<String>, StreamsError> {
    let ids = streams.selection(audio_id);
    streams.requested(audio_id, ids.as_ref().map(|_| ()).map_err(|error| *error));
    ids
}

#[test]
fn selection_preserves_video_and_text_and_rejects_stale_or_non_audio_ids() {
    let streams = streams();
    assert_eq!(streams.selection("en"), Ok(vec!["v".to_owned(), "t".to_owned(), "en".to_owned()]));
    assert!(matches!(streams.selection("gone"), Err(StreamsError::Unavailable)));
    assert!(matches!(streams.selection("v"), Err(StreamsError::Unavailable)));
    let tracks = streams.tracks();
    assert_eq!(tracks.len(), 2);
    assert!(tracks[0].selected);
    assert!(!tracks[1].selected);
    assert!(tracks.iter().all(|track| track.language.is_empty()));
}

#[test]
fn native_selection_event_preserves_other_streams_and_waits_for_confirmation() {
    let mut streams = streams();
    let collection = four_streams();
    assert_eq!(select(&mut streams, "en"), Ok(vec!["v".to_owned(), "t".to_owned(), "en".to_owned()]));
    // A sent request is not a confirmation.
    assert!(streams.tracks()[0].selected);
    assert!(!streams.tracks()[1].selected);
    let confirmed: Vec<StreamInfo> =
        collection.iter().filter(|stream| stream.id.as_deref() != Some("ja")).cloned().collect();
    streams.streams_selected(collection, &confirmed);
    assert!(!streams.tracks()[0].selected);
    assert!(streams.tracks()[1].selected);
    // A new catalog hands back the request, which no longer resolves.
    let replacement = catalog(&[("new", Kind::Audio)]);
    let resend = streams.collection_changed(replacement);
    assert_eq!(resend.as_deref(), Some("en"));
    assert!(matches!(select(&mut streams, "en"), Err(StreamsError::Unavailable)));
    assert!(streams.requested.is_none());
    assert_eq!(streams.failure, Some(StreamsError::Unavailable));
    assert!(streams.selected.is_empty());
    assert!(select(&mut streams, "new").is_ok());
    assert_eq!(streams.failure, None);
}

#[test]
fn a_video_stream_is_kept_before_the_first_confirmation() {
    let mut streams = Streams::for_service(Some(1));
    streams.collection = Some(catalog(&[("v1", Kind::Video), ("v2", Kind::Video), ("ja", Kind::Audio), ("t", Kind::Text)]));
    assert_eq!(streams.selection("ja"), Ok(vec!["v1".to_owned(), "ja".to_owned()]));
    streams.selected = vec!["v2".into(), "t".into()];
    assert_eq!(streams.selection("ja"), Ok(vec!["v2".to_owned(), "t".to_owned(), "ja".to_owned()]));
    assert_eq!(Streams::for_service(None).selection("ja"), Err(StreamsError::Unavailable));
    let mut tagged = Streams::for_service(None);
    tagged.collection = Some(vec![StreamInfo {
        id: Some("audio/0110".into()),
        audio: true,
        video: false,
        language: Some("jpn".into()),
        title: Some("Main".into()),
    }]);
    let tracks = tagged.tracks();
    assert_eq!((tracks[0].language.as_str(), tracks[0].title.as_str()), ("jpn", "Main"));
    assert_eq!(tracks[0].component_tag, None);
}
