use nagametv::recording::BroadcastService;
use nagametv::session::{
    has_identity, live_controls, live_service, live_subtitles, recording_subtitles, return_available, speed,
    subtitle_start, timeline_seek_available, transport_available, Source, SubtitleInput, SubtitleStart,
};
use nagametv::speed::{Availability, Rate, Snapshot};
use nagametv::timeline::Error;

#[test]
fn subtitles_start_only_for_their_kind_of_source() {
    let service = BroadcastService { network_id: 1, service_id: 42 };
    assert_eq!(live_subtitles(true, Some(service)), SubtitleInput::Live(Some(service)));
    assert_eq!(live_subtitles(false, Some(service)), SubtitleInput::Disabled);
    assert_eq!(recording_subtitles(true, 42), SubtitleInput::Recording(42));
    assert_eq!(recording_subtitles(false, 42), SubtitleInput::Disabled);
    assert!(matches!(subtitle_start(None), SubtitleStart::Disabled));
    assert!(matches!(subtitle_start(Some(Ok(()))), SubtitleStart::Parsing));
    assert!(matches!(subtitle_start(Some(Err("no PMT".into()))), SubtitleStart::Failed(m) if m == "no PMT"));
    assert_eq!(live_service(Some(service)), Some(42));
    assert_eq!(live_service(Some(BroadcastService { network_id: 1, service_id: 0 })), None);
    assert_eq!(live_service(None), None);
}

#[test]
fn controls_follow_the_source() {
    for source in [Source::Media { broadcast: false }, Source::Recording, Source::Live] {
        assert_eq!(transport_available(true, source), Ok(()));
        assert_eq!(transport_available(false, source), Err(Error::Unavailable));
    }
    assert_eq!(transport_available(true, Source::Idle), Err(Error::Unavailable));
    assert!(has_identity(Source::Media { broadcast: true }));
    assert!(!has_identity(Source::Media { broadcast: false }));
    assert!(!has_identity(Source::Idle));
    assert!(live_controls(Source::Live));
    assert!(!live_controls(Source::Recording));
    assert_eq!(timeline_seek_available(true, Source::Live, true), Ok(()));
    assert_eq!(timeline_seek_available(true, Source::Live, false), Err(Error::Unavailable));
    assert_eq!(timeline_seek_available(true, Source::Recording, true), Err(Error::Unavailable));
    assert_eq!(return_available(true, Source::Live, true), Ok(()));
    assert_eq!(return_available(true, Source::Live, false), Err(Error::Unavailable));
}

#[test]
fn rates_need_a_tempo_element() {
    let fast = Rate::checked(15).unwrap();
    let controller = Snapshot { applied: fast, requested: fast, availability: Availability::Variable, at_live_edge: false };
    assert_eq!(speed(Source::Recording, controller, true), controller);
    assert_eq!(speed(Source::Recording, controller, false).availability, Availability::MissingTempo);
    assert_eq!(speed(Source::Idle, controller, true), Snapshot::default());
}
