use nagametv::diagnostics::{live_resume_rejected, missing_decoder, network_source, Counts, Failure, Hint, Kind};

fn stream(code: Option<u32>, network_resource: bool) -> Failure {
    Failure::Stream { http_status: code, network_resource }
}

#[test]
fn structured_http_status_survives_native_message_and_cleanup() {
    for (code, expected) in [
        (503, Hint::ServiceUnavailable),
        (404, Hint::MissingChannel),
        (401, Hint::AccessDenied),
        (403, Hint::AccessDenied),
        (408, Hint::Timeout),
        (504, Hint::Timeout),
        (500, Hint::Server),
        (599, Hint::Server),
        (400, Hint::Rejected),
        (429, Hint::Rejected),
        (200, Hint::Generic),
        (600, Hint::Generic),
    ] {
        let error = stream(Some(code), false);
        assert_eq!(error.hint(), expected);
        let combined = Failure::Cleanup(Box::new(stream(Some(code), false)));
        assert_eq!(combined.hint(), expected);
    }
}

#[test]
fn network_provenance_and_optional_details_do_not_mislabel_output_failure() {
    // A status given as text is no structured status: it is absent here.
    for code in [None] {
        assert_eq!(stream(code, false).hint(), Hint::Generic);
        assert_eq!(stream(code, true).hint(), Hint::Network);
    }
    assert_eq!(Failure::EndOfStream.hint(), Hint::Ended);
    assert_eq!(Failure::Recording.hint(), Hint::Recording);
    assert_eq!(Failure::Other.hint(), Hint::Generic);
    assert_eq!(
        Failure::Cleanup(Box::new(Failure::Cleanup(Box::new(Failure::EndOfStream)))).hint(),
        Hint::Ended
    );
}

#[test]
fn every_hint_has_source_text() {
    for hint in [
        Hint::ServiceUnavailable,
        Hint::MissingChannel,
        Hint::AccessDenied,
        Hint::Timeout,
        Hint::Server,
        Hint::Rejected,
        Hint::Network,
        Hint::Ended,
        Hint::Generic,
        Hint::Recording,
    ] {
        assert!(!hint.source().is_empty());
    }
}

#[test]
fn native_warning_details_are_typed_and_do_not_retain_the_source() {
    let mut counts = Counts::default();
    counts.observe(Kind::from_details(Some("continuity-mismatch"), Some(273)));
    assert_eq!(
        counts,
        Counts { total: 1, continuity: 1, last_continuity_pid: Some(273) }
    );
}

#[test]
fn text_is_not_classification_and_invalid_pid_clears_previous_identity() {
    let mut counts = Counts { total: u64::MAX - 1, continuity: 1, last_continuity_pid: Some(273) };
    // Message text that reads like a kind, without details, is no classification.
    counts.observe(Kind::from_details(None, None));
    assert_eq!(counts.continuity, 1);
    assert_eq!(counts.last_continuity_pid, Some(273));
    // Missing pid, a pid given as text (no typed value), and a pid beyond 13 bits.
    for pid in [None, None, Some(8192)] {
        counts.observe(Kind::from_details(Some("continuity-mismatch"), pid));
        assert_eq!(counts.last_continuity_pid, None);
    }
    assert_eq!(counts.total, u64::MAX);
    assert_eq!(counts.continuity, 4);
}

#[test]
fn other_warning_types_are_counted_but_not_classified() {
    assert_eq!(Kind::from_details(Some("continuity"), Some(1)), Kind::Other);
    assert_eq!(Kind::from_details(Some("continuity-mismatch "), Some(1)), Kind::Other);
    assert_eq!(Kind::from_details(Some("continuity-mismatch"), Some(0x1fff)), Kind::ContinuityMismatch(Some(0x1fff)));
}

#[test]
fn missing_av_decoders_fail_while_optional_subtitle_data_does_not() {
    for (caps, required) in [
        ("video/x-h265", true),
        ("audio/x-opus", true),
        ("subpicture/x-dvb", false),
        ("private/section", false),
    ] {
        let missing = missing_decoder("missing-plugin", "decoder", caps, Some("Test decoder".into()), caps.into());
        assert_eq!(missing.is_some(), required);
    }
    assert_eq!(missing_decoder("missing-plugin", "decoder", "audio/mpeg", None, "audio/mpeg, mpegversion=(int)4".into()).as_deref(), Some("audio/mpeg, mpegversion=(int)4"));
    assert!(missing_decoder("missing-plugin", "encoder", "video/x-h264", None, String::new()).is_none());
    assert!(missing_decoder("element", "decoder", "video/x-h264", None, String::new()).is_none());
}

#[test]
fn recovery_is_limited_to_http_source_seek_errors() {
    for (seek, recoverable) in [(true, true), (false, false)] {
        assert_eq!(live_resume_rejected(seek, Some("souphttpsrc")), recoverable);
    }
    assert!(!live_resume_rejected(true, None));
    assert!(!live_resume_rejected(true, Some("filesrc")));
    assert!(network_source(Some("souphttpsrc")));
    assert!(!network_source(Some("appsrc")));
    assert!(!network_source(None));
}
