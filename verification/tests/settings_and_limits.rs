use nagametv::limits::{Limits, SavedLimits, Policy, Retention, DEFAULT_FILESYSTEM_MIB, DEFAULT_MEMORY_MIB, DEFAULT_MINUTES, OutOfRange};
use nagametv::settings::{AudioOutput, ClockPolicy, DecoderPolicy, Mode, error_limit};
use nagametv::speed::{Rate, Snapshot, Availability};

/// Saved budgets as the settings file holds them: missing fields take their defaults.
fn saved_from_json(text: &str) -> Result<SavedLimits, serde_json::Error> {
    let value: serde_json::Value = serde_json::from_str(text)?;
    let defaults = SavedLimits::default();
    let field = |name: &str, default: u32| -> Result<u32, serde_json::Error> {
        match value.get(name) {
            None => Ok(default),
            Some(v) => serde_json::from_value::<u32>(v.clone()),
        }
    };
    Ok(SavedLimits {
        memory_mib: field("memory_mib", defaults.memory_mib)?,
        filesystem_mib: field("filesystem_mib", defaults.filesystem_mib)?,
        minutes: field("minutes", defaults.minutes)?,
    })
}

#[test]
fn invalid_saved_and_ui_budgets_cannot_construct_a_policy() {
    assert!(Limits::new(0, DEFAULT_FILESYSTEM_MIB, DEFAULT_MINUTES).is_none());
    assert!(Limits::new(DEFAULT_MEMORY_MIB, DEFAULT_FILESYSTEM_MIB, 0).is_none());
    let zero = saved_from_json(r#"{"memory_mib":0}"#).unwrap();
    assert!(matches!(Limits::try_from_saved(zero), Err(OutOfRange)));
    let limits = Limits::try_from_saved(saved_from_json("{}").unwrap()).unwrap();
    assert_eq!(limits, Limits::default());
    let saved = limits.saved();
    let text = format!(
        r#"{{"memory_mib":{},"filesystem_mib":{},"minutes":{}}}"#,
        saved.memory_mib, saved.filesystem_mib, saved.minutes
    );
    let again = Limits::try_from_saved(saved_from_json(&text).unwrap()).unwrap();
    assert_eq!(again, limits);
}

#[test]
fn budgets_follow_storage_and_defaults() {
    let limits = Limits::new(16, 64, 2).unwrap();
    assert_eq!(Policy::new(Retention::Off, limits).budget(), (2 * 1024 * 1024, 2_000_000_000));
    assert_eq!(Policy::new(Retention::Memory, limits).budget(), (16 * 1024 * 1024, 120_000_000_000));
    assert_eq!(Policy::new(Retention::Filesystem, limits).budget(), (64 * 1024 * 1024, 120_000_000_000));
    let policy: Policy = Retention::Memory.into();
    assert_eq!(policy.storage(), Retention::Memory);
    assert_eq!(policy.limits(), Limits::default());
    assert_eq!(Limits::default().memory_mib(), 256);
    assert_eq!(Limits::default().filesystem_mib(), 2048);
    assert_eq!(Limits::default().minutes(), 30);
    assert!(Limits::new(65536, 16, 180).is_some());
    assert!(Limits::new(65537, 16, 180).is_none());
    assert!(Limits::new(16, 15, 180).is_none());
    assert!(Limits::new(16, 16, 181).is_none());
}

#[test]
fn validates_aliases_and_constructs_each_cpu_processor() {
    for (input, expected) in [
        (" YADIF ", Mode::Yadif),
        ("quality", Mode::Yadif),
        ("balanced", Mode::Linear),
        ("linear", Mode::Linear),
        ("disabled", Mode::Off),
        ("off", Mode::Off),
    ] {
        let mode = Mode::parse(input).unwrap();
        assert_eq!(mode, expected);
    }
    assert!(Mode::parse("unknown").is_err());
    assert!(Mode::parse("").is_err());
}

#[test]
fn deinterlace_names_trim_unicode_space_and_keep_labels() {
    assert_eq!(Mode::parse("\u{3000}Gl\t").unwrap(), Mode::NvidiaGl);
    assert_eq!(Mode::parse("VA").unwrap(), Mode::VaApi);
    assert_eq!(Mode::parse("OFF\n").unwrap(), Mode::Off);
    match Mode::parse(" yadif2 ") {
        Err(invalid) => assert_eq!(invalid.0, " yadif2 "),
        Ok(_) => panic!("unknown mode accepted"),
    }
    assert_eq!(Mode::Yadif.label(), "YADIF (auto / all fields)");
    assert_eq!(Mode::VaApi.label(), "VA-API adaptive (all fields / NV12)");
    assert_eq!(Mode::default(), Mode::Yadif);
}

#[test]
fn system_clock_requires_explicit_selection() {
    assert_eq!(ClockPolicy::parse(None).unwrap(), ClockPolicy::Automatic);
    assert_eq!(ClockPolicy::parse(Some("auto")).unwrap(), ClockPolicy::Automatic);
    assert_eq!(ClockPolicy::parse(Some("system")).unwrap(), ClockPolicy::System);
    assert!(ClockPolicy::parse(Some("System")).is_err());
    assert!(ClockPolicy::parse(Some("")).is_err());
}

#[test]
fn test_output_requires_explicit_selection_and_preserves_clock_pacing() {
    assert_eq!(AudioOutput::parse(None, true).unwrap(), AudioOutput::Pulse);
    assert_eq!(AudioOutput::parse(None, false).unwrap(), AudioOutput::Automatic);
    assert_eq!(AudioOutput::parse(Some("pulsesink"), false).unwrap(), AudioOutput::Pulse);
    assert_eq!(AudioOutput::parse(Some("fakesink"), true).unwrap(), AudioOutput::TestDiscard);
    for value in ["", "auto", "fake", "FAKESINK"] {
        assert!(AudioOutput::parse(Some(value), false).is_err());
    }
}

#[test]
fn decoder_budget_scales_without_unbounded_frame_workers() {
    for (cpus, video, hevc) in [(1, 1, 1), (4, 4, 4), (8, 6, 8), (64, 6, 10)] {
        let policy = DecoderPolicy::new(cpus);
        assert_eq!(policy.threads("avdec_mpeg2video"), video);
        assert_eq!(policy.threads("avdec_h264"), video);
        assert_eq!(policy.threads("avdec_h265"), hevc);
    }
    assert_eq!(DecoderPolicy::new(0).threads("avdec_h264"), 1);
}

#[test]
fn decoder_error_limit_keeps_stricter_limits() {
    assert_eq!(error_limit(-1), 64);
    assert_eq!(error_limit(0), 0);
    assert_eq!(error_limit(10), 10);
    assert_eq!(error_limit(64), 64);
    assert_eq!(error_limit(65), 64);
}

#[test]
fn rates_are_checked_tenths() {
    assert!(Rate::checked(4).is_none());
    assert!(Rate::checked(21).is_none());
    for tenths in 5..=20 {
        let rate = Rate::checked(tenths).unwrap();
        assert_eq!(rate.tenths(), tenths);
        assert_eq!(rate.faster(), tenths > 10);
    }
    let snapshot = Snapshot::default();
    assert_eq!(snapshot.applied.tenths(), 10);
    assert_eq!(snapshot.requested.tenths(), 10);
    assert_eq!(snapshot.availability, Availability::Inactive);
    assert!(!snapshot.at_live_edge);
}
