use nagametv::settings::Mode;
use nagametv::video::{DeinterlaceStatus, InterlaceMode, Scan};

#[test]
fn typed_modes_and_mixed_frame_flags_do_not_map_pixels() {
    // (layout, frame flagged interlaced or one field, expected scan)
    for (mode, flagged, expected) in [
        (InterlaceMode::Progressive, true, Scan::Progressive),
        (InterlaceMode::Interleaved, false, Scan::Interlaced),
        (InterlaceMode::Fields, false, Scan::Interlaced),
        (InterlaceMode::Alternate, false, Scan::Interlaced),
        (InterlaceMode::Mixed, false, Scan::Progressive),
        (InterlaceMode::Mixed, true, Scan::Interlaced),
        (InterlaceMode::Other, false, Scan::Unknown),
    ] {
        assert_eq!(Scan::from_frame(mode, flagged), expected, "{mode:?}, {flagged}");
    }
    assert_eq!(Scan::default(), Scan::Unknown);
}

#[test]
fn gpu_filter_activity_is_not_inferred_from_a_progressive_mixed_frame() {
    let mixed = Some(InterlaceMode::Mixed);
    for mode in [Mode::NvidiaGl, Mode::VaApi] {
        let status = |input, passthrough| DeinterlaceStatus::new(mode, input, Scan::Progressive, mixed, passthrough);
        assert_eq!(status(Scan::Progressive, Some(false)), DeinterlaceStatus::Active);
        assert_eq!(status(Scan::Progressive, Some(true)), DeinterlaceStatus::Passthrough);
        assert_eq!(status(Scan::Progressive, None), DeinterlaceStatus::Unknown);
        assert_eq!(status(Scan::Unknown, Some(false)), DeinterlaceStatus::Unknown);
    }
}

#[test]
fn software_filters_are_active_only_when_they_make_interlaced_input_progressive() {
    let progressive = Some(InterlaceMode::Progressive);
    for mode in [Mode::Yadif, Mode::Linear] {
        assert_eq!(DeinterlaceStatus::new(mode, Scan::Interlaced, Scan::Progressive, progressive, None), DeinterlaceStatus::Active);
        assert_eq!(DeinterlaceStatus::new(mode, Scan::Progressive, Scan::Progressive, progressive, None), DeinterlaceStatus::Passthrough);
        assert_eq!(DeinterlaceStatus::new(mode, Scan::Interlaced, Scan::Interlaced, Some(InterlaceMode::Interleaved), None), DeinterlaceStatus::Passthrough);
    }
    assert_eq!(DeinterlaceStatus::new(Mode::Off, Scan::Unknown, Scan::Unknown, None, None), DeinterlaceStatus::Disabled);
}
