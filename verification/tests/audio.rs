use nagametv::audio::{
    choices, intent_deadline, intent_matches, intent_step, routed_step, AudioDefault, Candidate, Choice, Descriptor, IntentStep,
    ProgramKey, Role, Track, INTENT_TIMEOUT_MS,
};
use nagametv::routing::{route, Mode, Routing, RoutingError};

fn track(selected: bool) -> Track {
    Track {
        id: "source/00000110".into(),
        component_tag: Some(16),
        language: "native".into(),
        title: String::new(),
        selected,
    }
}

fn dual_mono() -> Descriptor {
    Descriptor { dual: true, role: Role::Main, main: true, langs: vec!["jpn".into(), "eng".into()] }
}

fn program(start: u64) -> ProgramKey {
    ProgramKey { id: 1, start, duration: 100, network_id: 10, service_id: 1 }
}

fn candidates(options: &[Choice]) -> Vec<Candidate> {
    options
        .iter()
        .map(|choice| Candidate { id: choice.id.clone(), default: choice.default, enabled: choice.enabled })
        .collect()
}

#[test]
fn dual_options_and_keys_follow_program_and_descriptor_identity() {
    let format = Routing::new().format();
    let mut key = program(100);
    let options = choices(&vec![(track(false), Some(dual_mono()))], Some(key), format.mode()).unwrap();
    assert_eq!(
        options.iter().map(|choice| choice.role).collect::<Vec<_>>(),
        [Role::Main, Role::Sub, Role::Both]
    );
    assert_eq!(
        options.iter().map(|choice| choice.mode).collect::<Vec<_>>(),
        [Mode::Main, Mode::Sub, Mode::Both]
    );
    assert_eq!(options[0].language, "jpn");
    assert_eq!(options[1].language, "eng");
    assert!(options.iter().all(|choice| choice.enabled && !choice.selected));
    assert!(options.iter().all(|choice| choice.number == 1 && choice.track == 0));
    assert_ne!(options[0].id, options[1].id);
    key.start = 200;
    assert_ne!(
        options[0].id,
        choices(&vec![(track(false), Some(dual_mono()))], Some(key), format.mode()).unwrap()[0].id
    );
    let unsupported = choices(&vec![(track(true), Some(dual_mono()))], Some(key), format.mode()).unwrap();
    assert!(unsupported.iter().all(|choice| !choice.enabled));
    assert!(unsupported[2].selected);
    let missing = choices(&vec![(track(true), None)], None, format.mode()).unwrap();
    assert_eq!(missing.len(), 1);
    assert_eq!(missing[0].role, Role::Unknown);
    assert_eq!(missing[0].language, "native");
    assert!(missing[0].selected && missing[0].enabled);
    // The same track, program, descriptor and side keep their key.
    let again = choices(&vec![(track(false), Some(dual_mono()))], Some(program(100)), format.mode()).unwrap();
    assert_eq!(again[1].id, options[1].id);
}

#[test]
fn applied_intent_expires_with_program_descriptor_or_format_changes() {
    let mut routing = Routing::new();
    let format = routing.format();
    assert!(intent_matches(true, true, Some(format.generation()), format.generation()));
    assert!(intent_matches(true, true, None, format.generation()));
    assert!(!intent_matches(false, false, Some(format.generation()), format.generation()));
    assert!(!intent_matches(true, false, Some(format.generation()), format.generation()));
    assert!(!intent_matches(false, true, Some(format.generation()), format.generation()));
    routing.reset();
    let after = routing.format();
    assert_ne!(after.generation(), format.generation());
    assert!(!intent_matches(true, true, Some(format.generation()), after.generation()));
}

#[test]
fn defaults_wait_for_metadata_and_preserve_manual_choices_until_program_changes() {
    let tracks = || {
        let mut t = track(false);
        t.id = "s/00000110".into();
        t.language = String::new();
        t
    };
    let format = Routing::new().format();
    let mut policy = AudioDefault::new();
    let bare = choices(&vec![(tracks(), None)], None, format.mode()).unwrap();
    assert!(policy.candidate(&candidates(&bare)).is_none());
    let start = 100;
    let options_choices = choices(&vec![(tracks(), Some(dual_mono()))], Some(program(start)), format.mode()).unwrap();
    let options = candidates(&options_choices);
    let chosen = policy.candidate(&options).unwrap();
    assert_eq!(options_choices[chosen].role, Role::Main);
    assert_eq!(options.iter().filter(|c| c.default).count(), 1);
    let mut unavailable = candidates(&options_choices);
    for option in &mut unavailable {
        option.enabled = false;
    }
    assert!(policy.candidate(&unavailable).is_none());
    // Accepted manual Sub and Both must suppress initial Main selection.
    for index in [1, 2] {
        policy.user_choice(&options[index].id);
        assert!(policy.candidate(&options).is_none());
        assert!(policy.candidate(&unavailable).is_none());
    }
    policy.automatic_choice(&options[0].id);
    assert!(policy.candidate(&options).is_none());
    let next_choices = choices(&vec![(tracks(), Some(dual_mono()))], Some(program(start + 100)), format.mode()).unwrap();
    let next = candidates(&next_choices);
    let chosen = policy.candidate(&next).unwrap();
    assert_eq!(next_choices[chosen].role, Role::Main);
    let now = 5_000;
    assert!(policy.due(now));
    assert!(!policy.due(now + 999));
    assert!(policy.due(now + 1_000));
}

#[test]
fn generations_and_stream_identity_reject_old_requests() {
    let mut routing = Routing::new();
    assert_eq!(routing.select(routing.format(), Mode::Main), Err(RoutingError::Unsupported));
    assert!(routing.stream_start("old"));
    routing.renegotiate(true);
    let old = routing.format();
    assert_eq!(routing.select_for(old, "old", Mode::Main), Ok(()));
    assert_eq!(routing.format().mode, Some(Mode::Main));
    assert!(routing.stream_start("new"));
    assert_eq!(routing.format().mode, Some(Mode::Both));
    assert_eq!(routing.select_for(old, "new", Mode::Sub), Err(RoutingError::Changed));
    assert!(routing.select_for(routing.format(), "old", Mode::Sub).is_err());
    routing.renegotiate(false);
    assert_eq!(
        routing.select_for(routing.format(), "new", Mode::Sub),
        Err(RoutingError::Unsupported)
    );
    routing.renegotiate(true);
    assert_eq!(routing.select_for(routing.format(), "new", Mode::Sub), Ok(()));
    routing.reset();
    assert_eq!(routing.format().mode, None);
}

#[test]
fn routing_preserves_sample_bits_and_rejects_partial_frames() {
    let original = vec![1u8, 0, 0xc0, 0x7f, 0, 0, 0, 0x80];
    for mode in [Mode::Main, Mode::Sub, Mode::Both] {
        let mut data = original.clone();
        assert_eq!(route(&mut data, mode), Ok(()));
        let expected = match mode {
            Mode::Main => vec![1, 0, 0xc0, 0x7f, 1, 0, 0xc0, 0x7f],
            Mode::Sub => vec![0, 0, 0, 0x80, 0, 0, 0, 0x80],
            Mode::Both => original.clone(),
        };
        assert_eq!(data, expected);
    }
    let mut partial = vec![0u8; 9];
    assert!(route(&mut partial, Mode::Main).is_err());
    assert_eq!(partial, vec![0u8; 9]);
}

#[test]
fn flushing_keeps_the_stream_but_starts_a_new_format() {
    let mut routing = Routing::new();
    assert!(routing.stream_start("a"));
    routing.renegotiate(true);
    assert_eq!(routing.select_for(routing.format(), "a", Mode::Sub), Ok(()));
    let before = routing.format();
    routing.flush();
    assert_eq!(routing.format().mode, Some(Mode::Both));
    assert_eq!(routing.select_for(before, "a", Mode::Sub), Err(RoutingError::Changed));
    assert_eq!(routing.select_for(routing.format(), "a", Mode::Main), Ok(()));
}

#[test]
fn a_side_choice_routes_once_its_stream_is_selected_and_gives_up_after_its_deadline() {
    let chosen_at = 1_000;
    let deadline = intent_deadline(chosen_at);
    assert_eq!(deadline, chosen_at + INTENT_TIMEOUT_MS);
    assert_eq!(intent_deadline(u64::MAX - 1), u64::MAX);
    let expired = |now: u64| now >= deadline;
    // The stream is not selected yet: wait until the deadline, then fail.
    assert_eq!(intent_step(Some(false), true, false, expired(2_000)), IntentStep::Keep);
    assert_eq!(intent_step(Some(false), true, false, expired(6_000)), IntentStep::Fail);
    // Selected: route the side; once applied, nothing more.
    assert_eq!(intent_step(Some(true), true, false, expired(2_000)), IntentStep::Route);
    assert_eq!(routed_step(true, false, expired(2_000)), IntentStep::Keep);
    assert_eq!(intent_step(Some(true), true, true, expired(9_000)), IntentStep::Keep);
    // A refused route waits before the deadline and fails after it, or once applied.
    assert_eq!(routed_step(false, false, expired(2_000)), IntentStep::Keep);
    assert_eq!(routed_step(false, false, expired(6_000)), IntentStep::Fail);
    assert_eq!(routed_step(false, true, expired(2_000)), IntentStep::Fail);
    // An applied side whose stream was deselected fails at once.
    assert_eq!(intent_step(Some(false), true, true, expired(2_000)), IntentStep::Fail);
    // A lost stream or a changed program resets the choice.
    assert_eq!(intent_step(None, true, true, false), IntentStep::Reset);
    assert_eq!(intent_step(Some(true), false, true, false), IntentStep::Reset);
}
