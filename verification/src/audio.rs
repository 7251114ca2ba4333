//! Audio choices offered to the user, revalidated against the program's audio
//! descriptors and the native format; and the initial default choice.
use vstd::prelude::*;
use crate::routing::Mode;
use crate::text::is_word;

verus! {

/// What a choice plays.
#[derive(Clone, Copy, Debug, PartialEq, Eq, Structural)]
pub enum Role {
    Main,
    Sub,
    Both,
    Unknown,
}

/// The program's audio descriptor matched to a track, as far as choices depend on it.
pub struct Descriptor {
    /// A dual-mono component: main and sub in one stereo pair.
    pub dual: bool,
    /// The role the descriptor announces for a single component.
    pub role: Role,
    /// The program's main audio.
    pub main: bool,
    pub langs: Vec<String>,
}

/// A native audio track.
pub struct Track {
    pub id: String,
    pub component_tag: Option<u8>,
    pub language: String,
    pub title: String,
    pub selected: bool,
}

/// The identity of a program: its event, scheduled start and length, and its service.
#[derive(Clone, Copy, Debug, PartialEq, Eq, Structural)]
pub struct ProgramKey {
    pub id: u16,
    pub start: u64,
    pub duration: u64,
    pub network_id: u16,
    pub service_id: u16,
}

/// The key of a choice could not be written.
#[derive(Clone, Copy, Debug, PartialEq, Eq, Structural)]
pub struct KeyError;

/// One choice: its key, which track (numbered from one), which side, its language and
/// role, and whether it is selected, selectable and the program's default.
pub struct Choice {
    pub id: String,
    pub number: usize,
    pub track: usize,
    pub mode: Mode,
    pub language: String,
    pub role: Role,
    pub selected: bool,
    pub enabled: bool,
    pub default: bool,
}

/// The sides offered for a track: main, sub and both for dual mono, else both.
pub open spec fn modes_for(dual: bool) -> Seq<Mode> {
    if dual {
        seq![Mode::Main, Mode::Sub, Mode::Both]
    } else {
        seq![Mode::Both]
    }
}

/// The role of a side.
pub open spec fn role_for(dual: bool, mode: Mode, descriptor_role: Option<Role>) -> Role {
    if dual {
        match mode {
            Mode::Main => Role::Main,
            Mode::Sub => Role::Sub,
            Mode::Both => Role::Both,
        }
    } else {
        match descriptor_role {
            Some(r) => r,
            None => Role::Unknown,
        }
    }
}

/// The choice flags of a side: selected when its track is, and for dual mono when the
/// format plays that side; selectable unless a selected dual-mono track has no
/// negotiated format; default for the main descriptor, and for dual mono its main side.
pub open spec fn flags(track_selected: bool, dual: bool, main: bool, mode: Mode, format_mode: Option<Mode>) -> (bool, bool, bool) {
    (
        track_selected && (!dual || (match format_mode {
            Some(m) => m,
            None => Mode::Both,
        }) == mode),
        !track_selected || !dual || format_mode is Some,
        main && (!dual || mode == Mode::Main),
    )
}

/// The language of a side: the descriptor's language for it (the second one for the
/// sub side), else nothing for dual mono and the track's language otherwise.
pub open spec fn language_spec(descriptor: Option<Descriptor>, dual: bool, mode: Mode, track_language: Seq<char>) -> Seq<char> {
    let slot: int = if mode == Mode::Sub { 1 } else { 0 };
    match descriptor {
        Some(d) if slot < d.langs@.len() => d.langs@[slot]@,
        _ => if dual {
            Seq::<char>::empty()
        } else {
            track_language
        },
    }
}

/// A choice as the contracts see it.
pub struct ChoiceView {
    pub id: Option<Seq<char>>,
    pub number: int,
    pub track: int,
    pub mode: Mode,
    pub language: Seq<char>,
    pub role: Role,
    pub selected: bool,
    pub enabled: bool,
    pub default: bool,
}

pub open spec fn choice_view(c: Choice) -> ChoiceView {
    ChoiceView {
        id: Some(c.id@),
        number: c.number as int,
        track: c.track as int,
        mode: c.mode,
        language: c.language@,
        role: c.role,
        selected: c.selected,
        enabled: c.enabled,
        default: c.default,
    }
}

/// The choice for side `mode` of track `index`.
pub open spec fn side_choice(
    index: int,
    track: Track,
    descriptor: Option<Descriptor>,
    program: Option<ProgramKey>,
    mode: Mode,
    format_mode: Option<Mode>,
) -> ChoiceView {
    let dual = descriptor matches Some(d) && d.dual;
    let main = descriptor matches Some(d) && d.main;
    let (selected, enabled, default) = flags(track.selected, dual, main, mode, format_mode);
    ChoiceView {
        id: choice_key_of(track.id@, program_fields(program), descriptor_fields(descriptor), mode_name(mode)),
        number: index + 1,
        track: index,
        mode,
        language: language_spec(descriptor, dual, mode, track.language@),
        role: role_for(dual, mode, match descriptor { Some(d) => Some(d.role), None => None }),
        selected,
        enabled,
        default,
    }
}

/// The choices of track `index`, one per side it offers, in side order.
pub open spec fn track_choices(
    index: int,
    track: Track,
    descriptor: Option<Descriptor>,
    program: Option<ProgramKey>,
    format_mode: Option<Mode>,
) -> Seq<ChoiceView> {
    let modes = modes_for(descriptor matches Some(d) && d.dual);
    Seq::new(modes.len(), |k: int| side_choice(index, track, descriptor, program, modes[k], format_mode))
}

/// The choices of all tracks, in track order.
pub open spec fn all_choices(tracks: Seq<(Track, Option<Descriptor>)>, program: Option<ProgramKey>, format_mode: Option<Mode>) -> Seq<ChoiceView>
    decreases tracks.len(),
{
    if tracks.len() == 0 {
        Seq::empty()
    } else {
        let last = tracks.len() - 1;
        all_choices(tracks.drop_last(), program, format_mode) + track_choices(last, tracks[last].0, tracks[last].1, program, format_mode)
    }
}

/// The program identity a key is written from.
pub open spec fn program_fields(program: Option<ProgramKey>) -> Option<(u16, u64, u64, u16, u16)> {
    match program {
        Some(p) => Some((p.id, p.start, p.duration, p.network_id, p.service_id)),
        None => None,
    }
}

pub open spec fn role_name(role: Role) -> Seq<char> {
    match role {
        Role::Main => "Main"@,
        Role::Sub => "Sub"@,
        Role::Both => "Both"@,
        Role::Unknown => "Unknown"@,
    }
}

pub open spec fn mode_name(mode: Mode) -> Seq<char> {
    match mode {
        Mode::Main => "Main"@,
        Mode::Sub => "Sub"@,
        Mode::Both => "Both"@,
    }
}

/// The descriptor a key is written from: dual mono, role, main audio and languages.
pub open spec fn descriptor_fields(descriptor: Option<Descriptor>) -> Option<(bool, Seq<char>, bool, Seq<Seq<char>>)> {
    match descriptor {
        Some(d) => Some((d.dual, role_name(d.role), d.main, d.langs@.map_values(|l: String| l@))),
        None => None,
    }
}

/// What `serde_json::to_string` writes for a choice's track ID, program identity,
/// descriptor and side, as a tuple; `None` where it fails.
pub uninterp spec fn choice_key_of(
    track: Seq<char>,
    program: Option<(u16, u64, u64, u16, u16)>,
    descriptor: Option<(bool, Seq<char>, bool, Seq<Seq<char>>)>,
    mode: Seq<char>,
) -> Option<Seq<char>>;

/// `serde_json::to_string` of the tuple of a choice's track ID, program identity,
/// descriptor and side, its error dropped. The text depends on those values alone.
#[verifier::external_body]
fn choice_key(
    track: &str,
    program: Option<(u16, u64, u64, u16, u16)>,
    descriptor: Option<(bool, &str, bool, &[String])>,
    mode: &str,
) -> (key: Option<String>)
    ensures
        ({
            let fields = match descriptor {
                Some((dual, role, main, langs)) => Some((dual, role@, main, langs@.map_values(|l: String| l@))),
                None => None,
            };
            match key {
                Some(k) => choice_key_of(track@, program, fields, mode@) == Some(k@),
                None => choice_key_of(track@, program, fields, mode@) is None,
            }
        }),
{
    serde_json::to_string(&(track, program, descriptor, mode)).ok()
}

fn role_text(role: Role) -> (text: &'static str)
    ensures
        text@ == role_name(role),
{
    proof {
        reveal_strlit("Main");
        reveal_strlit("Sub");
        reveal_strlit("Both");
        reveal_strlit("Unknown");
    }
    match role {
        Role::Main => "Main",
        Role::Sub => "Sub",
        Role::Both => "Both",
        Role::Unknown => "Unknown",
    }
}

fn mode_text(mode: Mode) -> (text: &'static str)
    ensures
        text@ == mode_name(mode),
{
    proof {
        reveal_strlit("Main");
        reveal_strlit("Sub");
        reveal_strlit("Both");
    }
    match mode {
        Mode::Main => "Main",
        Mode::Sub => "Sub",
        Mode::Both => "Both",
    }
}

/// The key of one side of a track.
fn side_key(track: &Track, descriptor: &Option<Descriptor>, program: Option<ProgramKey>, mode: Mode) -> (key: Option<String>)
    ensures
        match key {
            Some(k) => choice_key_of(track.id@, program_fields(program), descriptor_fields(*descriptor), mode_name(mode)) == Some(k@),
            None => choice_key_of(track.id@, program_fields(program), descriptor_fields(*descriptor), mode_name(mode)) is None,
        },
{
    let fields = match program {
        Some(p) => Some((p.id, p.start, p.duration, p.network_id, p.service_id)),
        None => None,
    };
    let mode_word = mode_text(mode);
    match descriptor {
        Some(d) => {
            let role_word = role_text(d.role);
            choice_key(track.id.as_str(), fields, Some((d.dual, role_word, d.main, d.langs.as_slice())), mode_word)
        },
        None => choice_key(track.id.as_str(), fields, None, mode_word),
    }
}

fn side_flags(track_selected: bool, dual: bool, main: bool, mode: Mode, format_mode: Option<Mode>) -> (result: (bool, bool, bool))
    ensures
        result == flags(track_selected, dual, main, mode, format_mode),
{
    let played = match format_mode {
        Some(m) => m,
        None => Mode::Both,
    };
    (
        track_selected && (!dual || played == mode),
        !track_selected || !dual || format_mode.is_some(),
        main && (!dual || mode == Mode::Main),
    )
}

fn language_for(descriptor: Option<&Descriptor>, dual: bool, mode: Mode, track: &Track) -> (language: String)
    ensures
        language@ == match descriptor {
            Some(d) if (if mode == Mode::Sub { 1int } else { 0int }) < d.langs@.len() => d.langs@[if mode == Mode::Sub { 1int } else { 0int }]@,
            _ => if dual {
                Seq::<char>::empty()
            } else {
                track.language@
            },
        },
{
    let slot: usize = if mode == Mode::Sub {
        1
    } else {
        0
    };
    match descriptor {
        Some(d) => if slot < d.langs.len() {
            return d.langs[slot].clone();
        },
        None => {},
    }
    if dual {
        let empty = String::new();
        assert(empty@ =~= Seq::<char>::empty());
        empty
    } else {
        track.language.clone()
    }
}

/// The choices of the tracks, each with its matched descriptor, in track order and side
/// order, each keyed by its track, the program's identity, its descriptor and its side.
/// `format_mode` is the side the negotiated format plays. Refused only when a key cannot
/// be written.
pub fn choices(
    tracks: &Vec<(Track, Option<Descriptor>)>,
    program: Option<ProgramKey>,
    format_mode: Option<Mode>,
) -> (result: Result<Vec<Choice>, KeyError>)
    requires
        tracks@.len() < usize::MAX,
    ensures
        result is Ok <==> forall|i: int|
            0 <= i < all_choices(tracks@, program, format_mode).len() ==> (#[trigger] all_choices(tracks@, program, format_mode)[i]).id is Some,
        result matches Ok(r) ==> r@.len() == all_choices(tracks@, program, format_mode).len(),
        result matches Ok(r) ==> forall|i: int| 0 <= i < r@.len() ==> choice_view(#[trigger] r@[i]) == all_choices(tracks@, program, format_mode)[i],
        result matches Ok(r) ==> forall|i: int| 0 <= i < r@.len() ==> {
            let c = #[trigger] r@[i];
            let (track, descriptor) = tracks@[c.track as int];
            let dual = descriptor matches Some(d) && d.dual;
            &&& 0 <= c.track < tracks@.len()
            &&& c.number == c.track + 1
            &&& modes_for(dual).contains(c.mode)
            &&& c.role == role_for(dual, c.mode, match descriptor { Some(d) => Some(d.role), None => None })
            &&& (c.selected, c.enabled, c.default) == flags(track.selected, dual, descriptor matches Some(d) && d.main, c.mode, format_mode)
        },
{
    let mut result: Vec<Choice> = Vec::new();
    let mut index: usize = 0;
    while index < tracks.len()
        invariant
            index <= tracks@.len() < usize::MAX,
            result@.len() == all_choices(tracks@.take(index as int), program, format_mode).len(),
            forall|i: int| 0 <= i < result@.len() ==> choice_view(#[trigger] result@[i]) == all_choices(tracks@.take(index as int), program, format_mode)[i],
            forall|i: int| 0 <= i < result@.len() ==> {
                let c = #[trigger] result@[i];
                let (track, descriptor) = tracks@[c.track as int];
                let dual = descriptor matches Some(d) && d.dual;
                &&& 0 <= c.track < index
                &&& c.number == c.track + 1
                &&& modes_for(dual).contains(c.mode)
                &&& c.role == role_for(dual, c.mode, match descriptor { Some(d) => Some(d.role), None => None })
                &&& (c.selected, c.enabled, c.default) == flags(track.selected, dual, descriptor matches Some(d) && d.main, c.mode, format_mode)
            },
        decreases tracks@.len() - index,
    {
        let (track, descriptor) = &tracks[index];
        let dual = match descriptor {
            Some(d) => d.dual,
            None => false,
        };
        let main = match descriptor {
            Some(d) => d.main,
            None => false,
        };
        let descriptor_role = match descriptor {
            Some(d) => Some(d.role),
            None => None,
        };
        let modes: Vec<Mode> = if dual {
            vec![Mode::Main, Mode::Sub, Mode::Both]
        } else {
            vec![Mode::Both]
        };
        assert(modes@ =~= modes_for(dual));
        let ghost before = all_choices(tracks@.take(index as int), program, format_mode);
        let ghost sides = track_choices(index as int, *track, *descriptor, program, format_mode);
        proof {
            assert(tracks@.take(index as int + 1).drop_last() =~= tracks@.take(index as int));
            assert(all_choices(tracks@.take(index as int + 1), program, format_mode) == before + sides);
        }
        let mut m: usize = 0;
        while m < modes.len()
            invariant
                index < tracks@.len() < usize::MAX,
                modes@ == modes_for(dual),
                (*track, *descriptor) == tracks@[index as int],
                dual == (descriptor matches Some(d) && d.dual),
                main == (descriptor matches Some(d) && d.main),
                descriptor_role == match descriptor { Some(d) => Some(d.role), None => None },
                sides == track_choices(index as int, *track, *descriptor, program, format_mode),
                sides.len() == modes@.len(),
                before == all_choices(tracks@.take(index as int), program, format_mode),
                all_choices(tracks@.take(index as int + 1), program, format_mode) == before + sides,
                m <= modes@.len(),
                result@.len() == before.len() + m,
                forall|i: int| 0 <= i < before.len() ==> choice_view(#[trigger] result@[i]) == before[i],
                forall|i: int| before.len() <= i < result@.len() ==> choice_view(#[trigger] result@[i]) == sides[i - before.len()],
                forall|i: int| 0 <= i < result@.len() ==> {
                    let c = #[trigger] result@[i];
                    let (track, descriptor) = tracks@[c.track as int];
                    let dual = descriptor matches Some(d) && d.dual;
                    &&& 0 <= c.track <= index
                    &&& c.number == c.track + 1
                    &&& modes_for(dual).contains(c.mode)
                    &&& c.role == role_for(dual, c.mode, match descriptor { Some(d) => Some(d.role), None => None })
                    &&& (c.selected, c.enabled, c.default) == flags(track.selected, dual, descriptor matches Some(d) && d.main, c.mode, format_mode)
                },
            decreases modes@.len() - m,
        {
            let mode = modes[m];
            assert(modes_for(dual).contains(mode)) by {
                assert(modes_for(dual)[m as int] == mode);
            }
            let id = match side_key(track, descriptor, program, mode) {
                Some(id) => id,
                None => {
                    proof {
                        assert(sides[m as int] == side_choice(index as int, *track, *descriptor, program, mode, format_mode));
                        let all = all_choices(tracks@, program, format_mode);
                        lemma_choices_prefix(tracks@, program, format_mode, index as int + 1);
                        assert((before + sides)[before.len() + m] == sides[m as int]);
                        assert(all[before.len() + m] == sides[m as int]);
                        assert(all[before.len() + m].id is None);
                    }
                    return Err(KeyError);
                },
            };
            let role = if dual {
                match mode {
                    Mode::Main => Role::Main,
                    Mode::Sub => Role::Sub,
                    Mode::Both => Role::Both,
                }
            } else {
                match descriptor_role {
                    Some(r) => r,
                    None => Role::Unknown,
                }
            };
            let (selected, enabled, default) = side_flags(track.selected, dual, main, mode, format_mode);
            let language = language_for(descriptor.as_ref(), dual, mode, track);
            let choice = Choice { id, number: index + 1, track: index, mode, language, role, selected, enabled, default };
            proof {
                assert(sides[m as int] == side_choice(index as int, *track, *descriptor, program, mode, format_mode));
                assert(choice_view(choice) == sides[m as int]);
            }
            result.push(choice);
            m = m + 1;
        }
        proof {
            let next = all_choices(tracks@.take(index as int + 1), program, format_mode);
            assert(next.len() == result@.len());
            assert forall|i: int| 0 <= i < result@.len() implies choice_view(#[trigger] result@[i]) == next[i] by {
                if i < before.len() {
                    assert(next[i] == before[i]);
                } else {
                    assert(next[i] == sides[i - before.len()]);
                }
            }
        }
        index = index + 1;
    }
    proof {
        assert(tracks@.take(tracks@.len() as int) =~= tracks@);
        let all = all_choices(tracks@, program, format_mode);
        assert forall|i: int| 0 <= i < all.len() implies (#[trigger] all[i]).id is Some by {
            assert(choice_view(result@[i]) == all[i]);
        }
    }
    Ok(result)
}

/// The choices of the first tracks are a prefix of the choices of all.
proof fn lemma_choices_prefix(tracks: Seq<(Track, Option<Descriptor>)>, program: Option<ProgramKey>, format_mode: Option<Mode>, n: int)
    requires
        0 <= n <= tracks.len(),
    ensures
        all_choices(tracks.take(n), program, format_mode).len() <= all_choices(tracks, program, format_mode).len(),
        forall|i: int|
            0 <= i < all_choices(tracks.take(n), program, format_mode).len() ==> all_choices(tracks, program, format_mode)[i]
                == #[trigger] all_choices(tracks.take(n), program, format_mode)[i],
    decreases tracks.len() - n,
{
    if n < tracks.len() {
        lemma_choices_prefix(tracks, program, format_mode, n + 1);
        assert(tracks.take(n + 1).drop_last() =~= tracks.take(n));
        let small = all_choices(tracks.take(n), program, format_mode);
        let bigger = all_choices(tracks.take(n + 1), program, format_mode);
        assert forall|i: int| 0 <= i < small.len() implies bigger[i] == #[trigger] small[i] by {
        }
    } else {
        assert(tracks.take(n) =~= tracks);
    }
}

/// Whether a side choice still applies: the same program, the same descriptor, and, once
/// applied, the same format generation.
pub fn intent_matches(same_program: bool, same_descriptor: bool, applied: Option<u64>, generation: u64) -> (matches: bool)
    ensures
        matches == (same_program && same_descriptor && match applied {
            Some(g) => g == generation,
            None => true,
        }),
{
    same_program && same_descriptor && match applied {
        Some(g) => g == generation,
        None => true,
    }
}

/// How long a side choice waits for its stream to be selected.
pub const INTENT_TIMEOUT_MS: u64 = 5000;

/// When a side choice made at `now_ms` gives up waiting for its stream.
pub fn intent_deadline(now_ms: u64) -> (deadline: u64)
    ensures
        deadline == if now_ms + INTENT_TIMEOUT_MS > u64::MAX { u64::MAX as int } else { now_ms + INTENT_TIMEOUT_MS },
{
    now_ms.saturating_add(INTENT_TIMEOUT_MS)
}

/// What a pending side choice does when audio is updated.
#[derive(Clone, Copy, Debug, PartialEq, Eq, Structural)]
pub enum IntentStep {
    /// Nothing yet: it is applied and its stream still selected, or it waits for the stream.
    Keep,
    /// Its stream is gone or its program, descriptor or format changed: route both sides
    /// and forget it.
    Reset,
    /// Its stream is selected and it is not applied: route the chosen side now.
    Route,
    /// Its applied stream was deselected, or its stream was not selected in time: route
    /// both sides, forget it and report the side as unsupported.
    Fail,
}

/// The step of a pending side choice, from whether its stream is known and selected,
/// whether it still applies, whether it was applied and whether its deadline passed.
pub fn intent_step(stream_selected: Option<bool>, still_matches: bool, applied: bool, expired: bool) -> (step: IntentStep)
    ensures
        step == match stream_selected {
            None => IntentStep::Reset,
            Some(selected) => if !still_matches {
                IntentStep::Reset
            } else if selected {
                if applied { IntentStep::Keep } else { IntentStep::Route }
            } else if applied || expired {
                IntentStep::Fail
            } else {
                IntentStep::Keep
            },
        },
{
    match stream_selected {
        None => IntentStep::Reset,
        Some(selected) => if !still_matches {
            IntentStep::Reset
        } else if selected {
            if applied { IntentStep::Keep } else { IntentStep::Route }
        } else if applied || expired {
            IntentStep::Fail
        } else {
            IntentStep::Keep
        },
    }
}

/// After the chosen side was routed, or routing it was refused: a routed side is applied
/// (`Keep`); a refused one fails once applied before or past its deadline, else waits.
pub fn routed_step(routed: bool, applied: bool, expired: bool) -> (step: IntentStep)
    ensures
        step == if routed {
            IntentStep::Keep
        } else if applied || expired {
            IntentStep::Fail
        } else {
            IntentStep::Keep
        },
        step == IntentStep::Keep || step == IntentStep::Fail,
{
    if routed || !(applied || expired) {
        IntentStep::Keep
    } else {
        IntentStep::Fail
    }
}

/// Which choice the initial audio follows.
pub enum Selection {
    /// No choice yet; the default is taken once metadata offers one.
    Waiting,
    /// The user chose this key.
    User(String),
    /// The default chose this key.
    Automatic(String),
}

/// The initial audio policy: a choice survives until its key is no longer offered.
pub struct AudioDefault {
    selection: Selection,
    next_check_ms: Option<u64>,
}

/// An option as the default policy sees it: its key, and whether it is the default and
/// selectable.
pub struct Candidate {
    pub id: String,
    pub default: bool,
    pub enabled: bool,
}

pub open spec fn selection_key(selection: Selection) -> Option<Seq<char>> {
    match selection {
        Selection::Waiting => None,
        Selection::User(k) => Some(k@),
        Selection::Automatic(k) => Some(k@),
    }
}

/// The first selectable default option from `from` on, or the length.
pub open spec fn first_default(options: Seq<Candidate>, from: int) -> int
    decreases options.len() - from,
{
    if from < 0 || from >= options.len() {
        options.len() as int
    } else if options[from].default && options[from].enabled {
        from
    } else {
        first_default(options, from + 1)
    }
}

impl AudioDefault {
    pub closed spec fn key(self) -> Option<Seq<char>> {
        selection_key(self.selection)
    }

    pub closed spec fn next_check(self) -> Option<u64> {
        self.next_check_ms
    }

    pub fn new() -> (policy: AudioDefault)
        ensures
            policy.key() is None,
            policy.next_check() is None,
    {
        AudioDefault { selection: Selection::Waiting, next_check_ms: None }
    }

    /// The user chose `key`.
    pub fn user_choice(&mut self, key: &str)
        ensures
            final(self).key() == Some(key@),
            final(self).next_check() == old(self).next_check(),
    {
        self.selection = Selection::User(key.to_owned());
    }

    /// The default chose `key`, accepted or not: it is not retried every second.
    pub fn automatic_choice(&mut self, key: &str)
        ensures
            final(self).key() == Some(key@),
            final(self).next_check() == old(self).next_check(),
    {
        self.selection = Selection::Automatic(key.to_owned());
    }

    /// Whether the default is due at `now_ms`: at most once a second.
    pub fn due(&mut self, now_ms: u64) -> (due: bool)
        ensures
            due == !(old(self).next_check() matches Some(next) && now_ms < next),
            due ==> final(self).next_check() == Some(
                (if now_ms + 1000 > u64::MAX { u64::MAX as int } else { now_ms + 1000 }) as u64,
            ),
            !due ==> final(self).next_check() == old(self).next_check(),
            final(self).key() == old(self).key(),
    {
        if let Some(next) = self.next_check_ms {
            if now_ms < next {
                return false;
            }
        }
        self.next_check_ms = Some(now_ms.saturating_add(1000));
        true
    }

    /// The option to select by default, if any: none while the current choice is still
    /// offered (a temporary lack of support must not override it); else the selection
    /// waits, and the first selectable default option is taken.
    pub fn candidate(&mut self, options: &Vec<Candidate>) -> (index: Option<usize>)
        ensures
            ({
                let offered = old(self).key() matches Some(k) && exists|i: int| 0 <= i < options@.len() && #[trigger] options@[i].id@ == k;
                if offered {
                    index is None && final(self).key() == old(self).key()
                } else {
                    &&& final(self).key() is None
                    &&& match index {
                        Some(i) => i == first_default(options@, 0),
                        None => first_default(options@, 0) == options@.len(),
                    }
                }
            }),
            final(self).next_check() == old(self).next_check(),
    {
        let offered = match &self.selection {
            Selection::Waiting => false,
            Selection::User(key) => offered(options, key),
            Selection::Automatic(key) => offered(options, key),
        };
        if offered {
            return None;
        }
        self.selection = Selection::Waiting;
        first_enabled_default(options)
    }
}

fn first_enabled_default(options: &Vec<Candidate>) -> (index: Option<usize>)
    ensures
        match index {
            Some(i) => i == first_default(options@, 0),
            None => first_default(options@, 0) == options@.len(),
        },
{
    let mut i: usize = 0;
    while i < options.len()
        invariant
            i <= options@.len(),
            first_default(options@, 0) == first_default(options@, i as int),
        decreases options@.len() - i,
    {
        if options[i].default && options[i].enabled {
            return Some(i);
        }
        i = i + 1;
    }
    None
}

fn offered(options: &Vec<Candidate>, key: &String) -> (found: bool)
    ensures
        found == exists|i: int| 0 <= i < options@.len() && #[trigger] options@[i].id@ == key@,
{
    let mut i: usize = 0;
    while i < options.len()
        invariant
            i <= options@.len(),
            forall|j: int| 0 <= j < i ==> #[trigger] options@[j].id@ != key@,
        decreases options@.len() - i,
    {
        if is_word(options[i].id.as_str(), key.as_str()) {
            return true;
        }
        i = i + 1;
    }
    false
}

} // verus!
