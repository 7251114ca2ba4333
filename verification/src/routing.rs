//! Dual-mono routing: one state word binds the negotiated format's generation to the
//! chosen side, so that a choice made for one format never applies to another.
use vstd::prelude::*;
use crate::text::is_word;

verus! {

/// Which side of a dual-mono stream plays.
#[derive(Clone, Copy, Debug, PartialEq, Eq, Structural)]
pub enum Mode {
    Both,
    Main,
    Sub,
}

/// A negotiated format: its generation, and the side chosen for it (none unless the
/// format is a stereo pair).
#[derive(Clone, Copy, Debug, PartialEq, Eq, Structural)]
pub struct Format {
    generation: u64,
    pub mode: Option<Mode>,
}

impl Format {
    pub closed spec fn generation_spec(self) -> u64 {
        self.generation
    }

    pub closed spec fn mode_spec(self) -> Option<Mode> {
        self.mode
    }

    pub fn mode(self) -> (mode: Option<Mode>)
        ensures
            mode == self.mode_spec(),
    {
        self.mode
    }

    pub fn generation(self) -> (generation: u64)
        ensures
            generation == self.generation_spec(),
    {
        self.generation
    }
}

#[derive(Clone, Copy, Debug, PartialEq, Eq, Structural)]
pub enum RoutingError {
    /// The format changed since the choice was offered.
    Changed,
    /// The format has no sides to choose.
    Unsupported,
}

/// The mode a state's low bits encode.
pub open spec fn mode_of(bits: int) -> Option<Mode> {
    if bits == 1 {
        Some(Mode::Both)
    } else if bits == 2 {
        Some(Mode::Main)
    } else if bits == 3 {
        Some(Mode::Sub)
    } else {
        None
    }
}

pub open spec fn bits_of(mode: Mode) -> int {
    match mode {
        Mode::Both => 1,
        Mode::Main => 2,
        Mode::Sub => 3,
    }
}

/// A state whose generation is the next after `state`'s, wrapping, with the low bits
/// `bits`.
pub open spec fn advanced(state: u64, bits: int) -> u64 {
    ((((state / 4) + 1) % 0x4000_0000_0000_0000) * 4 + bits) as u64
}

/// The routing of one player: the state word and the identity of the active stream.
pub struct Routing {
    state: u64,
    stream: Option<String>,
}

pub struct RoutingView {
    pub state: u64,
    pub stream: Option<Seq<char>>,
}

impl View for Routing {
    type V = RoutingView;

    closed spec fn view(&self) -> RoutingView {
        RoutingView {
            state: self.state,
            stream: match self.stream {
                Some(s) => Some(s@),
                None => None,
            },
        }
    }
}

proof fn lemma_split(state: u64)
    ensures
        state >> 2u64 == state / 4,
        state & 3u64 == state % 4,
{
    assert(state >> 2u64 == state / 4) by (bit_vector);
    assert(state & 3u64 == state % 4) by (bit_vector);
}

fn next_state(state: u64, bits: u64) -> (next: u64)
    requires
        bits < 4,
    ensures
        next == advanced(state, bits as int),
{
    let w = state.wrapping_add(4);
    let next = (w & !3u64) | bits;
    assert(next / 4 == w / 4 && next % 4 == bits) by (bit_vector)
        requires
            next == (w & !3u64) | bits,
            bits < 4,
    ;
    if state <= u64::MAX - 4 {
        assert(w == state + 4);
    } else {
        assert(w == state + 4 - 0x1_0000_0000_0000_0000);
    }
    assert(w / 4 == ((state / 4) + 1) % 0x4000_0000_0000_0000);
    next
}

impl Routing {
    pub fn new() -> (routing: Routing)
        ensures
            routing@ == (RoutingView { state: 0, stream: None }),
    {
        Routing { state: 0, stream: None }
    }

    /// The current format.
    pub fn format(&self) -> (format: Format)
        ensures
            format.generation_spec() == self@.state / 4,
            format.mode_spec() == mode_of((self@.state % 4) as int),
    {
        proof {
            lemma_split(self.state);
        }
        let bits = self.state & 3;
        Format {
            generation: self.state >> 2,
            mode: if bits == 1 {
                Some(Mode::Both)
            } else if bits == 2 {
                Some(Mode::Main)
            } else if bits == 3 {
                Some(Mode::Sub)
            } else {
                None
            },
        }
    }

    /// Choose a side for `format`: refused when the format changed since, or when it
    /// has no sides.
    pub fn select(&mut self, format: Format, mode: Mode) -> (result: Result<(), RoutingError>)
        ensures
            result == if old(self)@.state / 4 != format.generation_spec() {
                Err::<(), RoutingError>(RoutingError::Changed)
            } else if old(self)@.state % 4 == 0 {
                Err::<(), RoutingError>(RoutingError::Unsupported)
            } else {
                Ok::<(), RoutingError>(())
            },
            result is Ok ==> final(self)@ == (RoutingView {
                state: (old(self)@.state - old(self)@.state % 4 + bits_of(mode)) as u64,
                ..old(self)@
            }),
            result is Err ==> final(self)@ == old(self)@,
    {
        proof {
            lemma_split(self.state);
        }
        let state = self.state;
        if state >> 2 != format.generation {
            return Err(RoutingError::Changed);
        }
        if state & 3 == 0 {
            return Err(RoutingError::Unsupported);
        }
        let bits: u64 = match mode {
            Mode::Both => 1,
            Mode::Main => 2,
            Mode::Sub => 3,
        };
        let next = (state & !3u64) | bits;
        assert(next == state - state % 4 + bits) by (bit_vector)
            requires
                next == (state & !3u64) | bits,
                bits < 4,
        ;
        self.state = next;
        Ok(())
    }

    /// Choose a side for `format` of the stream `stream`: refused as changed when another
    /// stream is active.
    pub fn select_for(&mut self, format: Format, stream: &str, mode: Mode) -> (result: Result<(), RoutingError>)
        ensures
            old(self)@.stream != Some(stream@) ==> result == Err::<(), RoutingError>(RoutingError::Changed)
                && final(self)@ == old(self)@,
            old(self)@.stream == Some(stream@) ==> result == if old(self)@.state / 4 != format.generation_spec() {
                Err::<(), RoutingError>(RoutingError::Changed)
            } else if old(self)@.state % 4 == 0 {
                Err::<(), RoutingError>(RoutingError::Unsupported)
            } else {
                Ok::<(), RoutingError>(())
            },
            result is Ok ==> final(self)@ == (RoutingView {
                state: (old(self)@.state - old(self)@.state % 4 + bits_of(mode)) as u64,
                ..old(self)@
            }),
            result is Err ==> final(self)@ == old(self)@,
    {
        let active = match &self.stream {
            Some(s) => is_word(s.as_str(), stream),
            None => false,
        };
        if !active {
            return Err(RoutingError::Changed);
        }
        self.select(format, mode)
    }

    /// A new stream starts: a new generation that keeps the negotiated stereo format but
    /// never the side chosen before.
    pub fn stream_start(&mut self, stream: &str) -> (started: bool)
        ensures
            started,
            final(self)@ == (RoutingView {
                state: advanced(old(self)@.state, if old(self)@.state % 4 != 0 { 1 } else { 0 }),
                stream: Some(stream@),
            }),
    {
        proof {
            lemma_split(self.state);
        }
        let stereo = self.state & 3 != 0;
        self.renegotiate(stereo);
        self.stream = Some(stream.to_owned());
        true
    }

    /// Playback stopped: no stream is active and the format is not negotiated.
    pub fn reset(&mut self)
        ensures
            final(self)@ == (RoutingView { state: advanced(old(self)@.state, 0), stream: None }),
    {
        self.stream = None;
        self.renegotiate(false);
    }

    /// A flush: the chosen side is forgotten, the stream and its format stay.
    pub fn flush(&mut self)
        ensures
            final(self)@ == (RoutingView {
                state: advanced(old(self)@.state, if old(self)@.state % 4 != 0 { 1 } else { 0 }),
                ..old(self)@
            }),
    {
        proof {
            lemma_split(self.state);
        }
        let bits: u64 = if self.state & 3 != 0 {
            1
        } else {
            0
        };
        self.state = next_state(self.state, bits);
    }

    /// New caps: a new generation, with both sides when stereo, else none.
    pub fn renegotiate(&mut self, stereo: bool)
        ensures
            final(self)@ == (RoutingView {
                state: advanced(old(self)@.state, if stereo { 1 } else { 0 }),
                ..old(self)@
            }),
    {
        let bits: u64 = if stereo {
            1
        } else {
            0
        };
        self.state = next_state(self.state, bits);
    }
}

/// Interleaved 32-bit stereo samples routed to one side: Main copies the left sample
/// over the right, Sub the right over the left, Both leaves them.
pub open spec fn routed(bytes: Seq<u8>, mode: Mode) -> Seq<u8> {
    Seq::new(
        bytes.len(),
        |i: int|
            {
                let frame = i / 8 * 8;
                let within = i % 4;
                match mode {
                    Mode::Both => bytes[i],
                    Mode::Main => bytes[frame + within],
                    Mode::Sub => bytes[frame + 4 + within],
                }
            },
    )
}

/// Byte `j` of frame `frame` after routing.
pub open spec fn route_byte(samples: Seq<u8>, mode: Mode, frame: int, j: int) -> u8 {
    let side = if j < 4 {
        j
    } else {
        j - 4
    };
    match mode {
        Mode::Both => samples[frame * 8 + j],
        Mode::Main => samples[frame * 8 + side],
        Mode::Sub => samples[frame * 8 + 4 + side],
    }
}

proof fn lemma_frame_index(i: int, len: int)
    requires
        0 <= i < len,
        len % 8 == 0,
    ensures
        i == (i / 8) * 8 + i % 8,
        0 <= i % 8 < 8,
        i / 8 * 8 == (i / 8) * 8,
        i % 4 == (if i % 8 < 4 { i % 8 } else { i % 8 - 4 }),
        0 <= i / 8 < len / 8,
{
    assert(i == (i / 8) * 8 + i % 8 && 0 <= i % 8 < 8 && i % 4 == (if i % 8 < 4 { i % 8 } else { i % 8 - 4 }) && 0 <= i / 8 < len / 8) by (nonlinear_arith)
        requires
            0 <= i < len,
            len % 8 == 0,
    ;
}

/// Route samples in place; data that is not whole frames is refused and left unchanged.
pub fn route(bytes: &mut Vec<u8>, mode: Mode) -> (result: Result<(), ()>)
    ensures
        result is Ok <==> (mode == Mode::Both || old(bytes)@.len() % 8 == 0),
        result is Ok ==> final(bytes)@ == routed(old(bytes)@, mode),
        result is Err ==> final(bytes)@ == old(bytes)@,
{
    if mode == Mode::Both {
        assert(routed(bytes@, mode) =~= bytes@);
        return Ok(());
    }
    if bytes.len() % 8 != 0 {
        return Err(());
    }
    let ghost samples = bytes@;
    let count = bytes.len() / 8;
    let mut f: usize = 0;
    while f < count
        invariant
            count * 8 == samples.len(),
            count * 8 <= usize::MAX,
            f <= count,
            bytes@.len() == samples.len(),
            mode != Mode::Both,
            forall|fr: int, j: int| #![trigger route_byte(samples, mode, fr, j)] 0 <= fr < f && 0 <= j < 8 ==> bytes@[fr * 8 + j] == route_byte(samples, mode, fr, j),
            forall|i: int| f * 8 <= i < samples.len() ==> #[trigger] bytes@[i] == samples[i],
        decreases count - f,
    {
        assert(f * 8 + 8 <= count * 8) by (nonlinear_arith)
            requires
                f < count,
        ;
        let base = f * 8;
        let mut k: usize = 0;
        while k < 4
            invariant
                count * 8 == samples.len(),
                f < count,
                base == f * 8,
                base + 8 <= samples.len(),
                k <= 4,
                bytes@.len() == samples.len(),
                mode != Mode::Both,
                forall|fr: int, j: int| #![trigger route_byte(samples, mode, fr, j)] 0 <= fr < f && 0 <= j < 8 ==> bytes@[fr * 8 + j] == route_byte(samples, mode, fr, j),
                forall|i: int| base + 8 <= i < samples.len() ==> #[trigger] bytes@[i] == samples[i],
                forall|j: int| 0 <= j < 8 ==> #[trigger] bytes@[base + j] == if (if j < 4 { j } else { j - 4 }) < k {
                    route_byte(samples, mode, f as int, j)
                } else {
                    samples[base + j]
                },
            decreases 4 - k,
        {
            let ghost before = bytes@;
            match mode {
                Mode::Main => {
                    let value = bytes[base + k];
                    bytes.set(base + 4 + k, value);
                },
                Mode::Sub => {
                    let value = bytes[base + 4 + k];
                    bytes.set(base + k, value);
                },
                Mode::Both => {},
            }
            proof {
                assert forall|fr: int, j: int| #![trigger route_byte(samples, mode, fr, j)] 0 <= fr < f && 0 <= j < 8 implies bytes@[fr * 8 + j] == route_byte(samples, mode, fr, j) by {
                    assert(fr * 8 + j < base) by (nonlinear_arith)
                        requires
                            0 <= fr < f,
                            0 <= j < 8,
                            base == f * 8,
                    ;
                    assert(bytes@[fr * 8 + j] == before[fr * 8 + j]);
                }
                assert forall|j: int| 0 <= j < 8 implies #[trigger] bytes@[base + j] == if (if j < 4 { j } else { j - 4 }) < k + 1 {
                    route_byte(samples, mode, f as int, j)
                } else {
                    samples[base + j]
                } by {
                    assert(before[base + j] == if (if j < 4 { j } else { j - 4 }) < k { route_byte(samples, mode, f as int, j) } else { samples[base + j] });
                    let jk = k as int;
                    let j4 = 4 + k as int;
                    assert(before[base + jk] == samples[base + jk]);
                    assert(before[base + j4] == samples[base + j4]);
                }
            }
            k = k + 1;
        }
        proof {
            assert forall|fr: int, j: int| #![trigger route_byte(samples, mode, fr, j)] 0 <= fr < f + 1 && 0 <= j < 8 implies bytes@[fr * 8 + j] == route_byte(samples, mode, fr, j) by {
                if fr == f {
                    assert(bytes@[base + j] == route_byte(samples, mode, f as int, j));
                }
            }
        }
        f = f + 1;
    }
    proof {
        assert forall|i: int| 0 <= i < samples.len() implies #[trigger] bytes@[i] == routed(samples, mode)[i] by {
            lemma_frame_index(i, samples.len() as int);
            let fr = i / 8;
            let j = i % 8;
            assert(bytes@[fr * 8 + j] == route_byte(samples, mode, fr, j));
        }
    }
    assert(bytes@ =~= routed(samples, mode));
    Ok(())
}

/// A side chosen for a format holds until the format changes: every change of stream,
/// flush, reset or renegotiation starts a new generation, so a format offered before it
/// is refused as changed, unless the generation space of 2^62 wrapped around.
pub proof fn choices_expire_with_their_format(state: u64, bits: int)
    requires
        0 <= bits < 4,
        state / 4 + 1 < 0x4000_0000_0000_0000,
    ensures
        advanced(state, bits) / 4 != state / 4,
        advanced(state, bits) % 4 == bits,
{
    let g = state / 4 + 1;
    assert((g * 4 + bits) / 4 == g && (g * 4 + bits) % 4 == bits) by (nonlinear_arith)
        requires
            0 <= bits < 4,
            g >= 1,
    ;
}

} // verus!
