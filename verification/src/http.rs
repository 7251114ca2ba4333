//! Verified, finite HTTP resources: the checks that a byte-range response must pass
//! before its bytes can be spliced into a recording.
use vstd::prelude::*;
use vstd::string::StringSliceAdditionalSpecFns;

verus! {

/// Bytes kept by one cursor window.
pub const RANGE_BYTES: usize = 524288;
/// The size probe reads two bytes: some servers reject ranges beyond EOF and return
/// an empty body for one byte.
pub const SIZE_PROBE_BYTES: usize = 2;

#[derive(Clone, Copy, Debug, PartialEq, Eq, Structural)]
pub enum Error {
    Network,
    RangeUnsupported,
    InvalidRange,
    Changed,
    Truncated,
    Cancelled,
    Runtime,
}

pub open spec fn is_digit(c: u8) -> bool {
    0x30u8 <= c <= 0x39u8
}

/// The value of a run of decimal digits, most significant first.
pub open spec fn decimal(digits: Seq<u8>) -> int
    decreases digits.len(),
{
    if digits.len() == 0 {
        0
    } else {
        decimal(digits.drop_last()) * 10 + (digits.last() - 0x30u8)
    }
}

/// Every byte of `digits` is a decimal digit.
pub open spec fn all_digits(digits: Seq<u8>) -> bool {
    forall|i: int| 0 <= i < digits.len() ==> is_digit(#[trigger] digits[i])
}

/// The digits of a number text: without its optional leading `+`.
pub open spec fn unsigned_part(text: Seq<u8>) -> Seq<u8> {
    if text.len() > 0 && text[0] == 0x2bu8 {
        text.drop_first()
    } else {
        text
    }
}

/// `u64::from_str`: an optional `+`, then at least one digit, within range.
pub open spec fn parse_u64_spec(text: Seq<u8>) -> Option<u64> {
    let digits = unsigned_part(text);
    if digits.len() > 0 && all_digits(digits) && decimal(digits) <= u64::MAX {
        Some(decimal(digits) as u64)
    } else {
        None
    }
}

/// The position of the first `c` in `s`.
pub open spec fn first_of(s: Seq<u8>, c: u8) -> Option<int>
    decreases s.len(),
{
    if s.len() == 0 {
        None
    } else if s[0] == c {
        Some(0)
    } else {
        match first_of(s.drop_first(), c) {
            Some(i) => Some(i + 1),
            None => None,
        }
    }
}

/// The bytes of `bytes ` that start a Content-Range value.
pub open spec fn range_prefix() -> Seq<u8> {
    seq![0x62u8, 0x79u8, 0x74u8, 0x65u8, 0x73u8, 0x20u8]
}

/// A Content-Range value `bytes START-END/SIZE` with `START <= END < SIZE`.
pub open spec fn content_range(value: Seq<u8>) -> Option<(u64, u64, u64)> {
    if value.len() < 6 || value.subrange(0, 6) != range_prefix() {
        None
    } else {
        let rest = value.subrange(6, value.len() as int);
        match first_of(rest, 0x2fu8) {
            None => None,
            Some(slash) => {
                let range = rest.subrange(0, slash);
                let size = rest.subrange(slash + 1, rest.len() as int);
                match first_of(range, 0x2du8) {
                    None => None,
                    Some(dash) => match (
                        parse_u64_spec(range.subrange(0, dash)),
                        parse_u64_spec(range.subrange(dash + 1, range.len() as int)),
                        parse_u64_spec(size),
                    ) {
                        (Some(start), Some(end), Some(size)) => if start <= end && end < size {
                            Some((start, end, size))
                        } else {
                            None
                        },
                        _ => None,
                    },
                }
            },
        }
    }
}

fn digits_value(text: &[u8], lo: usize, hi: usize) -> (value: Option<u64>)
    requires
        lo <= hi <= text@.len(),
    ensures
        ({
            let digits = text@.subrange(lo as int, hi as int);
            match value {
                Some(v) => all_digits(digits) && decimal(digits) <= u64::MAX && v == decimal(digits),
                None => !(all_digits(digits) && decimal(digits) <= u64::MAX),
            }
        }),
{
    let ghost digits = text@.subrange(lo as int, hi as int);
    let mut value: u64 = 0;
    let mut i = lo;
    while i < hi
        invariant
            lo <= i <= hi <= text@.len(),
            digits == text@.subrange(lo as int, hi as int),
            forall|j: int| 0 <= j < i - lo ==> is_digit(#[trigger] digits[j]),
            value == decimal(digits.subrange(0, i - lo)),
        decreases hi - i,
    {
        let c = text[i];
        assert(digits[i - lo] == c);
        assert(digits.subrange(0, i - lo + 1).drop_last() =~= digits.subrange(0, i - lo));
        if c < 0x30u8 || c > 0x39u8 {
            assert(!is_digit(digits[i - lo]));
            return None;
        }
        let digit = (c - 0x30u8) as u64;
        match value.checked_mul(10) {
            None => {
                proof {
                    lemma_decimal_prefix_bound(digits, i - lo + 1);
                }
                return None;
            },
            Some(scaled) => match scaled.checked_add(digit) {
                None => {
                    proof {
                        lemma_decimal_prefix_bound(digits, i - lo + 1);
                    }
                    return None;
                },
                Some(next) => {
                    value = next;
                },
            },
        }
        i = i + 1;
    }
    assert(digits.subrange(0, hi - lo) =~= digits);
    Some(value)
}

/// An all-digit run has a non-negative value.
proof fn lemma_decimal_nonneg(digits: Seq<u8>)
    requires
        forall|i: int| 0 <= i < digits.len() ==> is_digit(#[trigger] digits[i]),
    ensures
        decimal(digits) >= 0,
    decreases digits.len(),
{
    if digits.len() > 0 {
        let shorter = digits.drop_last();
        assert forall|i: int| 0 <= i < shorter.len() implies is_digit(#[trigger] shorter[i]) by {
            assert(shorter[i] == digits[i]);
        }
        lemma_decimal_nonneg(shorter);
        assert(is_digit(digits[digits.len() - 1]));
    }
}

/// A prefix of an all-digit run never exceeds the whole run.
proof fn lemma_decimal_prefix_bound(digits: Seq<u8>, n: int)
    requires
        0 <= n <= digits.len(),
    ensures
        (forall|i: int| 0 <= i < digits.len() ==> is_digit(#[trigger] digits[i])) ==> decimal(
            digits.subrange(0, n),
        ) <= decimal(digits),
    decreases digits.len() - n,
{
    if (forall|i: int| 0 <= i < digits.len() ==> is_digit(#[trigger] digits[i])) {
        if n < digits.len() {
            lemma_decimal_prefix_bound(digits, n + 1);
            let p = digits.subrange(0, n);
            let q = digits.subrange(0, n + 1);
            assert(q.drop_last() =~= p);
            assert(q.last() == digits[n]);
            assert(is_digit(digits[n]));
            assert forall|i: int| 0 <= i < p.len() implies is_digit(#[trigger] p[i]) by {
                assert(p[i] == digits[i]);
            }
            lemma_decimal_nonneg(p);
            assert(decimal(q) == decimal(p) * 10 + (q.last() - 0x30u8));
        } else {
            assert(digits.subrange(0, n) =~= digits);
        }
    }
}

/// `u64::from_str` of `text[lo..hi]`.
fn parse_u64(text: &[u8], lo: usize, hi: usize) -> (value: Option<u64>)
    requires
        lo <= hi <= text@.len(),
    ensures
        value == parse_u64_spec(text@.subrange(lo as int, hi as int)),
{
    let ghost whole = text@.subrange(lo as int, hi as int);
    assert(lo < hi ==> whole[0] == text@[lo as int]);
    let start = if lo < hi && text[lo] == 0x2bu8 {
        lo + 1
    } else {
        lo
    };
    assert(start > lo ==> whole.drop_first() =~= text@.subrange(start as int, hi as int));
    assert(start == lo ==> whole =~= text@.subrange(start as int, hi as int));
    if start == hi {
        return None;
    }
    let value = digits_value(text, start, hi);
    proof {
        let digits = text@.subrange(start as int, hi as int);
        assert(unsigned_part(whole) == digits);
        if value is Some {
            lemma_decimal_nonneg(digits);
        }
    }
    value
}

fn find_byte(text: &[u8], lo: usize, hi: usize, c: u8) -> (found: Option<usize>)
    requires
        lo <= hi <= text@.len(),
    ensures
        match found {
            Some(k) => lo <= k < hi && first_of(text@.subrange(lo as int, hi as int), c) == Some(
                k - lo,
            ),
            None => first_of(text@.subrange(lo as int, hi as int), c) is None,
        },
    decreases hi - lo,
{
    if lo == hi {
        assert(text@.subrange(lo as int, hi as int).len() == 0);
        return None;
    }
    let ghost s = text@.subrange(lo as int, hi as int);
    assert(s[0] == text@[lo as int]);
    if text[lo] == c {
        return Some(lo);
    }
    assert(s.drop_first() =~= text@.subrange(lo + 1, hi as int));
    find_byte(text, lo + 1, hi, c)
}

/// Parse a Content-Range header value.
pub fn parse_range(value: &str) -> (range: Option<(u64, u64, u64)>)
    ensures
        range == content_range(value.spec_bytes()),
{
    parse_range_bytes(value.as_bytes())
}

fn parse_range_bytes(value: &[u8]) -> (range: Option<(u64, u64, u64)>)
    ensures
        range == content_range(value@),
{
    let len = value.len();
    if len < 6 || value[0] != 0x62u8 || value[1] != 0x79u8 || value[2] != 0x74u8 || value[3]
        != 0x65u8 || value[4] != 0x73u8 || value[5] != 0x20u8 {
        assert(len >= 6 ==> value@.subrange(0, 6)[0] == value@[0] && value@.subrange(0, 6)[1]
            == value@[1] && value@.subrange(0, 6)[2] == value@[2] && value@.subrange(0, 6)[3]
            == value@[3] && value@.subrange(0, 6)[4] == value@[4] && value@.subrange(0, 6)[5]
            == value@[5]);
        return None;
    }
    assert(value@.subrange(0, 6) =~= range_prefix());
    let ghost rest = value@.subrange(6, len as int);
    let slash = match find_byte(value, 6, len, 0x2fu8) {
        None => {
            return None;
        },
        Some(slash) => slash,
    };
    let ghost range = rest.subrange(0, slash - 6);
    assert(range =~= value@.subrange(6, slash as int));
    assert(rest.subrange(slash - 6 + 1, rest.len() as int) =~= value@.subrange(
        slash + 1,
        len as int,
    ));
    let dash = match find_byte(value, 6, slash, 0x2du8) {
        None => {
            return None;
        },
        Some(dash) => dash,
    };
    assert(range.subrange(0, dash - 6) =~= value@.subrange(6, dash as int));
    assert(range.subrange(dash - 6 + 1, range.len() as int) =~= value@.subrange(
        dash + 1,
        slash as int,
    ));
    let start = parse_u64(value, 6, dash);
    let end = parse_u64(value, dash + 1, slash);
    let size = parse_u64(value, slash + 1, len);
    match (start, end, size) {
        (Some(start), Some(end), Some(size)) => {
            if start <= end && end < size {
                Some((start, end, size))
            } else {
                None
            }
        },
        _ => None,
    }
}

} // verus!

verus! {

/// What identifies one version of a resource across range requests.
#[derive(Clone, Debug)]
pub enum Validator {
    /// A strong entity tag.
    Etag(Vec<u8>),
    /// A Last-Modified date.
    Modified(Vec<u8>),
    Unavailable,
}

/// The view of a validator: its header bytes.
pub enum ValidatorView {
    Etag(Seq<u8>),
    Modified(Seq<u8>),
    Unavailable,
}

impl View for Validator {
    type V = ValidatorView;

    open spec fn view(&self) -> ValidatorView {
        match self {
            Validator::Etag(value) => ValidatorView::Etag(value@),
            Validator::Modified(value) => ValidatorView::Modified(value@),
            Validator::Unavailable => ValidatorView::Unavailable,
        }
    }
}

/// The bytes of an optional header value.
pub open spec fn header_view(value: Option<Vec<u8>>) -> Option<Seq<u8>> {
    match value {
        Some(bytes) => Some(bytes@),
        None => None,
    }
}

/// A weak entity tag starts with `W/`.
pub open spec fn is_weak(tag: Seq<u8>) -> bool {
    tag.len() >= 2 && tag[0] == 0x57u8 && tag[1] == 0x2fu8
}

/// The validator a response carries: a strong ETag, else Last-Modified.
pub open spec fn validator_of(etag: Option<Seq<u8>>, modified: Option<Seq<u8>>) -> ValidatorView {
    match etag {
        Some(tag) if !is_weak(tag) => ValidatorView::Etag(tag),
        _ => match modified {
            Some(date) => ValidatorView::Modified(date),
            None => ValidatorView::Unavailable,
        },
    }
}

/// A response agrees with a validator when it repeats the validating header.
pub open spec fn agrees_with(
    validator: ValidatorView,
    etag: Option<Seq<u8>>,
    modified: Option<Seq<u8>>,
) -> bool {
    match validator {
        ValidatorView::Etag(tag) => etag == Some(tag),
        ValidatorView::Modified(date) => modified == Some(date),
        ValidatorView::Unavailable => true,
    }
}

/// The If-Range value a request repeats.
pub open spec fn if_range_of(validator: ValidatorView) -> Option<Seq<u8>> {
    match validator {
        ValidatorView::Etag(tag) => Some(tag),
        ValidatorView::Modified(date) => Some(date),
        ValidatorView::Unavailable => None,
    }
}

fn same_bytes(a: &[u8], b: &[u8]) -> (same: bool)
    ensures
        same == (a@ == b@),
{
    if a.len() != b.len() {
        return false;
    }
    let mut i: usize = 0;
    while i < a.len()
        invariant
            a@.len() == b@.len(),
            i <= a@.len(),
            forall|j: int| 0 <= j < i ==> a@[j] == b@[j],
        decreases a@.len() - i,
    {
        if a[i] != b[i] {
            return false;
        }
        i = i + 1;
    }
    assert(a@ =~= b@);
    true
}

fn same_header(value: &Option<Vec<u8>>, expected: &Vec<u8>) -> (same: bool)
    ensures
        same == (header_view(*value) == Some(expected@)),
{
    match value {
        Some(bytes) => same_bytes(bytes.as_slice(), expected.as_slice()),
        None => false,
    }
}

fn copy_bytes(bytes: &Vec<u8>) -> (copy: Vec<u8>)
    ensures
        copy@ == bytes@,
{
    let mut copy: Vec<u8> = Vec::new();
    let mut i: usize = 0;
    while i < bytes.len()
        invariant
            i <= bytes@.len(),
            copy@ == bytes@.subrange(0, i as int),
        decreases bytes@.len() - i,
    {
        copy.push(bytes[i]);
        i = i + 1;
        assert(copy@ =~= bytes@.subrange(0, i as int));
    }
    assert(bytes@.subrange(0, bytes@.len() as int) =~= bytes@);
    copy
}

impl Validator {
    /// The validator of a response's ETag and Last-Modified headers.
    pub fn from_headers(etag: &Option<Vec<u8>>, modified: &Option<Vec<u8>>) -> (validator: Validator)
        ensures
            validator@ == validator_of(header_view(*etag), header_view(*modified)),
    {
        if let Some(tag) = etag {
            if !(tag.len() >= 2 && tag[0] == 0x57u8 && tag[1] == 0x2fu8) {
                return Validator::Etag(copy_bytes(tag));
            }
        }
        match modified {
            Some(date) => Validator::Modified(copy_bytes(date)),
            None => Validator::Unavailable,
        }
    }

    /// The value a later request sends as If-Range.
    pub fn header(&self) -> (value: Option<&Vec<u8>>)
        ensures
            match value {
                Some(bytes) => if_range_of(self@) == Some(bytes@),
                None => if_range_of(self@) is None,
            },
    {
        match self {
            Validator::Etag(value) => Some(value),
            Validator::Modified(value) => Some(value),
            Validator::Unavailable => None,
        }
    }

    /// Whether a response's headers still name the validated version.
    pub fn agrees(&self, etag: &Option<Vec<u8>>, modified: &Option<Vec<u8>>) -> (agrees: bool)
        ensures
            agrees == agrees_with(self@, header_view(*etag), header_view(*modified)),
    {
        match self {
            Validator::Etag(value) => same_header(etag, value),
            Validator::Modified(value) => same_header(modified, value),
            Validator::Unavailable => true,
        }
    }
}

/// The head of a range response, as plain values.
pub struct Head {
    pub status: u16,
    pub content_encoding: Option<Vec<u8>>,
    pub content_range: Option<Vec<u8>>,
    pub etag: Option<Vec<u8>>,
    pub last_modified: Option<Vec<u8>>,
    pub content_length: Option<u64>,
}

/// A resource whose size and version were established by a first range response.
pub struct Verified {
    pub size: u64,
    pub validator: Validator,
}

/// The last byte a range request asks for: `length` bytes from `start`, never past the
/// known end of the resource.
pub open spec fn request_end_spec(start: u64, length: usize, size: Option<u64>) -> u64 {
    let end = if start + length - 1 > u64::MAX {
        u64::MAX
    } else {
        (start + length - 1) as u64
    };
    match size {
        Some(size) => if end < size - 1 {
            end
        } else {
            (size - 1) as u64
        },
        None => end,
    }
}

/// The bytes `identity`.
pub open spec fn identity() -> Seq<u8> {
    seq![0x69u8, 0x64u8, 0x65u8, 0x6eu8, 0x74u8, 0x69u8, 0x74u8, 0x79u8]
}

/// What a range response for `start..=end` is worth: the resource size, its validator
/// and the number of body bytes owed, or why it cannot be used.
pub open spec fn head_outcome(
    start: u64,
    end: u64,
    expected: Option<(u64, ValidatorView)>,
    head: Head,
) -> Result<(u64, ValidatorView, u64), Error> {
    let etag = header_view(head.etag);
    let modified = header_view(head.last_modified);
    if 400 <= head.status < 600 {
        Err(Error::Network)
    } else if head.status != 206 {
        Err(
            if expected is Some {
                Error::Changed
            } else {
                Error::RangeUnsupported
            },
        )
    } else if head.content_encoding is Some && head.content_encoding->0@ != identity() {
        Err(Error::InvalidRange)
    } else {
        match head.content_range {
            None => Err(Error::InvalidRange),
            Some(value) => match content_range(value@) {
                None => Err(Error::InvalidRange),
                Some((actual_start, actual_end, size)) => {
                    let last = if end < size - 1 {
                        end
                    } else {
                        (size - 1) as u64
                    };
                    if actual_start != start || actual_end != last {
                        Err(Error::InvalidRange)
                    } else if changed(expected, size, etag, modified) {
                        Err(Error::Changed)
                    } else if head.content_length is Some && head.content_length->0 != (
                    actual_end - actual_start + 1) {
                        Err(Error::InvalidRange)
                    } else {
                        Ok((size, validator_of(etag, modified), (actual_end - actual_start + 1) as u64))
                    }
                },
            },
        }
    }
}

/// Whether a response names another version than the one a request was checked against.
pub open spec fn changed(
    expected: Option<(u64, ValidatorView)>,
    size: u64,
    etag: Option<Seq<u8>>,
    modified: Option<Seq<u8>>,
) -> bool {
    match expected {
        Some((known, validator)) => size != known || !agrees_with(validator, etag, modified),
        None => false,
    }
}

/// The view of the resource a request is checked against.
pub open spec fn expected_view(expected: Option<&Verified>) -> Option<(u64, ValidatorView)> {
    match expected {
        Some(source) => Some((source.size, source.validator@)),
        None => None,
    }
}

/// The body a range response delivered, checked against its announced length.
pub open spec fn body_outcome(chunks: Seq<Seq<u8>>, expected: nat) -> Result<Seq<u8>, Error>
    decreases chunks.len(),
{
    if chunks.len() == 0 {
        if expected == 0 {
            Ok(Seq::empty())
        } else {
            Err(Error::Truncated)
        }
    } else if chunks[0].len() > expected {
        Err(Error::InvalidRange)
    } else {
        match body_outcome(chunks.drop_first(), (expected - chunks[0].len()) as nat) {
            Ok(rest) => Ok(chunks[0] + rest),
            Err(error) => Err(error),
        }
    }
}

/// A range request in progress: what it asked for, and what it has received.
pub struct Fetch {
    start: u64,
    end: u64,
    body: Vec<u8>,
    owed: usize,
}

impl Fetch {
    /// The last byte to request from `start` for `length` bytes.
    pub fn request_end(start: u64, length: usize, expected: Option<&Verified>) -> (end: u64)
        requires
            length >= 1,
            match expected {
                Some(source) => source.size >= 1,
                None => true,
            },
        ensures
            end == request_end_spec(
                start,
                length,
                match expected {
                    Some(source) => Some(source.size),
                    None => None,
                },
            ),
    {
        let end = start.saturating_add((length - 1) as u64);
        match expected {
            Some(source) => if end < source.size - 1 {
                end
            } else {
                source.size - 1
            },
            None => end,
        }
    }

    /// Check a response head; on success the fetch waits for its body.
    pub fn check_head(start: u64, end: u64, expected: Option<&Verified>, head: &Head) -> (result:
        Result<(Fetch, u64, Validator), Error>)
        requires
            start <= end,
            end - start < usize::MAX,
        ensures
            match (result, head_outcome(start, end, expected_view(expected), *head)) {
                (Ok((fetch, size, validator)), Ok((s, v, owed))) => size == s && validator@ == v
                    && fetch.first() == start && fetch.last() == end && fetch.owed() == owed
                    && fetch.received() == Seq::<u8>::empty(),
                (Err(e), Err(f)) => e == f,
                _ => false,
            },
    {
        if head.status >= 400 && head.status < 600 {
            return Err(Error::Network);
        }
        if head.status != 206 {
            return Err(
                if expected.is_some() {
                    Error::Changed
                } else {
                    Error::RangeUnsupported
                },
            );
        }
        if let Some(encoding) = &head.content_encoding {
            let plain: [u8; 8] = [0x69, 0x64, 0x65, 0x6e, 0x74, 0x69, 0x74, 0x79];
            assert(plain@ =~= identity());
            if !same_bytes(encoding.as_slice(), plain.as_slice()) {
                return Err(Error::InvalidRange);
            }
        }
        let (actual_start, actual_end, size) = match &head.content_range {
            None => {
                return Err(Error::InvalidRange);
            },
            Some(value) => match parse_range_bytes(value.as_slice()) {
                None => {
                    return Err(Error::InvalidRange);
                },
                Some(range) => range,
            },
        };
        let last = if end < size - 1 {
            end
        } else {
            size - 1
        };
        if actual_start != start || actual_end != last {
            return Err(Error::InvalidRange);
        }
        if let Some(source) = expected {
            if size != source.size || !source.validator.agrees(&head.etag, &head.last_modified) {
                return Err(Error::Changed);
            }
        }
        let validator = Validator::from_headers(&head.etag, &head.last_modified);
        let owed = actual_end - actual_start + 1;
        if let Some(length) = head.content_length {
            if length != owed {
                return Err(Error::InvalidRange);
            }
        }
        Ok((Fetch { start, end, body: Vec::new(), owed: owed as usize }, size, validator))
    }

    /// The first byte requested.
    pub closed spec fn first(self) -> u64 {
        self.start
    }

    /// The last byte requested.
    pub closed spec fn last(self) -> u64 {
        self.end
    }

    /// The body bytes still owed when the head was accepted.
    pub closed spec fn owed(self) -> nat {
        self.owed as nat
    }

    /// The body bytes received so far.
    pub closed spec fn received(self) -> Seq<u8> {
        self.body@
    }

    /// Append one chunk of the body; a chunk beyond the announced length is refused.
    pub fn push_chunk(&mut self, chunk: &[u8]) -> (result: Result<(), Error>)
        requires
            old(self).received().len() <= old(self).owed(),
        ensures
            final(self).owed() == old(self).owed(),
            final(self).first() == old(self).first(),
            final(self).last() == old(self).last(),
            final(self).received().len() <= final(self).owed(),
            match result {
                Ok(()) => chunk@.len() <= old(self).owed() - old(self).received().len()
                    && final(self).received() == old(self).received() + chunk@,
                Err(e) => e == Error::InvalidRange && chunk@.len() > old(self).owed()
                    - old(self).received().len() && final(self).received() == old(
                    self,
                ).received(),
            },
    {
        if chunk.len() > self.owed - self.body.len() {
            return Err(Error::InvalidRange);
        }
        let mut i: usize = 0;
        let ghost before = self.body@;
        while i < chunk.len()
            invariant
                i <= chunk@.len(),
                self.body@ == before + chunk@.subrange(0, i as int),
                before.len() + chunk@.len() <= self.owed,
                self.start == old(self).start,
                self.end == old(self).end,
                self.owed == old(self).owed,
                before == old(self).body@,
            decreases chunk@.len() - i,
        {
            self.body.push(chunk[i]);
            i = i + 1;
            assert(self.body@ =~= before + chunk@.subrange(0, i as int));
        }
        assert(chunk@.subrange(0, chunk@.len() as int) =~= chunk@);
        Ok(())
    }

    /// The whole body, once the response has ended.
    pub fn finish(self) -> (result: Result<Vec<u8>, Error>)
        ensures
            match result {
                Ok(bytes) => self.received().len() == self.owed() && bytes@ == self.received(),
                Err(e) => e == Error::Truncated && self.received().len() != self.owed(),
            },
    {
        if self.body.len() != self.owed {
            return Err(Error::Truncated);
        }
        Ok(self.body)
    }
}

} // verus!

verus! {

/// Where a seek is measured from.
#[derive(Clone, Copy, Debug, PartialEq, Eq, Structural)]
pub enum SeekFrom {
    Start(u64),
    Current(i64),
    End(i64),
}

/// `base + offset`, where it is a valid offset.
pub open spec fn offset_by(base: u64, offset: i64) -> Option<u64> {
    if 0 <= base + offset <= u64::MAX {
        Some((base + offset) as u64)
    } else {
        None
    }
}

/// A read position over a verified resource that keeps one fetched window.
pub struct Cursor {
    size: u64,
    position: u64,
    start: u64,
    bytes: Vec<u8>,
}

/// The state of a cursor: resource size, position, window start and window bytes.
pub struct CursorView {
    pub size: u64,
    pub position: u64,
    pub start: u64,
    pub window: Seq<u8>,
}

impl Cursor {
    /// The window never reaches past the end of the resource.
    #[verifier::type_invariant]
    spec fn window_inside(self) -> bool {
        self.start + self.bytes@.len() <= self.size
    }
}

impl View for Cursor {
    type V = CursorView;

    closed spec fn view(&self) -> CursorView {
        CursorView { size: self.size, position: self.position, start: self.start, window: self.bytes@ }
    }
}

/// Whether the window holds the byte at the position.
pub open spec fn covers(c: CursorView) -> bool {
    c.start <= c.position && c.position - c.start < c.window.len()
}

/// Where the window for a position starts: at the position, but never so late that
/// fewer than the probe's bytes remain.
pub open spec fn window_start_for(position: u64, size: u64) -> u64 {
    let latest = if size >= SIZE_PROBE_BYTES {
        (size - SIZE_PROBE_BYTES) as u64
    } else {
        0
    };
    if position < latest {
        position
    } else {
        latest
    }
}

/// How many bytes a read of at most `max` bytes copies from the window.
pub open spec fn readable(c: CursorView, max: usize) -> nat {
    if max == 0 || c.position >= c.size || !covers(c) {
        0
    } else {
        let left = (c.window.len() - (c.position - c.start)) as nat;
        if max < left {
            max as nat
        } else {
            left
        }
    }
}

impl Cursor {
    /// A cursor at the start of a resource of `size` bytes, with nothing fetched.
    pub fn new(size: u64) -> (cursor: Cursor)
        ensures
            cursor@ == (CursorView { size, position: 0, start: 0, window: Seq::empty() }),
    {
        Cursor { size, position: 0, start: 0, bytes: Vec::new() }
    }

    pub fn position(&self) -> (position: u64)
        ensures
            position == self@.position,
    {
        self.position
    }

    pub fn size(&self) -> (size: u64)
        ensures
            size == self@.size,
    {
        self.size
    }

    /// Move the position; an offset before the start or beyond `u64` is refused and
    /// leaves the cursor as it was.
    pub fn seek(&mut self, from: SeekFrom) -> (position: Option<u64>)
        ensures
            position == match from {
                SeekFrom::Start(p) => Some(p),
                SeekFrom::Current(offset) => offset_by(old(self)@.position, offset),
                SeekFrom::End(offset) => offset_by(old(self)@.size, offset),
            },
            match position {
                Some(p) => final(self)@ == (CursorView { position: p, ..old(self)@ }),
                None => final(self)@ == old(self)@,
            },
    {
        proof {
            use_type_invariant(&*self);
        }
        let target = match from {
            SeekFrom::Start(p) => Some(p),
            SeekFrom::Current(offset) => add_signed(self.position, offset),
            SeekFrom::End(offset) => add_signed(self.size, offset),
        };
        if let Some(p) = target {
            self.position = p;
        }
        target
    }

    /// Where to fetch a new window before a read of `max` bytes, or `None` when the
    /// read needs no fetch (nothing to read, or the window already holds the position).
    pub fn refill_from(&self, max: usize) -> (start: Option<u64>)
        ensures
            match start {
                Some(s) => max > 0 && self@.position < self@.size && !covers(self@) && s
                    == window_start_for(self@.position, self@.size),
                None => max == 0 || self@.position >= self@.size || covers(self@),
            },
    {
        if max == 0 || self.position >= self.size {
            return None;
        }
        if self.position >= self.start && self.position - self.start < self.bytes.len() as u64 {
            return None;
        }
        let latest = self.size.saturating_sub(SIZE_PROBE_BYTES as u64);
        Some(
            if self.position < latest {
                self.position
            } else {
                latest
            },
        )
    }

    /// Replace the window with `bytes` fetched from `start`.
    pub fn refill(&mut self, start: u64, bytes: Vec<u8>)
        requires
            start + bytes@.len() <= old(self)@.size,
        ensures
            final(self)@ == (CursorView { start, window: bytes@, ..old(self)@ }),
    {
        *self = Cursor { size: self.size, position: self.position, start, bytes };
    }

    /// Copy at most `max` bytes at the position out of the window and advance past them.
    pub fn take(&mut self, max: usize) -> (copied: Vec<u8>)
        ensures
            copied@.len() == readable(old(self)@, max),
            copied@ == old(self)@.window.subrange(
                old(self)@.position - old(self)@.start,
                old(self)@.position - old(self)@.start + copied@.len(),
            ) || copied@.len() == 0,
            final(self)@ == (CursorView {
                position: (old(self)@.position + copied@.len()) as u64,
                ..old(self)@
            }),
    {
        proof {
            use_type_invariant(&*self);
        }
        let mut copied: Vec<u8> = Vec::new();
        if max == 0 || self.position >= self.size || self.position < self.start
            || self.position - self.start >= self.bytes.len() as u64 {
            return copied;
        }
        let offset = (self.position - self.start) as usize;
        let left = self.bytes.len() - offset;
        let count = if max < left {
            max
        } else {
            left
        };
        let mut i: usize = 0;
        while i < count
            invariant
                i <= count,
                offset + count <= self.bytes.len(),
                copied@ == self.bytes@.subrange(offset as int, offset + i),
            decreases count - i,
        {
            copied.push(self.bytes[offset + i]);
            i = i + 1;
            assert(copied@ =~= self.bytes@.subrange(offset as int, offset + i));
        }
        self.position = self.position + count as u64;
        copied
    }
}

fn add_signed(base: u64, offset: i64) -> (sum: Option<u64>)
    ensures
        sum == offset_by(base, offset),
{
    let total: i128 = base as i128 + offset as i128;
    if total < 0 || total > u64::MAX as i128 {
        None
    } else {
        Some(total as u64)
    }
}

} // verus!
