//! Extract only a selected service's component tags from PMT sections.
use vstd::prelude::*;
use vstd::string::StringSliceAdditionalSpecFns;

verus! {

#[derive(Clone, Copy, Debug, PartialEq, Eq, Structural)]
pub enum Error {
    /// The section length or its loops are malformed.
    Structure,
    /// The CRC_32 of the section does not check.
    Checksum,
    /// The program map spans several sections.
    MultipleSections,
    /// A PID or a component_tag occurs twice.
    Ambiguous,
}

/// One elementary stream of the program and its stream identifier descriptor.
#[derive(Clone, Copy, Debug, PartialEq, Eq, Structural)]
pub struct Component {
    pub pid: u16,
    pub tag: u8,
}

/// MPEG-2 CRC_32: one shift of the register.
pub open spec fn crc_shift(crc: u32) -> u32 {
    ((crc << 1u32) ^ (if crc & 0x8000_0000u32 != 0 { 0x04c1_1db7u32 } else { 0u32 })) as u32
}

/// MPEG-2 CRC_32: `n` shifts of the register.
pub open spec fn crc_shifts(crc: u32, n: nat) -> u32
    decreases n,
{
    if n == 0 {
        crc
    } else {
        crc_shift(crc_shifts(crc, (n - 1) as nat))
    }
}

/// MPEG-2 CRC_32: the register after one more byte.
pub open spec fn crc_byte(crc: u32, byte: u8) -> u32 {
    crc_shifts(crc ^ ((byte as u32) << 24u32), 8)
}

/// MPEG-2 CRC_32 (polynomial 0x04C11DB7, initial value all ones, no final xor).
pub open spec fn crc_spec(bytes: Seq<u8>) -> u32
    decreases bytes.len(),
{
    if bytes.len() == 0 {
        u32::MAX
    } else {
        crc_byte(crc_spec(bytes.drop_last()), bytes.last())
    }
}

/// A 12-bit length field: the low nibble of `high` followed by `low`.
pub open spec fn length12(high: u8, low: u8) -> int {
    (high & 15u8) as int * 256 + low as int
}

/// A 13-bit PID: the low five bits of `high` followed by `low`.
pub open spec fn pid13(high: u8, low: u8) -> u16 {
    ((high & 31u8) as int * 256 + low as int) as u16
}

pub open spec fn has_tag(entries: Seq<Component>, tag: u8) -> bool {
    exists|i: int| 0 <= i < entries.len() && entries[i].tag == tag
}

/// The stream identifier descriptors between `at` and `next`: the tag found so far,
/// or the first error met in the loop.
pub open spec fn descriptors(s: Seq<u8>, at: int, next: int, tag: Option<u8>) -> Result<
    Option<u8>,
    Error,
>
    decreases next - at,
{
    if at >= next {
        Ok(tag)
    } else if at + 2 > next || next > s.len() || at < 0 {
        Err(Error::Structure)
    } else {
        let size = s[at + 1] as int;
        if at + 2 + size > next {
            Err(Error::Structure)
        } else if s[at] == 0x52u8 {
            if size != 1 {
                Err(Error::Structure)
            } else if tag is Some {
                Err(Error::Ambiguous)
            } else {
                descriptors(s, at + 2 + size, next, Some(s[at + 2]))
            }
        } else {
            descriptors(s, at + 2 + size, next, tag)
        }
    }
}

/// The elementary stream loop from `pos` to `end`, given the components and PIDs already read.
pub open spec fn streams(
    s: Seq<u8>,
    pos: int,
    end: int,
    entries: Seq<Component>,
    pids: Seq<u16>,
) -> Result<Seq<Component>, Error>
    decreases end - pos,
{
    if pos >= end {
        Ok(entries)
    } else if pos + 5 > end || end > s.len() || pos < 0 {
        Err(Error::Structure)
    } else {
        let pid = pid13(s[pos + 1], s[pos + 2]);
        if pids.contains(pid) {
            Err(Error::Ambiguous)
        } else {
            let next = pos + 5 + length12(s[pos + 3], s[pos + 4]);
            if next > end {
                Err(Error::Structure)
            } else {
                match descriptors(s, pos + 5, next, None) {
                    Err(error) => Err(error),
                    Ok(None) => streams(s, next, end, entries, pids.push(pid)),
                    Ok(Some(tag)) => if has_tag(entries, tag) {
                        Err(Error::Ambiguous)
                    } else {
                        streams(s, next, end, entries.push(Component { pid, tag }), pids.push(pid))
                    },
                }
            }
        }
    }
}

/// What a PMT section says of its components: `Ok(None)` for a section that is not
/// yet applicable (current_next_indicator clear), the components otherwise.
pub open spec fn pmt_components(s: Seq<u8>) -> Result<Option<Seq<Component>>, Error> {
    if !(16 <= s.len() <= 1024) || s[0] != 2u8 || s[1] & 0xf0u8 != 0xb0u8 || 3 + length12(
        s[1],
        s[2],
    ) != s.len() {
        Err(Error::Structure)
    } else if crc_spec(s) != 0 {
        Err(Error::Checksum)
    } else if s[5] & 1u8 == 0 {
        Ok(None)
    } else if s[6] != 0 || s[7] != 0 {
        Err(Error::MultipleSections)
    } else {
        let end = s.len() - 4;
        let pos = 12 + length12(s[10], s[11]);
        if pos > end {
            Err(Error::Structure)
        } else {
            match streams(s, pos, end, Seq::empty(), Seq::empty()) {
                Ok(entries) => Ok(Some(entries)),
                Err(error) => Err(error),
            }
        }
    }
}

fn crc_register(crc: u32, byte: u8) -> (next: u32)
    ensures
        next == crc_byte(crc, byte),
{
    let mut value: u32 = crc ^ ((byte as u32) << 24u32);
    let ghost start = value;
    let mut i: usize = 0;
    while i < 8
        invariant
            i <= 8,
            value == crc_shifts(start, i as nat),
            start == crc ^ ((byte as u32) << 24u32),
        decreases 8 - i,
    {
        value = (value << 1u32) ^ if value & 0x8000_0000u32 != 0 {
            0x04c1_1db7u32
        } else {
            0u32
        };
        i = i + 1;
    }
    value
}

/// MPEG-2 CRC_32 of `bytes`; a section with its CRC appended checks to zero.
pub fn crc(bytes: &[u8]) -> (value: u32)
    ensures
        value == crc_spec(bytes@),
{
    let mut value: u32 = u32::MAX;
    let mut i: usize = 0;
    while i < bytes.len()
        invariant
            i <= bytes.len(),
            value == crc_spec(bytes@.subrange(0, i as int)),
        decreases bytes.len() - i,
    {
        proof {
            let next = bytes@.subrange(0, i + 1);
            assert(next.drop_last() =~= bytes@.subrange(0, i as int));
            assert(next.last() == bytes@[i as int]);
        }
        value = crc_register(value, bytes[i]);
        i = i + 1;
    }
    proof {
        assert(bytes@.subrange(0, bytes@.len() as int) =~= bytes@);
    }
    value
}

fn field12(high: u8, low: u8) -> (value: usize)
    ensures
        value == length12(high, low),
        value < 4096,
{
    let nibble = high & 15u8;
    assert(nibble <= 15) by (bit_vector)
        requires
            nibble == high & 15u8,
    ;
    nibble as usize * 256 + low as usize
}

fn field13(high: u8, low: u8) -> (value: u16)
    ensures
        value == pid13(high, low),
{
    let bits = high & 31u8;
    assert(bits <= 31) by (bit_vector)
        requires
            bits == high & 31u8,
    ;
    bits as u16 * 256 + low as u16
}

fn contains_pid(pids: &Vec<u16>, pid: u16) -> (found: bool)
    ensures
        found == pids@.contains(pid),
{
    let mut i: usize = 0;
    while i < pids.len()
        invariant
            i <= pids.len(),
            forall|j: int| 0 <= j < i ==> pids@[j] != pid,
        decreases pids.len() - i,
    {
        if pids[i] == pid {
            assert(pids@[i as int] == pid);
            return true;
        }
        i = i + 1;
    }
    false
}

fn contains_tag(entries: &Vec<Component>, tag: u8) -> (found: bool)
    ensures
        found == has_tag(entries@, tag),
{
    let mut i: usize = 0;
    while i < entries.len()
        invariant
            i <= entries.len(),
            forall|j: int| 0 <= j < i ==> entries@[j].tag != tag,
        decreases entries.len() - i,
    {
        if entries[i].tag == tag {
            assert(entries@[i as int].tag == tag);
            return true;
        }
        i = i + 1;
    }
    false
}

fn parse_descriptors(section: &[u8], start: usize, next: usize) -> (result: Result<Option<u8>, Error>)
    requires
        start <= next <= section@.len() <= 1024,
    ensures
        result == descriptors(section@, start as int, next as int, None),
{
    let mut at = start;
    let mut tag: Option<u8> = None;
    while at < next
        invariant
            start <= at,
            next <= section@.len() <= 1024,
            descriptors(section@, start as int, next as int, None) == descriptors(
                section@,
                at as int,
                next as int,
                tag,
            ),
        decreases next - at,
    {
        if at + 2 > next {
            return Err(Error::Structure);
        }
        let size = section[at + 1] as usize;
        if at + 2 + size > next {
            return Err(Error::Structure);
        }
        if section[at] == 0x52u8 {
            if size != 1 {
                return Err(Error::Structure);
            }
            if tag.is_some() {
                return Err(Error::Ambiguous);
            }
            tag = Some(section[at + 2]);
        }
        at = at + 2 + size;
    }
    Ok(tag)
}

/// Parse a whole PMT section into its tagged components.
pub fn parse(section: &[u8]) -> (result: Result<Option<Vec<Component>>, Error>)
    ensures
        match (result, pmt_components(section@)) {
            (Ok(Some(entries)), Ok(Some(expected))) => entries@ == expected,
            (Ok(None), Ok(None)) => true,
            (Err(error), Err(expected)) => error == expected,
            _ => false,
        },
{
    let len = section.len();
    if !(16 <= len && len <= 1024) || section[0] != 2u8 || section[1] & 0xf0u8 != 0xb0u8 || 3
        + field12(section[1], section[2]) != len {
        return Err(Error::Structure);
    }
    if crc(section) != 0 {
        return Err(Error::Checksum);
    }
    if section[5] & 1u8 == 0 {
        return Ok(None);
    }
    if section[6] != 0 || section[7] != 0 {
        return Err(Error::MultipleSections);
    }
    let end = len - 4;
    let mut pos = 12 + field12(section[10], section[11]);
    if pos > end {
        return Err(Error::Structure);
    }
    let mut entries: Vec<Component> = Vec::new();
    let mut pids: Vec<u16> = Vec::new();
    let ghost first = pos;
    while pos < end
        invariant
            end == section@.len() - 4,
            16 <= section@.len() <= 1024,
            pmt_components(section@) == match streams(
                section@,
                first as int,
                end as int,
                Seq::empty(),
                Seq::empty(),
            ) {
                Ok(entries) => Ok(Some(entries)),
                Err(error) => Err(error),
            },
            streams(section@, first as int, end as int, Seq::empty(), Seq::empty()) == streams(
                section@,
                pos as int,
                end as int,
                entries@,
                pids@,
            ),
        decreases end - pos,
    {
        if pos + 5 > end {
            return Err(Error::Structure);
        }
        let pid = field13(section[pos + 1], section[pos + 2]);
        if contains_pid(&pids, pid) {
            return Err(Error::Ambiguous);
        }
        let next = pos + 5 + field12(section[pos + 3], section[pos + 4]);
        if next > end {
            return Err(Error::Structure);
        }
        match parse_descriptors(section, pos + 5, next) {
            Err(error) => {
                return Err(error);
            },
            Ok(None) => {},
            Ok(Some(tag)) => {
                if contains_tag(&entries, tag) {
                    return Err(Error::Ambiguous);
                }
                entries.push(Component { pid, tag });
            },
        }
        pids.push(pid);
        pos = next;
    }
    Ok(Some(entries))
}


pub open spec fn is_hex_digit(c: u8) -> bool {
    (0x30u8 <= c <= 0x39u8) || (0x41u8 <= c <= 0x46u8) || (0x61u8 <= c <= 0x66u8)
}

pub open spec fn hex_digit_value(c: u8) -> int {
    if c <= 0x39u8 {
        c - 0x30
    } else if c <= 0x46u8 {
        c - 0x41 + 10
    } else {
        c - 0x61 + 10
    }
}

/// The value of a run of hexadecimal digits, most significant first.
pub open spec fn hex_number(digits: Seq<u8>) -> int
    decreases digits.len(),
{
    if digits.len() == 0 {
        0
    } else {
        hex_number(digits.drop_last()) * 16 + hex_digit_value(digits.last())
    }
}

/// The position of the last `/` in `bytes`.
pub open spec fn last_slash(bytes: Seq<u8>) -> Option<int>
    decreases bytes.len(),
{
    if bytes.len() == 0 {
        None
    } else if bytes.last() == 0x2fu8 {
        Some(bytes.len() - 1)
    } else {
        last_slash(bytes.drop_last())
    }
}

/// The ES PID at the end of a demuxer stream ID: eight hexadecimal digits after its last `/`.
pub open spec fn stream_pid(id: Seq<u8>) -> Option<u16> {
    match last_slash(id) {
        None => None,
        Some(slash) => {
            let suffix = id.subrange(slash + 1, id.len() as int);
            if suffix.len() == 8 && (forall|i: int| 0 <= i < 8 ==> is_hex_digit(#[trigger] suffix[i]))
                && hex_number(suffix) < 0x1_0000 {
                Some(hex_number(suffix) as u16)
            } else {
                None
            }
        },
    }
}

/// The tag of the first component with this PID.
pub open spec fn tag_of(entries: Seq<Component>, pid: u16) -> Option<u8>
    decreases entries.len(),
{
    if entries.len() == 0 {
        None
    } else if entries[0].pid == pid {
        Some(entries[0].tag)
    } else {
        tag_of(entries.drop_first(), pid)
    }
}

/// The big-endian program number of a PMT section header.
pub open spec fn section_service(section: Seq<u8>) -> u16 {
    (section[3] as int * 256 + section[4] as int) as u16
}

/// Whether a section is a PMT of `service` at all (else it is ignored).
pub open spec fn addressed_to(section: Seq<u8>, service: Option<u16>) -> bool {
    section.len() >= 5 && section[0] == 2u8 && service == Some(section_service(section))
}

/// The tagged components of the selected service's current PMT.
pub struct Components {
    service: Option<u16>,
    entries: Vec<Component>,
}

impl Components {
    pub closed spec fn service_spec(&self) -> Option<u16> {
        self.service
    }

    pub closed spec fn components(&self) -> Seq<Component> {
        self.entries@
    }

    pub fn for_service(service: Option<u16>) -> (components: Self)
        ensures
            components.service_spec() == service,
            components.components() == Seq::<Component>::empty(),
    {
        Components { service, entries: Vec::new() }
    }

    /// Apply one PMT section. A section of another service or table leaves the
    /// components unchanged; a malformed one of this service discards them.
    pub fn update(&mut self, section: &[u8]) -> (result: Result<(), Error>)
        ensures
            final(self).service_spec() == old(self).service_spec(),
            !addressed_to(section@, old(self).service_spec()) ==> result == Ok::<(), Error>(())
                && final(self).components() == old(self).components(),
            addressed_to(section@, old(self).service_spec()) ==> match pmt_components(section@) {
                Ok(Some(entries)) => result == Ok::<(), Error>(()) && final(self).components()
                    == entries,
                Ok(None) => result == Ok::<(), Error>(()) && final(self).components() == old(
                    self,
                ).components(),
                Err(error) => result == Err::<(), Error>(error) && final(self).components()
                    == Seq::<Component>::empty(),
            },
    {
        if section.len() < 5 {
            return Ok(());
        }
        let service = section[3] as u16 * 256 + section[4] as u16;
        let matches = match self.service {
            Some(own) => own == service,
            None => false,
        };
        if section[0] != 2u8 || !matches {
            return Ok(());
        }
        match parse(section) {
            Ok(Some(entries)) => {
                self.entries = entries;
                Ok(())
            },
            Ok(None) => Ok(()),
            Err(error) => {
                self.entries.clear();
                Err(error)
            },
        }
    }

    /// The component tag of a demuxer stream ID, whose last path element is its ES PID.
    pub fn tag_for_stream(&self, id: &str) -> (tag: Option<u8>)
        ensures
            tag == match stream_pid(id.spec_bytes()) {
                Some(pid) => tag_of(self.components(), pid),
                None => None,
            },
    {
        match pid_of_stream(id.as_bytes()) {
            Some(pid) => first_tag(&self.entries, pid),
            None => None,
        }
    }
}

impl Default for Components {
    fn default() -> (components: Self)
        ensures
            components.service_spec() == None::<u16>,
            components.components() == Seq::<Component>::empty(),
    {
        Components::for_service(None)
    }
}

fn first_tag(entries: &Vec<Component>, pid: u16) -> (tag: Option<u8>)
    ensures
        tag == tag_of(entries@, pid),
{
    let mut i: usize = 0;
    assert(entries@.subrange(0, entries@.len() as int) =~= entries@);
    while i < entries.len()
        invariant
            i <= entries.len(),
            tag_of(entries@, pid) == tag_of(entries@.subrange(i as int, entries@.len() as int), pid),
        decreases entries.len() - i,
    {
        let rest = Ghost(entries@.subrange(i as int, entries@.len() as int));
        assert(rest@.drop_first() =~= entries@.subrange(i + 1, entries@.len() as int));
        if entries[i].pid == pid {
            return Some(entries[i].tag);
        }
        i = i + 1;
    }
    None
}

fn hex_digit(c: u8) -> (value: Option<u32>)
    ensures
        value is Some <==> is_hex_digit(c),
        value matches Some(v) ==> v == hex_digit_value(c) && v < 16,
{
    if 0x30u8 <= c && c <= 0x39u8 {
        Some((c - 0x30u8) as u32)
    } else if 0x41u8 <= c && c <= 0x46u8 {
        Some((c - 0x41u8) as u32 + 10)
    } else if 0x61u8 <= c && c <= 0x66u8 {
        Some((c - 0x61u8) as u32 + 10)
    } else {
        None
    }
}

fn find_last_slash(id: &[u8]) -> (slash: Option<usize>)
    ensures
        match slash {
            Some(k) => last_slash(id@) == Some(k as int) && k < id@.len(),
            None => last_slash(id@) is None,
        },
{
    let len = id.len();
    let mut end = len;
    assert(id@.subrange(0, len as int) =~= id@);
    while end > 0 && id[end - 1] != 0x2fu8
        invariant
            end <= len == id@.len(),
            last_slash(id@) == last_slash(id@.subrange(0, end as int)),
        decreases end,
    {
        assert(id@.subrange(0, end as int).drop_last() =~= id@.subrange(0, end - 1));
        end = end - 1;
    }
    if end == 0 {
        assert(id@.subrange(0, 0) =~= Seq::<u8>::empty());
        None
    } else {
        assert(id@.subrange(0, end as int).last() == id@[end - 1]);
        Some(end - 1)
    }
}

/// Eight hexadecimal digits starting at `start`, if they all are digits.
fn hex8(id: &[u8], start: usize) -> (value: Option<u32>)
    requires
        start + 8 == id@.len(),
    ensures
        ({
            let digits = id@.subrange(start as int, id@.len() as int);
            match value {
                Some(v) => (forall|i: int| 0 <= i < 8 ==> is_hex_digit(#[trigger] digits[i]))
                    && v == hex_number(digits),
                None => !(forall|i: int| 0 <= i < 8 ==> is_hex_digit(#[trigger] digits[i])),
            }
        }),
{
    let ghost digits = id@.subrange(start as int, id@.len() as int);
    let limit = id.len();
    let mut value: u32 = 0;
    let mut i: usize = 0;
    while i < 8
        invariant
            i <= 8,
            limit == id@.len(),
            start + 8 == id@.len(),
            digits == id@.subrange(start as int, id@.len() as int),
            forall|j: int| 0 <= j < i ==> is_hex_digit(#[trigger] digits[j]),
            value == hex_number(digits.subrange(0, i as int)),
            value < pow16(i as nat),
        decreases 8 - i,
    {
        assert(digits[i as int] == id@[start + i]);
        match hex_digit(id[start + i]) {
            None => {
                assert(!is_hex_digit(digits[i as int]));
                return None;
            },
            Some(digit) => {
                assert(digits.subrange(0, i + 1).drop_last() =~= digits.subrange(0, i as int));
                proof {
                    lemma_pow16_bound((i + 1) as nat);
                }
                assert(value * 16 + digit < pow16((i + 1) as nat)) by (nonlinear_arith)
                    requires
                        value < pow16(i as nat),
                        digit < 16,
                        pow16((i + 1) as nat) == pow16(i as nat) * 16,
                ;
                value = value * 16 + digit;
                i = i + 1;
            },
        }
    }
    assert(digits.subrange(0, 8) =~= digits);
    Some(value)
}

fn pid_of_stream(id: &[u8]) -> (pid: Option<u16>)
    ensures
        pid == stream_pid(id@),
{
    match find_last_slash(id) {
        None => None,
        Some(slash) => {
            if id.len() - slash - 1 != 8 {
                return None;
            }
            match hex8(id, slash + 1) {
                None => None,
                Some(value) => {
                    if value < 0x1_0000 {
                        Some(value as u16)
                    } else {
                        None
                    }
                },
            }
        },
    }
}

pub open spec fn pow16(n: nat) -> int
    decreases n,
{
    if n == 0 {
        1
    } else {
        pow16((n - 1) as nat) * 16
    }
}

proof fn lemma_pow16_bound(i: nat)
    requires
        i <= 8,
    ensures
        0 < pow16(i) <= 0x1_0000_0000,
    decreases 8 - i,
{
    if i == 8 {
        reveal_with_fuel(pow16, 9);
    } else {
        lemma_pow16_bound(i + 1);
        assert(pow16(i + 1) == pow16(i) * 16);
    }
}

} // verus!
