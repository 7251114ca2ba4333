//! Recordings: where one is, what its inspection found, and the broadcast clock of an
//! unedited recording.
use vstd::prelude::*;
use crate::text::is_word;
use crate::survey::total;
use vstd::string::StringExecFns;

verus! {

#[verifier::external_type_specification]
#[verifier::external_body]
pub struct ExPathBuf(std::path::PathBuf);

/// Whether `url::Url::parse` accepts a text as an absolute URL.
pub uninterp spec fn url_accepts(text: Seq<char>) -> bool;

/// The serialization (`Url::as_str`) of the URL that `url::Url::parse` makes of a text.
pub uninterp spec fn url_text_of(text: Seq<char>) -> Seq<char>;

/// The scheme of the URL that `url::Url::parse` makes of a text.
pub uninterp spec fn url_scheme_of(text: Seq<char>) -> Seq<char>;

/// The host (`Url::host_str`), if any, of the URL that `url::Url::parse` makes of a text.
pub uninterp spec fn url_host_of(text: Seq<char>) -> Option<Seq<char>>;

/// The path (`Url::path`) of the URL that `url::Url::parse` makes of a text.
pub uninterp spec fn url_path_of(text: Seq<char>) -> Seq<char>;

/// The message of the `url::ParseError` that `url::Url::parse` gives for a text.
pub uninterp spec fn url_error_of(text: Seq<char>) -> Seq<char>;

/// A parsed URL handed out as plain values: its serialization, scheme, host and path.
struct ParsedUrl {
    pub text: String,
    pub scheme: String,
    pub host: Option<String>,
    pub path: String,
}

/// `url::Url::parse`, with `Url::as_str`, `Url::scheme`, `Url::host_str` and `Url::path`
/// of its result copied out, or the `Display` text of its `ParseError`. It succeeds
/// exactly on the texts it accepts, and every part depends on the text alone.
#[verifier::external_body]
fn parse_url(value: &str) -> (parsed: Result<ParsedUrl, String>)
    ensures
        parsed is Ok == url_accepts(value@),
        parsed matches Ok(p) ==> p.text@ == url_text_of(value@) && p.scheme@ == url_scheme_of(value@)
            && p.path@ == url_path_of(value@) && match p.host {
                Some(h) => url_host_of(value@) == Some(h@),
                None => url_host_of(value@) is None,
            },
        parsed matches Err(message) ==> message@ == url_error_of(value@),
{
    match url::Url::parse(value) {
        Ok(url) => Ok(ParsedUrl {
            text: url.as_str().to_owned(),
            scheme: url.scheme().to_owned(),
            host: url.host_str().map(|host| host.to_owned()),
            path: url.path().to_owned(),
        }),
        Err(error) => Err(error.to_string()),
    }
}

/// `url::Url::to_file_path` of the URL a serialized URL text parses to, without its unit
/// error. Nothing is stated of it: which URLs name a local path, and which path, depends
/// on the platform.
#[verifier::external_body]
fn url_file_path(text: &str) -> (path: Option<std::path::PathBuf>) {
    url::Url::parse(text).ok()?.to_file_path().ok()
}

/// Why a recording cannot be opened.
#[derive(Debug)]
pub enum RecordingError {
    NotLocal,
    InvalidUrl,
    ParseUrl(String),
    MissingProgram,
    TimedOut,
    Cancelled,
    TooLarge,
}

/// Which kind of location a URL names.
#[derive(Clone, Copy, Debug, PartialEq, Eq, Structural)]
pub enum LocationKind {
    Local,
    Http,
}

/// A `file` URL is local; an `http` or `https` URL with a host is remote; anything else
/// is not a recording URL.
pub open spec fn kind_of_url(scheme: Seq<char>, has_host: bool) -> Option<LocationKind> {
    if scheme == "file"@ {
        Some(LocationKind::Local)
    } else if (scheme == "http"@ || scheme == "https"@) && has_host {
        Some(LocationKind::Http)
    } else {
        None
    }
}

pub fn location_kind(scheme: &str, has_host: bool) -> (kind: Option<LocationKind>)
    ensures
        kind == kind_of_url(scheme@, has_host),
{
    if is_word(scheme, "file") {
        Some(LocationKind::Local)
    } else if (is_word(scheme, "http") || is_word(scheme, "https")) && has_host {
        Some(LocationKind::Http)
    } else {
        None
    }
}

/// Where a recording is: a local path, or an HTTP URL (its serialization) with the name
/// it is shown by.
#[derive(Debug)]
pub enum Location {
    Local(std::path::PathBuf),
    Http { url: String, name: String },
}

/// The name of an HTTP recording: its host followed by its path, so that user, password,
/// query and fragment are not shown.
pub open spec fn recording_name(host: Option<Seq<char>>, path: Seq<char>) -> Seq<char> {
    match host {
        Some(h) => h + path,
        None => path,
    }
}

pub fn http_name(host: &Option<String>, path: &str) -> (name: String)
    ensures
        name@ == recording_name(
            match host {
                Some(h) => Some(h@),
                None => None,
            },
            path@,
        ),
{
    match host {
        Some(h) => h.clone().concat(path),
        None => path.to_owned(),
    }
}

/// A `file` URL is local exactly when it names a local path.
pub fn local_location(path: Option<std::path::PathBuf>) -> (location: Result<Location, RecordingError>)
    ensures
        match path {
            Some(p) => location matches Ok(Location::Local(q)) && q == p,
            None => location matches Err(RecordingError::NotLocal),
        },
{
    match path {
        Some(path) => Ok(Location::Local(path)),
        None => Err(RecordingError::NotLocal),
    }
}

/// The text handed to the platform's file-path conversion: the serialization of the URL
/// that a `file` URL text parses to; nothing for any other text.
pub fn file_url_text(value: &str) -> (text: Option<String>)
    ensures
        text is Some <==> (url_accepts(value@) && kind_of_url(url_scheme_of(value@), url_host_of(value@) is Some)
            == Some(LocationKind::Local)),
        text matches Some(t) ==> t@ == url_text_of(value@),
{
    match parse_url(value) {
        Ok(parsed) => match location_kind(parsed.scheme.as_str(), parsed.host.is_some()) {
            Some(LocationKind::Local) => Some(parsed.text),
            _ => None,
        },
        Err(_) => None,
    }
}

impl Location {
    /// The location a URL names. A text that does not parse is refused with the parser's
    /// message; a `file` URL is local where its parsed URL names a local path, else not
    /// local; an `http` or `https` URL with a host is remote, carrying its parsed URL and
    /// its name; anything else is invalid.
    pub fn from_url(value: &str) -> (location: Result<Location, RecordingError>)
        ensures
            !url_accepts(value@) ==> (location matches Err(RecordingError::ParseUrl(m)) && m@ == url_error_of(value@)),
            url_accepts(value@) ==> match kind_of_url(url_scheme_of(value@), url_host_of(value@) is Some) {
                Some(LocationKind::Local) => location matches Ok(Location::Local(_)) || location matches Err(
                    RecordingError::NotLocal,
                ),
                Some(LocationKind::Http) => location matches Ok(Location::Http { url, name })
                    && url@ == url_text_of(value@) && name@ == recording_name(url_host_of(value@), url_path_of(value@)),
                None => location matches Err(RecordingError::InvalidUrl),
            },
    {
        let parsed = match parse_url(value) {
            Ok(parsed) => parsed,
            Err(message) => {
                return Err(RecordingError::ParseUrl(message));
            },
        };
        match location_kind(parsed.scheme.as_str(), parsed.host.is_some()) {
            Some(LocationKind::Local) => match file_url_text(value) {
                Some(text) => local_location(url_file_path(text.as_str())),
                None => Err(RecordingError::NotLocal),
            },
            Some(LocationKind::Http) => {
                let name = http_name(&parsed.host, parsed.path.as_str());
                Ok(Location::Http { url: parsed.text, name })
            },
            None => Err(RecordingError::InvalidUrl),
        }
    }
}

/// Inspection reads at most this much of a recording.
pub const PROBE_LIMIT: usize = 4194304;
/// Inspection reads this much at once.
pub const INSPECTION_READ_BYTES: usize = 65536;

/// A recording larger than `i64::MAX` bytes cannot be played.
pub fn check_size(size: u64) -> (result: Result<(), RecordingError>)
    ensures
        result is Ok <==> size <= i64::MAX,
        result matches Err(e) ==> e is TooLarge,
{
    if size > i64::MAX as u64 {
        Err(RecordingError::TooLarge)
    } else {
        Ok(())
    }
}

/// Whether inspection reads more: below the probe limit and before the deadline.
pub fn keeps_probing(read: usize, timed_out: bool) -> (more: bool)
    ensures
        more == (read < PROBE_LIMIT && !timed_out),
{
    read < PROBE_LIMIT && !timed_out
}

/// How much the next inspection read asks for.
pub fn probe_read_len(read: usize) -> (len: usize)
    requires
        read < PROBE_LIMIT,
    ensures
        len == inspection_request(read as int),
        0 < len <= INSPECTION_READ_BYTES,
{
    let left = PROBE_LIMIT - read;
    if left < INSPECTION_READ_BYTES {
        left
    } else {
        INSPECTION_READ_BYTES
    }
}

/// What the next inspection read asks for, after `read` bytes.
pub open spec fn inspection_request(read: int) -> int {
    if PROBE_LIMIT - read < INSPECTION_READ_BYTES {
        PROBE_LIMIT - read
    } else {
        INSPECTION_READ_BYTES as int
    }
}

/// Inspection never reads past its limit: while each read starts below `PROBE_LIMIT` (as
/// `keeps_probing` asks) and returns at most what `probe_read_len` asked for, every read
/// is at most `INSPECTION_READ_BYTES` and all of them together at most `PROBE_LIMIT`.
pub proof fn inspection_reads_stay_within_limit(reads: Seq<int>)
    requires
        forall|i: int|
            0 <= i < reads.len() ==> 0 <= #[trigger] reads[i] && total(reads.take(i)) < PROBE_LIMIT
                && reads[i] <= inspection_request(total(reads.take(i))),
    ensures
        total(reads) <= PROBE_LIMIT,
        forall|i: int| 0 <= i < reads.len() ==> #[trigger] reads[i] <= INSPECTION_READ_BYTES,
    decreases reads.len(),
{
    if reads.len() > 0 {
        let rest = reads.drop_last();
        assert forall|i: int|
            0 <= i < rest.len() implies 0 <= #[trigger] rest[i] && total(rest.take(i)) < PROBE_LIMIT
                && rest[i] <= inspection_request(total(rest.take(i))) by {
            assert(rest.take(i) =~= reads.take(i));
            assert(rest[i] == reads[i]);
        }
        inspection_reads_stay_within_limit(rest);
        let last = reads.len() - 1;
        assert(reads.take(last) =~= rest);
        assert(reads[last] <= PROBE_LIMIT - total(rest));
        assert forall|i: int| 0 <= i < reads.len() implies #[trigger] reads[i] <= INSPECTION_READ_BYTES by {
            if i < last {
                assert(reads[i] == rest[i]);
            }
        }
    }
}

/// When inspection found no transport stream service: it ran out of time, or there is
/// none.
pub fn missing_service(timed_out: bool) -> (error: RecordingError)
    ensures
        if timed_out {
            error is TimedOut
        } else {
            error is MissingProgram
        },
{
    if timed_out {
        RecordingError::TimedOut
    } else {
        RecordingError::MissingProgram
    }
}

/// A transport stream recording: where it is, its name, its service and what
/// inspection read of it.
#[derive(Debug)]
pub struct TransportStream {
    location: Location,
    name: String,
    service: u16,
    prefix: Vec<u8>,
    size: u64,
}

impl TransportStream {
    pub closed spec fn service_spec(self) -> u16 {
        self.service
    }

    pub closed spec fn name_spec(self) -> Seq<char> {
        self.name@
    }

    pub closed spec fn prefix_spec(self) -> Seq<u8> {
        self.prefix@
    }

    pub closed spec fn size_spec(self) -> u64 {
        self.size
    }

    pub closed spec fn location_spec(self) -> Location {
        self.location
    }

    pub fn new(location: Location, name: String, service: u16, prefix: Vec<u8>, size: u64) -> (stream: TransportStream)
        ensures
            stream.service_spec() == service,
            stream.name_spec() == name@,
            stream.prefix_spec() == prefix@,
            stream.size_spec() == size,
            stream.location_spec() == location,
    {
        TransportStream { location, name, service, prefix, size }
    }

    pub fn service(&self) -> (service: u16)
        ensures
            service == self.service_spec(),
    {
        self.service
    }

    pub fn name(&self) -> (name: &String)
        ensures
            name@ == self.name_spec(),
    {
        &self.name
    }

    pub fn location(&self) -> (location: &Location)
        ensures
            *location == self.location_spec(),
    {
        &self.location
    }

    /// What inspection read from the start of the recording, and its size.
    pub fn inspection(&self) -> (inspection: (&Vec<u8>, u64))
        ensures
            inspection.0@ == self.prefix_spec(),
            inspection.1 == self.size_spec(),
    {
        (&self.prefix, self.size)
    }
}

/// A broadcast service: network and service identity.
#[derive(Clone, Copy, Debug, PartialEq, Eq, Structural)]
pub struct BroadcastService {
    pub network_id: u16,
    pub service_id: u16,
}

/// The broadcast of an unedited recording: its service and when it started, in Unix
/// milliseconds.
#[derive(Clone, Copy, Debug, PartialEq, Eq, Structural)]
pub struct Broadcast {
    service: BroadcastService,
    start_ms: i64,
}

/// A start is a positive time whose nanoseconds fit `i64`.
pub open spec fn valid_start(start_ms: i64) -> bool {
    start_ms > 0 && start_ms * 1000000 <= i64::MAX
}

impl Broadcast {
    pub closed spec fn service_spec(self) -> BroadcastService {
        self.service
    }

    pub closed spec fn start_spec(self) -> i64 {
        self.start_ms
    }

    pub fn new(service: BroadcastService, start_ms: i64) -> (broadcast: Option<Broadcast>)
        ensures
            broadcast is Some <==> valid_start(start_ms),
            broadcast matches Some(b) ==> b.service_spec() == service && b.start_spec() == start_ms,
    {
        if start_ms > 0 && start_ms <= i64::MAX / 1000000 {
            Some(Broadcast { service, start_ms })
        } else {
            None
        }
    }

    /// The same broadcast starting at `start_ms`, when that is a valid start; else
    /// unchanged.
    pub fn with_start(self, start_ms: i64) -> (broadcast: Broadcast)
        ensures
            broadcast.service_spec() == self.service_spec(),
            broadcast.start_spec() == if valid_start(start_ms) {
                start_ms
            } else {
                self.start_spec()
            },
    {
        match Broadcast::new(self.service, start_ms) {
            Some(b) => b,
            None => self,
        }
    }

    pub fn service(self) -> (service: BroadcastService)
        ensures
            service == self.service_spec(),
    {
        self.service
    }

    pub fn start_ms(self) -> (start: i64)
        ensures
            start == self.start_spec(),
    {
        self.start_ms
    }
}

} // verus!
