use nagametv::http::{
    parse_range, Cursor, Error, Fetch, Head, SeekFrom, Validator, Verified, RANGE_BYTES,
    SIZE_PROBE_BYTES,
};

/// One request as a server saw it: the Range and If-Range headers.
#[derive(Debug, PartialEq)]
struct Request {
    range: String,
    if_range: Option<Vec<u8>>,
}

/// A resource served by ranges, with an ETag, recording each request.
struct Server {
    bytes: Vec<u8>,
    etag: Vec<u8>,
    requests: Vec<Request>,
}

impl Server {
    fn new(bytes: Vec<u8>) -> Self {
        Server { bytes, etag: b"\"recording-v1\"".to_vec(), requests: Vec::new() }
    }

    fn respond(&mut self, start: u64, end: u64, if_range: Option<&Vec<u8>>) -> (Head, Vec<u8>) {
        self.requests.push(Request { range: format!("bytes={start}-{end}"), if_range: if_range.cloned() });
        let len = self.bytes.len() as u64;
        if start >= len || end >= len {
            return (head(416, None, None), Vec::new());
        }
        let body = self.bytes[start as usize..=end as usize].to_vec();
        let mut head = head(206, Some(format!("bytes {start}-{end}/{len}")), Some(self.etag.clone()));
        head.content_length = Some(body.len() as u64);
        (head, body)
    }
}

fn head(status: u16, content_range: Option<String>, etag: Option<Vec<u8>>) -> Head {
    Head {
        status,
        content_encoding: None,
        content_range: content_range.map(String::into_bytes),
        etag,
        last_modified: None,
        content_length: None,
    }
}

fn fetch(
    start: u64,
    end: u64,
    expected: Option<&Verified>,
    head: &Head,
    body: &[u8],
) -> Result<(Vec<u8>, u64, Validator), Error> {
    let (mut fetch, size, validator) = Fetch::check_head(start, end, expected, head)?;
    for chunk in body.chunks(1000) {
        fetch.push_chunk(chunk)?;
    }
    Ok((fetch.finish()?, size, validator))
}

fn inspect(server: &mut Server) -> Result<(Verified, Cursor), Error> {
    let end = Fetch::request_end(0, SIZE_PROBE_BYTES, None);
    let (head, body) = server.respond(0, end, None);
    let (_, size, validator) = fetch(0, end, None, &head, &body)?;
    Ok((Verified { size, validator }, Cursor::new(size)))
}

fn read(server: &mut Server, source: &Verified, cursor: &mut Cursor, max: usize) -> Result<Vec<u8>, Error> {
    if let Some(start) = cursor.refill_from(max) {
        let end = Fetch::request_end(start, RANGE_BYTES, Some(source));
        let (head, body) = server.respond(start, end, source.validator.header());
        let (bytes, _, _) = fetch(start, end, Some(source), &head, &body)?;
        cursor.refill(start, bytes);
    }
    Ok(cursor.take(max))
}

fn read_exact(server: &mut Server, source: &Verified, cursor: &mut Cursor, len: usize) -> Vec<u8> {
    let mut out = Vec::new();
    while out.len() < len {
        let part = read(server, source, cursor, len - out.len()).unwrap();
        assert!(!part.is_empty(), "unexpected end");
        out.extend(part);
    }
    out
}

#[test]
fn bounded_random_reads_preserve_offsets_query_and_if_range() {
    const BLOCKS: usize = 8;
    let bytes: Vec<u8> = (0..RANGE_BYTES * BLOCKS).map(|n| (n % 251) as u8).collect();
    let mut server = Server::new(bytes.clone());
    let (source, mut cursor) = inspect(&mut server).unwrap();
    assert_eq!(source.size, bytes.len() as u64);
    let block = 1024;
    assert_eq!(read_exact(&mut server, &source, &mut cursor, block), bytes[..block]);
    cursor.seek(SeekFrom::End(-(block as i64))).unwrap();
    assert_eq!(read_exact(&mut server, &source, &mut cursor, block), bytes[bytes.len() - block..]);
    assert!(read(&mut server, &source, &mut cursor, block).unwrap().is_empty());
    cursor.seek(SeekFrom::Start(77)).unwrap();
    assert_eq!(read_exact(&mut server, &source, &mut cursor, block), bytes[77..77 + block]);
    assert_eq!(cursor.seek(SeekFrom::Current(-((77 + block + 1) as i64))), None);
    assert_eq!(cursor.position(), (77 + block) as u64);
    assert_eq!(server.requests.len(), 4);
    assert_eq!(server.requests[0].range, "bytes=0-1");
    assert_eq!(server.requests[0].if_range, None);
    assert_eq!(server.requests[1].if_range.as_deref(), Some(&b"\"recording-v1\""[..]));
    assert_eq!(server.requests[3].range, format!("bytes=77-{}", 77 + RANGE_BYTES - 1));
}

#[test]
fn epgstation_short_recording_and_final_byte_never_request_beyond_eof() {
    let bytes: Vec<u8> = (0..1000u32).map(|n| (n % 7) as u8).collect();
    let mut server = Server::new(bytes.clone());
    let (source, mut cursor) = inspect(&mut server).unwrap();
    cursor.seek(SeekFrom::End(-1)).unwrap();
    let last = read_exact(&mut server, &source, &mut cursor, 1);
    assert_eq!(last[0], bytes[bytes.len() - 1]);
    assert!(read(&mut server, &source, &mut cursor, 1).unwrap().is_empty());
    assert_eq!(server.requests.len(), 2);
    assert_eq!(server.requests[0].range, "bytes=0-1");
    assert_eq!(
        server.requests[1].range,
        format!("bytes={}-{}", bytes.len() - 2, bytes.len() - 1)
    );
}

#[test]
fn range_ignored_malformed_encoded_and_error_responses_fail_without_exposing_url() {
    let mut gzip = head(206, Some("bytes 0-9/10".into()), None);
    gzip.content_encoding = Some(b"gzip".to_vec());
    let cases = [
        (head(200, None, None), b"login page".to_vec(), Error::RangeUnsupported),
        (head(206, Some("bytes 1-9/10".into()), None), vec![0; 9], Error::InvalidRange),
        (head(206, Some("bytes 0-9/*".into()), None), vec![0; 10], Error::InvalidRange),
        (gzip, vec![0; 10], Error::InvalidRange),
        (head(401, None, None), Vec::new(), Error::Network),
        (head(404, None, None), Vec::new(), Error::Network),
        (head(500, None, None), Vec::new(), Error::Network),
    ];
    for (head, body, expected) in cases {
        let end = Fetch::request_end(0, SIZE_PROBE_BYTES, None);
        let error = fetch(0, end, None, &head, &body).err().expect("invalid response accepted");
        assert_eq!(error, expected);
        assert!(!format!("{error:?}").contains("private"));
    }
}

#[test]
fn changed_resource_and_short_body_are_not_spliced_into_recording() {
    let size = (RANGE_BYTES * 2) as u64;
    let original = Verified { size, validator: Validator::from_headers(&Some(b"\"recording-v1\"".to_vec()), &None) };
    let last = RANGE_BYTES as u64 - 1;
    let full = |total: u64, etag: &[u8]| {
        head(206, Some(format!("bytes 0-{last}/{total}")), Some(etag.to_vec()))
    };
    let cases = [
        (head(200, None, None), Vec::new(), Error::Changed),
        (full(size, b"\"recording-v2\""), vec![0; RANGE_BYTES], Error::Changed),
        (full(size + 1, b"\"recording-v1\""), vec![0; RANGE_BYTES], Error::Changed),
        (full(size, b"\"recording-v1\""), vec![0; 10], Error::Truncated),
    ];
    for (head, body, expected) in cases {
        let end = Fetch::request_end(0, RANGE_BYTES, Some(&original));
        assert_eq!(end, last);
        assert_eq!(fetch(0, end, Some(&original), &head, &body).err(), Some(expected));
    }
    let (bytes, _, _) =
        fetch(0, last, Some(&original), &full(size, b"\"recording-v1\""), &vec![3; RANGE_BYTES])
            .unwrap();
    assert_eq!(bytes.len(), RANGE_BYTES);
}

#[test]
fn a_longer_body_than_announced_is_refused() {
    let head = head(206, Some("bytes 0-1/10".into()), None);
    let (mut fetch, size, _) = Fetch::check_head(0, 1, None, &head).unwrap();
    assert_eq!(size, 10);
    assert_eq!(fetch.push_chunk(&[1, 2, 3]), Err(Error::InvalidRange));
    assert_eq!(fetch.push_chunk(&[1]), Ok(()));
    assert_eq!(fetch.push_chunk(&[2]), Ok(()));
    assert_eq!(fetch.finish(), Ok(vec![1, 2]));
}

#[test]
fn content_ranges_parse_exactly() {
    assert_eq!(parse_range("bytes 0-9/10"), Some((0, 9, 10)));
    assert_eq!(parse_range("bytes 77-100/5000"), Some((77, 100, 5000)));
    assert_eq!(parse_range("bytes 0-9/*"), None);
    assert_eq!(parse_range("bytes 9-0/10"), None);
    assert_eq!(parse_range("bytes 0-10/10"), None);
    assert_eq!(parse_range("items 0-9/10"), None);
    assert_eq!(parse_range("bytes 0-9/10 "), None);
    assert_eq!(parse_range("bytes 0-18446744073709551616/20"), None);
}

#[test]
fn validators_prefer_the_etag() {
    let etag = Some(b"\"a\"".to_vec());
    let modified = Some(b"Mon".to_vec());
    let both = Validator::from_headers(&etag, &modified);
    assert_eq!(both.header(), etag.as_ref());
    assert!(both.agrees(&etag, &None));
    assert!(!both.agrees(&Some(b"\"b\"".to_vec()), &modified));
    let dated = Validator::from_headers(&None, &modified);
    assert_eq!(dated.header(), modified.as_ref());
    assert!(!dated.agrees(&None, &None));
    let none = Validator::from_headers(&None, &None);
    assert_eq!(none.header(), None);
    assert!(none.agrees(&etag, &modified));
}
