use tarstream::InnerHeader;
use tarstream::SliceSource;
use tarstream::TarError;
use tarstream::TarReader;
use tarstream::interpret_block;

fn octal_field(n: u64) -> [u8; 12] {
    let digits = format!("{:011o} ", n);
    let mut f = [0u8; 12];
    f.copy_from_slice(digits.as_bytes());
    f
}

fn header_block(name: &[u8], size: u64) -> Vec<u8> {
    let mut b = vec![0u8; 512];
    b[..name.len()].copy_from_slice(name);
    b[124..136].copy_from_slice(&octal_field(size));
    b[156] = b'0';
    b[257..263].copy_from_slice(b"ustar\0");
    b[263..265].copy_from_slice(b"00");
    b
}

fn entry(name: &[u8], body: &[u8]) -> Vec<u8> {
    let mut a = header_block(name, body.len() as u64);
    a.extend_from_slice(body);
    let pad = (512 - body.len() % 512) % 512;
    a.extend_from_slice(&vec![0u8; pad]);
    a
}

fn expect_entry(r: Result<Option<InnerHeader>, TarError>) -> InnerHeader {
    match r {
        Ok(Some(h)) => h,
        other => panic!("expected an entry, got {:?}", other.map(|o| o.map(|h| h.path()))),
    }
}

#[test]
fn empty_source_is_clean_end() {
    let mut r = TarReader::new(SliceSource::new(Vec::new()));
    assert_eq!(r.next().map(|o| o.is_none()), Ok(true));
}

#[test]
fn zero_name_block_is_clean_end() {
    let mut r = TarReader::new(SliceSource::new(vec![0u8; 512]));
    assert_eq!(r.next().map(|o| o.is_none()), Ok(true));
}

#[test]
fn truncated_header_is_an_error() {
    let mut r = TarReader::new(SliceSource::new(vec![b'x'; 100]));
    assert_eq!(r.next().map(|_| ()), Err(TarError::UnexpectedEndOfArchive));
}

#[test]
fn truncated_skip_is_an_error() {
    let mut a = header_block(b"big", 1024);
    a.extend_from_slice(&[7u8; 100]);
    let mut r = TarReader::new(SliceSource::new(a));
    let h = expect_entry(r.next());
    assert_eq!(h.size(), Ok(1024));
    assert_eq!(r.next().map(|_| ()), Err(TarError::UnexpectedEndOfArchive));
}

#[test]
fn two_entries_read_in_sequence() {
    let mut a = entry(b"first.txt", b"hello");
    a.extend_from_slice(&entry(b"second/file.txt", b"world!!"));
    a.extend_from_slice(&vec![0u8; 1024]);
    let mut r = TarReader::new(SliceSource::new(a));

    let h1 = expect_entry(r.next());
    assert_eq!(h1.path(), b"first.txt".to_vec());
    assert_eq!(h1.size(), Ok(5));
    assert!(h1.is_posix());
    let mut body = Vec::new();
    loop {
        let chunk = r.read_body(3);
        if chunk.is_empty() {
            break;
        }
        body.extend_from_slice(&chunk);
        assert!(body.len() <= 5);
    }
    assert_eq!(body, b"hello".to_vec());

    let h2 = expect_entry(r.next());
    assert_eq!(h2.path(), b"second/file.txt".to_vec());
    assert_eq!(h2.size(), Ok(7));
    assert_eq!(r.read_body(512), b"world!!".to_vec());

    assert_eq!(r.next().map(|o| o.is_none()), Ok(true));
}

#[test]
fn body_reads_never_exceed_declared_size() {
    let a = entry(b"five", b"12345");
    let mut r = TarReader::new(SliceSource::new(a));
    expect_entry(r.next());
    let mut total = 0;
    loop {
        let chunk = r.read_body(100);
        if chunk.is_empty() {
            break;
        }
        total += chunk.len();
        assert!(total <= 5);
    }
    assert_eq!(total, 5);
    assert!(r.read_body(100).is_empty());
}

#[test]
fn unread_body_is_skipped_before_next_header() {
    let mut a = entry(b"skipped", &[9u8; 700]);
    a.extend_from_slice(&entry(b"wanted", b"ok"));
    a.extend_from_slice(&vec![0u8; 1024]);
    let mut r = TarReader::new(SliceSource::new(a));
    expect_entry(r.next());
    let h = expect_entry(r.next());
    assert_eq!(h.path(), b"wanted".to_vec());
    assert_eq!(h.size(), Ok(2));
}

#[test]
fn body_of_exactly_one_block_pads_to_one_block() {
    // A 512-byte body must be followed by no padding at all: the next header
    // starts immediately after it.
    let mut a = entry(b"aligned", &[1u8; 512]);
    assert_eq!(a.len(), 1024);
    a.extend_from_slice(&entry(b"after", b"x"));
    a.extend_from_slice(&vec![0u8; 1024]);
    let mut r = TarReader::new(SliceSource::new(a));
    let h1 = expect_entry(r.next());
    assert_eq!(h1.size(), Ok(512));
    let h2 = expect_entry(r.next());
    assert_eq!(h2.path(), b"after".to_vec());
    assert_eq!(h2.size(), Ok(1));
}

#[test]
fn partial_reads_still_assemble_headers() {
    let mut a = entry(b"slow.txt", b"trickle");
    a.extend_from_slice(&vec![0u8; 1024]);
    let mut r = TarReader::new(SliceSource::with_chunk(a, 1));
    let h = expect_entry(r.next());
    assert_eq!(h.path(), b"slow.txt".to_vec());
    assert_eq!(h.size(), Ok(7));
    let mut body = Vec::new();
    loop {
        let chunk = r.read_body(512);
        if chunk.is_empty() {
            break;
        }
        body.extend_from_slice(&chunk);
    }
    assert_eq!(body, b"trickle".to_vec());
    assert_eq!(r.next().map(|o| o.is_none()), Ok(true));
}

#[test]
fn interpret_block_recognizes_the_sentinel() {
    assert!(matches!(interpret_block(&vec![0u8; 512]), Ok(None)));
    // Only the first name byte decides: garbage elsewhere is still a sentinel.
    let mut b = vec![0u8; 512];
    b[1] = b'x';
    b[300] = 0xFF;
    assert!(matches!(interpret_block(&b), Ok(None)));
}

#[test]
fn interpret_block_decodes_an_ordinary_header() {
    let b = header_block(b"a.txt", 0o644);
    match interpret_block(&b) {
        Ok(Some((h, sz))) => {
            assert_eq!(h.path(), b"a.txt".to_vec());
            assert_eq!(sz, 0o644);
        }
        other => panic!("expected an entry, got {:?}", other.map(|_| ())),
    }
}

#[test]
fn interpret_block_rejects_an_oversized_size() {
    let mut b = header_block(b"huge", 0);
    let mut f = [0u8; 12];
    f[0] = 0x80;
    f[4..12].copy_from_slice(&u64::MAX.to_le_bytes());
    b[124..136].copy_from_slice(&f);
    assert_eq!(interpret_block(&b).map(|_| ()), Err(TarError::OversizedField));
}

#[test]
fn interpret_block_rejects_a_malformed_size() {
    let mut b = header_block(b"bad", 0);
    b[124..136].copy_from_slice(b"00000000x00 ");
    assert_eq!(
        interpret_block(&b).map(|_| ()),
        Err(TarError::MalformedSizeField)
    );
}

#[test]
fn malformed_size_surfaces_through_next() {
    let mut b = header_block(b"bad", 0);
    b[124..136].copy_from_slice(b"0000000064x ");
    let mut r = TarReader::new(SliceSource::new(b));
    assert_eq!(r.next().map(|_| ()), Err(TarError::MalformedSizeField));
}

#[test]
fn oversized_binary_size_surfaces_through_next() {
    let mut b = header_block(b"huge", 0);
    let mut f = [0u8; 12];
    f[0] = 0x80;
    f[4..12].copy_from_slice(&u64::MAX.to_le_bytes());
    b[124..136].copy_from_slice(&f);
    let mut r = TarReader::new(SliceSource::new(b));
    assert_eq!(r.next().map(|_| ()), Err(TarError::OversizedField));
}

#[test]
fn binary_sized_entry_streams_like_an_octal_one() {
    let body = [3u8; 513];
    let mut b = header_block(b"bin-size", 0);
    let mut f = [0u8; 12];
    f[0] = 0x80;
    f[4..12].copy_from_slice(&513u64.to_le_bytes());
    b[124..136].copy_from_slice(&f);
    b.extend_from_slice(&body);
    b.extend_from_slice(&vec![0u8; 511]);
    b.extend_from_slice(&entry(b"tail", b"t"));
    b.extend_from_slice(&vec![0u8; 1024]);
    let mut r = TarReader::new(SliceSource::new(b));
    let h = expect_entry(r.next());
    assert_eq!(h.size(), Ok(513));
    let h2 = expect_entry(r.next());
    assert_eq!(h2.path(), b"tail".to_vec());
}
