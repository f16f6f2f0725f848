use tarstream::InnerHeader;
use tarstream::TarError;
use tarstream::TypeFlag;
use tarstream::blocks;
use tarstream::trim_slice;

fn block_with(name: &[u8], prefix: &[u8], size_field: &[u8], typeflag: u8) -> Vec<u8> {
    assert!(name.len() <= 100 && prefix.len() <= 155 && size_field.len() == 12);
    let mut b = vec![0u8; 512];
    b[..name.len()].copy_from_slice(name);
    b[124..136].copy_from_slice(size_field);
    b[156] = typeflag;
    b[257..263].copy_from_slice(b"ustar\0");
    b[263..265].copy_from_slice(b"00");
    b[345..345 + prefix.len()].copy_from_slice(prefix);
    b
}

fn header_with_size(size_field: &[u8]) -> InnerHeader {
    InnerHeader::from_block(&block_with(b"f", b"", size_field, b'0'))
}

#[test]
fn typeflag_regular_encodes_as_zero() {
    assert_eq!(TypeFlag::Regular.to_u8(), b'0');
}

#[test]
fn typeflag_five_decodes_as_directory() {
    assert_eq!(TypeFlag::from_u8(b'5'), TypeFlag::Directory);
}

#[test]
fn typeflag_unknown_byte_is_other_not_error() {
    assert_eq!(TypeFlag::from_u8(b'Z'), TypeFlag::Other(b'Z'));
}

#[test]
fn typeflag_nul_decodes_as_regular() {
    assert_eq!(TypeFlag::from_u8(0), TypeFlag::Regular);
}

#[test]
fn typeflag_known_set_round_trips() {
    for raw in [b'0', b'1', b'2', b'3', b'4', b'5', b'6', b'x', b'g'] {
        assert_eq!(TypeFlag::from_u8(raw).to_u8(), raw);
    }
}

#[test]
fn typeflag_of_header_block() {
    let h = InnerHeader::from_block(&block_with(b"d", b"", b"00000000000 ", b'5'));
    assert_eq!(h.typeflag(), TypeFlag::Directory);
}

#[test]
fn size_octal_decodes() {
    assert_eq!(header_with_size(b"00000000644 ").size(), Ok(0o644));
    assert_eq!(header_with_size(b"00000000000 ").size(), Ok(0));
    assert_eq!(header_with_size(b"77777777777 ").size(), Ok(0o77777777777));
}

#[test]
fn size_octal_rejects_bad_digit() {
    assert_eq!(
        header_with_size(b"00000000648 ").size(),
        Err(TarError::MalformedSizeField)
    );
    assert_eq!(
        header_with_size(b"0000000064x ").size(),
        Err(TarError::MalformedSizeField)
    );
}

#[test]
fn size_octal_rejects_missing_terminator() {
    assert_eq!(
        header_with_size(b"000000006440").size(),
        Err(TarError::MalformedSizeField)
    );
}

#[test]
fn size_binary_decodes() {
    let mut f = [0u8; 12];
    f[0] = 0x80;
    f[4..12].copy_from_slice(&1_000_000_000_000u64.to_le_bytes());
    assert_eq!(header_with_size(&f).size(), Ok(1_000_000_000_000));

    let mut g = [0u8; 12];
    g[0] = 0x80;
    g[4..12].copy_from_slice(&u64::MAX.to_le_bytes());
    assert_eq!(header_with_size(&g).size(), Ok(u64::MAX));
}

#[test]
fn size_binary_rejects_other_marker_patterns() {
    let mut f = [0u8; 12];
    f[0] = 0x81;
    f[4..12].copy_from_slice(&5u64.to_le_bytes());
    assert_eq!(header_with_size(&f).size(), Err(TarError::MalformedSizeField));

    let mut g = [0u8; 12];
    g[0] = 0x80;
    g[2] = 1;
    g[4..12].copy_from_slice(&5u64.to_le_bytes());
    assert_eq!(header_with_size(&g).size(), Err(TarError::MalformedSizeField));
}

#[test]
fn path_joins_prefix_and_name() {
    let h = InnerHeader::from_block(&block_with(b"bin/tool", b"usr/local", b"00000000000 ", b'0'));
    assert_eq!(h.path(), b"usr/local/bin/tool".to_vec());
}

#[test]
fn path_without_prefix_is_name_alone() {
    let h = InnerHeader::from_block(&block_with(b"file.txt", b"", b"00000000000 ", b'0'));
    assert_eq!(h.path(), b"file.txt".to_vec());
}

#[test]
fn is_posix_accepts_ustar_magic() {
    let h = InnerHeader::from_block(&block_with(b"f", b"", b"00000000000 ", b'0'));
    assert!(h.is_posix());
}

#[test]
fn is_posix_rejects_other_magic() {
    let mut b = block_with(b"f", b"", b"00000000000 ", b'0');
    b[257] = b'x';
    assert!(!InnerHeader::from_block(&b).is_posix());
    let mut v = block_with(b"f", b"", b"00000000000 ", b'0');
    v[264] = b'7';
    assert!(!InnerHeader::from_block(&v).is_posix());
}

#[test]
fn trim_slice_cuts_at_first_nul() {
    assert_eq!(trim_slice(b"abc\0def"), b"abc");
    assert_eq!(trim_slice(b"abc"), b"abc");
    assert_eq!(trim_slice(b"\0abc"), b"");
    assert_eq!(trim_slice(b""), b"");
}

#[test]
fn blocks_rounds_up_to_block_size() {
    assert_eq!(blocks(0), 0);
    assert_eq!(blocks(1), 1);
    assert_eq!(blocks(511), 1);
    assert_eq!(blocks(512), 1);
    assert_eq!(blocks(513), 2);
    assert_eq!(blocks(1024), 2);
}
