use rax_memory::format::{checksum, spec_version, validate_open, FormatError, MV2SFooter, MV2SHeader, MV2SToc, OpenState};

#[test]
fn selects_newer_valid_header_generation() {
    let older = MV2SHeader {
        generation: 1,
        toc_offset: 128,
    }
    .encode();
    let newer = MV2SHeader {
        generation: 2,
        toc_offset: 256,
    }
    .encode();
    let footer = MV2SFooter {
        generation: 2,
        toc_offset: 256,
    }
    .encode();

    let open = validate_open(&older, &newer, &footer).unwrap();
    assert_eq!(open.generation, 2);
    assert_eq!(open.toc_offset, 256);
}

#[test]
fn rejects_corrupt_footer_magic() {
    let header = MV2SHeader {
        generation: 1,
        toc_offset: 128,
    }
    .encode();
    let mut footer = MV2SFooter {
        generation: 1,
        toc_offset: 128,
    }
    .encode();
    footer[0] = b'X';

    let err = validate_open(&header, &header, &footer).unwrap_err();
    assert_eq!(err, FormatError::InvalidMagic);
}

fn header(generation: u64, toc_offset: u64) -> Vec<u8> {
    MV2SHeader { generation, toc_offset }.encode()
}

fn footer(generation: u64, toc_offset: u64) -> Vec<u8> {
    MV2SFooter { generation, toc_offset }.encode()
}

#[test]
fn page_sizes_and_checksum_follow_layout() {
    let h = header(1, 128);
    assert_eq!(h.len(), 32);
    assert_eq!(&h[0..4], b"MV2H");
    assert_eq!(checksum(&h[..28]), u32::from_le_bytes([h[28], h[29], h[30], h[31]]));
    let t = MV2SToc { frame_count: 9 }.encode();
    assert_eq!(t.len(), 16);
    assert_eq!(&t[0..4], b"MV2T");
    assert_eq!(MV2SToc::decode(&t), Ok(MV2SToc { frame_count: 9 }));
    let f = footer(3, 64);
    assert_eq!(f.len(), 24);
    assert_eq!(&f[0..4], b"MV2F");
    assert_eq!(MV2SFooter::decode(&f), Ok(MV2SFooter { generation: 3, toc_offset: 64 }));
    assert_eq!(MV2SHeader::decode(&h), Ok(MV2SHeader { generation: 1, toc_offset: 128 }));
}

#[test]
fn checksum_wraps_at_32_bits() {
    assert_eq!(checksum(&[]), 0);
    assert_eq!(checksum(&[1, 2, 3]), 6);
    let many = vec![0xffu8; 16_843_010];
    let expected = (16_843_010u64 * 255 % (1u64 << 32)) as u32;
    assert_eq!(checksum(&many), expected);
}

#[test]
fn open_prefers_newer_header_in_either_slot() {
    let open = validate_open(&header(5, 64), &header(4, 40), &footer(5, 64)).unwrap();
    assert_eq!(open, OpenState { generation: 5, toc_offset: 64 });
    let open = validate_open(&header(4, 40), &header(5, 64), &footer(5, 64)).unwrap();
    assert_eq!(open, OpenState { generation: 5, toc_offset: 64 });
}

#[test]
fn open_tie_favours_first_header() {
    let open = validate_open(&header(7, 64), &header(7, 96), &footer(7, 64)).unwrap();
    assert_eq!(open.toc_offset, 64);
}

#[test]
fn open_uses_the_only_valid_header() {
    let mut torn = header(9, 512);
    torn[10] ^= 0x01;
    let open = validate_open(&torn, &header(8, 256), &footer(8, 256)).unwrap();
    assert_eq!(open, OpenState { generation: 8, toc_offset: 256 });
}

#[test]
fn open_errors_for_each_failure() {
    let bad = vec![0u8; 32];
    assert_eq!(validate_open(&bad, &bad, &footer(1, 64)), Err(FormatError::NoValidHeader));
    assert_eq!(validate_open(&header(2, 64), &bad, &footer(1, 64)), Err(FormatError::GenerationMismatch));
    assert_eq!(validate_open(&header(2, 64), &bad, &footer(2, 96)), Err(FormatError::TocOffsetMismatch));
    assert_eq!(validate_open(&header(2, 16), &bad, &footer(2, 16)), Err(FormatError::TocOffsetOutOfRange));
    assert_eq!(validate_open(&header(2, 64), &bad, &footer(2, 64)[..20]), Err(FormatError::InvalidLength));
    let mut f = footer(2, 64);
    f[5] ^= 0x10;
    assert_eq!(validate_open(&header(2, 64), &bad, &f), Err(FormatError::ChecksumMismatch));
    assert_eq!(validate_open(&header(2, 32), &bad, &footer(2, 32)), Ok(OpenState { generation: 2, toc_offset: 32 }));
}

#[test]
fn spec_version_is_one_zero() {
    assert_eq!(spec_version(), (1, 0));
}
