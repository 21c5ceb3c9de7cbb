use vdrop::addr::beacon_destination;
use vdrop::frame::{encode_frame_header, u64_from_be_bytes, u64_to_be_bytes, FrameReader, RecvPhase};
use vdrop::sanitize::stored_file_name;

#[test]
fn length_field_is_big_endian() {
    let bytes = u64_to_be_bytes(0x0102_0304_0506_0708);
    assert_eq!(bytes, vec![1, 2, 3, 4, 5, 6, 7, 8]);
    assert_eq!(u64_from_be_bytes(&bytes), 0x0102_0304_0506_0708);
}

#[test]
fn length_field_round_trips_at_the_extremes() {
    for n in [0u64, 1, 255, 256, u64::MAX - 1, u64::MAX] {
        assert_eq!(u64_from_be_bytes(&u64_to_be_bytes(n)), n);
    }
}

#[test]
fn frame_header_is_length_then_name() {
    let header = encode_frame_header(b"abc");
    assert_eq!(header, vec![0, 0, 0, 0, 0, 0, 0, 3, b'a', b'b', b'c']);
}

#[test]
fn reader_finds_name_and_content_in_one_chunk() {
    let mut frame = encode_frame_header(b"photo.png");
    frame.extend_from_slice(b"raw image bytes");
    let mut reader = FrameReader::new();
    let used = reader.push(&frame).expect("header is complete");
    assert_eq!(used, 8 + "photo.png".len());
    assert_eq!(reader.name().as_slice(), b"photo.png");
    assert_eq!(&frame[used..], b"raw image bytes");
}

#[test]
fn reader_accepts_the_header_byte_by_byte() {
    let frame = encode_frame_header(b"slow");
    let mut reader = FrameReader::new();
    for (i, b) in frame.iter().enumerate() {
        let r = reader.push(&[*b]);
        if i + 1 < frame.len() {
            assert_eq!(r, None);
        } else {
            assert_eq!(r, Some(1));
        }
    }
    assert_eq!(reader.name().as_slice(), b"slow");
}

#[test]
fn reader_handles_an_empty_filename() {
    let frame = encode_frame_header(b"");
    let mut reader = FrameReader::new();
    let used = reader.push(&frame).expect("header is complete");
    assert_eq!(used, 8);
    assert_eq!(reader.name().len(), 0);
}

#[test]
fn file_bytes_round_trip_for_many_sizes() {
    for n in [0usize, 1, 65_536, 10_000_000] {
        let content: Vec<u8> = (0..n).map(|i| (i % 251) as u8).collect();
        let mut frame = encode_frame_header(b"payload.bin");
        frame.extend_from_slice(&content);
        let mut reader = FrameReader::new();
        let used = reader.push(&frame).expect("header is complete");
        assert_eq!(reader.name().as_slice(), b"payload.bin");
        assert_eq!(&frame[used..], &content[..], "content of {} bytes differs", n);
    }
}

#[test]
fn two_concurrent_transfers_do_not_mix() {
    let mut frame_a = encode_frame_header(b"first.txt");
    frame_a.extend_from_slice(b"contents of the first file");
    let mut frame_b = encode_frame_header(b"second.txt");
    frame_b.extend_from_slice(b"what the second one holds");

    let mut reader_a = FrameReader::new();
    let mut reader_b = FrameReader::new();
    let mut rest_a: Vec<u8> = Vec::new();
    let mut rest_b: Vec<u8> = Vec::new();
    let mut done_a = false;
    let mut done_b = false;

    // Interleave three-byte slices of both connections.
    let mut i = 0;
    while i < frame_a.len() || i < frame_b.len() {
        if i < frame_a.len() {
            let chunk = &frame_a[i..frame_a.len().min(i + 3)];
            if done_a {
                rest_a.extend_from_slice(chunk);
            } else if let Some(used) = reader_a.push(chunk) {
                done_a = true;
                rest_a.extend_from_slice(&chunk[used..]);
            }
        }
        if i < frame_b.len() {
            let chunk = &frame_b[i..frame_b.len().min(i + 3)];
            if done_b {
                rest_b.extend_from_slice(chunk);
            } else if let Some(used) = reader_b.push(chunk) {
                done_b = true;
                rest_b.extend_from_slice(&chunk[used..]);
            }
        }
        i += 3;
    }
    assert_eq!(reader_a.name().as_slice(), b"first.txt");
    assert_eq!(reader_b.name().as_slice(), b"second.txt");
    assert_eq!(rest_a, b"contents of the first file");
    assert_eq!(rest_b, b"what the second one holds");
}

#[test]
fn traversal_segments_are_reduced_to_the_final_component() {
    assert_eq!(stored_file_name(b"../../evil"), "evil");
    assert_eq!(stored_file_name(b"/etc/passwd"), "passwd");
    assert_eq!(stored_file_name(b"dir/sub/file.txt"), "file.txt");
    assert_eq!(stored_file_name(b"plain.txt"), "plain.txt");
}

#[test]
fn unusable_names_fall_back() {
    assert_eq!(stored_file_name(b""), "unknown_file");
    assert_eq!(stored_file_name(b"."), "unknown_file");
    assert_eq!(stored_file_name(b".."), "unknown_file");
    assert_eq!(stored_file_name(b"a/b/.."), "unknown_file");
    assert_eq!(stored_file_name(b"///"), "unknown_file");
}

#[test]
fn trailing_separators_are_ignored_before_taking_the_component() {
    assert_eq!(stored_file_name(b"name/"), "name");
    assert_eq!(stored_file_name(b"a/b//"), "b");
}

#[test]
fn invalid_utf8_in_a_name_becomes_replacement_characters() {
    assert_eq!(stored_file_name(&[0xFF, 0xFE, b'a']), "\u{FFFD}\u{FFFD}a");
}

#[test]
fn hidden_files_keep_their_names() {
    assert_eq!(stored_file_name(b"...hidden"), "...hidden");
    assert_eq!(stored_file_name(b".bashrc"), ".bashrc");
}

#[test]
fn beacon_goes_to_the_subnet_broadcast_address() {
    assert_eq!(beacon_destination(Some(0xC0A8_0105)), 0xC0A8_01FF);
    assert_eq!(beacon_destination(None), 0xFFFF_FFFF);
}

#[test]
fn reader_walks_the_phases_in_order() {
    let frame = encode_frame_header(b"ab");
    let mut reader = FrameReader::new();
    assert_eq!(reader.phase(), RecvPhase::AwaitLength);
    reader.push(&frame[..5]);
    assert_eq!(reader.phase(), RecvPhase::AwaitLength);
    reader.push(&frame[5..9]);
    assert_eq!(reader.phase(), RecvPhase::AwaitFilename);
    reader.push(&frame[9..]);
    assert_eq!(reader.phase(), RecvPhase::Streaming);
    assert_eq!(reader.name().as_slice(), b"ab");
}
