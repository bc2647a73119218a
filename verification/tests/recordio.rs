use mesos::recordio::{parse, FrameError, RecordIOCodec};

fn frame(payload: &[u8]) -> Vec<u8> {
    let mut out = format!("{} ", payload.len()).into_bytes();
    out.extend_from_slice(payload);
    out
}

#[test]
fn parse_reads_decimal() {
    assert_eq!(parse(b"0".to_vec()), Ok(0));
    assert_eq!(parse(b"10".to_vec()), Ok(10));
    assert_eq!(parse(b"007".to_vec()), Ok(7));
    assert_eq!(parse(b"1234567890".to_vec()), Ok(1234567890));
    assert_eq!(parse(Vec::new()), Ok(0));
}

#[test]
fn parse_reads_the_largest_length() {
    assert_eq!(parse(b"18446744073709551615".to_vec()), Ok(u64::MAX));
    assert_eq!(parse(b"0018446744073709551615".to_vec()), Ok(u64::MAX));
}

#[test]
fn parse_rejects_overflow() {
    assert_eq!(parse(b"18446744073709551616".to_vec()), Err(FrameError::LengthOverflow));
    assert_eq!(parse(b"99999999999999999999999".to_vec()), Err(FrameError::LengthOverflow));
}

#[test]
fn parse_rejects_non_digits() {
    assert_eq!(parse(b"12a".to_vec()), Err(FrameError::InvalidLengthByte));
    assert_eq!(parse(b" 1".to_vec()), Err(FrameError::InvalidLengthByte));
    assert_eq!(parse(b"/".to_vec()), Err(FrameError::InvalidLengthByte));
    assert_eq!(parse(b":".to_vec()), Err(FrameError::InvalidLengthByte));
    assert_eq!(
        parse(b"99999999999999999999999x".to_vec()),
        Err(FrameError::InvalidLengthByte)
    );
}

#[test]
fn one_record_in_one_chunk() {
    let mut codec = RecordIOCodec::new();
    assert_eq!(codec.write(b"5 hello"), Ok(7));
    assert_eq!(codec.take_records(), vec![b"hello".to_vec()]);
    assert_eq!(codec.buffered(), 0);
    assert_eq!(codec.failure(), None);
}

#[test]
fn records_come_out_in_order() {
    let records: Vec<Vec<u8>> = vec![
        b"first".to_vec(),
        vec![0x20, 0x31, 0x20],
        b"a longer record with 12 digits and spaces".to_vec(),
        vec![0xff],
    ];
    let mut stream = Vec::new();
    for r in &records {
        stream.extend_from_slice(&frame(r));
    }
    let mut codec = RecordIOCodec::new();
    assert_eq!(codec.write(&stream), Ok(stream.len()));
    assert_eq!(codec.take_records(), records);
    assert_eq!(codec.buffered(), 0);
}

#[test]
fn chunk_boundaries_do_not_matter() {
    let records: Vec<Vec<u8>> = vec![
        b"alpha".to_vec(),
        b"0123456789abcdef".to_vec(),
        vec![7u8; 300],
        b"z".to_vec(),
    ];
    let mut stream = Vec::new();
    for r in &records {
        stream.extend_from_slice(&frame(r));
    }
    for size in 1..20usize {
        let mut codec = RecordIOCodec::new();
        let mut seen: Vec<Vec<u8>> = Vec::new();
        for chunk in stream.chunks(size) {
            assert_eq!(codec.write(chunk), Ok(chunk.len()));
            seen.extend(codec.take_records());
        }
        assert_eq!(seen, records);
        assert_eq!(codec.buffered(), 0);
    }
}

#[test]
fn one_byte_at_a_time() {
    let mut codec = RecordIOCodec::new();
    let stream = b"3 abc2 de";
    let mut seen: Vec<Vec<u8>> = Vec::new();
    for b in stream.iter() {
        assert_eq!(codec.write(&[*b]), Ok(1));
        seen.extend(codec.take_records());
    }
    assert_eq!(seen, vec![b"abc".to_vec(), b"de".to_vec()]);
}

#[test]
fn records_wait_until_taken() {
    let mut codec = RecordIOCodec::new();
    assert_eq!(codec.write(b"1 a"), Ok(3));
    assert_eq!(codec.write(b"1 b1"), Ok(4));
    assert_eq!(codec.take_records(), vec![b"a".to_vec(), b"b".to_vec()]);
    assert_eq!(codec.take_records(), Vec::<Vec<u8>>::new());
    assert_eq!(codec.buffered(), 1);
}

#[test]
fn malformed_length_is_fatal() {
    let mut codec = RecordIOCodec::new();
    assert_eq!(codec.write(b"1x hello"), Err(FrameError::InvalidLengthByte));
    assert_eq!(codec.take_records(), Vec::<Vec<u8>>::new());
    assert_eq!(codec.failure(), Some(FrameError::InvalidLengthByte));
    assert_eq!(codec.buffered(), 0);
}

#[test]
fn malformed_length_keeps_earlier_records() {
    let mut codec = RecordIOCodec::new();
    assert_eq!(codec.write(b"2 okx3 abc"), Err(FrameError::InvalidLengthByte));
    assert_eq!(codec.take_records(), vec![b"ok".to_vec()]);
}

#[test]
fn no_resynchronisation_after_an_error() {
    let mut codec = RecordIOCodec::new();
    assert_eq!(codec.write(b"-"), Err(FrameError::InvalidLengthByte));
    assert_eq!(codec.write(b"3 abc"), Err(FrameError::InvalidLengthByte));
    assert_eq!(codec.write(b""), Err(FrameError::InvalidLengthByte));
    assert_eq!(codec.take_records(), Vec::<Vec<u8>>::new());
}

#[test]
fn length_overflow_is_fatal() {
    let mut codec = RecordIOCodec::new();
    assert_eq!(codec.write(b"18446744073709551616 a"), Err(FrameError::LengthOverflow));
    assert_eq!(codec.failure(), Some(FrameError::LengthOverflow));
    assert_eq!(codec.take_records(), Vec::<Vec<u8>>::new());
}

#[test]
fn bare_space_is_skipped() {
    let mut codec = RecordIOCodec::new();
    assert_eq!(codec.write(b" "), Ok(1));
    assert_eq!(codec.take_records(), Vec::<Vec<u8>>::new());
    assert_eq!(codec.buffered(), 0);
    assert_eq!(codec.failure(), None);
    assert_eq!(codec.write(b"  2 hi "), Ok(7));
    assert_eq!(codec.take_records(), vec![b"hi".to_vec()]);
}

#[test]
fn truncated_record_is_not_emitted() {
    let mut codec = RecordIOCodec::new();
    assert_eq!(codec.write(b"10 abc"), Ok(6));
    assert_eq!(codec.take_records(), Vec::<Vec<u8>>::new());
    assert_eq!(codec.buffered(), 3);
    assert_eq!(codec.failure(), None);
}

#[test]
fn truncated_length_is_not_emitted() {
    let mut codec = RecordIOCodec::new();
    assert_eq!(codec.write(b"4 abcd12"), Ok(8));
    assert_eq!(codec.take_records(), vec![b"abcd".to_vec()]);
    assert_eq!(codec.buffered(), 2);
}

#[test]
fn leading_zeros_are_accepted() {
    let mut codec = RecordIOCodec::new();
    assert_eq!(codec.write(b"003 abc"), Ok(7));
    assert_eq!(codec.take_records(), vec![b"abc".to_vec()]);
}

#[test]
fn empty_record_is_complete_at_once() {
    let mut codec = RecordIOCodec::new();
    assert_eq!(codec.write(b"0 1 a"), Ok(5));
    assert_eq!(codec.take_records(), vec![Vec::new(), b"a".to_vec()]);
}

#[test]
fn payload_bytes_are_not_interpreted() {
    let mut codec = RecordIOCodec::new();
    assert_eq!(codec.write(b"4 1 x 2 yz"), Ok(10));
    assert_eq!(codec.take_records(), vec![b"1 x ".to_vec(), b"yz".to_vec()]);
}

#[test]
fn flush_changes_nothing() {
    let mut codec = RecordIOCodec::new();
    assert_eq!(codec.write(b"3 ab"), Ok(4));
    assert_eq!(codec.flush(), Ok(()));
    assert_eq!(codec.buffered(), 2);
    assert_eq!(codec.write(b"c"), Ok(1));
    assert_eq!(codec.take_records(), vec![b"abc".to_vec()]);
}

#[test]
fn a_new_decoder_remembers_nothing() {
    let mut first = RecordIOCodec::new();
    assert_eq!(first.write(b"9 abc"), Ok(5));
    let mut second = RecordIOCodec::new();
    assert_eq!(second.buffered(), 0);
    assert_eq!(second.write(b"2 ok"), Ok(4));
    assert_eq!(second.take_records(), vec![b"ok".to_vec()]);
}

#[test]
fn chunk_boundaries_do_not_matter_for_a_malformed_stream() {
    let stream = b"3 abc2 de1x2 zz";
    for size in 1..stream.len() {
        let mut codec = RecordIOCodec::new();
        let mut seen: Vec<Vec<u8>> = Vec::new();
        let mut last = Ok(0);
        for chunk in stream.chunks(size) {
            last = codec.write(chunk);
            seen.extend(codec.take_records());
        }
        assert_eq!(last, Err(FrameError::InvalidLengthByte));
        assert_eq!(seen, vec![b"abc".to_vec(), b"de".to_vec()]);
        assert_eq!(codec.failure(), Some(FrameError::InvalidLengthByte));
    }
}
