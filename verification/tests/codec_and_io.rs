use either::codec::DecodeError;
use either::io::{BufByteRead, ByteRead, ByteWrite, SliceReader, VecWriter};
use either::{Either, Left, Right};

#[test]
fn encdec() {
    let l: Either<u8, u128> = Either::Left(42);
    let r: Either<u8, u128> = Either::Right(1234567);
    let l_bytes = l.encode();
    let r_bytes = r.encode();
    let l2 = Either::decode(&l_bytes).unwrap();
    let r2 = Either::decode(&r_bytes).unwrap();
    assert_eq!(l, l2);
    assert_eq!(r, r2);
}

#[test]
fn encoding_is_tag_then_le_payload() {
    let l: Either<u8, u128> = Left(42);
    assert_eq!(l.encode(), vec![0, 42]);
    let r: Either<u8, u128> = Right(1234567);
    assert_eq!(
        r.encode(),
        vec![1, 0x87, 0xd6, 0x12, 0, 0, 0, 0, 0, 0, 0, 0, 0, 0, 0, 0, 0]
    );
}

#[test]
fn codec_round_trip_at_the_edges() {
    let l: Either<u8, u128> = Left(0);
    assert_eq!(Either::decode(&l.encode()), Ok(l));
    let l: Either<u8, u128> = Left(255);
    assert_eq!(Either::decode(&l.encode()), Ok(l));
    let r: Either<u8, u128> = Right(0);
    assert_eq!(Either::decode(&r.encode()), Ok(r));
    let r: Either<u8, u128> = Right(u128::MAX);
    assert_eq!(Either::decode(&r.encode()), Ok(r));
}

#[test]
fn decode_rejects_malformed_input() {
    assert_eq!(
        Either::decode(&Vec::new()),
        Err(DecodeError::WrongLength)
    );
    assert_eq!(Either::decode(&vec![0]), Err(DecodeError::WrongLength));
    assert_eq!(Either::decode(&vec![0, 7, 8]), Err(DecodeError::WrongLength));
    assert_eq!(Either::decode(&vec![1, 1, 2]), Err(DecodeError::WrongLength));
    assert_eq!(Either::decode(&vec![2, 42]), Err(DecodeError::BadTag));
}

#[test]
fn read_write() {
    let use_stdio = false;
    let mockdata = [0xff_u8; 256];

    let mut reader = if use_stdio {
        Left(SliceReader::new(Vec::new()))
    } else {
        Right(SliceReader::new(mockdata.to_vec()))
    };

    let buf = reader.read(16);
    assert_eq!(buf.len(), 16);
    assert_eq!(&buf[..], &mockdata[..buf.len()]);

    let mut writer = if use_stdio {
        Left(VecWriter::new())
    } else {
        Right(VecWriter::new())
    };

    let buf = vec![1u8; 16];
    assert_eq!(writer.write(&buf), buf.len());
}

#[test]
fn reading_consumes_the_front() {
    let mut reader: Either<SliceReader, SliceReader> =
        Left(SliceReader::new(vec![1, 2, 3, 4, 5]));
    assert_eq!(reader.read(2), vec![1, 2]);
    assert_eq!(reader.read(99), vec![3, 4, 5]);
    assert_eq!(reader.read(1), Vec::<u8>::new());

    let mut reader: Either<SliceReader, SliceReader> =
        Right(SliceReader::new(vec![9, 9, 9]));
    assert_eq!(reader.read_to_end(), vec![9, 9, 9]);
    assert_eq!(reader.read_to_end(), Vec::<u8>::new());
}

#[test]
fn buffered_reading_peeks_then_drops() {
    let mut reader: Either<SliceReader, SliceReader> =
        Left(SliceReader::new(vec![1, 2, 3, 4]));
    assert_eq!(reader.fill_buf(), vec![1, 2, 3, 4]);
    assert_eq!(reader.fill_buf(), vec![1, 2, 3, 4]);
    reader.consume(3);
    assert_eq!(reader.fill_buf(), vec![4]);
    reader.consume(99);
    assert_eq!(reader.fill_buf(), Vec::<u8>::new());
}

#[test]
fn writing_appends_to_the_live_side() {
    let mut writer: Either<VecWriter, VecWriter> = Right(VecWriter::new());
    assert_eq!(writer.write(&vec![1, 2]), 2);
    writer.flush();
    assert_eq!(writer.write(&vec![3]), 1);
    let collected = match writer {
        Left(w) => w.into_bytes(),
        Right(w) => w.into_bytes(),
    };
    assert_eq!(collected, vec![1, 2, 3]);
}
