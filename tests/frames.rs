use canbridge::can_frame::CanFrame;
use canbridge::codec::{DeSer, Ser};
use canbridge::com_item::ComItem;
use canbridge::error::Error;
use canbridge::filter::Id;
use canbridge::timing::timing_config;

#[test]
fn ok_can_frames() {
    let slice = b",12a,3,1a2b3c,";
    let mut deser = DeSer::<40>::from_slice(slice).unwrap();
    let frame = CanFrame::deserialize(&mut deser).unwrap();
    let mut ser = Ser::<40>::default();
    frame.serialize(&mut ser).unwrap();
    println!("frame {}", std::str::from_utf8(ser.as_slice()).unwrap());
    assert_eq!(ser.as_slice(), &slice[..slice.len() - 1]);

    let slice = b",12a4,88,1a2b3c4d5e6f7081,";
    let mut deser = DeSer::<40>::from_slice(slice).unwrap();
    let frame = CanFrame::deserialize(&mut deser).unwrap();
    let mut ser = Ser::<40>::default();
    frame.serialize(&mut ser).unwrap();
    println!("frame {}", std::str::from_utf8(ser.as_slice()).unwrap());
    assert_eq!(ser.as_slice(), &slice[..slice.len() - 1]);

    let slice = b",12a,2,1a2b3c,";
    let mut deser = DeSer::<40>::from_slice(slice).unwrap();
    assert_eq!(CanFrame::deserialize(&mut deser), Err(Error::ParseError));
}

#[test]
fn frame_with_dlc_3_and_two_bytes_is_refused() {
    let mut deser = DeSer::<40>::from_slice(b",12a,3,1a2b\n").unwrap();
    assert_eq!(CanFrame::deserialize(&mut deser), Err(Error::ParseError));
}

#[test]
fn frame_accessors() {
    let f = CanFrame::new(Id::Standard(0x12a), &[0x1a, 0x2b, 0x3c]).unwrap();
    assert_eq!(f.id(), Id::Standard(0x12a));
    assert_eq!(f.dlc(), 3);
    assert_eq!(f.data(), vec![0x1a, 0x2b, 0x3c]);
    assert!(!f.is_extended());
    assert!(!f.is_remote_frame());
    assert!(CanFrame::new(Id::Standard(1), &[0; 9]).is_none());
    let r = CanFrame::new_remote(Id::Extended(0x1234567), 4).unwrap();
    assert!(r.is_remote_frame());
    assert!(r.is_extended());
    assert_eq!(r.dlc(), 4);
    assert_eq!(r.id(), Id::Extended(0x1234567));
    assert!(CanFrame::new_remote(Id::Standard(1), 9).is_none());
    let mut ser = Ser::<40>::new();
    r.serialize(&mut ser).unwrap();
    assert_eq!(ser.as_slice(), b",1234567,c4,");
}

#[test]
fn frame_round_trips() {
    let frames = [
        CanFrame::new(Id::Standard(0), &[]).unwrap(),
        CanFrame::new(Id::Standard(0x7ff), &[1, 2, 3, 4, 5, 6, 7, 8]).unwrap(),
        CanFrame::new(Id::Extended(0x1fff_ffff), &[0xff]).unwrap(),
        CanFrame::new_remote(Id::Standard(0x200), 8).unwrap(),
    ];
    for f in frames {
        let mut ser = Ser::<40>::new();
        f.serialize(&mut ser).unwrap();
        ser.add_byte(b'\n').unwrap();
        let mut d = DeSer::<40>::from_slice(ser.as_slice()).unwrap();
        assert_eq!(CanFrame::deserialize(&mut d), Ok(f));
    }
}

fn round_trip(slice: &[u8]) {
    let mut deser = DeSer::<50>::from_slice(slice).unwrap();
    let item = ComItem::deserialize(&mut deser).unwrap();
    let ser = item.serialize().unwrap();
    println!("ComItem {}", std::str::from_utf8(ser.as_slice()).unwrap());
    assert_eq!(ser.as_slice(), slice);
}

#[test]
fn ok_com_item() {
    round_trip(b"$rf,12a,3,1a2b3c\n");
    round_trip(b"$fts,12a,c3,\n");
    round_trip(b"$err,EndNotFound\n");
    round_trip(b"$echo\n");
    round_trip(b"$end\n");
    round_trip(b"$clearfilt\n");
    round_trip(b"$save\n");
    round_trip(b"$magic,67a35284e62a4b25\n");
    round_trip(b"$nfilt,111_1111_0000\n");
    round_trip(b"$pfilt,17,1_1111_0000_1111_0000_11*1_000*_1111\n");
}

#[test]
fn com_item_errors() {
    let mut d = DeSer::<50>::from_slice(b"$bogus\n").unwrap();
    assert_eq!(ComItem::deserialize(&mut d), Err(Error::ParseError));
    let mut d = DeSer::<50>::from_slice(b"$echo,\n").unwrap();
    assert_eq!(ComItem::deserialize(&mut d), Err(Error::ParseError));
    let mut d = DeSer::<50>::from_slice(b"$magic,67a35284e62a4b26\n").unwrap();
    assert_eq!(ComItem::deserialize(&mut d), Err(Error::MagicNotFound));
    let mut d = DeSer::<50>::from_slice(b"$err,Whatever\n").unwrap();
    assert_eq!(ComItem::deserialize(&mut d), Ok(ComItem::Error(Error::UnknownError)));
    let mut d = DeSer::<50>::from_slice(b"$echo").unwrap();
    assert_eq!(ComItem::deserialize(&mut d), Err(Error::ParseError));
    let long = ComItem::PFilter(
        canbridge::filter::PrePFilter::new(4_000_000_000, b"1_1111_0000_1111_0000_1111_0000_1111")
            .unwrap(),
    );
    assert_eq!(long.serialize().err(), Some(Error::SerializeError));
}

#[test]
fn error_names() {
    for e in [
        Error::SerializeError,
        Error::ParseError,
        Error::EndNotFound,
        Error::BufIsFull,
        Error::BufIsEmpty,
        Error::MagicNotFound,
        Error::NoBeginFound,
        Error::NotSupported,
        Error::UnknownCommand,
        Error::UnknownError,
    ] {
        assert_eq!(Error::from_bytes(e.as_bytes()), e);
    }
    assert_eq!(Error::ParseError.as_bytes(), b"ParseError");
    assert_eq!(Error::from_bytes(b"parseerror"), Error::UnknownError);
    let mut ser = Ser::<40>::new();
    Error::BufIsFull.serialize(&mut ser).unwrap();
    assert_eq!(ser.as_slice(), b",BufIsFull");
}

#[test]
fn pattern_round_trip_through_codec() {
    let slice = b",17,1_1111_0000_1111_0000_11*1_000*_1111,";
    let mut deser = DeSer::<50>::from_slice(slice).unwrap();
    let pre = canbridge::filter::PrePFilter::deserialize(&mut deser).unwrap();
    let mut ser = Ser::<50>::new();
    pre.serialize(&mut ser).unwrap();
    assert_eq!(ser.as_slice(), b",17,1_1111_0000_1111_0000_11*1_000*_1111");
}

#[test]
fn pattern_is_emitted_canonically() {
    let f = canbridge::filter::NFilter::new(b"1_1_1_1_1_1_1_0_0_0_0").unwrap();
    let mut ser = Ser::<40>::new();
    f.serialize(&mut ser).unwrap();
    assert_eq!(ser.as_slice(), b",111_1111_0000");
    assert_eq!(
        canbridge::pattern::pattern_bytes(false, 0b100_0110_0001, 0b1_1001_1000),
        b"1*0_0110_0**1".to_vec()
    );
    assert_eq!(canbridge::pattern::get_ones_zeros(b"1*0_0110_0**1"), Ok((false, 0b100_0110_0001, 0b1_1001_1000)));
    assert!(canbridge::pattern::check(0x667, 0b100_0110_0001, 0b1_1001_1000, false));
    assert!(!canbridge::pattern::check(0x666, 0b100_0110_0001, 0b1_1001_1000, false));
}

#[test]
fn timing_table() {
    assert_eq!(timing_config("B125K").baud_rate_prescaler, 32);
    assert_eq!(timing_config("B10K").baud_rate_prescaler, 400);
    assert_eq!(timing_config("B1000K").baud_rate_prescaler, 4);
    assert_eq!(timing_config("whatever").baud_rate_prescaler, 4);
    let t = timing_config("B500K");
    assert_eq!((t.baud_rate_prescaler, t.sync_jump_width, t.tseg_1, t.tseg_2, t.triple_sample), (8, 3, 15, 4, false));
}

#[test]
fn error_from_bytes_trait() {
    let e: Error = Error::from(&b"BufIsEmpty"[..]);
    assert_eq!(e, Error::BufIsEmpty);
    let u: Error = (&b"nope"[..]).into();
    assert_eq!(u, Error::UnknownError);
}
