use canbridge::codec::{DeSer, Ser};
use canbridge::error::Error;

#[test]
fn ok_deser_simple() {
    let mut de_ser = DeSer::<40>::new();
    de_ser.extend_from_slice(b"$123,456,789\n").unwrap();
    assert_eq!(de_ser.get_slice().unwrap(), b"$123");
    assert_eq!(de_ser.is_end(), false);
    assert_eq!(de_ser.get_slice().unwrap(), b",456");
    assert_eq!(de_ser.is_end(), false);
    assert_eq!(de_ser.get_slice().unwrap(), b",789");
    assert_eq!(de_ser.is_end(), true);

    let mut de_ser = DeSer::<40>::new();
    de_ser.extend_from_slice(b",1a2b,456,1a2b3c4d5e6f7081\n").unwrap();
    assert_eq!(de_ser.get_u32_hex().unwrap(), 0x1a2b);
    assert_eq!(de_ser.is_end(), false);
    assert_eq!(de_ser.get_u32().unwrap(), 456);
    assert_eq!(de_ser.is_end(), false);
    assert_eq!(
        de_ser.get_slice_hex().unwrap().as_slice(),
        b"\x1a\x2b\x3c\x4d\x5e\x6f\x70\x81"
    );
    assert_eq!(de_ser.is_end(), true);

    let mut de_ser = DeSer::<40>::new();
    de_ser.extend_from_slice(b",1a2x,45a,001a2b3c4d5e6f7081,1\n").unwrap();
    assert_eq!(de_ser.get_u32_hex(), Err(Error::ParseError));
    assert_eq!(de_ser.is_end(), false);
    assert_eq!(de_ser.get_u32(), Err(Error::ParseError));
    assert_eq!(de_ser.is_end(), false);
    assert_eq!(de_ser.get_slice_hex(), Err(Error::ParseError));
    assert_eq!(de_ser.is_end(), false);
    assert_eq!(de_ser.get_slice_hex(), Err(Error::ParseError));
    assert_eq!(de_ser.is_end(), true);

    let mut de_ser = DeSer::<40>::new();
    de_ser.extend_from_slice(b",a2,\n").unwrap();
    assert_eq!(de_ser.get_slice_hex().unwrap().as_slice(), b"\xa2");
    assert_eq!(de_ser.get_slice_hex().unwrap().as_slice(), b"");
}

#[test]
fn ok_ser_simple() {
    let mut ser: Ser<40> = Ser::new();
    ser.add_byte(b'c').unwrap();
    assert_eq!(ser.as_slice(), b"c");

    let mut ser: Ser<40> = Ser::new();
    ser.add_slice(b"Hello world").unwrap();
    assert_eq!(ser.as_slice(), b"Hello world");

    let mut ser: Ser<40> = Ser::new();
    ser.add_uint(4711_u32).unwrap();
    assert_eq!(ser.as_slice(), b"4711");

    let mut ser: Ser<40> = Ser::new();
    ser.add_uint(0_u32).unwrap();
    assert_eq!(ser.as_slice(), b"0");

    let mut ser: Ser<40> = Ser::new();
    ser.add_uint(u32::MAX).unwrap();
    println!("{}", u32::MAX);
    assert_eq!(ser.as_slice(), b"4294967295");

    let mut ser: Ser<40> = Ser::new();
    ser.add_uint_hex(0x3a4b_u32, 6).unwrap();
    assert_eq!(ser.as_slice(), b"003a4b");

    let mut ser: Ser<40> = Ser::new();
    ser.add_uint_hex(0_u32, 0).unwrap();
    assert_eq!(ser.as_slice(), b"0");

    let mut ser: Ser<40> = Ser::new();
    ser.add_uint_hex(u32::MAX, 0).unwrap();
    assert_eq!(ser.as_slice(), b"ffffffff");

    let mut ser: Ser<40> = Ser::new();
    ser.add_slice_hex(b"\x1a\x2b\x3c").unwrap();
    assert_eq!(ser.as_slice(), b"1a2b3c");
}

#[test]
fn ser_overflow_leaves_buffer() {
    let mut ser: Ser<4> = Ser::new();
    ser.add_slice(b"abc").unwrap();
    assert_eq!(ser.add_slice(b"de"), Err(Error::SerializeError));
    assert_eq!(ser.as_slice(), b"abc");
    assert_eq!(ser.add_uint(12), Err(Error::SerializeError));
    assert_eq!(ser.add_byte(b'd'), Ok(()));
    assert_eq!(ser.add_byte(b'e'), Err(Error::SerializeError));
    assert_eq!(ser.len(), 4);
    let mut ser: Ser<40> = Ser::new();
    assert_eq!(ser.add_uint_hex(1, 41), Err(Error::SerializeError));
    assert_eq!(ser.add_uint_hex(1, 12), Ok(()));
    assert_eq!(ser.as_slice(), b"000000000001");
    ser.add_bool(true).unwrap();
    ser.add_bool(false).unwrap();
    assert_eq!(ser.as_slice(), b"00000000000110");
    let mut small: Ser<4> = Ser::new();
    assert_eq!(small.add_uint_hex(0xabc, 5), Err(Error::SerializeError));
    assert_eq!(small.add_uint_hex(0xabc, 4), Ok(()));
    assert_eq!(small.as_slice(), b"0abc");
}

#[test]
fn deser_field_kinds() {
    let mut d = DeSer::<40>::from_slice(b",1,0,10,,4294967295,4294967296,FF\n").unwrap();
    assert_eq!(d.get_bool(), Ok(true));
    assert_eq!(d.get_bool(), Ok(false));
    assert_eq!(d.get_bool(), Err(Error::ParseError));
    assert_eq!(d.get_u32(), Ok(0));
    assert_eq!(d.get_u32(), Ok(u32::MAX));
    assert_eq!(d.get_u32(), Err(Error::ParseError));
    assert_eq!(d.get_u32_hex(), Err(Error::ParseError));
    assert!(d.is_end());
    assert_eq!(d.get_slice(), Err(Error::ParseError));
    assert_eq!(DeSer::<4>::from_slice(b"12345").err(), Some(Error::NotSupported));
    let mut d = DeSer::<2>::new();
    assert_eq!(d.push(1), Ok(()));
    assert_eq!(d.push(2), Ok(()));
    assert_eq!(d.push(3), Err(Error::BufIsFull));
    assert_eq!(d.extend_from_slice(b"x"), Err(Error::BufIsFull));
    assert_eq!(d.as_slice(), b"\x01\x02");
    assert_eq!(d.capacity(), 2);
}

#[test]
fn hex_field_of_nine_bytes_is_refused() {
    let mut d = DeSer::<40>::from_slice(b",1a2b3c4d5e6f708192\n").unwrap();
    assert_eq!(d.get_slice_hex(), Err(Error::ParseError));
    let mut d = DeSer::<40>::from_slice(b",1A\n").unwrap();
    assert_eq!(d.get_slice_hex(), Err(Error::ParseError));
}

#[test]
fn add_ones_zeros_writes_pattern() {
    let mut ser: Ser<20> = Ser::new();
    canbridge::pattern::add_ones_zeros(&mut ser, false, 0b110_0110_0011, 0b1_1001_1100).unwrap();
    assert_eq!(ser.as_slice(), b"110_0110_0011");
    let mut small: Ser<5> = Ser::new();
    assert_eq!(
        canbridge::pattern::add_ones_zeros(&mut small, false, 0, 0),
        Err(Error::SerializeError)
    );
    assert_eq!(small.len(), 0);
}

#[test]
fn any_byte_but_zero_is_true() {
    let mut d = DeSer::<10>::from_slice(b",x,0\n").unwrap();
    assert_eq!(d.get_bool(), Ok(true));
    assert_eq!(d.get_bool(), Ok(false));
}
