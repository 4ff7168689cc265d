use canbridge::codec::{DeSer, Ser};
use canbridge::error::Error;
use canbridge::filter::{Id, IdTimes, NFilter, NFilters, PFilter, PFilters, PrePFilter, TInstant};

fn s_id(id: u32) -> Id {
    Id::Standard(id as u16)
}

fn e_id(id: u32) -> Id {
    Id::Extended(id)
}

#[test]
fn basics_new_pfilter() {
    assert_eq!(PFilter::new(0, b"asdf"), Err(Error::ParseError));
    assert_eq!(PFilter::new(0, b"1100"), Err(Error::ParseError));
    assert_eq!(PFilter::new(0, b"11_*00"), Err(Error::ParseError));
    assert_eq!(
        PFilter::new(0, b"110_0110_0011"),
        Ok(PFilter {
            extended: false,
            duration: 0,
            ones: 0b110_0110_0011,
            zeros: 0b1_1001_1100,
            id_times: IdTimes::new(),
        })
    );
    assert_eq!(
        PFilter::new(0, b"1*0_0110_0**1"),
        Ok(PFilter {
            extended: false,
            duration: 0,
            ones: 0b100_0110_0001,
            zeros: 0b1_1001_1000,
            id_times: IdTimes::new(),
        })
    );
    assert_eq!(PFilter::new(0, b"1*0_0110_0**1_*"), Err(Error::ParseError));
    assert_eq!(
        PFilter::new(123, b"1_0000_1111_0000_1111_0000_1111_0000"),
        Ok(PFilter {
            extended: true,
            duration: 123,
            ones: 0b1_0000_1111_0000_1111_0000_1111_0000,
            zeros: 0b1111_0000_1111_0000_1111_0000_1111,
            id_times: IdTimes::new(),
        })
    );
}

#[test]
fn filter_new_pfilter() {
    assert_eq!(PFilter::new(0, b"asdf"), Err(Error::ParseError));
    assert_eq!(PFilter::new(0, b"1100"), Err(Error::ParseError));
    assert_eq!(PFilter::new(0, b"11_*00"), Err(Error::ParseError));
    assert_eq!(
        PFilter::new(0, b"110_0110_0011"),
        Ok(PFilter {
            extended: false,
            duration: 0,
            ones: 0b110_0110_0011,
            zeros: 0b1_1001_1100,
            id_times: IdTimes::new(),
        })
    );
    assert_eq!(
        PFilter::new(0, b"1*0_0110_0**1"),
        Ok(PFilter {
            extended: false,
            duration: 0,
            ones: 0b100_0110_0001,
            zeros: 0b1_1001_1000,
            id_times: IdTimes::new(),
        })
    );
    assert_eq!(PFilter::new(0, b"1*0_0110_0**1_*"), Err(Error::ParseError));
    assert_eq!(
        PFilter::new(123, b"1_0000_1111_0000_1111_0000_1111_0000"),
        Ok(PFilter {
            extended: true,
            duration: 123,
            ones: 0b1_0000_1111_0000_1111_0000_1111_0000,
            zeros: 0b1111_0000_1111_0000_1111_0000_1111,
            id_times: IdTimes::new(),
        })
    );
}

#[test]
fn basics_new_nfilter() {
    assert_eq!(NFilter::new(b"asdf"), Err(Error::ParseError));
    assert_eq!(NFilter::new(b"1100"), Err(Error::ParseError));
    assert_eq!(NFilter::new(b"11_*00"), Err(Error::ParseError));
    assert_eq!(
        NFilter::new(b"110_0110_0011"),
        Ok(NFilter { extended: false, ones: 0b110_0110_0011, zeros: 0b1_1001_1100 })
    );
    assert_eq!(
        NFilter::new(b"1*0_0110_0**1"),
        Ok(NFilter { extended: false, ones: 0b100_0110_0001, zeros: 0b1_1001_1000 })
    );
    assert_eq!(NFilter::new(b"1*0_0110_0**1_*"), Err(Error::ParseError));
    assert_eq!(
        NFilter::new(b"1_0000_1111_0000_1111_0000_1111_0000"),
        Ok(NFilter {
            extended: true,
            ones: 0b1_0000_1111_0000_1111_0000_1111_0000,
            zeros: 0b1111_0000_1111_0000_1111_0000_1111,
        })
    );
}

#[test]
fn filter_new_nfilter() {
    assert_eq!(NFilter::new(b"asdf"), Err(Error::ParseError));
    assert_eq!(NFilter::new(b"1100"), Err(Error::ParseError));
    assert_eq!(NFilter::new(b"11_*00"), Err(Error::ParseError));
    assert_eq!(
        NFilter::new(b"110_0110_0011"),
        Ok(NFilter { extended: false, ones: 0b110_0110_0011, zeros: 0b1_1001_1100 })
    );
    assert_eq!(
        NFilter::new(b"1*0_0110_0**1"),
        Ok(NFilter { extended: false, ones: 0b100_0110_0001, zeros: 0b1_1001_1000 })
    );
    assert_eq!(NFilter::new(b"1*0_0110_0**1_*"), Err(Error::ParseError));
    assert_eq!(
        NFilter::new(b"1_0000_1111_0000_1111_0000_1111_0000"),
        Ok(NFilter {
            extended: true,
            ones: 0b1_0000_1111_0000_1111_0000_1111_0000,
            zeros: 0b1111_0000_1111_0000_1111_0000_1111,
        })
    );
}

#[test]
fn basics_check_pfilter() {
    let mut filter = PFilter::new(0, b"1*0_0110_0**1").unwrap();
    assert_eq!(filter.check(s_id(0b110_0110_0111), 0.into()), true);
    assert_eq!(filter.check(s_id(0b100_0110_0001), 0.into()), true);
    assert_eq!(filter.check(s_id(0b110_0110_0110), 0.into()), false);
    assert_eq!(filter.check(s_id(0b110_0110_1111), 0.into()), false);

    let mut filter = PFilter::new(1000, b"1*0_0110_0**1").unwrap();
    assert_eq!(filter.check(s_id(0b110_0110_0111), 500.into()), true);
    assert_eq!(filter.check(s_id(0b110_0110_0111), 1000.into()), false);
    assert_eq!(filter.check(s_id(0b110_0110_0111), 1501.into()), true);

    assert_eq!(filter.check(s_id(0b100_0110_0001), 500.into()), true);
    assert_eq!(filter.check(s_id(0b100_0110_0001), 1000.into()), false);
    assert_eq!(filter.check(s_id(0b100_0110_0001), 1501.into()), true);

    let mut filter = PFilter::new(0, b"1_0000_1111_0000_1111_0000_1111_0000").unwrap();
    assert_eq!(
        filter.check(e_id(0b1_0000_1111_0000_1111_0000_1111_0000), 0.into()),
        true
    );
}

#[test]
fn basics_check_pfilters() {
    let mut pfilters = PFilters::<10>::default();
    let filter = PrePFilter::new(0, b"110_0110_0000").unwrap();
    pfilters.add(filter).unwrap();
    let filter = PrePFilter::new(0, b"110_0110_0001").unwrap();
    pfilters.add(filter).unwrap();
    assert_eq!(pfilters.check(s_id(0b110_0110_0000), TInstant::from_millis(0)), true);
    assert_eq!(pfilters.check(s_id(0b110_0110_0001), TInstant::from_millis(0)), true);
    assert_eq!(pfilters.check(s_id(0b110_0110_0011), TInstant::from_millis(0)), false);
}

#[test]
fn filter_check_pfilters() {
    let mut pfilters = PFilters::<10>::new();
    let filter = PrePFilter::new(0, b"110_0110_0000").unwrap();
    pfilters.add(filter).unwrap();
    let filter = PrePFilter::new(0, b"110_0110_0001").unwrap();
    pfilters.add(filter).unwrap();
    assert_eq!(pfilters.check(s_id(0b110_0110_0000), TInstant::from_millis(0)), true);
    assert_eq!(pfilters.check(s_id(0b110_0110_0001), TInstant::from_millis(0)), true);
    assert_eq!(pfilters.check(s_id(0b110_0110_0011), TInstant::from_millis(0)), false);
}

#[test]
fn basics_check_nfilter() {
    let filter = NFilter::new(b"1*0_0110_0**1").unwrap();
    assert_eq!(filter.check(s_id(0b110_0110_0111)), true);
    assert_eq!(filter.check(s_id(0b100_0110_0001)), true);
    assert_eq!(filter.check(s_id(0b110_0110_0110)), false);
    assert_eq!(filter.check(s_id(0b110_0110_1111)), false);

    let filter = NFilter::new(b"1*0_0110_0**1").unwrap();
    assert_eq!(filter.check(s_id(0b110_0110_0111)), true);
    assert_eq!(filter.check(s_id(0b100_0110_0001)), true);
    assert_eq!(filter.check(s_id(0b110_0110_0111)), true);
    assert_eq!(filter.check(s_id(0b100_0110_0001)), true);

    let filter = NFilter::new(b"1_0000_1111_0000_1111_0000_1111_0000").unwrap();
    assert_eq!(filter.check(e_id(0b1_0000_1111_0000_1111_0000_1111_0000)), true);
}

#[test]
fn filter_check_nfilter() {
    let filter = NFilter::new(b"1*0_0110_0**1").unwrap();
    assert_eq!(filter.check(s_id(0b110_0110_0111)), true);
    assert_eq!(filter.check(s_id(0b100_0110_0001)), true);
    assert_eq!(filter.check(s_id(0b110_0110_0110)), false);
    assert_eq!(filter.check(s_id(0b110_0110_1111)), false);

    let filter = NFilter::new(b"1*0_0110_0**1").unwrap();
    assert_eq!(filter.check(s_id(0b110_0110_0111)), true);
    assert_eq!(filter.check(s_id(0b100_0110_0001)), true);
    assert_eq!(filter.check(s_id(0b110_0110_0111)), true);
    assert_eq!(filter.check(s_id(0b100_0110_0001)), true);

    let filter = NFilter::new(b"1_0000_1111_0000_1111_0000_1111_0000").unwrap();
    assert_eq!(filter.check(e_id(0b1_0000_1111_0000_1111_0000_1111_0000)), true);
}

#[test]
fn basics_check_nfilters() {
    let mut nfilters = NFilters::<10>::default();
    let filter = NFilter::new(b"110_0110_0000").unwrap();
    nfilters.add(filter).unwrap();
    let filter = NFilter::new(b"110_0110_0001").unwrap();
    nfilters.add(filter).unwrap();
    assert_eq!(nfilters.check(s_id(0b110_0110_0000)), true);
    assert_eq!(nfilters.check(s_id(0b110_0110_0001)), true);
    assert_eq!(nfilters.check(s_id(0b110_0110_0011)), false);
}

#[test]
fn filter_check_nfilters() {
    let mut nfilters = NFilters::<10>::new();
    let filter = NFilter::new(b"110_0110_0000").unwrap();
    nfilters.add(filter).unwrap();
    let filter = NFilter::new(b"110_0110_0001").unwrap();
    nfilters.add(filter).unwrap();
    assert_eq!(nfilters.check(s_id(0b110_0110_0000)), true);
    assert_eq!(nfilters.check(s_id(0b110_0110_0001)), true);
    assert_eq!(nfilters.check(s_id(0b110_0110_0011)), false);
}

#[test]
fn basics_nfilter_serialize() {
    let slice = b",111_1111_0000,";
    let mut deser = DeSer::<40>::from_slice(slice).unwrap();
    let nfilter = NFilter::deserialize(&mut deser).unwrap();
    let mut ser = Ser::<40>::default();
    nfilter.serialize(&mut ser).unwrap();
    println!("nfilter {}", std::str::from_utf8(ser.as_slice()).unwrap());
    assert_eq!(ser.as_slice(), &slice[..slice.len() - 1]);

    let slice = b",1_1111_0000_1111_0000_1111_0000_1111,";
    let mut deser = DeSer::<40>::from_slice(slice).unwrap();
    let nfilter = NFilter::deserialize(&mut deser).unwrap();
    let mut ser = Ser::<40>::default();
    nfilter.serialize(&mut ser).unwrap();
    println!("nfilter {}", std::str::from_utf8(ser.as_slice()).unwrap());
    assert_eq!(ser.as_slice(), &slice[..slice.len() - 1]);
}

#[test]
fn filter_nfilter_serialize() {
    let slice = b",111_1111_0000,";
    let mut deser = DeSer::<40>::from_slice(slice).unwrap();
    let nfilter = NFilter::deserialize(&mut deser).unwrap();
    let mut ser = Ser::<40>::new();
    nfilter.serialize(&mut ser).unwrap();
    println!("nfilter {}", std::str::from_utf8(ser.as_slice()).unwrap());
    assert_eq!(ser.as_slice(), &slice[..slice.len() - 1]);

    let slice = b",1_1111_0000_1111_0000_1111_0000_1111,";
    let mut deser = DeSer::<40>::from_slice(slice).unwrap();
    let nfilter = NFilter::deserialize(&mut deser).unwrap();
    let mut ser = Ser::<40>::new();
    nfilter.serialize(&mut ser).unwrap();
    println!("nfilter {}", std::str::from_utf8(ser.as_slice()).unwrap());
    assert_eq!(ser.as_slice(), &slice[..slice.len() - 1]);
}

#[test]
fn basics_pfilter_serialize() {
    let slice = b",17,1_1111_0000_1111_0000_11*1_000*_1111,";
    let mut deser = DeSer::<50>::from_slice(slice).unwrap();
    let pre_pfilter = PrePFilter::deserialize(&mut deser).unwrap();
    let mut ser = Ser::<40>::default();
    pre_pfilter.serialize(&mut ser).unwrap();
    println!("pre_pfilter {}", std::str::from_utf8(ser.as_slice()).unwrap());
    assert_eq!(ser.as_slice(), &slice[..slice.len() - 1]);
}

#[test]
fn filter_pfilter_serialize() {
    let slice = b",17,1_1111_0000_1111_0000_11*1_000*_1111,";
    let mut deser = DeSer::<50>::from_slice(slice).unwrap();
    let pfilter = PFilter::deserialize(&mut deser).unwrap();
    let mut ser = Ser::<40>::new();
    pfilter.serialize(&mut ser).unwrap();
    println!("pfilter {}", std::str::from_utf8(ser.as_slice()).unwrap());
    assert_eq!(ser.as_slice(), &slice[..slice.len() - 1]);
}

#[test]
fn pattern_lengths_10_12_28_30_are_refused() {
    assert_eq!(NFilter::new(b"11_1111_0000"), Err(Error::ParseError));
    assert_eq!(NFilter::new(b"1_1111_1111_0000"), Err(Error::ParseError));
    assert_eq!(NFilter::new(b"1111_0000_1111_0000_1111_0000_1111"), Err(Error::ParseError));
    assert_eq!(NFilter::new(b"11_1111_0000_1111_0000_1111_0000_1111"), Err(Error::ParseError));
    assert_eq!(PrePFilter::new(5, b"1111111111"), Err(Error::ParseError));
    assert!(NFilter::new(b"11111111111").is_ok());
    assert!(NFilter::new(b"11111111111111111111111111111").is_ok());
}

#[test]
fn pattern_with_foreign_byte_is_refused() {
    assert_eq!(NFilter::new(b"111_1111_000x"), Err(Error::ParseError));
    assert_eq!(NFilter::new(b"111 1111 0000"), Err(Error::ParseError));
    assert_eq!(NFilter::new(b"111_1111_000?"), Err(Error::ParseError));
    assert_eq!(PrePFilter::new(0, b"111-1111-0000"), Err(Error::ParseError));
}

#[test]
fn rate_limit_zero_duration_always_allows() {
    let mut times = IdTimes::<2>::new();
    for t in [0u32, 1, 1, 5, 5, 1000] {
        assert!(times.check_instant(0x123, TInstant(t), 0));
    }
    assert_eq!(times, IdTimes::<2>::new());
}

#[test]
fn rate_limit_first_observation_allows() {
    let mut times = IdTimes::<2>::new();
    assert!(times.check_instant(0x10, TInstant(7), 100));
    assert!(times.check_instant(0x11, TInstant(8), 100));
    assert!(!times.check_instant(0x11, TInstant(9), 100));
    // the table is full: a third identifier is not tracked and not allowed
    assert!(!times.check_instant(0x12, TInstant(10), 100));
}

#[test]
fn rate_limit_refusal_keeps_instant() {
    let mut times = IdTimes::<4>::new();
    assert!(times.check_instant(0x10, TInstant(1000), 100));
    let before = times.clone();
    assert!(!times.check_instant(0x10, TInstant(1050), 100));
    assert_eq!(times, before);
    assert!(times.check_instant(0x10, TInstant(1100), 100));
    assert!(!times.check_instant(0x10, TInstant(1150), 100));
}

#[test]
fn distance_wraps_both_ways() {
    assert_eq!(TInstant(5).dist(TInstant(0xFFFF_FFFB)), 10);
    assert_eq!(TInstant(0xFFFF_FFFB).dist(TInstant(5)), 10);
    assert_eq!(TInstant(1501).dist(TInstant(500)), 1001);
    assert_eq!(TInstant(0).dist(TInstant(0x8000_0000)), 0x8000_0000);
}

#[test]
fn empty_filter_sets_defaults() {
    let mut pfilters = PFilters::<10>::new();
    let nfilters = NFilters::<10>::new();
    for id in [0u32, 0x7FF, 0x123] {
        assert!(pfilters.check(s_id(id), TInstant(id)));
        assert!(!nfilters.check(s_id(id)));
    }
    assert!(pfilters.check(e_id(0x1FFF_FFFF), TInstant(3)));
    assert!(!nfilters.check(e_id(0x1FFF_FFFF)));
}

#[test]
fn filter_sets_refuse_past_capacity() {
    let mut nfilters = NFilters::<2>::new();
    let f = NFilter::new(b"110_0110_0000").unwrap();
    assert_eq!(nfilters.add(f), Ok(()));
    assert_eq!(nfilters.add(f), Ok(()));
    assert_eq!(nfilters.add(f), Err(Error::BufIsFull));
    assert_eq!(nfilters.len(), 2);
    let mut pfilters = PFilters::<1>::new();
    let p = PrePFilter::new(0, b"110_0110_0000").unwrap();
    assert_eq!(pfilters.add(p), Ok(()));
    assert_eq!(pfilters.add(p), Err(Error::BufIsFull));
    assert_eq!(pfilters.len(), 1);
    pfilters.clear();
    assert_eq!(pfilters.len(), 0);
}

#[test]
fn standard_filter_ignores_extended_id() {
    let mut p = PFilter::new(0, b"***_****_****").unwrap();
    assert!(p.check(s_id(0x123), TInstant(0)));
    assert!(!p.check(e_id(0x123), TInstant(0)));
    let n = NFilter::new(b"*_****_****_****_****_****_****_****").unwrap();
    assert!(n.check(e_id(0x123)));
    assert!(!n.check(s_id(0x123)));
}

#[test]
fn id_constructors_check_range() {
    assert_eq!(Id::standard(0x7FF), Some(Id::Standard(0x7FF)));
    assert_eq!(Id::standard(0x800), None);
    assert_eq!(Id::extended(0x1FFF_FFFF), Some(Id::Extended(0x1FFF_FFFF)));
    assert_eq!(Id::extended(0x2000_0000), None);
}
