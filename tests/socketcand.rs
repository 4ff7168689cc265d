use canbridge::cmd_error::Error;
use canbridge::command_buffer::CommandBuffer;
use canbridge::command_parser::{
    Add, CanControl, CanTiming, CommandParser, Commands, Delete, Filter, Mode, MuxFilter, Send,
    Statistics, Subscribe, Unsubscribe, Update,
};
use canbridge::time::{Duration, Instant};

#[test]
fn ok_cases() {
    let mut buf = CommandBuffer::new();
    let r = buf.append(b"< testcmd 123 456 789 1 >");
    assert!(r == Ok(()));
    assert!(buf.len() == 25);
    assert!(buf.is_begin() == Ok(()));
    let r = buf.get_vec();
    assert!(r.unwrap().as_slice() == b"testcmd");
    let r = buf.get_u32();
    assert!(r.unwrap() == 123);
    let r = buf.get_u16();
    assert!(r.unwrap() == 456);
    let r = buf.get_vec();
    assert!(r.unwrap().as_slice() == b"789");
    let r = buf.get_bool();
    assert!(r.unwrap() == true);
    assert!(buf.is_end() == Ok(()));
    assert!(buf.len() == 0);

    let r = buf.append(b"< 123 456 >");
    assert!(r == Ok(()));
    assert!(buf.len() == 11);
    assert!(buf.is_begin() == Ok(()));
    let r = buf.get_duration().unwrap();
    assert!(r.usecs() == 123_000_456);
    assert!(buf.is_end() == Ok(()));
    assert!(buf.len() == 0);

    let r = buf.append(b"< 3 3f a2 5 >");
    assert!(r == Ok(()));
    assert!(buf.len() == 13);
    assert!(buf.is_begin() == Ok(()));
    let r = buf.get_data().unwrap();
    assert!(r.len() == 3);
    assert!(r[0] == 0x3f);
    assert!(r[1] == 0xa2);
    assert!(r[2] == 0x05);
    assert!(buf.is_end() == Ok(()));
    assert!(buf.len() == 0);

    let r = buf.append(b"< 8 1 2 3 4 5 6 7 ff >");
    assert!(r == Ok(()));
    assert!(buf.len() == 22);
    assert!(buf.is_begin() == Ok(()));
    let r = buf.get_data().unwrap();
    assert!(r.len() == 8);
    assert!(r[0] == 0x01);
    assert!(r[1] == 0x02);
    assert!(r[7] == 0xff);
    assert!(buf.is_end() == Ok(()));
    assert!(buf.len() == 0);
}

#[test]
fn err_cases() {
    let mut buf = CommandBuffer::new();
    let r = buf.append(b"12345678");
    assert!(r == Ok(()));
    let r = buf.get_vec();
    assert!(r == Err(Error::NotFound));

    let s = b"0123456789";
    let mut buf = CommandBuffer::new();
    let mut r = Ok(());
    for _ in 0..103 {
        r = buf.append(s);
    }
    assert!(r == Err(Error::BufIsFull));

    let s = b"0123456789";
    let mut buf = CommandBuffer::new();
    for _ in 0..5 {
        buf.append(s).unwrap();
    }
    buf.append(b" ").unwrap();
    let r = buf.get_vec();
    assert!(r == Err(Error::BufIsFull));

    let s = b"0123456789";
    let mut buf = CommandBuffer::new();
    let _ = buf.append(s);
    assert!(buf.is_begin() == Err(Error::NoBeginFound));

    let s = b"< ";
    let mut buf = CommandBuffer::new();
    let _ = buf.append(s);
    assert!(buf.is_begin() == Ok(()));
    assert!(buf.is_end() == Err(Error::NotFound));
}

#[test]
fn ok_bcm_cases() {
    let mut cmd_parser = CommandParser::new();

    let mut buf = CommandBuffer::new();
    buf.append(b"< echo >").unwrap();
    let cmd = cmd_parser.parse(&mut buf).unwrap();
    assert!(cmd == Commands::Echo);

    buf.append(b"< can0 C 0 1 0 >").unwrap();
    let cmd = cmd_parser.parse(&mut buf).unwrap();
    let can_control = CanControl { listen_only: false, loopback: true, three_samples: false };
    assert!(cmd == Commands::CanControl(can_control));

    buf.append(b"< can0 B 1 2 3 4 5 6 7 8 >").unwrap();
    let cmd = cmd_parser.parse(&mut buf).unwrap();
    let can_timing = CanTiming {
        bit_rate: 1,
        sample_point: 2,
        tq: 3,
        prop_seg: 4,
        phase_seg1: 5,
        phase_seg2: 6,
        sjw: 7,
        brp: 8,
    };
    assert!(cmd == Commands::CanTiming(can_timing));

    buf.append(b"< open can0 >").unwrap();
    let _cmd = cmd_parser.parse(&mut buf).unwrap();
    assert!(cmd_parser.mode() == Mode::Bcm);
    assert!(buf.len() == 0);

    buf.append(b"< add 1 0 123 8 11 22 33 44 55 66 77 88 >").unwrap();
    let cmd = cmd_parser.parse(&mut buf).unwrap();
    let add = Add {
        duration: Duration::from_usecs(1_000_000),
        id: 123,
        data: b"\x11\x22\x33\x44\x55\x66\x77\x88".to_vec(),
    };
    assert!(cmd == Commands::Add(add));
    assert!(buf.len() == 0);

    buf.append(b"< update 123 3 11 22 33 >").unwrap();
    let cmd = cmd_parser.parse(&mut buf).unwrap();
    let update = Update { id: 123, data: b"\x11\x22\x33".to_vec() };
    assert!(cmd == Commands::Update(update));
    assert!(buf.len() == 0);

    buf.append(b"< delete 123 >").unwrap();
    let cmd = cmd_parser.parse(&mut buf).unwrap();
    let delete = Delete { id: 123 };
    assert!(cmd == Commands::Delete(delete));
    assert!(buf.len() == 0);

    buf.append(b"< send 123 1 ff >").unwrap();
    let cmd = cmd_parser.parse(&mut buf).unwrap();
    let send = Send { id: 123, data: b"\xff".to_vec() };
    assert!(cmd == Commands::Send(send));
    assert!(buf.len() == 0);

    buf.append(b"< filter 0 0 123 8 FF 00 F8 00 00 00 00 00 >").unwrap();
    let cmd = cmd_parser.parse(&mut buf).unwrap();
    let filter = Filter {
        duration: Duration::from_usecs(0),
        id: 123,
        data: b"\xff\x00\xf8\x00\x00\x00\x00\x00".to_vec(),
    };
    assert!(cmd == Commands::Filter(filter));
    assert!(buf.len() == 0);

    buf.append(b"< muxfilter 0 0 123 2 FF 00 00 00 00 00 00 00 33 FF FF FF FF FF FF FF >")
        .unwrap();
    let cmd = cmd_parser.parse(&mut buf).unwrap();
    let mux_filter = MuxFilter {
        duration: Duration::from_usecs(0),
        id: 123,
        mux_data: b"\xff\x00\x00\x00\x00\x00\x00\x00\x33\xff\xff\xff\xff\xff\xff\xff".to_vec(),
    };
    assert!(cmd == Commands::MuxFilter(mux_filter));
    assert!(buf.len() == 0);

    buf.append(b"< subscribe 0 0 123 >").unwrap();
    let cmd = cmd_parser.parse(&mut buf).unwrap();
    let subscribe = Subscribe { duration: Duration::from_usecs(0), id: 123 };
    assert!(cmd == Commands::Subscribe(subscribe));
    assert!(buf.len() == 0);

    buf.append(b"< unsubscribe 123 >").unwrap();
    let cmd = cmd_parser.parse(&mut buf).unwrap();
    let unsubscribe = Unsubscribe { id: 123 };
    assert!(cmd == Commands::Unsubscribe(unsubscribe));
    assert!(buf.len() == 0);
}

#[test]
fn ok_raw_cases() {
    let mut cmd_parser = CommandParser::new();

    let mut buf = CommandBuffer::new();
    buf.append(b"< open can0 >").unwrap();
    let _cmd = cmd_parser.parse(&mut buf).unwrap();
    assert!(cmd_parser.mode() == Mode::Bcm);
    assert!(buf.len() == 0);

    buf.append(b"< rawmode >").unwrap();
    let _cmd = cmd_parser.parse(&mut buf).unwrap();
    assert!(cmd_parser.mode() == Mode::Raw);
    assert!(buf.len() == 0);

    buf.append(b"< send 123 1 ff >").unwrap();
    let cmd = cmd_parser.parse(&mut buf).unwrap();
    let send = Send { id: 123, data: b"\xff".to_vec() };
    assert!(cmd == Commands::Send(send));
    assert!(buf.len() == 0);

    let mut buf = CommandBuffer::new();
    buf.append(b"< bcmmode >").unwrap();
    let _cmd = cmd_parser.parse(&mut buf).unwrap();
    assert!(cmd_parser.mode() == Mode::Bcm);
    assert!(buf.len() == 0);
}

#[test]
fn ok_control_cases() {
    let mut cmd_parser = CommandParser::new();

    let mut buf = CommandBuffer::new();
    buf.append(b"< open can0 >").unwrap();
    let _cmd = cmd_parser.parse(&mut buf).unwrap();
    assert!(cmd_parser.mode() == Mode::Bcm);
    assert!(buf.len() == 0);

    buf.append(b"< controlmode >").unwrap();
    let _cmd = cmd_parser.parse(&mut buf).unwrap();
    assert!(cmd_parser.mode() == Mode::Control);
    assert!(buf.len() == 0);

    buf.append(b"< statistics 1000 >").unwrap();
    let cmd = cmd_parser.parse(&mut buf).unwrap();
    let statistics = Statistics { duration: Duration::from_msecs(1000) };
    assert!(cmd == Commands::Statistics(statistics));
    assert!(buf.len() == 0);

    let mut buf = CommandBuffer::new();
    buf.append(b"< bcmmode >").unwrap();
    let _cmd = cmd_parser.parse(&mut buf).unwrap();
    assert!(cmd_parser.mode() == Mode::Bcm);
    assert!(buf.len() == 0);
}

#[test]
fn ok_iso_tp_cases() {
    let mut cmd_parser = CommandParser::new();

    let mut buf = CommandBuffer::new();
    buf.append(b"< open can0 >").unwrap();
    let _cmd = cmd_parser.parse(&mut buf).unwrap();
    assert!(cmd_parser.mode() == Mode::Bcm);
    assert!(buf.len() == 0);

    buf.append(b"< isotpmode >").unwrap();
    let _cmd = cmd_parser.parse(&mut buf).unwrap();
    assert!(cmd_parser.mode() == Mode::IsoTp);
    assert!(buf.len() == 0);

    buf.append(b"< sendpdu xxx >").unwrap();
    let cmd = cmd_parser.parse(&mut buf);
    println!("{:?}", cmd);
    assert!(cmd == Err(Error::NotSupported));

    let mut buf = CommandBuffer::new();
    buf.append(b"< bcmmode >").unwrap();
    let _cmd = cmd_parser.parse(&mut buf).unwrap();
    assert!(cmd_parser.mode() == Mode::Bcm);
    assert!(buf.len() == 0);
}

#[test]
fn parser_reads_a_stream_of_commands() {
    let mut cmd_parser = CommandParser::new();
    let mut buf = CommandBuffer::new();
    buf.append(b"< open can0 >< filter 0 0 123 0 >< send 124 8 11 22 33 44 55 66 7a 8b >")
        .unwrap();
    let _ = cmd_parser.parse(&mut buf);
    assert!(cmd_parser.mode() == Mode::Bcm);
    let cmd = cmd_parser.parse(&mut buf).unwrap();
    assert!(
        cmd == Commands::Filter(Filter { duration: Duration::from_secs(0), id: 123, data: Vec::new() })
    );
    let cmd = cmd_parser.parse(&mut buf).unwrap();
    assert!(
        cmd == Commands::Send(Send { id: 124, data: b"\x11\x22\x33\x44\x55\x66\x7a\x8b".to_vec() })
    );
    assert!(buf.len() == 0);
}

#[test]
fn command_errors() {
    let mut cmd_parser = CommandParser::new();
    let mut buf = CommandBuffer::new();
    buf.append(b"< bogus >").unwrap();
    assert_eq!(cmd_parser.parse(&mut buf), Err(Error::ParseError));
    buf.append(b"< can0 C 0 2 0 >").unwrap();
    assert_eq!(cmd_parser.parse(&mut buf), Err(Error::ParseError));
    let mut buf = CommandBuffer::new();
    buf.append(b"< 9 1 2 3 4 5 6 7 8 9 >").unwrap();
    assert!(buf.is_begin().is_ok());
    assert_eq!(buf.get_data(), Err(Error::ParseError));
    let mut buf = CommandBuffer::new();
    buf.append(b"< 6 >").unwrap();
    assert!(buf.is_begin().is_ok());
    assert_eq!(buf.get_mux_data(), Err(Error::NotFound));
    let mut buf = CommandBuffer::new();
    buf.append(b"<x").unwrap();
    assert_eq!(buf.is_begin(), Err(Error::ParseError));
    assert_eq!(buf.get_bool(), Err(Error::NotFound));
}

#[test]
fn time_units() {
    assert_eq!(Duration::from_secs(2).usecs(), 2_000_000);
    assert_eq!(Duration::from_msecs(3).usecs(), 3_000);
    assert_eq!(Instant::from_secs(1), Instant(1_000_000));
    assert_eq!(Instant::from_msecs(7), Instant(7_000));
    assert_eq!(Instant::from_usecs(5).add(Duration(3)), Instant(8));
    assert_eq!(Instant(1).sub(Duration(2)), Instant(u32::MAX));
    assert_eq!(Instant(u32::MAX).add(Duration(1)), Instant(0));
}
