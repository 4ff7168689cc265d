use canbridge::codec::{DeSer, Ser};
use canbridge::com_item::ComItem;
use canbridge::error::Error;
use canbridge::ring_buffer::RingBuffer;
use canbridge::rx_buffer::RxBuffer;

#[test]
fn fill() {
    let mut r_buf = RingBuffer::<60>::new();
    r_buf.write(b"$RF,125,8,d747b0408ba8c340\n").unwrap();
    assert_eq!(r_buf.len(), 27);
    r_buf.write(b"$RF,125,8,d747b0408ba8c340\n").unwrap();
    assert_eq!(r_buf.len(), 54);
    let r = r_buf.write(b"$RF,125,8,d747b0408ba8c340\n");
    assert_eq!(r, Err(Error::BufIsFull));

    let mut r_buf = RingBuffer::<60>::new();
    let mut de_ser = DeSer::<30>::new();
    r_buf.write(b"xxx$RF,125,8,d747b0408ba8c340\n").unwrap();
    assert_eq!(r_buf.len(), 30);
    r_buf.read(&mut de_ser).unwrap();
    assert_eq!(de_ser.as_slice(), b"$RF,125,8,d747b0408ba8c340\n");
    assert_eq!(r_buf.len(), 0);

    let mut r_buf = RingBuffer::<60>::new();
    let mut de_ser = DeSer::<30>::new();
    r_buf.write(b"$RF,125,8,d747b0408ba8c340\n").unwrap();
    assert_eq!(r_buf.len(), 27);
    r_buf.write(b"$RF,125,8,d747b0408ba8c340\n").unwrap();
    assert_eq!(r_buf.len(), 54);
    r_buf.read(&mut de_ser).unwrap();
    assert_eq!(de_ser.as_slice(), b"$RF,125,8,d747b0408ba8c340\n");
    r_buf.write(b"$RF,125,8,d747b0408ba8c340\n").unwrap();
    assert_eq!(r_buf.len(), 54);
    de_ser.clear();
    r_buf.read(&mut de_ser).unwrap();
    assert_eq!(de_ser.as_slice(), b"$RF,125,8,d747b0408ba8c340\n");
    de_ser.clear();
    r_buf.read(&mut de_ser).unwrap();
    assert_eq!(de_ser.as_slice(), b"$RF,125,8,d747b0408ba8c340\n");
    assert_eq!(r_buf.len(), 0);

    let mut r_buf = RingBuffer::<60>::new();
    r_buf.write(b"1234567890").unwrap();
    r_buf.write(b"1234567890").unwrap();
    r_buf.write(b"1234567890").unwrap();
    r_buf.write(b"1234567890").unwrap();
    r_buf.write(b"1234567890").unwrap();
    r_buf.write(b"123456789").unwrap();
    assert_eq!(r_buf.write(b"0"), Err(Error::BufIsFull));
    assert_eq!(r_buf.len(), 59);

    let mut r_buf = RingBuffer::<60>::new();
    r_buf.write(b"12345").unwrap();
    r_buf.write(b"1234567890").unwrap();
    r_buf.write(b"1234567890").unwrap();
    r_buf.write(b"1234567890").unwrap();
    r_buf.write(b"1234567890").unwrap();
    r_buf.write(b"1234567890").unwrap();
    r_buf.write(b"1234").unwrap();
    assert_eq!(r_buf.write(b"0"), Err(Error::BufIsFull));
    assert_eq!(r_buf.len(), 59);

    let mut r_buf = RingBuffer::<60>::new();
    let mut de_ser = DeSer::<30>::new();
    r_buf.write(b"1234\n").unwrap();
    r_buf.read(&mut de_ser).unwrap();
    r_buf.write(b"1234567890").unwrap();
    r_buf.write(b"1234567890").unwrap();
    r_buf.write(b"1234567890").unwrap();
    r_buf.write(b"1234567890").unwrap();
    r_buf.write(b"1234567890").unwrap();
    r_buf.write(b"123456789").unwrap();
    assert_eq!(r_buf.len(), 59);
    assert_eq!(r_buf.write(b"0"), Err(Error::BufIsFull));
    assert_eq!(r_buf.len(), 59);
}

#[test]
fn ring_read_without_newline_keeps_data() {
    let mut r_buf = RingBuffer::<16>::new();
    let mut de_ser = DeSer::<30>::new();
    r_buf.write(b"ab$rf,1").unwrap();
    assert_eq!(r_buf.read(&mut de_ser), Err(Error::EndNotFound));
    assert_eq!(r_buf.len(), 7);
    r_buf.clear();
    assert_eq!(r_buf.len(), 0);
}

fn filled<const C: usize>(bytes: &[u8]) -> RxBuffer<C> {
    let mut buf = RxBuffer::<C>::default();
    let mut ser = Ser::<2048>::new();
    ser.add_slice(bytes).unwrap();
    buf.write(&ser).unwrap();
    buf
}

#[test]
fn rx_without_newline_is_end_not_found() {
    let mut buf = filled::<64>(b"$rf,12a,3,1a2b");
    let mut de = DeSer::<50>::new();
    assert_eq!(buf.read(&mut de), Err(Error::EndNotFound));
    assert_eq!(buf.len(), 14);
    let mut de = DeSer::<50>::new();
    assert_eq!(buf.read(&mut de), Err(Error::EndNotFound));
    assert_eq!(buf.len(), 14);
}

#[test]
fn rx_discards_noise_before_start() {
    let mut buf = filled::<64>(b"xxx$rf,12a,3,1a2b3c\n");
    let mut de = DeSer::<50>::new();
    assert_eq!(buf.read(&mut de), Ok(()));
    assert_eq!(de.as_slice(), b"$rf,12a,3,1a2b3c\n");
    assert_eq!(buf.len(), 0);
    let item = ComItem::deserialize(&mut de).unwrap();
    assert!(matches!(item, ComItem::ReceivedFrame(_)));
    let mut de = DeSer::<50>::new();
    assert_eq!(buf.read(&mut de), Err(Error::BufIsEmpty));
}

#[test]
fn rx_reader_too_small_is_buf_is_full() {
    let mut buf = filled::<64>(b"$echo\n");
    let mut de = DeSer::<3>::new();
    assert_eq!(buf.read(&mut de), Err(Error::BufIsFull));
    assert_eq!(de.as_slice(), b"$ec");
    assert_eq!(buf.len(), 3);
}

#[test]
fn rx_end_of_store_without_newline_is_buf_is_full() {
    let mut buf = filled::<8>(b"$echo,ab");
    let mut de = DeSer::<50>::new();
    assert_eq!(buf.read(&mut de), Err(Error::BufIsFull));
    assert_eq!(buf.len(), 8);
}

#[test]
fn rx_two_datagrams_in_one_read() {
    let mut buf = filled::<64>(b"$echo\n$save\n");
    let mut de = DeSer::<50>::new();
    assert_eq!(buf.read(&mut de), Ok(()));
    assert_eq!(ComItem::deserialize(&mut de), Ok(ComItem::Echo));
    let mut de = DeSer::<50>::new();
    assert_eq!(buf.read(&mut de), Ok(()));
    assert_eq!(ComItem::deserialize(&mut de), Ok(ComItem::Save));
    assert_eq!(buf.as_slice(), b"$echo\n$save\n".to_vec());
    buf.set_head(6);
    assert_eq!(buf.len(), 6);
    buf.clear();
    assert_eq!(buf.len(), 0);
}

#[test]
fn rx_write_refuses_overflow() {
    let mut buf = RxBuffer::<4>::new();
    let mut ser = Ser::<10>::new();
    ser.add_slice(b"abcde").unwrap();
    assert_eq!(buf.write(&ser), Err(Error::BufIsFull));
    assert_eq!(buf.len(), 0);
    let block = buf.en_mut_block();
    block.copy_from_slice(b"$x\nz");
    buf.set_head(4);
    assert_eq!(buf.as_slice(), b"$x\nz".to_vec());
}
