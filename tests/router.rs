use canbridge::can_frame::CanFrame;
use canbridge::codec::DeSer;
use canbridge::com_item::ComItem;
use canbridge::config::{load_items, save_config, ConfigBuffer};
use canbridge::error::Error;
use canbridge::filter::{Id, NFilter, NFilters, PFilters, PrePFilter, TInstant};
use canbridge::router::{Action, Router};
use canbridge::rx_buffer::RxBuffer;

fn item(bytes: &[u8]) -> ComItem {
    let mut d = DeSer::<50>::from_slice(bytes).unwrap();
    ComItem::deserialize(&mut d).unwrap()
}

fn rx(id: u32) -> ComItem {
    ComItem::ReceivedFrame(CanFrame::new(Id::Standard(id as u16), &[]).unwrap())
}

#[test]
fn accept_all_passthrough() {
    let mut router = Router::<10>::new();
    let cmd = item(b"$fts,12a,3,1a2b3c\n");
    let actions = router.on_tcp_rx(cmd);
    assert_eq!(actions.len(), 1);
    match &actions[0] {
        Action::ToCan(ComItem::FrameToSend(f)) => {
            assert_eq!(f.id(), Id::Standard(0x12a));
            assert_eq!(f.dlc(), 3);
            assert_eq!(f.data(), vec![0x1a, 0x2b, 0x3c]);
        }
        other => panic!("unexpected {:?}", other),
    }
    let out = router.on_can_rx(rx(0x200), TInstant(0)).unwrap();
    assert_eq!(out.serialize().unwrap().as_slice(), b"$rf,200,0,\n");
}

#[test]
fn ternary_positive_filter() {
    let mut router = Router::<10>::new();
    assert!(router.on_tcp_rx(item(b"$pfilt,0,1*0_0110_0**1\n")).is_empty());
    assert!(router.on_can_rx(rx(0x667), TInstant(0)).is_some());
    assert!(router.on_can_rx(rx(0x666), TInstant(0)).is_none());
}

#[test]
fn rate_limited_positive_filter() {
    let mut router = Router::<10>::new();
    router.on_tcp_rx(item(b"$pfilt,1000,1*0_0110_0**1\n"));
    assert!(router.on_can_rx(rx(0x667), TInstant(500)).is_some());
    assert!(router.on_can_rx(rx(0x667), TInstant(1000)).is_none());
    assert!(router.on_can_rx(rx(0x667), TInstant(1501)).is_some());
}

#[test]
fn negative_mask_dominates() {
    let mut router = Router::<10>::new();
    router.on_tcp_rx(item(b"$nfilt,111_1111_0000\n"));
    router.on_tcp_rx(item(b"$pfilt,0,***_****_****\n"));
    assert!(router.on_can_rx(rx(0x7F0), TInstant(0)).is_none());
    assert!(router.on_can_rx(rx(0x7F1), TInstant(0)).is_some());
}

#[test]
fn clear_filters_accepts_all_again() {
    let mut router = Router::<10>::new();
    router.on_tcp_rx(item(b"$nfilt,***_****_****\n"));
    assert!(router.on_can_rx(rx(0x10), TInstant(0)).is_none());
    assert!(router.on_tcp_rx(ComItem::ClearFilters).is_empty());
    assert!(router.on_can_rx(rx(0x10), TInstant(0)).is_some());
    assert!(router.on_tcp_rx(ComItem::ShowFilters).is_empty());
}

#[test]
fn host_datagrams_dispatch() {
    let mut router = Router::<1>::new();
    assert_eq!(router.on_tcp_rx(ComItem::Echo), vec![Action::ToHost(ComItem::Echo)]);
    assert_eq!(
        router.on_tcp_rx(ComItem::Error(Error::ParseError)),
        vec![Action::ToHost(ComItem::Error(Error::ParseError))]
    );
    assert!(router.on_tcp_rx(ComItem::End).is_empty());
    assert!(router.on_tcp_rx(ComItem::Magic(true)).is_empty());
    assert!(router.on_tcp_rx(rx(1)).is_empty());
    let n = NFilter::new(b"111_1111_0000").unwrap();
    assert!(router.on_tcp_rx(ComItem::NFilter(n)).is_empty());
    assert_eq!(
        router.on_tcp_rx(ComItem::NFilter(n)),
        vec![Action::ToHost(ComItem::Error(Error::BufIsFull))]
    );
    let p = PrePFilter::new(7, b"1*0_0110_0**1").unwrap();
    assert!(router.on_tcp_rx(ComItem::PFilter(p)).is_empty());
    assert_eq!(
        router.on_tcp_rx(ComItem::PFilter(p)),
        vec![Action::ToHost(ComItem::Error(Error::BufIsFull))]
    );
    assert_eq!(
        router.on_tcp_rx(ComItem::ShowFilters),
        vec![Action::ToHost(ComItem::NFilter(n)), Action::ToHost(ComItem::PFilter(p))]
    );
    assert!(router.on_can_rx(ComItem::Echo, TInstant(0)).is_none());
}

#[test]
fn save_and_reload_round_trip() {
    let mut router = Router::<10>::new();
    router.on_tcp_rx(item(b"$pfilt,1000,1*0_0110_0**1\n"));
    router.on_tcp_rx(item(b"$nfilt,111_1111_0000\n"));
    let actions = router.on_tcp_rx(ComItem::Save);
    let image = match &actions[..] {
        [Action::Store(img)] => img.clone(),
        other => panic!("unexpected {:?}", other),
    };
    assert_eq!(image.len(), 128);
    assert!(image.starts_with(
        b"$magic,67a35284e62a4b25\n$pfilt,1000,1*0_0110_0**1\n$nfilt,111_1111_0000\n$end\n"
    ));

    let mut buf = RxBuffer::<128>::new();
    buf.en_mut_block().copy_from_slice(&image);
    buf.set_head(128);
    let items = load_items(&mut buf);
    assert_eq!(items.len(), 4);
    assert_eq!(items[0], ComItem::Magic(true));
    assert_eq!(items[1], item(b"$pfilt,1000,1*0_0110_0**1\n"));
    assert_eq!(items[2], item(b"$nfilt,111_1111_0000\n"));
    assert_eq!(items[3], ComItem::End);

    let mut reloaded = Router::<10>::new();
    for it in items {
        assert!(reloaded.on_tcp_rx(it).is_empty());
    }
    for t in [500u32, 1000, 1501] {
        assert_eq!(
            reloaded.on_can_rx(rx(0x667), TInstant(t)).is_some(),
            router.on_can_rx(rx(0x667), TInstant(t)).is_some()
        );
    }
    assert!(reloaded.on_can_rx(rx(0x7F0), TInstant(5000)).is_none());
}

#[test]
fn load_skips_before_magic() {
    let mut buf = RxBuffer::<128>::new();
    let text = b"junk$echo\n$magic,67a35284e62a4b25\n$nfilt,111_1111_0000\n$end\n$save\n";
    buf.en_mut_block()[..text.len()].copy_from_slice(text);
    buf.set_head(128);
    let items = load_items(&mut buf);
    assert_eq!(items.len(), 3);
    assert_eq!(items[1], item(b"$nfilt,111_1111_0000\n"));
    let mut empty = RxBuffer::<128>::new();
    empty.set_head(128);
    assert!(load_items(&mut empty).is_empty());
}

#[test]
fn config_buffer_refuses_overflow() {
    let mut pfilters = PFilters::<10>::new();
    let nfilters = NFilters::<10>::new();
    for _ in 0..3 {
        pfilters
            .add(PrePFilter::new(1, b"1_1111_0000_1111_0000_1111_0000_1111").unwrap())
            .unwrap();
    }
    assert_eq!(save_config(&pfilters, &nfilters), Err(Error::BufIsFull));
    let mut buf = ConfigBuffer::default();
    assert_eq!(buf.add_item(&ComItem::Echo), Ok(()));
    assert_eq!(buf.finish(), Ok(()));
    assert!(buf.block().starts_with(b"$magic,67a35284e62a4b25\n$echo\n$end\n"));
}
