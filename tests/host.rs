use canbridge::com_item::ComItem;
use canbridge::console::{is_frame_line, split_lines, InputWidget, ListWidget, ListWidgets};
use canbridge::error::Error;
use canbridge::ingress::take_items;
use canbridge::adapter::{can_step, deliver, CanAction, CanEvent, Delivery};
use canbridge::can_frame::CanFrame;
use canbridge::filter::Id;
use canbridge::ring_buffer::RingBuffer;

fn ring_with(bytes: &[u8]) -> RingBuffer<128> {
    let mut buf = RingBuffer::<128>::new();
    buf.write(bytes).unwrap();
    buf
}

#[test]
fn take_items_reads_every_datagram() {
    let mut buf = ring_with(b"noise$echo\n$rf,12a,3,1a2b3c\n$save\n");
    let items = take_items(&mut buf);
    assert_eq!(items.len(), 3);
    assert_eq!(items[0], Ok(ComItem::Echo));
    assert!(matches!(items[1], Ok(ComItem::ReceivedFrame(_))));
    assert_eq!(items[2], Ok(ComItem::Save));
    assert_eq!(buf.len(), 0);
}

#[test]
fn take_items_goes_on_after_errors() {
    let mut buf = ring_with(b"$x\n$echo\n$bogus\n$save\n");
    let items = take_items(&mut buf);
    assert_eq!(
        items,
        vec![
            Err(Error::ParseError),
            Ok(ComItem::Echo),
            Err(Error::ParseError),
            Ok(ComItem::Save)
        ]
    );
    assert_eq!(buf.len(), 0);
}

#[test]
fn take_items_keeps_a_partial_datagram() {
    let mut buf = ring_with(b"$echo\nzz$sa");
    let items = take_items(&mut buf);
    assert_eq!(items, vec![Ok(ComItem::Echo)]);
    assert_eq!(buf.len(), 3);
    buf.write(b"ve\n").unwrap();
    let items = take_items(&mut buf);
    assert_eq!(items, vec![Ok(ComItem::Save)]);
    assert_eq!(buf.len(), 0);
    let mut lines = ring_with(b"noise\n$echo\n");
    assert_eq!(take_items(&mut lines), vec![Ok(ComItem::Echo)]);
    let mut noise = ring_with(b"no start here");
    assert!(take_items(&mut noise).is_empty());
    assert_eq!(noise.len(), 0);
}

#[test]
fn take_items_refuses_an_overlong_datagram_and_goes_on() {
    let mut long = b"$err,".to_vec();
    long.extend_from_slice(&[b'a'; 60]);
    long.extend_from_slice(b"\n$echo\n");
    let mut buf = ring_with(&long);
    let items = take_items(&mut buf);
    assert_eq!(items, vec![Err(Error::BufIsFull), Ok(ComItem::Echo)]);
}

#[test]
fn adapter_steps() {
    assert_eq!(deliver(Ok(ComItem::Echo)), Delivery::ToRouter(ComItem::Echo));
    assert_eq!(
        deliver(Err(Error::ParseError)),
        Delivery::ToHost(ComItem::Error(Error::ParseError))
    );
    let f = CanFrame::new(Id::Standard(0x12a), &[1, 2]).unwrap();
    assert_eq!(can_step(false, CanEvent::Received(f)), (false, CanAction::Nothing));
    assert_eq!(can_step(false, CanEvent::Connection(true)), (true, CanAction::Nothing));
    assert_eq!(
        can_step(true, CanEvent::Received(f)),
        (true, CanAction::ToHost(ComItem::ReceivedFrame(f)))
    );
    assert_eq!(
        can_step(true, CanEvent::ToSend(ComItem::FrameToSend(f))),
        (true, CanAction::SendData(Id::Standard(0x12a), vec![1, 2]))
    );
    let r = CanFrame::new_remote(Id::Extended(0x1234), 5).unwrap();
    assert_eq!(
        can_step(true, CanEvent::ToSend(ComItem::FrameToSend(r))),
        (true, CanAction::SendRemote(Id::Extended(0x1234), 5))
    );
    assert_eq!(can_step(true, CanEvent::ToSend(ComItem::Echo)), (true, CanAction::Nothing));
}

#[test]
fn lines_are_cut_at_newlines() {
    let lines = split_lines(b"$rf,1,0,\nhello\n\npartial");
    assert_eq!(lines, vec![b"$rf,1,0,".to_vec(), b"hello".to_vec(), Vec::new()]);
    assert!(is_frame_line(&lines[0]));
    assert!(!is_frame_line(&lines[1]));
    assert!(!is_frame_line(b"$r"));
    assert!(split_lines(b"no newline").is_empty());
}

#[test]
fn list_widget_keeps_last_lines() {
    let mut w = ListWidget::<2>::new(" t ");
    w.add_item("a".to_string());
    w.add_item("b".to_string());
    w.add_item("c".to_string());
    assert_eq!(w.content(), &vec!["b".to_string(), "c".to_string()]);
    assert_eq!(w.border_title(), " t ");
    let mut ws = ListWidgets::<3>::new();
    ws.can().add_item("x".to_string());
    ws.cmd().add_item("y".to_string());
    ws.cmd().add_item("z".to_string());
    assert_eq!(ws.can().content().len(), 1);
    assert_eq!(ws.cmd().content(), &vec!["y".to_string(), "z".to_string()]);
}

#[test]
fn input_widget_edits_by_character() {
    let mut w = InputWidget::new();
    w.enter_char('a');
    w.enter_char('c');
    w.move_cursor_left();
    w.enter_char('b');
    assert_eq!(w.text(), &vec!['a', 'b', 'c']);
    assert_eq!(w.cursor(), 2);
    w.move_cursor_right();
    w.move_cursor_right();
    assert_eq!(w.cursor(), 3);
    w.delete_char();
    assert_eq!(w.text(), &vec!['a', 'b']);
    w.move_cursor_left();
    w.move_cursor_left();
    w.move_cursor_left();
    assert_eq!(w.cursor(), 0);
    w.delete_char();
    assert_eq!(w.text(), &vec!['a', 'b']);
    w.enter_char('é');
    assert_eq!(w.get_message(), vec!['é', 'a', 'b']);
    assert_eq!(w.cursor(), 0);
    assert!(w.text().is_empty());
}
