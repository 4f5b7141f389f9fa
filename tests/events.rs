use app_base::events::{deliveries, ChannelResource, TryRecvError, EVENT_CAPACITY};
use app_base::storage::ResourceId;

#[test]
fn reader_lags_after_overflow() {
    let channel: ChannelResource<u32> = ChannelResource::new(ResourceId::from_raw(9), EVENT_CAPACITY);
    let mut reader = channel.reader();
    let writer = channel.writer();
    for i in 0..150u32 {
        writer.send(i);
    }
    match reader.try_recv() {
        Err(TryRecvError::Lagged(n)) => assert!(n > 0),
        other => panic!("expected a lag, got {:?}", other),
    }
    let next = reader.try_recv().unwrap();
    assert!(next > 0);
}

#[test]
fn reader_sees_values_in_publish_order() {
    let channel: ChannelResource<u32> = ChannelResource::new(ResourceId::from_raw(9), EVENT_CAPACITY);
    let mut reader = channel.reader();
    channel.send(1);
    channel.send(2);
    assert_eq!(reader.try_recv(), Ok(1));
    assert_eq!(reader.try_recv(), Ok(2));
    assert_eq!(reader.try_recv(), Err(TryRecvError::Empty));
}

#[test]
fn readers_have_their_own_cursors() {
    let channel: ChannelResource<u32> = ChannelResource::new(ResourceId::from_raw(9), 4);
    let mut first = channel.reader();
    channel.send(1);
    let mut second = first.resubscribe();
    channel.send(2);
    assert_eq!(first.try_recv(), Ok(1));
    assert_eq!(second.try_recv(), Ok(2));
    assert_eq!(first.try_recv(), Ok(2));
}

#[test]
fn send_counts_receivers() {
    let channel: ChannelResource<u32> = ChannelResource::new(ResourceId::from_raw(9), 4);
    assert_eq!(channel.send(1), 1);
    let _reader = channel.reader();
    let writer = channel.writer();
    assert_eq!(writer.send(2), 2);
}

#[test]
fn deliveries_is_zero_without_receivers() {
    assert_eq!(deliveries::<u32>(Err(3)), 0);
    assert_eq!(deliveries::<u32>(Ok(2)), 2);
}

#[test]
fn channel_keeps_kind_and_capacity() {
    let kind = ResourceId::from_raw(9);
    let channel: ChannelResource<u32> = ChannelResource::new(kind, EVENT_CAPACITY);
    assert_eq!(channel.kind(), kind);
    assert_eq!(channel.capacity(), 100);
    assert_eq!(channel.reader().kind(), kind);
    assert_eq!(channel.writer().kind(), kind);
}

#[test]
fn subscribed_reader_starts_at_tail() {
    let kind = ResourceId::from_raw(9);
    let channel: ChannelResource<u32> = ChannelResource::new(kind, 4);
    channel.send(1);
    let mut reader = channel.subscribe();
    assert_eq!(reader.kind(), kind);
    assert_eq!(reader.try_recv(), Err(TryRecvError::Empty));
    channel.send(2);
    assert_eq!(reader.try_recv(), Ok(2));
}
