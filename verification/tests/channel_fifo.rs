use fomu::channel::SampleChannel;

#[test]
fn a_new_channel_is_empty_and_keeps_its_capacity() {
    let ch = SampleChannel::new(4);
    assert_eq!(ch.capacity(), 4);
    assert_eq!(ch.len(), 0);
    assert!(ch.is_empty());
    assert!(!ch.is_full());
}

#[test]
fn write_takes_what_fits_and_read_returns_it_in_order() {
    let mut ch = SampleChannel::new(4);
    assert_eq!(ch.write(&[1, 2, 3]), 3);
    assert_eq!(ch.write(&[4, 5, 6]), 1);
    assert!(ch.is_full());
    assert_eq!(ch.write(&[7]), 0);
    assert_eq!(ch.try_read_one(), Some(1));
    assert_eq!(ch.try_read_one(), Some(2));
    assert_eq!(ch.write(&[8, 9, 10]), 2);
    assert_eq!(ch.len(), 4);
    assert_eq!(ch.try_read_one(), Some(3));
    assert_eq!(ch.try_read_one(), Some(4));
    assert_eq!(ch.try_read_one(), Some(8));
    assert_eq!(ch.try_read_one(), Some(9));
    assert_eq!(ch.try_read_one(), None);
    assert_eq!(ch.len(), 0);
}

#[test]
fn reading_an_empty_channel_returns_nothing() {
    let mut ch = SampleChannel::new(1);
    assert_eq!(ch.try_read_one(), None);
    assert_eq!(ch.try_read_one(), None);
    assert_eq!(ch.len(), 0);
}

#[test]
fn the_ends_of_a_split_channel_pass_samples_in_order() {
    let mut ch = SampleChannel::new(3);
    assert_eq!(ch.write(&[10]), 1);
    let (mut producer, mut consumer) = ch.split();
    assert_eq!(producer.write(&[20, 30, 40]), 2);
    assert_eq!(consumer.try_read_one(), Some(10));
    assert_eq!(consumer.try_read_one(), Some(20));
    assert_eq!(producer.write(&[40, 50, 60]), 2);
    assert_eq!(consumer.try_read_one(), Some(30));
    assert_eq!(consumer.try_read_one(), Some(40));
    assert_eq!(consumer.try_read_one(), Some(50));
    assert_eq!(consumer.try_read_one(), None);
}

#[test]
fn a_full_channel_takes_nothing_and_an_empty_write_changes_nothing() {
    let mut ch = SampleChannel::new(2);
    assert_eq!(ch.write(&[]), 0);
    assert_eq!(ch.write(&[5, 6, 7]), 2);
    assert_eq!(ch.write(&[8]), 0);
    assert_eq!(ch.write(&[]), 0);
    assert_eq!(ch.len(), 2);
    assert_eq!(ch.try_read_one(), Some(5));
    assert_eq!(ch.try_read_one(), Some(6));
    assert_eq!(ch.try_read_one(), None);
    let big = SampleChannel::new(44100);
    assert_eq!(big.capacity(), 44100);
}
