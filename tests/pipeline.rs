use bullet_trainer::pipeline::{one_pass, shuffle, shuffle_with, split_batches, PipelineControl, ShuffleBuffer};
use bullet_trainer::rng::Rand;

#[test]
fn xorshift_step() {
    let mut r = Rand(1);
    assert_eq!(r.rng(), 1082269761);
    assert_eq!(r.0, 1082269761);
    assert_eq!(Rand::from_micros(0x1_2345_6789).0, 0x2345_6789);
    assert!(Rand::with_seed().0 <= 0xFFFF_FFFF);
}

#[test]
fn shuffle_keeps_records() {
    let records: Vec<u32> = (0..50).collect();
    let mut data = records.clone();
    shuffle_with(&mut data, &mut Rand(12345));
    assert_ne!(data, records);
    let mut sorted = data.clone();
    sorted.sort();
    assert_eq!(sorted, records);

    let mut again = records.clone();
    shuffle(&mut again);
    again.sort();
    assert_eq!(again, records);
}

#[test]
fn batches_cut_in_order() {
    let records: Vec<u32> = (1..=10).collect();
    let batches = split_batches(&records, 4);
    assert_eq!(batches, vec![vec![1, 2, 3, 4], vec![5, 6, 7, 8], vec![9, 10]]);
    assert!(split_batches(&Vec::<u32>::new(), 4).is_empty());
}

#[test]
fn shuffle_buffer_hands_on_when_full() {
    let mut stage = ShuffleBuffer::new(3);
    let mut rng = Rand(7);
    assert_eq!(stage.push(1u32, &mut rng), None);
    assert_eq!(stage.push(2u32, &mut rng), None);
    let mut full = stage.push(3u32, &mut rng).unwrap();
    full.sort();
    assert_eq!(full, vec![1, 2, 3]);
    assert_eq!(stage.push(4u32, &mut rng), None);
    assert_eq!(stage.take_pending(), vec![4]);
}

#[test]
fn one_pass_emits_every_record_once() {
    let source: Vec<u32> = (0..12).collect();
    let (batches, left) = one_pass(&source, 4, 3, &mut Rand(99));
    assert!(left.is_empty());
    assert!(batches.iter().all(|b| !b.is_empty() && b.len() <= 3));
    let mut all: Vec<u32> = batches.concat();
    all.sort();
    assert_eq!(all, source);

    let (batches, left) = one_pass(&source[..10].to_vec(), 4, 3, &mut Rand(99));
    assert_eq!(left, vec![8, 9]);
    assert_eq!(batches.concat().len(), 8);
}

#[test]
fn stop_reaches_every_stage() {
    let mut c = PipelineControl::new();
    assert!(c.decoder_handoff());
    assert!(c.batcher_handoff());
    assert!(!c.consumed(true));
    assert!(!c.batcher_handoff());
    assert!(!c.decoder_handoff());
    assert!(!c.decoder_running && !c.batcher_running && !c.consumer_running);
}

#[test]
fn consumer_keeps_going_without_stop() {
    let mut c = PipelineControl::new();
    assert!(c.consumed(false));
    assert!(c.batcher_handoff());
    assert!(c.decoder_handoff());
    assert!(!c.cancelled);
}

#[test]
fn fisher_yates_from_known_state() {
    let mut data = vec![0u32, 1, 2, 3, 4];
    let mut rng = Rand(1);
    shuffle_with(&mut data, &mut rng);
    assert_eq!(data, vec![2, 3, 0, 4, 1]);
    assert_eq!(rng.0, 9659130143999365733);
}
