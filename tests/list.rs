use imaging_diffusion::list::{PhotonOutputter, StoreError};

#[test]
fn batches_of_five_none_and_three_make_eight() {
    let mut out: PhotonOutputter<u32> = PhotonOutputter::new();
    let first = out.append_photons(vec![10, 11, 12, 13, 14]).unwrap();
    assert_eq!((first.start, first.new_len), (0, 5));
    assert_eq!(first.records, vec![10, 11, 12, 13, 14]);
    let second = out.append_photons(vec![]).unwrap();
    assert_eq!((second.start, second.new_len), (5, 5));
    assert!(second.records.is_empty());
    let third = out.append_photons(vec![30, 31, 32]).unwrap();
    assert_eq!((third.start, third.new_len), (5, 8));
    assert_eq!(third.records, vec![30, 31, 32]);
    assert_eq!(out.photon_count(), 8);
}

#[test]
fn fresh_store_is_empty() {
    let out: PhotonOutputter<u32> = PhotonOutputter::new();
    assert_eq!(out.photon_count(), 0);
    assert!(!out.initial_state_written());
}

#[test]
fn initial_state_is_written_once() {
    let mut out: PhotonOutputter<u32> = PhotonOutputter::new();
    assert_eq!(out.write_initial_atom_positions(vec![1u8, 2]), Ok(Some(vec![1u8, 2])));
    assert!(out.initial_state_written());
    let again = out.write_initial_atom_positions(vec![3u8]);
    assert_eq!(again, Err(StoreError::InitialStateAlreadyWritten));
    assert!(!StoreError::InitialStateAlreadyWritten.message().is_empty());
}

#[test]
fn empty_initial_state_creates_nothing() {
    let mut out: PhotonOutputter<u32> = PhotonOutputter::new();
    assert_eq!(out.write_initial_atom_positions(Vec::<u8>::new()), Ok(None));
    assert!(!out.initial_state_written());
    assert_eq!(out.write_initial_atom_positions(vec![5u8]), Ok(Some(vec![5u8])));
    assert_eq!(out.write_initial_atom_positions(Vec::<u8>::new()), Ok(None));
}

#[test]
fn initial_state_does_not_touch_photons() {
    let mut out: PhotonOutputter<u32> = PhotonOutputter::new();
    out.append_photons(vec![1, 2]).unwrap();
    out.write_initial_atom_positions(vec![9u8]).unwrap();
    assert_eq!(out.photon_count(), 2);
    let next = out.append_photons(vec![3]).unwrap();
    assert_eq!((next.start, next.new_len), (2, 3));
}

#[test]
fn error_messages_differ() {
    assert_ne!(StoreError::TooManyRecords.message(), StoreError::InitialStateAlreadyWritten.message());
}
