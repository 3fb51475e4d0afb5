use voice_storage::layout::{CHUNK_SIZE, DATA_LENGTH_OFFSET, DATA_OFFSET, STORAGE_PDA_SIZE};
use voice_storage::storage::{
    clear_storage_data, create_all_storage_pdas, create_storage_pda, get_storage_info,
    initialize_storage, update_storage_data, SegmentStore, StorageError, StoragePDA,
};

const OWNER: [u8; 32] = [7u8; 32];

#[test]
fn initialize_storage_starts_empty() {
    let c = initialize_storage(OWNER, 1_700_000_000);
    assert_eq!(c.authority, OWNER);
    assert_eq!(c.total_pdas, 0);
    assert_eq!(c.created_at, 1_700_000_000);
}

#[test]
fn create_is_zero_filled_and_active() {
    let p = create_storage_pda(OWNER, 3, 42).unwrap();
    assert_eq!(p.index, 3);
    assert_eq!(p.authority, OWNER);
    assert_eq!(p.created_at, 42);
    assert_eq!(p.data_length, 0);
    assert!(p.is_active);
    assert_eq!(p.data.len(), CHUNK_SIZE);
    assert!(p.data.iter().all(|b| *b == 0));
    let q = create_all_storage_pdas(OWNER, 0, 42).unwrap();
    assert_eq!(q.index, 0);
}

#[test]
fn create_index_bounds() {
    assert_eq!(create_storage_pda(OWNER, 10, 0).err(), Some(StorageError::IndexOutOfRange));
    assert_eq!(create_storage_pda(OWNER, 255, 0).err(), Some(StorageError::IndexOutOfRange));
    assert!(create_storage_pda(OWNER, 9, 0).is_ok());
    assert_eq!(create_all_storage_pdas(OWNER, 10, 0).err(), Some(StorageError::IndexOutOfRange));
}

#[test]
fn write_then_read_back() {
    let mut p = create_storage_pda(OWNER, 1, 0).unwrap();
    let bytes = vec![1u8, 2, 3, 4, 5];
    assert_eq!(update_storage_data(&mut p, &bytes, 100), Ok(()));
    assert_eq!(&p.data[100..105], &bytes[..]);
    assert_eq!(p.data_length, 105);
    assert_eq!(p.data[99], 0);
    assert_eq!(p.data[105], 0);
}

#[test]
fn partial_write_does_not_shrink_used_length() {
    let mut p = create_storage_pda(OWNER, 1, 0).unwrap();
    update_storage_data(&mut p, &vec![9u8; 500], 0).unwrap();
    assert_eq!(p.data_length, 500);
    update_storage_data(&mut p, &vec![8u8; 10], 0).unwrap();
    assert_eq!(p.data_length, 500);
    assert_eq!(p.data[0], 8);
    assert_eq!(p.data[10], 9);
}

#[test]
fn write_to_the_last_byte() {
    let mut p = create_storage_pda(OWNER, 1, 0).unwrap();
    let full = vec![0xAAu8; CHUNK_SIZE];
    assert_eq!(update_storage_data(&mut p, &full, 0), Ok(()));
    assert_eq!(p.data_length as usize, CHUNK_SIZE);
    let mut q = create_storage_pda(OWNER, 1, 0).unwrap();
    assert_eq!(update_storage_data(&mut q, &vec![1u8], (CHUNK_SIZE - 1) as u32), Ok(()));
    assert_eq!(q.data_length as usize, CHUNK_SIZE);
}

#[test]
fn write_past_capacity_changes_nothing() {
    let mut p = create_storage_pda(OWNER, 1, 0).unwrap();
    update_storage_data(&mut p, &vec![5u8; 20], 0).unwrap();
    let before = p.data.clone();
    let r = update_storage_data(&mut p, &vec![1u8, 2, 3], (CHUNK_SIZE - 2) as u32);
    assert_eq!(r, Err(StorageError::CapacityExceeded));
    assert_eq!(p.data, before);
    assert_eq!(p.data_length, 20);
    let r = update_storage_data(&mut p, &vec![1u8; CHUNK_SIZE + 1], 0);
    assert_eq!(r, Err(StorageError::CapacityExceeded));
    let r = update_storage_data(&mut p, &vec![1u8], u32::MAX);
    assert_eq!(r, Err(StorageError::CapacityExceeded));
    assert_eq!(p.data, before);
}

#[test]
fn clear_resets_everything() {
    let mut p = create_storage_pda(OWNER, 2, 0).unwrap();
    update_storage_data(&mut p, &vec![3u8; 1000], 77).unwrap();
    clear_storage_data(&mut p);
    let info = get_storage_info(&p);
    assert_eq!(info.used_length, 0);
    assert_eq!(info.capacity as usize, CHUNK_SIZE);
    assert!(info.is_active);
    assert_eq!(info.index, 2);
    assert!(p.data.iter().all(|b| *b == 0));
    assert_eq!(p.data.len(), CHUNK_SIZE);
}

#[test]
fn account_bytes_layout() {
    let mut p = create_storage_pda(OWNER, 4, 0x0102030405060708).unwrap();
    update_storage_data(&mut p, &vec![0xEEu8; 3], 0x0100).unwrap();
    let raw = p.to_account_bytes();
    assert_eq!(raw.len(), STORAGE_PDA_SIZE);
    assert_eq!(&raw[0..8], &[224u8, 128, 39, 34, 233, 157, 239, 124]);
    assert_eq!(raw[8], 4);
    assert_eq!(&raw[9..41], &OWNER);
    assert_eq!(&raw[41..49], &[8u8, 7, 6, 5, 4, 3, 2, 1]);
    assert_eq!(DATA_LENGTH_OFFSET, 49);
    assert_eq!(&raw[49..53], &[0x03u8, 0x01, 0, 0]);
    assert_eq!(raw[53], 1);
    assert_eq!(DATA_OFFSET, 54);
    assert_eq!(raw[54 + 0x0100], 0xEE);
}

#[test]
fn account_bytes_round_trip() {
    let mut p = create_storage_pda(OWNER, 6, -5).unwrap();
    update_storage_data(&mut p, &vec![1u8, 2, 3], 10).unwrap();
    p.is_active = false;
    let raw = p.to_account_bytes();
    let q = StoragePDA::from_account_bytes(&raw).unwrap();
    assert_eq!(q.index, 6);
    assert_eq!(q.authority, OWNER);
    assert_eq!(q.created_at, -5);
    assert_eq!(q.data_length, 13);
    assert!(!q.is_active);
    assert_eq!(q.data, p.data);
    assert_eq!(q.to_account_bytes(), raw);
}

#[test]
fn account_bytes_rejected() {
    let p = create_storage_pda(OWNER, 0, 0).unwrap();
    let raw = p.to_account_bytes();
    let mut bad_tag = raw.clone();
    bad_tag[0] ^= 1;
    assert!(StoragePDA::from_account_bytes(&bad_tag).is_none());
    let short = raw[..raw.len() - 1].to_vec();
    assert!(StoragePDA::from_account_bytes(&short).is_none());
    let mut bad_flag = raw.clone();
    bad_flag[53] = 2;
    assert!(StoragePDA::from_account_bytes(&bad_flag).is_none());
    let mut too_long = raw.clone();
    too_long[49..53].copy_from_slice(&((CHUNK_SIZE as u32) + 1).to_le_bytes());
    assert!(StoragePDA::from_account_bytes(&too_long).is_none());
}

#[test]
fn store_create_write_read_clear() {
    let mut s = SegmentStore::new(OWNER);
    assert_eq!(s.owner(), OWNER);
    assert_eq!(s.create(10, 0), Err(StorageError::IndexOutOfRange));
    assert_eq!(s.create(9, 0), Ok(()));
    assert_eq!(s.create(9, 0), Err(StorageError::AlreadyExists));
    assert_eq!(s.write(8, &vec![1u8], 0), Err(StorageError::NotFound));
    assert_eq!(s.read_info(8).err(), Some(StorageError::NotFound));
    assert_eq!(s.read_info(10).err(), Some(StorageError::IndexOutOfRange));
    assert_eq!(s.clear(8), Err(StorageError::NotFound));
    assert_eq!(s.write(9, &vec![1u8, 2, 3], 30717), Ok(()));
    assert_eq!(s.write(9, &vec![1u8, 2, 3], 30718), Err(StorageError::CapacityExceeded));
    assert_eq!(s.read(9, 30717, 3).unwrap(), vec![1u8, 2, 3]);
    assert_eq!(s.read(9, 30718, 3).err(), Some(StorageError::CapacityExceeded));
    let info = s.read_info(9).unwrap();
    assert_eq!(info.used_length, 30720);
    assert_eq!(info.capacity, 30720);
    assert!(info.is_active);
    assert_eq!(s.clear(9), Ok(()));
    assert_eq!(s.read_info(9).unwrap().used_length, 0);
    assert_eq!(s.read(9, 30717, 3).unwrap(), vec![0u8, 0, 0]);
}

#[test]
fn store_bytes_past_used_length_stay_zero() {
    let mut s = SegmentStore::new(OWNER);
    s.create(0, 0).unwrap();
    s.write(0, &vec![0xFFu8; 10], 100).unwrap();
    s.write(0, &vec![0xFFu8; 10], 0).unwrap();
    let used = s.read_info(0).unwrap().used_length;
    assert_eq!(used, 110);
    let tail = s.read(0, used, (CHUNK_SIZE as u32) - used).unwrap();
    assert!(tail.iter().all(|b| *b == 0));
}
