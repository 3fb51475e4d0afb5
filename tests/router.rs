use voice_storage::layout::{CHUNK_SIZE, DATA_OFFSET};
use voice_storage::router::{
    broadcast_voice_data, get_room_info, get_voice_data, initialize_voice_room, join_voice_room,
    leave_voice_room, send_voice_data, BroadcastMessage, VoiceChatError, VoiceMessage, VoiceRoom,
    MAX_VOICE_DATA_SIZE,
};
use voice_storage::storage::{create_storage_pda, StoragePDA};

const HOST: [u8; 32] = [2u8; 32];
const SENDER: [u8; 32] = [3u8; 32];

fn room() -> VoiceRoom {
    initialize_voice_room(String::from("lobby"), HOST, 100).unwrap()
}

fn segment_bytes(index: u8) -> Vec<u8> {
    create_storage_pda(HOST, index, 0).unwrap().to_account_bytes()
}

#[test]
fn room_lifecycle() {
    let mut r = room();
    assert_eq!(r.room_id, "lobby");
    assert_eq!(r.participant_count, 1);
    assert!(r.is_active);
    assert_eq!(join_voice_room(&mut r, 101), Ok(()));
    assert_eq!(r.participant_count, 2);
    assert_eq!(r.last_activity, 101);
    leave_voice_room(&mut r, 102);
    leave_voice_room(&mut r, 103);
    assert_eq!(r.participant_count, 0);
    assert!(!r.is_active);
    assert_eq!(join_voice_room(&mut r, 104), Err(VoiceChatError::RoomNotActive));
    leave_voice_room(&mut r, 105);
    assert_eq!(r.participant_count, 0);
    let info = get_room_info(&r);
    assert_eq!(info.host, HOST);
    assert_eq!(info.last_activity, 105);
    assert!(!info.is_active);
}

#[test]
fn room_full_and_long_id() {
    let mut r = room();
    for _ in 0..9 {
        join_voice_room(&mut r, 1).unwrap();
    }
    assert_eq!(r.participant_count, 10);
    assert_eq!(join_voice_room(&mut r, 2), Err(VoiceChatError::RoomFull));
    assert_eq!(r.participant_count, 10);
    assert!(initialize_voice_room("x".repeat(32), HOST, 0).is_ok());
    assert_eq!(
        initialize_voice_room("x".repeat(33), HOST, 0).err(),
        Some(VoiceChatError::RoomIdTooLong)
    );
}

#[test]
fn route_writes_payload_and_length() {
    let mut r = room();
    let mut raw = segment_bytes(9);
    let mut log: Vec<VoiceMessage> = Vec::new();
    let payload = vec![10u8, 20, 30];
    assert_eq!(send_voice_data(&mut r, &mut raw, &mut log, &payload, 9, 1, SENDER, 200), Ok(()));
    assert_eq!(&raw[DATA_OFFSET..DATA_OFFSET + 3], &payload[..]);
    assert_eq!(get_voice_data(&raw, 9), Ok(3));
    assert_eq!(r.last_activity, 200);
    let seg = StoragePDA::from_account_bytes(&raw).unwrap();
    assert_eq!(seg.data_length, 3);
    assert_eq!(&seg.data[..3], &payload[..]);
    assert_eq!(seg.index, 9);
    assert!(seg.is_active);
    assert_eq!(log.len(), 1);
    assert_eq!(log[0].sender, SENDER);
    assert_eq!(log[0].room_id, "lobby");
    assert_eq!(log[0].storage_pda_index, 9);
    assert_eq!(log[0].sequence_number, 1);
    assert_eq!(log[0].data_length, 3);
    assert_eq!(log[0].timestamp, 200);
}

#[test]
fn route_target_bounds() {
    let mut r = room();
    let mut raw = segment_bytes(0);
    let mut log: Vec<VoiceMessage> = Vec::new();
    let before = raw.clone();
    let e = send_voice_data(&mut r, &mut raw, &mut log, &vec![1u8], 10, 1, SENDER, 1);
    assert_eq!(e, Err(VoiceChatError::InvalidTarget));
    assert_eq!(raw, before);
    assert!(log.is_empty());
    assert_eq!(get_voice_data(&raw, 10), Err(VoiceChatError::InvalidTarget));
    assert_eq!(send_voice_data(&mut r, &mut raw, &mut log, &vec![1u8], 9, 1, SENDER, 1), Ok(()));
}

#[test]
fn route_max_payload() {
    assert_eq!(MAX_VOICE_DATA_SIZE, 29 * 1024);
    let mut r = room();
    let mut raw = segment_bytes(1);
    let mut log: Vec<VoiceMessage> = Vec::new();
    let max = vec![0x5Au8; MAX_VOICE_DATA_SIZE];
    assert_eq!(send_voice_data(&mut r, &mut raw, &mut log, &max, 1, 1, SENDER, 1), Ok(()));
    assert_eq!(get_voice_data(&raw, 1), Ok(MAX_VOICE_DATA_SIZE as u32));
    let seg = StoragePDA::from_account_bytes(&raw).unwrap();
    assert_eq!(seg.data_length as usize, MAX_VOICE_DATA_SIZE);
    assert_eq!(seg.data[MAX_VOICE_DATA_SIZE - 1], 0x5A);
    assert_eq!(seg.data[MAX_VOICE_DATA_SIZE], 0);
    let before = raw.clone();
    let over = vec![1u8; MAX_VOICE_DATA_SIZE + 1];
    let e = send_voice_data(&mut r, &mut raw, &mut log, &over, 1, 2, SENDER, 1);
    assert_eq!(e, Err(VoiceChatError::PayloadTooLarge));
    assert_eq!(raw, before);
    assert_eq!(log.len(), 1);
}

#[test]
fn route_sets_length_even_when_shorter() {
    let mut r = room();
    let mut raw = segment_bytes(1);
    let mut log: Vec<VoiceMessage> = Vec::new();
    send_voice_data(&mut r, &mut raw, &mut log, &vec![1u8; 50], 1, 1, SENDER, 1).unwrap();
    send_voice_data(&mut r, &mut raw, &mut log, &vec![2u8; 5], 1, 2, SENDER, 1).unwrap();
    assert_eq!(get_voice_data(&raw, 1), Ok(5));
    assert_eq!(raw[DATA_OFFSET + 5], 1);
}

#[test]
fn route_rejects_other_layouts() {
    let mut r = room();
    let mut log: Vec<VoiceMessage> = Vec::new();
    let mut short = vec![0u8; 100];
    let e = send_voice_data(&mut r, &mut short, &mut log, &vec![1u8], 1, 1, SENDER, 1);
    assert_eq!(e, Err(VoiceChatError::LayoutMismatch));
    assert_eq!(short, vec![0u8; 100]);
    let mut untagged = vec![0u8; DATA_OFFSET + CHUNK_SIZE];
    let e = send_voice_data(&mut r, &mut untagged, &mut log, &vec![1u8], 1, 1, SENDER, 1);
    assert_eq!(e, Err(VoiceChatError::LayoutMismatch));
    assert_eq!(get_voice_data(&untagged, 1), Err(VoiceChatError::LayoutMismatch));
    assert!(log.is_empty());
}

#[test]
fn two_routes_keep_both_records() {
    let mut r = room();
    let mut raw = segment_bytes(4);
    let mut log: Vec<VoiceMessage> = Vec::new();
    send_voice_data(&mut r, &mut raw, &mut log, &vec![1u8; 8], 4, 7, SENDER, 10).unwrap();
    send_voice_data(&mut r, &mut raw, &mut log, &vec![2u8; 9], 4, 8, SENDER, 11).unwrap();
    assert_eq!(log.len(), 2);
    assert_eq!(log[0].sequence_number, 7);
    assert_eq!(log[0].data_length, 8);
    assert_eq!(log[0].timestamp, 10);
    assert_eq!(log[1].sequence_number, 8);
    assert_eq!(log[1].data_length, 9);
    assert_eq!(log[1].timestamp, 11);
}

#[test]
fn duplicate_sequence_numbers_are_accepted() {
    let mut r = room();
    let mut raw = segment_bytes(4);
    let mut log: Vec<VoiceMessage> = Vec::new();
    send_voice_data(&mut r, &mut raw, &mut log, &vec![1u8], 4, 7, SENDER, 10).unwrap();
    send_voice_data(&mut r, &mut raw, &mut log, &vec![1u8], 4, 7, SENDER, 10).unwrap();
    assert_eq!(log.len(), 2);
}

#[test]
fn broadcast_records_targets() {
    let r = room();
    let mut log: Vec<BroadcastMessage> = Vec::new();
    let targets = vec![0u8, 3, 9];
    assert_eq!(broadcast_voice_data(&r, &mut log, &vec![1u8; 40], &targets, 5, SENDER, 9), Ok(()));
    assert_eq!(log.len(), 1);
    assert_eq!(log[0].target_pdas, targets);
    assert_eq!(log[0].room_id, "lobby");
    assert_eq!(log[0].data_length, 40);
    assert_eq!(log[0].sequence_number, 5);
    let e = broadcast_voice_data(&r, &mut log, &vec![1u8], &vec![0u8; 11], 6, SENDER, 9);
    assert_eq!(e, Err(VoiceChatError::TooManyTargets));
    let e = broadcast_voice_data(&r, &mut log, &vec![1u8; MAX_VOICE_DATA_SIZE + 1], &targets, 6, SENDER, 9);
    assert_eq!(e, Err(VoiceChatError::PayloadTooLarge));
    assert!(broadcast_voice_data(&r, &mut log, &vec![], &vec![0u8; 10], 7, SENDER, 9).is_ok());
    assert_eq!(log.len(), 2);
}
