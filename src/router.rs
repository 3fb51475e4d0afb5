//! The payload router: voice rooms, and the routing of sequenced voice
//! payloads into a segment's account bytes through the shared layout, with an
//! append-only record of each routed or broadcast payload.
use vstd::prelude::*;
use vstd::utf8::encode_utf8;

use crate::layout::{
    AUTHORITY_OFFSET, CREATED_AT_OFFSET, INDEX_OFFSET, copy_into, get_le, has_storage_pda_tag, le_bytes, le_value, push_all, put_le, storage_pda_tag,
    CHUNK_SIZE, DATA_LENGTH_LEN, DATA_LENGTH_OFFSET, DATA_OFFSET, IS_ACTIVE_OFFSET,
    STORAGE_PDA_SIZE, TAG_LEN,
};
use crate::storage::{decode_storage_pda, StoragePDAView, MAX_STORAGE_PDAS};

verus! {

/// Payload bytes kept free of voice data in every segment.
pub const METADATA_RESERVE: usize = 1024;

/// The largest voice payload that one route accepts.
pub const MAX_VOICE_DATA_SIZE: usize = CHUNK_SIZE - METADATA_RESERVE;

/// The most participants a room holds.
pub const MAX_PARTICIPANTS: u8 = 10;

/// The longest room identifier, in bytes.
pub const MAX_ROOM_ID_LENGTH: usize = 32;

#[derive(Debug, Clone, Copy, PartialEq, Eq, Structural)]
pub enum VoiceChatError {
    /// The room is not active.
    RoomNotActive,
    /// The room already holds `MAX_PARTICIPANTS` participants.
    RoomFull,
    /// The payload is longer than `MAX_VOICE_DATA_SIZE`.
    PayloadTooLarge,
    /// The target index is not below `MAX_STORAGE_PDAS`.
    InvalidTarget,
    /// The room identifier is longer than `MAX_ROOM_ID_LENGTH` bytes.
    RoomIdTooLong,
    /// A broadcast names more than `MAX_STORAGE_PDAS` targets.
    TooManyTargets,
    /// The target bytes are not a segment account: another length or format tag.
    LayoutMismatch,
}

/// A voice room.
pub struct VoiceRoom {
    pub room_id: String,
    pub host: [u8; 32],
    pub participant_count: u8,
    pub is_active: bool,
    pub created_at: i64,
    pub last_activity: i64,
}

/// The record of one routed payload.
pub struct VoiceMessage {
    pub sender: [u8; 32],
    pub room_id: String,
    pub storage_pda_index: u8,
    pub sequence_number: u32,
    pub data_length: u32,
    pub timestamp: i64,
}

/// The record of one broadcast payload.
pub struct BroadcastMessage {
    pub sender: [u8; 32],
    pub room_id: String,
    pub target_pdas: Vec<u8>,
    pub sequence_number: u32,
    pub data_length: u32,
    pub timestamp: i64,
}

/// What a room reports of itself.
#[derive(Debug, Clone, Copy)]
pub struct RoomInfo {
    pub host: [u8; 32],
    pub participant_count: u8,
    pub is_active: bool,
    pub last_activity: i64,
}

/// The length in bytes of a room identifier, as `str::len` reports it.
pub open spec fn room_id_bytes(id: Seq<char>) -> usize {
    encode_utf8(id).len() as usize
}

/// Opens a room with its host as the one participant. Fails with
/// `RoomIdTooLong` where `room_id` is longer than `MAX_ROOM_ID_LENGTH` bytes.
pub fn initialize_voice_room(room_id: String, host: [u8; 32], now: i64) -> (r: Result<
    VoiceRoom,
    VoiceChatError,
>)
    ensures
        room_id_bytes(room_id@) > MAX_ROOM_ID_LENGTH ==> r == Err::<
            VoiceRoom,
            VoiceChatError,
        >(VoiceChatError::RoomIdTooLong),
        room_id_bytes(room_id@) <= MAX_ROOM_ID_LENGTH ==> r is Ok && r->Ok_0.room_id@
            == room_id@ && r->Ok_0.host == host && r->Ok_0.participant_count == 1
            && r->Ok_0.is_active && r->Ok_0.created_at == now && r->Ok_0.last_activity == now,
{
    if room_id.as_str().len() > MAX_ROOM_ID_LENGTH {
        return Err(VoiceChatError::RoomIdTooLong);
    }
    Ok(
        VoiceRoom {
            room_id,
            host,
            participant_count: 1,
            is_active: true,
            created_at: now,
            last_activity: now,
        },
    )
}

/// Adds a participant. Fails, changing nothing, with `RoomNotActive`, else
/// with `RoomFull` where the room holds `MAX_PARTICIPANTS` already.
pub fn join_voice_room(room: &mut VoiceRoom, now: i64) -> (r: Result<(), VoiceChatError>)
    ensures
        final(room).room_id == old(room).room_id,
        final(room).host == old(room).host,
        final(room).is_active == old(room).is_active,
        final(room).created_at == old(room).created_at,
        !old(room).is_active ==> r == Err::<(), VoiceChatError>(VoiceChatError::RoomNotActive)
            && final(room).participant_count == old(room).participant_count
            && final(room).last_activity == old(room).last_activity,
        old(room).is_active && old(room).participant_count >= MAX_PARTICIPANTS ==> r == Err::<
            (),
            VoiceChatError,
        >(VoiceChatError::RoomFull) && final(room).participant_count == old(room).participant_count && final(room).last_activity == old(room).last_activity,
        old(room).is_active && old(room).participant_count < MAX_PARTICIPANTS ==> r is Ok
            && final(room).participant_count == old(room).participant_count + 1 && final(room).last_activity == now,
{
    if !room.is_active {
        return Err(VoiceChatError::RoomNotActive);
    }
    if room.participant_count >= MAX_PARTICIPANTS {
        return Err(VoiceChatError::RoomFull);
    }
    room.participant_count = room.participant_count + 1;
    room.last_activity = now;
    Ok(())
}

/// Removes a participant, if any is left; a room left empty becomes inactive.
pub fn leave_voice_room(room: &mut VoiceRoom, now: i64)
    ensures
        final(room).room_id == old(room).room_id,
        final(room).host == old(room).host,
        final(room).created_at == old(room).created_at,
        final(room).last_activity == now,
        final(room).participant_count == if old(room).participant_count > 0 {
            old(room).participant_count - 1
        } else {
            0
        },
        final(room).is_active == (old(room).is_active && final(room).participant_count > 0),
{
    if room.participant_count > 0 {
        room.participant_count = room.participant_count - 1;
    }
    room.last_activity = now;
    if room.participant_count == 0 {
        room.is_active = false;
    }
}

/// The host, participant count, active flag and last activity of a room.
pub fn get_room_info(room: &VoiceRoom) -> (r: RoomInfo)
    ensures
        r.host == room.host,
        r.participant_count == room.participant_count,
        r.is_active == room.is_active,
        r.last_activity == room.last_activity,
{
    RoomInfo {
        host: room.host,
        participant_count: room.participant_count,
        is_active: room.is_active,
        last_activity: room.last_activity,
    }
}

/// Whether `raw` has the length and format tag of a segment account.
pub open spec fn is_segment_image(raw: Seq<u8>) -> bool {
    raw.len() == STORAGE_PDA_SIZE && raw.subrange(0, TAG_LEN as int) == storage_pda_tag()
}

/// The used length field of a segment account.
pub open spec fn used_length_field(raw: Seq<u8>) -> nat {
    le_value(raw.subrange(DATA_LENGTH_OFFSET as int, IS_ACTIVE_OFFSET as int))
}

/// A segment account after `payload` was routed into it: the payload at the
/// start of the payload region and its length in the used length field.
pub open spec fn routed_image(raw: Seq<u8>, payload: Seq<u8>) -> Seq<u8> {
    raw.subrange(0, DATA_LENGTH_OFFSET as int) + le_bytes(
        payload.len(),
        DATA_LENGTH_LEN as nat,
    ) + raw.subrange(IS_ACTIVE_OFFSET as int, DATA_OFFSET as int) + payload + raw.subrange(
        DATA_OFFSET + payload.len(),
        raw.len() as int,
    )
}

/// The outcome of routing a payload of `len` bytes to `target` in `raw`,
/// checked in this order.
pub open spec fn route_check(len: nat, target: u8, raw: Seq<u8>) -> Result<(), VoiceChatError> {
    if len > MAX_VOICE_DATA_SIZE {
        Err(VoiceChatError::PayloadTooLarge)
    } else if target >= MAX_STORAGE_PDAS {
        Err(VoiceChatError::InvalidTarget)
    } else if !is_segment_image(raw) {
        Err(VoiceChatError::LayoutMismatch)
    } else {
        Ok(())
    }
}

fn check_segment_image(raw: &Vec<u8>) -> (r: bool)
    ensures
        r == is_segment_image(raw@),
{
    raw.len() == STORAGE_PDA_SIZE && has_storage_pda_tag(raw, 0)
}

/// Routes `voice_data` into the segment account `storage` of target
/// `target_pda_index`: writes it at the start of the payload region, sets
/// the used length field to its length, appends the record of the message
/// to `messages` and marks the room's activity. Fails, changing nothing, as
/// `route_check` says.
pub fn send_voice_data(
    room: &mut VoiceRoom,
    storage: &mut Vec<u8>,
    messages: &mut Vec<VoiceMessage>,
    voice_data: &Vec<u8>,
    target_pda_index: u8,
    sequence_number: u32,
    sender: [u8; 32],
    now: i64,
) -> (r: Result<(), VoiceChatError>)
    ensures
        r == route_check(voice_data@.len(), target_pda_index, old(storage)@),
        final(room).room_id == old(room).room_id,
        final(room).host == old(room).host,
        final(room).participant_count == old(room).participant_count,
        final(room).is_active == old(room).is_active,
        final(room).created_at == old(room).created_at,
        r is Err ==> final(storage)@ == old(storage)@ && final(messages)@ == old(messages)@
            && final(room).last_activity == old(room).last_activity,
        r is Ok ==> final(storage)@ == routed_image(old(storage)@, voice_data@),
        r is Ok ==> final(room).last_activity == now,
        r is Ok ==> final(messages)@.len() == old(messages)@.len() + 1,
        r is Ok ==> final(messages)@.subrange(0, old(messages)@.len() as int) == old(messages)@,
        r is Ok ==> ({
            let m = final(messages)@.last();
            &&& m.sender == sender
            &&& m.room_id@ == old(room).room_id@
            &&& m.storage_pda_index == target_pda_index
            &&& m.sequence_number == sequence_number
            &&& m.data_length == voice_data@.len()
            &&& m.timestamp == now
        }),
{
    if voice_data.len() > MAX_VOICE_DATA_SIZE {
        return Err(VoiceChatError::PayloadTooLarge);
    }
    if target_pda_index >= MAX_STORAGE_PDAS {
        return Err(VoiceChatError::InvalidTarget);
    }
    if !check_segment_image(storage) {
        return Err(VoiceChatError::LayoutMismatch);
    }
    let copy_len = voice_data.len();
    let ghost before = storage@;
    copy_into(storage, DATA_OFFSET, voice_data, 0, copy_len);
    let ghost mid = storage@;
    put_le(storage, DATA_LENGTH_OFFSET, copy_len as u64, DATA_LENGTH_LEN);
    assert(voice_data@.subrange(0, copy_len as int) =~= voice_data@);
    assert(storage@ =~= routed_image(before, voice_data@));
    let message = VoiceMessage {
        sender,
        room_id: room.room_id.clone(),
        storage_pda_index: target_pda_index,
        sequence_number,
        data_length: copy_len as u32,
        timestamp: now,
    };
    messages.push(message);
    assert(messages@.subrange(0, old(messages)@.len() as int) =~= old(messages)@);
    room.last_activity = now;
    Ok(())
}

/// Reads the used length field of the segment account `storage` of target
/// `pda_index`. Fails with `InvalidTarget`, else with `LayoutMismatch`.
pub fn get_voice_data(storage: &Vec<u8>, pda_index: u8) -> (r: Result<u32, VoiceChatError>)
    ensures
        pda_index >= MAX_STORAGE_PDAS ==> r == Err::<u32, VoiceChatError>(
            VoiceChatError::InvalidTarget,
        ),
        pda_index < MAX_STORAGE_PDAS && !is_segment_image(storage@) ==> r == Err::<
            u32,
            VoiceChatError,
        >(VoiceChatError::LayoutMismatch),
        pda_index < MAX_STORAGE_PDAS && is_segment_image(storage@) ==> r is Ok && r->Ok_0
            == used_length_field(storage@),
{
    if pda_index >= MAX_STORAGE_PDAS {
        return Err(VoiceChatError::InvalidTarget);
    }
    if !check_segment_image(storage) {
        return Err(VoiceChatError::LayoutMismatch);
    }
    proof {
        crate::layout::lemma_pow256_small();
        crate::layout::lemma_le_value_bound(
            storage@.subrange(DATA_LENGTH_OFFSET as int, IS_ACTIVE_OFFSET as int),
        );
    }
    let v = get_le(storage, DATA_LENGTH_OFFSET, DATA_LENGTH_LEN);
    Ok(v as u32)
}

/// Records one broadcast of `voice_data` to `target_pdas`. Fails, changing
/// nothing, with `PayloadTooLarge`, else with `TooManyTargets` where more than
/// `MAX_STORAGE_PDAS` targets are named. No segment is written.
pub fn broadcast_voice_data(
    room: &VoiceRoom,
    broadcasts: &mut Vec<BroadcastMessage>,
    voice_data: &Vec<u8>,
    target_pdas: &Vec<u8>,
    sequence_number: u32,
    sender: [u8; 32],
    now: i64,
) -> (r: Result<(), VoiceChatError>)
    ensures
        voice_data@.len() > MAX_VOICE_DATA_SIZE ==> r == Err::<(), VoiceChatError>(
            VoiceChatError::PayloadTooLarge,
        ),
        voice_data@.len() <= MAX_VOICE_DATA_SIZE && target_pdas@.len() > MAX_STORAGE_PDAS ==> r
            == Err::<(), VoiceChatError>(VoiceChatError::TooManyTargets),
        voice_data@.len() <= MAX_VOICE_DATA_SIZE && target_pdas@.len() <= MAX_STORAGE_PDAS ==> r is Ok,
        r is Err ==> final(broadcasts)@ == old(broadcasts)@,
        r is Ok ==> final(broadcasts)@.len() == old(broadcasts)@.len() + 1,
        r is Ok ==> final(broadcasts)@.subrange(0, old(broadcasts)@.len() as int) == old(broadcasts)@,
        r is Ok ==> ({
            let m = final(broadcasts)@.last();
            &&& m.sender == sender
            &&& m.room_id@ == room.room_id@
            &&& m.target_pdas@ == target_pdas@
            &&& m.sequence_number == sequence_number
            &&& m.data_length == voice_data@.len()
            &&& m.timestamp == now
        }),
{
    if voice_data.len() > MAX_VOICE_DATA_SIZE {
        return Err(VoiceChatError::PayloadTooLarge);
    }
    if target_pdas.len() > MAX_STORAGE_PDAS as usize {
        return Err(VoiceChatError::TooManyTargets);
    }
    let mut targets: Vec<u8> = Vec::new();
    push_all(&mut targets, target_pdas);
    assert(targets@ =~= target_pdas@);
    let message = BroadcastMessage {
        sender,
        room_id: room.room_id.clone(),
        target_pdas: targets,
        sequence_number,
        data_length: voice_data.len() as u32,
        timestamp: now,
    };
    broadcasts.push(message);
    assert(broadcasts@.subrange(0, old(broadcasts)@.len() as int) =~= old(broadcasts)@);
    Ok(())
}

/// The router and the store agree on where the used length lives: read from
/// a segment's account image, the field holds the segment's used length.
pub proof fn lemma_used_length_field_of_image(v: StoragePDAView)
    requires
        v.wf(),
    ensures
        is_segment_image(v.account_bytes()),
        used_length_field(v.account_bytes()) == v.data_length,
{
    crate::storage::lemma_account_round_trip(v);
    crate::layout::lemma_pow256_small();
    crate::layout::lemma_le_value_bound(
        v.account_bytes().subrange(DATA_LENGTH_OFFSET as int, IS_ACTIVE_OFFSET as int),
    );
}

/// After a route the payload region starts with the payload and the used
/// length field holds its length.
pub proof fn lemma_route_reads_back(raw: Seq<u8>, payload: Seq<u8>)
    requires
        is_segment_image(raw),
        payload.len() <= MAX_VOICE_DATA_SIZE,
    ensures
        is_segment_image(routed_image(raw, payload)),
        used_length_field(routed_image(raw, payload)) == payload.len(),
        routed_image(raw, payload).subrange(DATA_OFFSET as int, DATA_OFFSET + payload.len())
            == payload,
{
    let out = routed_image(raw, payload);
    crate::layout::lemma_le_bytes_len(payload.len(), DATA_LENGTH_LEN as nat);
    crate::layout::lemma_pow256_small();
    crate::layout::lemma_le_round_trip(payload.len(), DATA_LENGTH_LEN as nat);
    assert(out.subrange(0, TAG_LEN as int) =~= raw.subrange(0, TAG_LEN as int));
    assert(out.subrange(DATA_LENGTH_OFFSET as int, IS_ACTIVE_OFFSET as int) =~= le_bytes(
        payload.len(),
        DATA_LENGTH_LEN as nat,
    ));
    assert(out.subrange(DATA_OFFSET as int, DATA_OFFSET + payload.len()) =~= payload);
}

/// Routing into a segment's account image yields the image of the same
/// segment with the payload at the start of its data and the payload's
/// length as its used length: what the store reads back is what the router
/// wrote.
pub proof fn lemma_route_then_decode(raw: Seq<u8>, payload: Seq<u8>)
    requires
        decode_storage_pda(raw) is Some,
        payload.len() <= MAX_VOICE_DATA_SIZE,
    ensures
        decode_storage_pda(routed_image(raw, payload)) == Some(
            (StoragePDAView {
                data: payload + decode_storage_pda(raw).unwrap().data.subrange(
                    payload.len() as int,
                    CHUNK_SIZE as int,
                ),
                data_length: payload.len() as u32,
                ..decode_storage_pda(raw).unwrap()
            }),
        ),
{
    let v = decode_storage_pda(raw).unwrap();
    let out = routed_image(raw, payload);
    lemma_route_reads_back(raw, payload);
    assert(out.len() == STORAGE_PDA_SIZE);
    assert(out.subrange(0, DATA_LENGTH_OFFSET as int) =~= raw.subrange(
        0,
        DATA_LENGTH_OFFSET as int,
    ));
    assert(out[INDEX_OFFSET as int] == raw[INDEX_OFFSET as int]);
    assert(out[IS_ACTIVE_OFFSET as int] == raw[IS_ACTIVE_OFFSET as int]);
    assert(out.subrange(AUTHORITY_OFFSET as int, CREATED_AT_OFFSET as int) =~= raw.subrange(
        AUTHORITY_OFFSET as int,
        CREATED_AT_OFFSET as int,
    ));
    assert(out.subrange(CREATED_AT_OFFSET as int, DATA_LENGTH_OFFSET as int) =~= raw.subrange(
        CREATED_AT_OFFSET as int,
        DATA_LENGTH_OFFSET as int,
    ));
    assert(out.subrange(DATA_OFFSET as int, STORAGE_PDA_SIZE as int) =~= payload + v.data.subrange(
        payload.len() as int,
        CHUNK_SIZE as int,
    ));
    assert(decode_storage_pda(out).unwrap() =~= StoragePDAView {
        data: payload + v.data.subrange(payload.len() as int, CHUNK_SIZE as int),
        data_length: payload.len() as u32,
        ..v
    });
}

/// Records are only ever appended: after two routes each record stands at
/// its own position, after all that were there before, which stay as they were.
pub proof fn lemma_records_kept(
    log0: Seq<VoiceMessage>,
    log1: Seq<VoiceMessage>,
    log2: Seq<VoiceMessage>,
)
    requires
        log1.len() == log0.len() + 1,
        log1.subrange(0, log0.len() as int) == log0,
        log2.len() == log1.len() + 1,
        log2.subrange(0, log1.len() as int) == log1,
    ensures
        log2.len() == log0.len() + 2,
        log2.subrange(0, log0.len() as int) == log0,
        log2[log0.len() as int] == log1.last(),
        log2[log0.len() + 1int] == log2.last(),
        log1.last().sequence_number != log2.last().sequence_number ==> log2[log0.len() as int]
            != log2[log0.len() + 1int],
{
    assert(log2.subrange(0, log0.len() as int) =~= log1.subrange(0, log0.len() as int));
    assert(log2[log0.len() as int] == log2.subrange(0, log1.len() as int)[log0.len() as int]);
}

} // verus!
