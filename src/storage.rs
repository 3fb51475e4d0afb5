//! The segment store: fixed-capacity byte segments addressed by an index
//! below `MAX_STORAGE_PDAS`, with offset writes, clearing, introspection, and
//! the segment's account image in the shared layout.
use vstd::prelude::*;

use crate::layout::{
    copy_into, flag_byte, get_le, has_storage_pda_tag, le_bytes, le_value, push_all, push_le,
    push_storage_pda_tag, storage_pda_tag, zeroed, zeros, AUTHORITY_OFFSET, CHUNK_SIZE,
    CREATED_AT_OFFSET, DATA_LENGTH_LEN, DATA_LENGTH_OFFSET, DATA_OFFSET, INDEX_OFFSET,
    IS_ACTIVE_OFFSET, KEY_LEN, STORAGE_PDA_SIZE, TAG_LEN,
};

verus! {

/// Number of segments that one owner can have.
pub const MAX_STORAGE_PDAS: u8 = 10;

#[derive(Debug, Clone, Copy, PartialEq, Eq, Structural)]
pub enum StorageError {
    /// The segment index is not below `MAX_STORAGE_PDAS`.
    IndexOutOfRange,
    /// A segment already stands at that index.
    AlreadyExists,
    /// The write would end past the segment's capacity.
    CapacityExceeded,
    /// No segment stands at that index.
    NotFound,
}

/// Per-owner bookkeeping of the store.
pub struct StorageConfig {
    pub authority: [u8; 32],
    pub total_pdas: u8,
    pub created_at: i64,
}

/// Sets up the bookkeeping of an owner's store.
pub fn initialize_storage(authority: [u8; 32], now: i64) -> (r: StorageConfig)
    ensures
        r.authority == authority,
        r.total_pdas == 0,
        r.created_at == now,
{
    StorageConfig { authority, total_pdas: 0, created_at: now }
}

/// One fixed-capacity segment.
pub struct StoragePDA {
    pub index: u8,
    pub authority: [u8; 32],
    pub created_at: i64,
    pub data_length: u32,
    pub is_active: bool,
    pub data: Vec<u8>,
}

/// The mathematical value of a segment.
pub struct StoragePDAView {
    pub index: u8,
    pub authority: Seq<u8>,
    pub created_at: i64,
    pub data_length: u32,
    pub is_active: bool,
    pub data: Seq<u8>,
}

impl View for StoragePDA {
    type V = StoragePDAView;

    open spec fn view(&self) -> StoragePDAView {
        StoragePDAView {
            index: self.index,
            authority: self.authority@,
            created_at: self.created_at,
            data_length: self.data_length,
            is_active: self.is_active,
            data: self.data@,
        }
    }
}

impl StoragePDAView {
    /// The payload holds exactly `CHUNK_SIZE` bytes and the used length fits in it.
    pub open spec fn wf(self) -> bool {
        &&& self.authority.len() == KEY_LEN
        &&& self.data.len() == CHUNK_SIZE
        &&& self.data_length <= CHUNK_SIZE
    }

    /// The segment after `bytes` were written at `offset`.
    pub open spec fn written(self, offset: int, bytes: Seq<u8>) -> StoragePDAView {
        let end = offset + bytes.len();
        StoragePDAView {
            data: self.data.subrange(0, offset) + bytes + self.data.subrange(
                end,
                self.data.len() as int,
            ),
            data_length: if end > self.data_length {
                end as u32
            } else {
                self.data_length
            },
            ..self
        }
    }

    /// Every payload byte at or past the used length is zero.
    pub open spec fn tail_zero(self) -> bool {
        forall|j: int| self.data_length <= j < self.data.len() ==> #[trigger] self.data[j] == 0
    }

    /// The segment after its payload was cleared.
    pub open spec fn cleared(self) -> StoragePDAView {
        StoragePDAView { data: zeros(CHUNK_SIZE as nat), data_length: 0, ..self }
    }

    /// The account image of the segment in the shared layout.
    pub open spec fn account_bytes(self) -> Seq<u8> {
        storage_pda_tag() + seq![self.index] + self.authority + le_bytes(
            self.created_at as u64 as nat,
            8,
        ) + le_bytes(self.data_length as nat, DATA_LENGTH_LEN as nat) + seq![
            flag_byte(self.is_active),
        ] + self.data
    }
}

/// A new, active, zero-filled segment.
pub open spec fn fresh_segment(authority: Seq<u8>, index: u8, now: i64) -> StoragePDAView {
    StoragePDAView {
        index,
        authority,
        created_at: now,
        data_length: 0,
        is_active: true,
        data: zeros(CHUNK_SIZE as nat),
    }
}

/// The segment that an account image stands for, if it is a well-formed image.
pub open spec fn decode_storage_pda(raw: Seq<u8>) -> Option<StoragePDAView> {
    let data_length = le_value(raw.subrange(DATA_LENGTH_OFFSET as int, IS_ACTIVE_OFFSET as int));
    if raw.len() == STORAGE_PDA_SIZE && raw.subrange(0, TAG_LEN as int) == storage_pda_tag()
        && raw[IS_ACTIVE_OFFSET as int] <= 1 && data_length <= CHUNK_SIZE {
        Some(
            StoragePDAView {
                index: raw[INDEX_OFFSET as int],
                authority: raw.subrange(AUTHORITY_OFFSET as int, CREATED_AT_OFFSET as int),
                created_at: le_value(
                    raw.subrange(CREATED_AT_OFFSET as int, DATA_LENGTH_OFFSET as int),
                ) as u64 as i64,
                data_length: data_length as u32,
                is_active: raw[IS_ACTIVE_OFFSET as int] == 1,
                data: raw.subrange(DATA_OFFSET as int, STORAGE_PDA_SIZE as int),
            },
        )
    } else {
        None
    }
}

proof fn lemma_time_bits(t: i64, u: u64)
    ensures
        (t as u64) as i64 == t,
        (u as i64) as u64 == u,
{
    assert((t as u64) as i64 == t) by (bit_vector);
    assert((u as i64) as u64 == u) by (bit_vector);
}

/// Decoding a well-formed segment's account image gives the segment back.
pub proof fn lemma_account_round_trip(v: StoragePDAView)
    requires
        v.wf(),
    ensures
        decode_storage_pda(v.account_bytes()) == Some(v),
{
    let raw = v.account_bytes();
    let t = v.created_at as u64;
    crate::layout::lemma_le_bytes_len(t as nat, 8);
    crate::layout::lemma_le_bytes_len(v.data_length as nat, DATA_LENGTH_LEN as nat);
    crate::layout::lemma_pow256_small();
    crate::layout::lemma_le_round_trip(t as nat, 8);
    crate::layout::lemma_le_round_trip(v.data_length as nat, DATA_LENGTH_LEN as nat);
    lemma_time_bits(v.created_at, t);
    assert(raw.subrange(0, TAG_LEN as int) =~= storage_pda_tag());
    assert(raw.subrange(AUTHORITY_OFFSET as int, CREATED_AT_OFFSET as int) =~= v.authority);
    assert(raw.subrange(CREATED_AT_OFFSET as int, DATA_LENGTH_OFFSET as int) =~= le_bytes(
        t as nat,
        8,
    ));
    assert(raw.subrange(DATA_LENGTH_OFFSET as int, IS_ACTIVE_OFFSET as int) =~= le_bytes(
        v.data_length as nat,
        DATA_LENGTH_LEN as nat,
    ));
    assert(raw.subrange(DATA_OFFSET as int, STORAGE_PDA_SIZE as int) =~= v.data);
    assert(decode_storage_pda(raw).unwrap() =~= v);
}

/// A well-formed account image is the image of the segment it decodes to.
pub proof fn lemma_account_decode_encode(raw: Seq<u8>)
    requires
        decode_storage_pda(raw) is Some,
    ensures
        decode_storage_pda(raw).unwrap().wf(),
        decode_storage_pda(raw).unwrap().account_bytes() == raw,
{
    let v = decode_storage_pda(raw).unwrap();
    let tb = raw.subrange(CREATED_AT_OFFSET as int, DATA_LENGTH_OFFSET as int);
    let lb = raw.subrange(DATA_LENGTH_OFFSET as int, IS_ACTIVE_OFFSET as int);
    crate::layout::lemma_pow256_small();
    crate::layout::lemma_le_value_bound(tb);
    crate::layout::lemma_le_value_bound(lb);
    crate::layout::lemma_le_bytes_of_value(tb);
    crate::layout::lemma_le_bytes_of_value(lb);
    lemma_time_bits(v.created_at, le_value(tb) as u64);
    assert(v.created_at as u64 as nat == le_value(tb));
    assert(v.data_length as nat == le_value(lb));
    assert(seq![raw[INDEX_OFFSET as int]] =~= raw.subrange(INDEX_OFFSET as int, AUTHORITY_OFFSET as int));
    assert(seq![flag_byte(v.is_active)] =~= raw.subrange(IS_ACTIVE_OFFSET as int, DATA_OFFSET as int));
    assert(v.account_bytes() =~= raw);
}

/// Creates segment `pda_index` of `authority`: active, empty, zero-filled.
pub fn create_storage_pda(authority: [u8; 32], pda_index: u8, now: i64) -> (r: Result<
    StoragePDA,
    StorageError,
>)
    ensures
        match r {
            Ok(p) => pda_index < MAX_STORAGE_PDAS && p@ == fresh_segment(authority@, pda_index, now),
            Err(e) => pda_index >= MAX_STORAGE_PDAS && e == StorageError::IndexOutOfRange,
        },
{
    if pda_index >= MAX_STORAGE_PDAS {
        return Err(StorageError::IndexOutOfRange);
    }
    let data = zeroed(CHUNK_SIZE);
    Ok(StoragePDA { index: pda_index, authority, created_at: now, data_length: 0, is_active: true, data })
}

/// Creates one segment of a batch; the same as `create_storage_pda`.
pub fn create_all_storage_pdas(authority: [u8; 32], pda_index: u8, now: i64) -> (r: Result<
    StoragePDA,
    StorageError,
>)
    ensures
        match r {
            Ok(p) => pda_index < MAX_STORAGE_PDAS && p@ == fresh_segment(authority@, pda_index, now),
            Err(e) => pda_index >= MAX_STORAGE_PDAS && e == StorageError::IndexOutOfRange,
        },
{
    create_storage_pda(authority, pda_index, now)
}

/// Copies `new_data` into the payload at `offset` and raises the used length
/// to the end of the write if it lay below it. A write that would end past the
/// capacity is refused and changes nothing.
pub fn update_storage_data(pda: &mut StoragePDA, new_data: &Vec<u8>, offset: u32) -> (r: Result<
    (),
    StorageError,
>)
    requires
        old(pda)@.wf(),
    ensures
        final(pda)@.wf(),
        offset + new_data@.len() <= CHUNK_SIZE ==> r is Ok && final(pda)@ == old(pda)@.written(
            offset as int,
            new_data@,
        ),
        offset + new_data@.len() > CHUNK_SIZE ==> r == Err::<(), StorageError>(
            StorageError::CapacityExceeded,
        ) && final(pda)@ == old(pda)@,
{
    if new_data.len() > CHUNK_SIZE || offset as usize > CHUNK_SIZE - new_data.len() {
        return Err(StorageError::CapacityExceeded);
    }
    let start = offset as usize;
    let end = start + new_data.len();
    copy_into(&mut pda.data, start, new_data, 0, new_data.len());
    assert(new_data@.subrange(0, new_data@.len() as int) =~= new_data@);
    if end > pda.data_length as usize {
        pda.data_length = end as u32;
    }
    assert(final(pda)@ =~= old(pda)@.written(offset as int, new_data@));
    Ok(())
}

/// What a segment reports of itself.
#[derive(Debug, Clone, Copy, PartialEq, Eq, Structural)]
pub struct StorageInfo {
    pub index: u8,
    pub used_length: u32,
    pub capacity: u32,
    pub is_active: bool,
}

/// The used length, capacity and active flag of a segment.
pub fn get_storage_info(pda: &StoragePDA) -> (r: StorageInfo)
    requires
        pda@.wf(),
    ensures
        r.index == pda.index,
        r.used_length == pda.data_length,
        r.capacity == CHUNK_SIZE,
        r.is_active == pda.is_active,
{
    StorageInfo {
        index: pda.index,
        used_length: pda.data_length,
        capacity: CHUNK_SIZE as u32,
        is_active: pda.is_active,
    }
}

/// Zeroes the whole payload and resets the used length; the capacity and the
/// active flag stay.
pub fn clear_storage_data(pda: &mut StoragePDA)
    requires
        old(pda)@.wf(),
    ensures
        final(pda)@.wf(),
        final(pda)@ == old(pda)@.cleared(),
{
    pda.data = zeroed(CHUNK_SIZE);
    pda.data_length = 0;
}

impl StoragePDA {
    /// The segment's account image in the shared layout.
    pub fn to_account_bytes(&self) -> (r: Vec<u8>)
        requires
            self@.wf(),
        ensures
            r@ == self@.account_bytes(),
            r@.len() == STORAGE_PDA_SIZE,
    {
        let mut out: Vec<u8> = Vec::with_capacity(STORAGE_PDA_SIZE);
        push_storage_pda_tag(&mut out);
        out.push(self.index);
        let mut k: usize = 0;
        while k < KEY_LEN
            invariant
                k <= KEY_LEN,
                self.authority@.len() == KEY_LEN,
                out@ == storage_pda_tag() + seq![self.index] + self.authority@.subrange(0, k as int),
            decreases KEY_LEN - k,
        {
            out.push(self.authority[k]);
            k = k + 1;
            assert(out@ =~= storage_pda_tag() + seq![self.index] + self.authority@.subrange(
                0,
                k as int,
            ));
        }
        assert(self.authority@.subrange(0, KEY_LEN as int) =~= self.authority@);
        push_le(&mut out, self.created_at as u64, 8);
        push_le(&mut out, self.data_length as u64, DATA_LENGTH_LEN);
        out.push(if self.is_active {
            1u8
        } else {
            0u8
        });
        push_all(&mut out, &self.data);
        proof {
            crate::layout::lemma_le_bytes_len(self.created_at as u64 as nat, 8);
            crate::layout::lemma_le_bytes_len(self.data_length as nat, DATA_LENGTH_LEN as nat);
        }
        assert(out@ =~= self@.account_bytes());
        out
    }

    /// The segment that `raw` is the account image of, or `None` where `raw`
    /// has another length, another format tag, a flag byte other than 0 or 1,
    /// or a used length past the capacity.
    pub fn from_account_bytes(raw: &Vec<u8>) -> (r: Option<StoragePDA>)
        ensures
            match r {
                Some(p) => decode_storage_pda(raw@) == Some(p@),
                None => decode_storage_pda(raw@) is None,
            },
    {
        if raw.len() != STORAGE_PDA_SIZE || !has_storage_pda_tag(raw, 0) {
            return None;
        }
        let flag = raw[IS_ACTIVE_OFFSET];
        let data_length = get_le(raw, DATA_LENGTH_OFFSET, DATA_LENGTH_LEN);
        if flag > 1 || data_length > CHUNK_SIZE as u64 {
            return None;
        }
        let created = get_le(raw, CREATED_AT_OFFSET, 8);
        let mut authority: [u8; 32] = [0u8; 32];
        let mut k: usize = 0;
        while k < KEY_LEN
            invariant
                k <= KEY_LEN,
                raw@.len() == STORAGE_PDA_SIZE,
                authority@.len() == KEY_LEN,
                authority@.subrange(0, k as int) == raw@.subrange(
                    AUTHORITY_OFFSET as int,
                    AUTHORITY_OFFSET + k,
                ),
            decreases KEY_LEN - k,
        {
            authority[k] = raw[AUTHORITY_OFFSET + k];
            k = k + 1;
            assert(authority@.subrange(0, k as int) =~= raw@.subrange(
                AUTHORITY_OFFSET as int,
                AUTHORITY_OFFSET + k,
            ));
        }
        assert(authority@.subrange(0, KEY_LEN as int) =~= authority@);
        let mut data: Vec<u8> = Vec::with_capacity(CHUNK_SIZE);
        let mut i: usize = DATA_OFFSET;
        while i < STORAGE_PDA_SIZE
            invariant
                DATA_OFFSET <= i <= STORAGE_PDA_SIZE,
                raw@.len() == STORAGE_PDA_SIZE,
                data@ == raw@.subrange(DATA_OFFSET as int, i as int),
            decreases STORAGE_PDA_SIZE - i,
        {
            data.push(raw[i]);
            i = i + 1;
            assert(data@ =~= raw@.subrange(DATA_OFFSET as int, i as int));
        }
        let p = StoragePDA {
            index: raw[INDEX_OFFSET],
            authority,
            created_at: created as i64,
            data_length: data_length as u32,
            is_active: flag == 1,
            data,
        };
        Some(p)
    }
}

/// A write that fits reads back as written, and leaves the used length at
/// the larger of its former value and the end of the write.
pub proof fn lemma_write_then_read(v: StoragePDAView, offset: int, bytes: Seq<u8>)
    requires
        v.wf(),
        0 <= offset,
        offset + bytes.len() <= CHUNK_SIZE,
    ensures
        v.written(offset, bytes).wf(),
        v.written(offset, bytes).data.subrange(offset, offset + bytes.len()) == bytes,
        v.written(offset, bytes).data_length == if offset + bytes.len() > v.data_length {
            offset + bytes.len()
        } else {
            v.data_length as int
        },
        v.written(offset, bytes).data.subrange(0, offset) == v.data.subrange(0, offset),
        v.written(offset, bytes).data.subrange(offset + bytes.len(), CHUNK_SIZE as int)
            == v.data.subrange(offset + bytes.len(), CHUNK_SIZE as int),
{
    let w = v.written(offset, bytes);
    assert(w.data.subrange(offset, offset + bytes.len()) =~= bytes);
    assert(w.data.subrange(0, offset) =~= v.data.subrange(0, offset));
    assert(w.data.subrange(offset + bytes.len(), CHUNK_SIZE as int) =~= v.data.subrange(
        offset + bytes.len(),
        CHUNK_SIZE as int,
    ));
}

/// Writes and clears keep every byte at or past the used length zero: a
/// write raises the used length to its end, and a clear zeroes everything.
pub proof fn lemma_tail_stays_zero(v: StoragePDAView, offset: int, bytes: Seq<u8>)
    requires
        v.wf(),
        v.tail_zero(),
        0 <= offset,
        offset + bytes.len() <= CHUNK_SIZE,
    ensures
        v.written(offset, bytes).tail_zero(),
        v.cleared().tail_zero(),
        fresh_segment(v.authority, v.index, v.created_at).tail_zero(),
{
    let w = v.written(offset, bytes);
    let end = offset + bytes.len();
    assert forall|j: int| w.data_length <= j < w.data.len() implies #[trigger] w.data[j] == 0 by {
        assert(j >= end);
        assert(w.data[j] == v.data[j]);
    }
}

/// After a clear the used length is zero and every payload byte is zero,
/// whatever the segment held before.
pub proof fn lemma_clear_resets(v: StoragePDAView)
    requires
        v.wf(),
    ensures
        v.cleared().wf(),
        v.cleared().data_length == 0,
        forall|i: int| 0 <= i < CHUNK_SIZE ==> #[trigger] v.cleared().data[i] == 0,
        v.cleared().is_active == v.is_active,
        v.cleared().index == v.index,
{
}

/// The segments of one owner, one slot per index below `MAX_STORAGE_PDAS`.
pub struct SegmentStore {
    owner: [u8; 32],
    slots: Vec<Option<StoragePDA>>,
}

/// The value of a slot.
pub open spec fn slot_view(o: Option<StoragePDA>) -> Option<StoragePDAView> {
    match o {
        Some(p) => Some(p@),
        None => None,
    }
}

impl SegmentStore {
    /// The key of the store's owner.
    pub closed spec fn owner_key(&self) -> [u8; 32] {
        self.owner
    }

    /// The key of the store's owner.
    pub fn owner(&self) -> (r: [u8; 32])
        ensures
            r == self.owner_key(),
    {
        self.owner
    }

    /// The segment at each index, if one was created there.
    pub closed spec fn segments(&self) -> Seq<Option<StoragePDAView>> {
        self.slots@.map_values(|o: Option<StoragePDA>| slot_view(o))
    }

    /// One slot per index; each segment is well formed, stands at its own
    /// index and belongs to the store's owner.
    pub closed spec fn wf(&self) -> bool {
        &&& self.slots@.len() == MAX_STORAGE_PDAS
        &&& forall|i: int|
            0 <= i < MAX_STORAGE_PDAS ==> match #[trigger] self.slots@[i] {
                Some(p) => p@.wf() && p@.tail_zero() && p.index == i && p.authority@
                    == self.owner@,
                None => true,
            }
    }

    /// Each segment of a well-formed store is well formed, stands at its own
    /// index, belongs to the owner, and has only zero bytes at or past its
    /// used length.
    pub proof fn lemma_segment_wf(&self, index: int)
        requires
            self.wf(),
            0 <= index < MAX_STORAGE_PDAS,
            self.segment(index) is Some,
        ensures
            self.segment(index).unwrap().wf(),
            self.segment(index).unwrap().tail_zero(),
            self.segment(index).unwrap().index == index,
            self.segment(index).unwrap().authority == self.owner_key()@,
    {
        let o = self.slots@[index];
        assert(self.segment(index) == slot_view(o));
    }

    /// The segment at `index`, if one was created there.
    pub open spec fn segment(&self, index: int) -> Option<StoragePDAView> {
        self.segments()[index]
    }

    /// An empty store of `owner`.
    pub fn new(owner: [u8; 32]) -> (r: SegmentStore)
        ensures
            r.wf(),
            r.owner_key() == owner,
            r.segments() == Seq::new(MAX_STORAGE_PDAS as nat, |i: int| None::<StoragePDAView>),
    {
        let mut slots: Vec<Option<StoragePDA>> = Vec::new();
        let mut k: u8 = 0;
        while k < MAX_STORAGE_PDAS
            invariant
                k <= MAX_STORAGE_PDAS,
                slots@.len() == k,
                forall|i: int| 0 <= i < k ==> #[trigger] slots@[i] is None,
            decreases MAX_STORAGE_PDAS - k,
        {
            slots.push(None);
            k = k + 1;
        }
        let r = SegmentStore { owner, slots };
        assert(r.segments() =~= Seq::new(MAX_STORAGE_PDAS as nat, |i: int| None::<StoragePDAView>));
        r
    }

    /// Creates the segment at `index`: fails with `IndexOutOfRange` where
    /// `index` is not below `MAX_STORAGE_PDAS`, and with `AlreadyExists` where
    /// a segment stands there already.
    pub fn create(&mut self, index: u8, now: i64) -> (r: Result<(), StorageError>)
        requires
            old(self).wf(),
        ensures
            final(self).wf(),
            final(self).owner_key() == old(self).owner_key(),
            index >= MAX_STORAGE_PDAS ==> r == Err::<(), StorageError>(
                StorageError::IndexOutOfRange,
            ) && final(self).segments() == old(self).segments(),
            index < MAX_STORAGE_PDAS && old(self).segment(index as int) is Some ==> r == Err::<
                (),
                StorageError,
            >(StorageError::AlreadyExists) && final(self).segments() == old(self).segments(),
            index < MAX_STORAGE_PDAS && old(self).segment(index as int) is None ==> r is Ok
                && final(self).segments() == old(self).segments().update(
                index as int,
                Some(fresh_segment(old(self).owner_key()@, index, now)),
            ),
    {
        if index >= MAX_STORAGE_PDAS {
            return Err(StorageError::IndexOutOfRange);
        }
        let i = index as usize;
        if self.slots[i].is_some() {
            return Err(StorageError::AlreadyExists);
        }
        let p = match create_storage_pda(self.owner, index, now) {
            Ok(p) => p,
            Err(e) => {
                return Err(e);
            },
        };
        proof {
            assert(p@.tail_zero());
        }
        self.slots.set(i, Some(p));
        assert(self.segments() =~= old(self).segments().update(
            index as int,
            Some(fresh_segment(old(self).owner_key()@, index, now)),
        ));
        Ok(())
    }

    /// Writes `bytes` at `offset` into the segment at `index`. Fails, changing
    /// nothing, with `IndexOutOfRange`, `NotFound`, or `CapacityExceeded`
    /// where the write would end past the capacity.
    pub fn write(&mut self, index: u8, bytes: &Vec<u8>, offset: u32) -> (r: Result<(), StorageError>)
        requires
            old(self).wf(),
        ensures
            final(self).wf(),
            final(self).owner_key() == old(self).owner_key(),
            r is Err ==> final(self).segments() == old(self).segments(),
            index >= MAX_STORAGE_PDAS ==> r == Err::<(), StorageError>(
                StorageError::IndexOutOfRange,
            ),
            index < MAX_STORAGE_PDAS ==> match old(self).segment(index as int) {
                None => r == Err::<(), StorageError>(StorageError::NotFound),
                Some(v) => if offset + bytes@.len() > CHUNK_SIZE {
                    r == Err::<(), StorageError>(StorageError::CapacityExceeded)
                } else {
                    r is Ok && final(self).segments() == old(self).segments().update(
                        index as int,
                        Some(v.written(offset as int, bytes@)),
                    )
                },
            },
    {
        if index >= MAX_STORAGE_PDAS {
            return Err(StorageError::IndexOutOfRange);
        }
        let i = index as usize;
        let mut taken: Option<StoragePDA> = None;
        std::mem::swap(&mut taken, &mut self.slots[i]);
        let r = match taken {
            None => Err(StorageError::NotFound),
            Some(mut p) => {
                proof {
                    if offset + bytes@.len() <= CHUNK_SIZE {
                        lemma_tail_stays_zero(p@, offset as int, bytes@);
                    }
                }
                let r = update_storage_data(&mut p, bytes, offset);
                self.slots.set(i, Some(p));
                r
            },
        };
        if r.is_err() {
            proof {
                assert(self.segments() =~= old(self).segments());
            }
        }
        assert(self.segments() =~= old(self).segments().update(index as int, slot_view(self.slots@[i as int])));
        r
    }

    /// The used length, capacity and active flag of the segment at `index`.
    pub fn read_info(&self, index: u8) -> (r: Result<StorageInfo, StorageError>)
        requires
            self.wf(),
        ensures
            index >= MAX_STORAGE_PDAS ==> r == Err::<StorageInfo, StorageError>(
                StorageError::IndexOutOfRange,
            ),
            index < MAX_STORAGE_PDAS ==> match self.segment(index as int) {
                None => r == Err::<StorageInfo, StorageError>(StorageError::NotFound),
                Some(v) => r == Ok::<StorageInfo, StorageError>(
                    StorageInfo {
                        index,
                        used_length: v.data_length,
                        capacity: CHUNK_SIZE as u32,
                        is_active: v.is_active,
                    },
                ),
            },
    {
        if index >= MAX_STORAGE_PDAS {
            return Err(StorageError::IndexOutOfRange);
        }
        match &self.slots[index as usize] {
            None => Err(StorageError::NotFound),
            Some(p) => Ok(get_storage_info(p)),
        }
    }

    /// The `len` payload bytes at `offset` of the segment at `index`.
    pub fn read(&self, index: u8, offset: u32, len: u32) -> (r: Result<Vec<u8>, StorageError>)
        requires
            self.wf(),
        ensures
            index >= MAX_STORAGE_PDAS ==> r == Err::<Vec<u8>, StorageError>(
                StorageError::IndexOutOfRange,
            ),
            index < MAX_STORAGE_PDAS ==> match self.segment(index as int) {
                None => r == Err::<Vec<u8>, StorageError>(StorageError::NotFound),
                Some(v) => if offset + len > CHUNK_SIZE {
                    r == Err::<Vec<u8>, StorageError>(StorageError::CapacityExceeded)
                } else {
                    r is Ok && r.unwrap()@ == v.data.subrange(offset as int, offset + len)
                },
            },
    {
        if index >= MAX_STORAGE_PDAS {
            return Err(StorageError::IndexOutOfRange);
        }
        match &self.slots[index as usize] {
            None => Err(StorageError::NotFound),
            Some(p) => {
                if offset as usize > CHUNK_SIZE || len as usize > CHUNK_SIZE - offset as usize {
                    return Err(StorageError::CapacityExceeded);
                }
                let mut out: Vec<u8> = Vec::with_capacity(len as usize);
                let mut k: usize = 0;
                while k < len as usize
                    invariant
                        p@.wf(),
                        offset + len <= CHUNK_SIZE,
                        k <= len,
                        out@ == p.data@.subrange(offset as int, offset + k),
                    decreases len - k,
                {
                    out.push(p.data[offset as usize + k]);
                    k = k + 1;
                    assert(out@ =~= p.data@.subrange(offset as int, offset + k));
                }
                Ok(out)
            },
        }
    }

    /// Zeroes the payload of the segment at `index` and resets its used length.
    pub fn clear(&mut self, index: u8) -> (r: Result<(), StorageError>)
        requires
            old(self).wf(),
        ensures
            final(self).wf(),
            final(self).owner_key() == old(self).owner_key(),
            index >= MAX_STORAGE_PDAS ==> r == Err::<(), StorageError>(
                StorageError::IndexOutOfRange,
            ) && final(self).segments() == old(self).segments(),
            index < MAX_STORAGE_PDAS ==> match old(self).segment(index as int) {
                None => r == Err::<(), StorageError>(StorageError::NotFound)
                    && final(self).segments() == old(self).segments(),
                Some(v) => r is Ok && final(self).segments() == old(self).segments().update(
                    index as int,
                    Some(v.cleared()),
                ),
            },
    {
        if index >= MAX_STORAGE_PDAS {
            return Err(StorageError::IndexOutOfRange);
        }
        let i = index as usize;
        let mut taken: Option<StoragePDA> = None;
        std::mem::swap(&mut taken, &mut self.slots[i]);
        let r = match taken {
            None => Err(StorageError::NotFound),
            Some(mut p) => {
                proof {
                    lemma_tail_stays_zero(p@, 0, Seq::empty());
                }
                clear_storage_data(&mut p);
                self.slots.set(i, Some(p));
                Ok(())
            },
        };
        if r.is_err() {
            proof {
                assert(self.segments() =~= old(self).segments());
            }
        }
        assert(self.segments() =~= old(self).segments().update(index as int, slot_view(self.slots@[i as int])));
        r
    }
}

} // verus!
