//! The growable segment: an account that starts with a small payload region
//! and is extended toward a target size by capped reallocation steps, one
//! step per call.
use vstd::prelude::*;

use crate::layout::{copy_into, push_all, zero_from, zeroed, zeros, KEY_LEN, TAG_LEN};
use crate::storage::MAX_STORAGE_PDAS;

verus! {

/// Header of a growable account: format tag, index (`u16`), owner key,
/// creation time and used length.
pub const PDA_HEADER_SIZE: usize = TAG_LEN + 2 + KEY_LEN + 8 + 4;

/// Payload bytes allocated when a growable account is created; also the
/// most data that creation accepts.
pub const INITIAL_DATA_SIZE: usize = 10 * 1024;

/// The most that one reallocation step adds to an account.
pub const REALLOC_STEP: usize = 10 * 1024;

/// The largest payload region a growable account may reach.
pub const MAX_DATA_SIZE: usize = 1024 * 1024;

/// The largest size, header included, a growable account may reach.
pub const MAX_ACCOUNT_SIZE: usize = MAX_DATA_SIZE + PDA_HEADER_SIZE;

#[derive(Debug, Clone, Copy, PartialEq, Eq, Structural)]
pub enum VoiceChatError {
    /// The account index is not below `MAX_STORAGE_PDAS`.
    IndexOutOfRange,
    /// The data does not fit in the account's payload region.
    DataTooLarge,
    /// The account is already at or above the target size.
    NothingToGrow,
    /// The target size exceeds `MAX_ACCOUNT_SIZE`.
    TargetTooLarge,
}

/// A growable account: its header fields and its payload region.
pub struct PDAAccount {
    pub index: u16,
    pub authority: [u8; 32],
    pub created_at: i64,
    pub data_length: u32,
    data: Vec<u8>,
}

/// The mathematical value of a growable account.
pub struct PDAAccountView {
    pub index: u16,
    pub authority: Seq<u8>,
    pub created_at: i64,
    pub data_length: u32,
    pub data: Seq<u8>,
}

impl View for PDAAccount {
    type V = PDAAccountView;

    closed spec fn view(&self) -> PDAAccountView {
        PDAAccountView {
            index: self.index,
            authority: self.authority@,
            created_at: self.created_at,
            data_length: self.data_length,
            data: self.data@,
        }
    }
}

impl PDAAccountView {
    /// The used length fits in the payload region, which stays within
    /// `MAX_DATA_SIZE`.
    pub open spec fn wf(self) -> bool {
        &&& self.data_length <= self.data.len()
        &&& self.data.len() <= MAX_DATA_SIZE
    }

    /// The account's size, header included.
    pub open spec fn account_size(self) -> nat {
        (PDA_HEADER_SIZE + self.data.len()) as nat
    }
}

/// Bytes still missing from `current` to `target`; zero when none are.
pub open spec fn remaining(current: int, target: int) -> int {
    if target > current {
        target - current
    } else {
        0
    }
}

/// Calls of `reallocate_pda_account` still needed to grow from `current` to `target`.
pub open spec fn steps_needed(current: int, target: int) -> int {
    (remaining(current, target) + REALLOC_STEP - 1) / REALLOC_STEP as int
}

/// What one reallocation step adds.
pub open spec fn step_increase(current: int, target: int) -> int {
    if remaining(current, target) < REALLOC_STEP {
        remaining(current, target)
    } else {
        REALLOC_STEP as int
    }
}

/// The outcome of one reallocation step from `current` toward `target`.
pub open spec fn grow_outcome(current: int, target: int) -> Result<int, VoiceChatError> {
    if target <= current {
        Err(VoiceChatError::NothingToGrow)
    } else if target > MAX_ACCOUNT_SIZE {
        Err(VoiceChatError::TargetTooLarge)
    } else {
        Ok(current + step_increase(current, target))
    }
}

/// The size after one reallocation step from `current_size` toward
/// `target_size`: larger by the smaller of `REALLOC_STEP` and what is missing.
/// Fails with `NothingToGrow` where nothing is missing, else with
/// `TargetTooLarge` where the target exceeds `MAX_ACCOUNT_SIZE`.
pub fn reallocation_new_size(current_size: usize, target_size: usize) -> (r: Result<
    usize,
    VoiceChatError,
>)
    ensures
        match r {
            Ok(n) => grow_outcome(current_size as int, target_size as int) == Ok::<
                int,
                VoiceChatError,
            >(n as int),
            Err(e) => grow_outcome(current_size as int, target_size as int) == Err::<
                int,
                VoiceChatError,
            >(e),
        },
{
    let missing = target_size.saturating_sub(current_size);
    let increase = if missing < REALLOC_STEP {
        missing
    } else {
        REALLOC_STEP
    };
    if increase == 0 {
        return Err(VoiceChatError::NothingToGrow);
    }
    if target_size > MAX_ACCOUNT_SIZE {
        return Err(VoiceChatError::TargetTooLarge);
    }
    Ok(current_size + increase)
}

/// Calls of `reallocate_pda_account` still needed to grow an account of
/// `current_size` bytes to `target_size`: the ceiling of the missing bytes
/// over `REALLOC_STEP`, zero when none are missing.
pub fn reallocation_steps(current_size: usize, target_size: usize) -> (r: usize)
    ensures
        r == steps_needed(current_size as int, target_size as int),
{
    let missing = target_size.saturating_sub(current_size);
    let whole = missing / REALLOC_STEP;
    let r = if missing % REALLOC_STEP == 0 {
        whole
    } else {
        whole + 1
    };
    proof {
        let m = missing as int;
        let w = whole as int;
        let q = r as int;
        assert(q == (m + 10239) / 10240) by (nonlinear_arith)
            requires
                w == m / 10240,
                m % 10240 == 0 ==> q == w,
                m % 10240 != 0 ==> q == w + 1,
                m >= 0,
        ;
    }
    r
}

/// Lamports to add so that an account holding `current_lamports` reaches
/// the `required_balance` its new size costs; zero when it already does.
pub fn reserve_top_up(required_balance: u64, current_lamports: u64) -> (r: u64)
    ensures
        required_balance > current_lamports ==> r == required_balance - current_lamports,
        required_balance <= current_lamports ==> r == 0,
{
    if required_balance > current_lamports {
        required_balance - current_lamports
    } else {
        0
    }
}

/// Steps are zero exactly when the account has reached the target, and each
/// successful step takes one off them: from `current` the target is reached
/// after `steps_needed(current, target)` steps.
pub proof fn lemma_step_counts_down(current: int, target: int)
    requires
        0 <= current,
        target <= MAX_ACCOUNT_SIZE,
    ensures
        steps_needed(current, target) == 0 <==> current >= target,
        current < target ==> grow_outcome(current, target) is Ok && steps_needed(
            grow_outcome(current, target)->Ok_0,
            target,
        ) == steps_needed(current, target) - 1,
        current < target ==> grow_outcome(current, target)->Ok_0 <= target,
{
    let m = remaining(current, target);
    let s = REALLOC_STEP as int;
    assert(m >= 0);
    assert((m + s - 1) / s == 0 <==> m == 0) by (nonlinear_arith)
        requires
            m >= 0,
            s == 10240,
    ;
    if current < target {
        let n = current + step_increase(current, target);
        let m2 = remaining(n, target);
        if m < s {
            assert(m2 == 0);
            assert((m + s - 1) / s == 1) by (nonlinear_arith)
                requires
                    0 < m < s,
                    s == 10240,
            ;
        } else {
            assert(m2 == m - s);
            assert((m2 + s - 1) / s == (m + s - 1) / s - 1) by (nonlinear_arith)
                requires
                    m2 == m - s,
                    m >= s,
                    s == 10240,
            ;
        }
    }
}

/// A new account's payload region: `data` followed by zeros up to `INITIAL_DATA_SIZE`.
pub open spec fn initial_region(data: Seq<u8>) -> Seq<u8> {
    data + zeros((INITIAL_DATA_SIZE - data.len()) as nat)
}

/// Creates growable account `pda_index` of `authority` with `INITIAL_DATA_SIZE`
/// payload bytes that start with `data`. Fails with `IndexOutOfRange` where
/// `pda_index` is not below `MAX_STORAGE_PDAS`, else with `DataTooLarge` where
/// `data` is longer than `INITIAL_DATA_SIZE`.
pub fn create_pda_account(authority: [u8; 32], pda_index: u16, data: &Vec<u8>, now: i64) -> (r:
    Result<PDAAccount, VoiceChatError>)
    ensures
        pda_index >= MAX_STORAGE_PDAS ==> r == Err::<PDAAccount, VoiceChatError>(
            VoiceChatError::IndexOutOfRange,
        ),
        pda_index < MAX_STORAGE_PDAS && data@.len() > INITIAL_DATA_SIZE ==> r == Err::<
            PDAAccount,
            VoiceChatError,
        >(VoiceChatError::DataTooLarge),
        pda_index < MAX_STORAGE_PDAS && data@.len() <= INITIAL_DATA_SIZE ==> r is Ok && r->Ok_0@
            == (PDAAccountView {
            index: pda_index,
            authority: authority@,
            created_at: now,
            data_length: data@.len() as u32,
            data: initial_region(data@),
        }),
        r is Ok ==> r->Ok_0@.wf(),
{
    if pda_index >= MAX_STORAGE_PDAS as u16 {
        return Err(VoiceChatError::IndexOutOfRange);
    }
    if data.len() > INITIAL_DATA_SIZE {
        return Err(VoiceChatError::DataTooLarge);
    }
    let mut region = zeroed(INITIAL_DATA_SIZE);
    copy_into(&mut region, 0, data, 0, data.len());
    assert(region@ =~= initial_region(data@));
    Ok(PDAAccount {
        index: pda_index,
        authority,
        created_at: now,
        data_length: data.len() as u32,
        data: region,
    })
}

/// Creates growable account `pda_index` of `authority`, empty, with
/// `INITIAL_DATA_SIZE` zero payload bytes. Fails with `IndexOutOfRange` where
/// `pda_index` is not below `MAX_STORAGE_PDAS`.
pub fn create_all_pdas(authority: [u8; 32], pda_index: u16, now: i64) -> (r: Result<
    PDAAccount,
    VoiceChatError,
>)
    ensures
        pda_index >= MAX_STORAGE_PDAS ==> r == Err::<PDAAccount, VoiceChatError>(
            VoiceChatError::IndexOutOfRange,
        ),
        pda_index < MAX_STORAGE_PDAS ==> r is Ok && r->Ok_0@ == (PDAAccountView {
            index: pda_index,
            authority: authority@,
            created_at: now,
            data_length: 0,
            data: zeros(INITIAL_DATA_SIZE as nat),
        }),
        r is Ok ==> r->Ok_0@.wf(),
{
    if pda_index >= MAX_STORAGE_PDAS as u16 {
        return Err(VoiceChatError::IndexOutOfRange);
    }
    Ok(PDAAccount {
        index: pda_index,
        authority,
        created_at: now,
        data_length: 0,
        data: zeroed(INITIAL_DATA_SIZE),
    })
}

impl PDAAccount {
    /// The account's size, header included.
    pub fn account_size(&self) -> (r: usize)
        requires
            self@.wf(),
        ensures
            r == self@.account_size(),
    {
        PDA_HEADER_SIZE + self.data.len()
    }

    /// The payload region.
    pub fn data(&self) -> (r: &Vec<u8>)
        ensures
            r@ == self@.data,
    {
        &self.data
    }

    /// Replaces the payload with `new_data` followed by zeros to the end of
    /// the region, and sets the used length to its length. Fails with
    /// `DataTooLarge`, changing nothing, where `new_data` is longer than the region.
    pub fn update_pda_data(&mut self, new_data: &Vec<u8>) -> (r: Result<(), VoiceChatError>)
        requires
            old(self)@.wf(),
        ensures
            final(self)@.wf(),
            new_data@.len() > old(self)@.data.len() ==> r == Err::<(), VoiceChatError>(
                VoiceChatError::DataTooLarge,
            ) && final(self)@ == old(self)@,
            new_data@.len() <= old(self)@.data.len() ==> r is Ok && final(self)@ == (PDAAccountView {
                data_length: new_data@.len() as u32,
                data: new_data@ + zeros((old(self)@.data.len() - new_data@.len()) as nat),
                ..old(self)@
            }),
    {
        let available = self.data.len();
        if new_data.len() > available {
            return Err(VoiceChatError::DataTooLarge);
        }
        self.data_length = new_data.len() as u32;
        copy_into(&mut self.data, 0, new_data, 0, new_data.len());
        zero_from(&mut self.data, new_data.len());
        assert(self.data@ =~= new_data@ + zeros((available - new_data@.len()) as nat));
        Ok(())
    }

    /// Calls of `reallocate_pda_account` still needed to reach `target_size`.
    pub fn get_reallocation_steps_needed(&self, target_size: usize) -> (r: usize)
        requires
            self@.wf(),
        ensures
            r == steps_needed(self@.account_size() as int, target_size as int),
    {
        reallocation_steps(self.account_size(), target_size)
    }

    /// One reallocation step toward `target_size`: the account grows by the
    /// smaller of `REALLOC_STEP` and what is missing, with zero bytes, and the
    /// new size is returned. Fails, changing nothing, with `NothingToGrow` or
    /// `TargetTooLarge` as `reallocation_new_size` does.
    pub fn reallocate_pda_account(&mut self, target_size: usize) -> (r: Result<
        usize,
        VoiceChatError,
    >)
        requires
            old(self)@.wf(),
        ensures
            final(self)@.wf(),
            match grow_outcome(old(self)@.account_size() as int, target_size as int) {
                Ok(n) => r == Ok::<usize, VoiceChatError>(n as usize) && final(self)@ == (
                PDAAccountView {
                    data: old(self)@.data + zeros(
                        (n - old(self)@.account_size()) as nat,
                    ),
                    ..old(self)@
                }) && final(self)@.account_size() == n,
                Err(e) => r == Err::<usize, VoiceChatError>(e) && final(self)@ == old(self)@,
            },
    {
        let current = self.account_size();
        let new_size = match reallocation_new_size(current, target_size) {
            Ok(n) => n,
            Err(e) => {
                return Err(e);
            },
        };
        let extra = zeroed(new_size - current);
        push_all(&mut self.data, &extra);
        Ok(new_size)
    }
}

} // verus!
