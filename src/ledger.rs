//! The ledger store and the stake, unstake and claim operations over it.

use vstd::prelude::*;
use multiversx_sc::types::Address;
use crate::account::{copy_address, same_address};
use crate::position::{StakingError, StakingPosition};
use crate::reward::{compute_reward, reward};

verus! {

/// An outbound transfer that an unstake or a claim asks of the host, and the
/// position to store once the host reports that it went through.
#[derive(Debug)]
pub struct Payout {
    /// The account that receives the value.
    pub recipient: Address,
    /// The value to send.
    pub amount: u128,
    /// The recipient's position once the transfer has succeeded.
    pub position: StakingPosition,
}

/// The abstract state of the ledger.
pub struct LedgerView {
    /// Annual yield in basis points, fixed at creation.
    pub apy: u64,
    /// Accounts that have staked, in the order of their first stake.
    pub index: Seq<Address>,
    /// The stored position of each account of `index`.
    pub positions: Map<Address, StakingPosition>,
}

impl LedgerView {
    /// Every indexed account has exactly one entry and one stored position.
    pub open spec fn wf(self) -> bool {
        &&& self.index.no_duplicates()
        &&& forall|a: Address| self.positions.contains_key(a) <==> self.index.contains(a)
    }

    /// The position of `a`; the zero position if `a` never staked.
    pub open spec fn position(self, a: Address) -> StakingPosition {
        if self.positions.contains_key(a) {
            self.positions[a]
        } else {
            StakingPosition::zero()
        }
    }

    /// The index with `a` appended unless it is there already.
    pub open spec fn registered(self, a: Address) -> Seq<Address> {
        if self.index.contains(a) {
            self.index
        } else {
            self.index.push(a)
        }
    }

    /// The ledger with `p` stored as the position of `a`.
    pub open spec fn with_position(self, a: Address, p: StakingPosition) -> LedgerView {
        LedgerView { apy: self.apy, index: self.registered(a), positions: self.positions.insert(a, p) }
    }

    /// The ledger after `caller` stakes `amount` at block `now` holding
    /// `balance`: accrual so far is settled first, then the principal grows.
    pub open spec fn after_stake(self, caller: Address, amount: u128, now: u64, balance: u128) -> Result<
        LedgerView,
        StakingError,
    > {
        if amount > balance {
            Err(StakingError::InsufficientBalance)
        } else {
            match self.position(caller).settled(now, self.apy) {
                Err(e) => Err(e),
                Ok(s) => if s.amount_staked + amount > u128::MAX {
                    Err(StakingError::ArithmeticOverflow)
                } else {
                    Ok(
                        self.with_position(
                            caller,
                            StakingPosition {
                                amount_staked: (s.amount_staked + amount) as u128,
                                last_staked_block: now,
                                last_settled_block: s.last_settled_block,
                                pending_reward: s.pending_reward,
                            },
                        ),
                    )
                },
            }
        }
    }

    /// The transfer owed when `caller` unstakes `amount` at block `now`:
    /// the principal returned, with the accrual so far settled.
    pub open spec fn unstake_payout(self, caller: Address, amount: u128, now: u64) -> Result<
        Payout,
        StakingError,
    > {
        let p = self.position(caller);
        if amount > p.amount_staked {
            Err(StakingError::InsufficientStake)
        } else {
            match p.settled(now, self.apy) {
                Err(e) => Err(e),
                Ok(s) => Ok(
                    Payout {
                        recipient: caller,
                        amount,
                        position: StakingPosition {
                            amount_staked: (s.amount_staked - amount) as u128,
                            last_staked_block: s.last_staked_block,
                            last_settled_block: s.last_settled_block,
                            pending_reward: s.pending_reward,
                        },
                    },
                ),
            }
        }
    }

    /// The transfer owed when `caller` claims at block `now`: all reward
    /// accrued up to `now`.
    pub open spec fn claim_payout(self, caller: Address, now: u64) -> Result<Payout, StakingError> {
        match self.position(caller).settled(now, self.apy) {
            Err(e) => Err(e),
            Ok(s) => Ok(
                Payout {
                    recipient: caller,
                    amount: s.pending_reward,
                    position: StakingPosition {
                        amount_staked: s.amount_staked,
                        last_staked_block: s.last_staked_block,
                        last_settled_block: s.last_settled_block,
                        pending_reward: 0,
                    },
                },
            ),
        }
    }

    /// The ledger once the host has reported on the transfer of `payout`:
    /// its position is stored only if the transfer went through, and only
    /// for an account that has staked.
    pub open spec fn after_payout(self, payout: Payout, transferred: bool) -> Result<
        LedgerView,
        StakingError,
    > {
        if !transferred {
            Err(StakingError::TransferFailed)
        } else if self.index.contains(payout.recipient) {
            Ok(self.with_position(payout.recipient, payout.position))
        } else {
            Ok(self)
        }
    }
}

/// The staking ledger: one position per account that has staked, kept in the
/// order of first stake.
pub struct StakingContract {
    apy: u64,
    staked_addresses: Vec<Address>,
    staking_positions: Vec<StakingPosition>,
}

/// Under no duplicates, the chosen index of the element at `i` is `i`.
proof fn lemma_index_of_unique(s: Seq<Address>, i: int)
    requires
        s.no_duplicates(),
        0 <= i < s.len(),
    ensures
        s.index_of(s[i]) == i,
{
    assert(0 <= i < s.len() && s[i] == s[i]);
    let j = s.index_of(s[i]);
    assert(0 <= j < s.len() && s[j] == s[i]);
}

impl View for StakingContract {
    type V = LedgerView;

    closed spec fn view(&self) -> LedgerView {
        LedgerView {
            apy: self.apy,
            index: self.staked_addresses@,
            positions: Map::new(
                |a: Address| self.staked_addresses@.contains(a),
                |a: Address| self.staking_positions@[self.staked_addresses@.index_of(a)],
            ),
        }
    }
}

impl StakingContract {
    /// The index and the positions run in parallel, without repeated accounts.
    pub closed spec fn well_formed(&self) -> bool {
        &&& self.staked_addresses@.len() == self.staking_positions@.len()
        &&& self.staked_addresses@.no_duplicates()
    }

    /// A well-formed ledger has a well-formed view.
    pub proof fn lemma_view_wf(&self)
        requires
            self.well_formed(),
        ensures
            self@.wf(),
    {
    }

    proof fn lemma_view_at(&self, i: int)
        requires
            self.well_formed(),
            0 <= i < self.staked_addresses@.len(),
        ensures
            self@.positions.contains_key(self.staked_addresses@[i]),
            self@.positions[self.staked_addresses@[i]] == self.staking_positions@[i],
    {
        lemma_index_of_unique(self.staked_addresses@, i);
    }

    /// An empty ledger with the annual yield `apy`, in basis points.
    pub fn new(apy: u64) -> (r: StakingContract)
        ensures
            r.well_formed(),
            r@.apy == apy,
            r@.index == Seq::<Address>::empty(),
            r@.positions == Map::<Address, StakingPosition>::empty(),
    {
        let r = StakingContract { apy, staked_addresses: Vec::new(), staking_positions: Vec::new() };
        assert(r@.positions =~= Map::<Address, StakingPosition>::empty());
        r
    }

    fn find(&self, a: &Address) -> (r: Option<usize>)
        requires
            self.well_formed(),
        ensures
            match r {
                Some(i) => i < self.staked_addresses@.len() && self.staked_addresses@[i as int] == *a,
                None => !self.staked_addresses@.contains(*a),
            },
    {
        let n = self.staked_addresses.len();
        let mut i: usize = 0;
        while i < n
            invariant
                n == self.staked_addresses@.len(),
                i <= n,
                forall|j: int| 0 <= j < i ==> self.staked_addresses@[j] != *a,
            decreases n - i,
        {
            if same_address(&self.staked_addresses[i], a) {
                return Some(i);
            }
            i = i + 1;
        }
        None
    }

    /// The position of `a`, or the zero position if it never staked.
    pub fn get_position(&self, a: &Address) -> (r: StakingPosition)
        requires
            self.well_formed(),
        ensures
            r == self@.position(*a),
    {
        match self.find(a) {
            Some(i) => {
                proof {
                    self.lemma_view_at(i as int);
                }
                self.staking_positions[i]
            },
            None => StakingPosition::empty(),
        }
    }

    /// Stores `p` as the position of `a`, registering `a` if it is new.
    pub fn put_position(&mut self, a: &Address, p: StakingPosition)
        requires
            old(self).well_formed(),
        ensures
            final(self).well_formed(),
            final(self)@ == old(self)@.with_position(*a, p),
    {
        match self.find(a) {
            Some(i) => {
                self.staking_positions.set(i, p);
                proof {
                    let v = self@;
                    let w = old(self)@.with_position(*a, p);
                    assert(w.index == v.index);
                    assert forall|x: Address| #[trigger] v.positions.contains_key(x) implies v.positions[x]
                        == w.positions[x] by {
                        let k = v.index.index_of(x);
                        assert(0 <= k < v.index.len() && v.index[k] == x);
                        self.lemma_view_at(k);
                        old(self).lemma_view_at(k);
                        if k != i as int {
                            assert(x != *a);
                        }
                    }
                    assert(v.positions =~= w.positions);
                }
            },
            None => {
                self.staked_addresses.push(copy_address(a));
                self.staking_positions.push(p);
                proof {
                    let v = self@;
                    let w = old(self)@.with_position(*a, p);
                    let n = old(self).staked_addresses@.len();
                    assert(v.index =~= w.index);
                    assert forall|x: Address| #[trigger] v.positions.contains_key(x) implies v.positions[x]
                        == w.positions[x] by {
                        let k = v.index.index_of(x);
                        assert(0 <= k < v.index.len() && v.index[k] == x);
                        self.lemma_view_at(k);
                        if k < n {
                            old(self).lemma_view_at(k);
                            assert(old(self).staked_addresses@[k] == x);
                        }
                    }
                    assert forall|x: Address| #[trigger] w.positions.contains_key(x) implies v.positions.contains_key(x) by {
                        if x != *a {
                            assert(old(self)@.index.contains(x));
                            let k = old(self)@.index.index_of(x);
                            assert(v.index[k] == x);
                        } else {
                            assert(v.index[n as int] == x);
                        }
                    }
                    assert(v.positions =~= w.positions);
                }
            },
        }
    }

    /// Adds `a` to the index, with the zero position, unless it is there.
    pub fn register_if_new(&mut self, a: &Address)
        requires
            old(self).well_formed(),
        ensures
            final(self).well_formed(),
            final(self)@ == (if old(self)@.index.contains(*a) {
                old(self)@
            } else {
                old(self)@.with_position(*a, StakingPosition::zero())
            }),
    {
        if self.find(a).is_none() {
            self.put_position(a, StakingPosition::empty());
        }
    }

    /// Stakes `amount` for `caller` at block `now`, given the caller's
    /// `available_balance` as the host reports it. The accrual since the
    /// last settlement is added to the owed reward before the principal
    /// grows; the caller enters the index on its first stake.
    pub fn stake(&mut self, caller: &Address, amount: u128, now: u64, available_balance: u128) -> (r:
        Result<(), StakingError>)
        requires
            old(self).well_formed(),
        ensures
            final(self).well_formed(),
            match old(self)@.after_stake(*caller, amount, now, available_balance) {
                Ok(v) => r == Ok::<(), StakingError>(()) && final(self)@ == v,
                Err(e) => r == Err::<(), StakingError>(e) && *final(self) == *old(self),
            },
    {
        if amount > available_balance {
            return Err(StakingError::InsufficientBalance);
        }
        let p = self.get_position(caller);
        let s = match p.settle(now, self.apy) {
            Ok(s) => s,
            Err(e) => return Err(e),
        };
        let total = match s.amount_staked.checked_add(amount) {
            Some(t) => t,
            None => return Err(StakingError::ArithmeticOverflow),
        };
        let next = StakingPosition {
            amount_staked: total,
            last_staked_block: now,
            last_settled_block: s.last_settled_block,
            pending_reward: s.pending_reward,
        };
        self.put_position(caller, next);
        Ok(())
    }

    /// Plans an unstake of `amount` for `caller` at block `now`: the
    /// transfer to make and the position to store once it succeeds. Nothing
    /// is stored here; see `complete_payout`.
    pub fn unstake(&self, caller: &Address, amount: u128, now: u64) -> (r: Result<Payout, StakingError>)
        requires
            self.well_formed(),
        ensures
            r == self@.unstake_payout(*caller, amount, now),
    {
        let p = self.get_position(caller);
        if amount > p.amount_staked {
            return Err(StakingError::InsufficientStake);
        }
        match p.settle(now, self.apy) {
            Err(e) => Err(e),
            Ok(s) => Ok(
                Payout {
                    recipient: copy_address(caller),
                    amount,
                    position: StakingPosition {
                        amount_staked: s.amount_staked - amount,
                        last_staked_block: s.last_staked_block,
                        last_settled_block: s.last_settled_block,
                        pending_reward: s.pending_reward,
                    },
                },
            ),
        }
    }

    /// Plans a claim for `caller` at block `now`: all reward accrued up to
    /// `now` is to be sent, possibly zero. Nothing is stored here; see
    /// `complete_payout`.
    pub fn claim_rewards(&self, caller: &Address, now: u64) -> (r: Result<Payout, StakingError>)
        requires
            self.well_formed(),
        ensures
            r == self@.claim_payout(*caller, now),
    {
        let p = self.get_position(caller);
        match p.settle(now, self.apy) {
            Err(e) => Err(e),
            Ok(s) => Ok(
                Payout {
                    recipient: copy_address(caller),
                    amount: s.pending_reward,
                    position: StakingPosition {
                        amount_staked: s.amount_staked,
                        last_staked_block: s.last_staked_block,
                        last_settled_block: s.last_settled_block,
                        pending_reward: 0,
                    },
                },
            ),
        }
    }

    /// Records the host's report on the transfer of `payout`. If it went
    /// through, the planned position is stored and the amount sent is
    /// returned; if not, the ledger is left exactly as it was.
    pub fn complete_payout(&mut self, payout: &Payout, transferred: bool) -> (r: Result<u128, StakingError>)
        requires
            old(self).well_formed(),
        ensures
            final(self).well_formed(),
            match old(self)@.after_payout(*payout, transferred) {
                Ok(v) => r == Ok::<u128, StakingError>(payout.amount) && final(self)@ == v,
                Err(e) => r == Err::<u128, StakingError>(e) && *final(self) == *old(self),
            },
    {
        if !transferred {
            return Err(StakingError::TransferFailed);
        }
        if self.find(&payout.recipient).is_some() {
            self.put_position(&payout.recipient, payout.position);
        }
        Ok(payout.amount)
    }

    /// Reward on `staked_amount` over `staking_duration` blocks at this
    /// ledger's yield; `None` if it does not fit in 128 bits.
    pub fn calculate_rewards(&self, staked_amount: u128, staking_duration: u64) -> (r: Option<u128>)
        ensures
            reward(staked_amount as int, staking_duration as int, self@.apy as int) <= u128::MAX ==> r
                == Some(reward(staked_amount as int, staking_duration as int, self@.apy as int) as u128),
            reward(staked_amount as int, staking_duration as int, self@.apy as int) > u128::MAX ==> r is None,
    {
        compute_reward(staked_amount, staking_duration, self.apy)
    }

    /// The accounts that have staked, in the order of their first stake.
    pub fn get_staked_addresses(&self) -> (r: Vec<Address>)
        ensures
            r@ == self@.index,
    {
        let mut addresses: Vec<Address> = Vec::new();
        let n = self.staked_addresses.len();
        let mut i: usize = 0;
        while i < n
            invariant
                n == self.staked_addresses@.len(),
                i <= n,
                addresses@ == self.staked_addresses@.subrange(0, i as int),
            decreases n - i,
        {
            addresses.push(copy_address(&self.staked_addresses[i]));
            i = i + 1;
            assert(addresses@ =~= self.staked_addresses@.subrange(0, i as int));
        }
        assert(addresses@ =~= self.staked_addresses@);
        addresses
    }

    /// The stored position of `user`, or `None` if it never staked.
    pub fn get_staking_position(&self, user: &Address) -> (r: Option<StakingPosition>)
        requires
            self.well_formed(),
        ensures
            r == (if self@.positions.contains_key(*user) {
                Some(self@.positions[*user])
            } else {
                None::<StakingPosition>
            }),
    {
        match self.find(user) {
            Some(i) => {
                proof {
                    self.lemma_view_at(i as int);
                }
                Some(self.staking_positions[i])
            },
            None => None,
        }
    }

    /// The annual yield in basis points.
    pub fn get_apy(&self) -> (r: u64)
        ensures
            r == self@.apy,
    {
        self.apy
    }

    /// The principal that `user` has staked.
    pub fn get_staked_balance(&self, user: &Address) -> (r: u128)
        requires
            self.well_formed(),
        ensures
            r == self@.position(*user).amount_staked,
    {
        self.get_position(user).amount_staked
    }

    /// The reward settled for `user` and not yet paid out.
    pub fn get_reward_balance(&self, user: &Address) -> (r: u128)
        requires
            self.well_formed(),
        ensures
            r == self@.position(*user).pending_reward,
    {
        self.get_position(user).pending_reward
    }
}

} // verus!
