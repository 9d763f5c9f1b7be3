//! The record model: four interval kinds, each one fixed-width time bucket of
//! aggregated metrics. Every kind is identified within its kind and backend by
//! the natural key `end_time` (epoch seconds).
//!
//! Metric amounts are integers as reported upstream (base-unit amounts and
//! fixed-point ratios); nothing here carries a backend-specific encoding.

use vstd::prelude::*;

verus! {

/// One time bucket of pool depth and price metrics. Natural key: `end_time`.
#[derive(Clone, Copy, PartialEq, Eq, Debug)]
pub struct DepthInterval {
    pub asset_depth: i64,
    pub asset_price: i64,
    pub asset_price_usd: i64,
    pub end_time: i64,
    pub liquidity_units: i64,
    pub luvi: i64,
    pub members_count: i64,
    pub rune_depth: i64,
    pub start_time: i64,
    pub synth_supply: i64,
    pub synth_units: i64,
    pub units: i64,
}

/// One time bucket of swap activity, split by direction. Natural key: `end_time`.
#[derive(Clone, Copy, PartialEq, Eq, Debug)]
pub struct SwapsInterval {
    pub average_slip: i64,
    pub end_time: i64,
    pub from_trade_average_slip: i64,
    pub from_trade_count: i64,
    pub from_trade_fees: i64,
    pub from_trade_volume: i64,
    pub from_trade_volume_usd: i64,
    pub rune_price_usd: i64,
    pub start_time: i64,
    pub synth_mint_average_slip: i64,
    pub synth_mint_count: i64,
    pub synth_mint_fees: i64,
    pub synth_mint_volume: i64,
    pub synth_mint_volume_usd: i64,
    pub synth_redeem_average_slip: i64,
    pub synth_redeem_count: i64,
    pub synth_redeem_fees: i64,
    pub synth_redeem_volume: i64,
    pub synth_redeem_volume_usd: i64,
    pub to_asset_average_slip: i64,
    pub to_asset_count: i64,
    pub to_asset_fees: i64,
    pub to_asset_volume: i64,
    pub to_asset_volume_usd: i64,
    pub to_rune_average_slip: i64,
    pub to_rune_count: i64,
    pub to_rune_fees: i64,
    pub to_rune_volume: i64,
    pub to_rune_volume_usd: i64,
    pub total_count: i64,
    pub total_fees: i64,
    pub total_volume: i64,
    pub total_volume_usd: i64,
}

/// Per-pool earnings figures nested inside an [`EarningInterval`]. The list of
/// pools has no identity of its own: it is read and written as a unit with its
/// parent interval.
#[derive(PartialEq, Eq, Debug)]
pub struct Pool {
    pub pool: String,
    pub asset_liquidity_fees: i64,
    pub rune_liquidity_fees: i64,
    pub total_liquidity_fees_rune: i64,
    pub saver_earning: i64,
    pub rewards: i64,
    pub earnings: i64,
}

/// One time bucket of aggregate earnings plus the ordered per-pool breakdown.
/// Natural key: `end_time`.
#[derive(PartialEq, Eq, Debug)]
pub struct EarningInterval {
    pub avg_node_count: i64,
    pub block_rewards: i64,
    pub bonding_earnings: i64,
    pub earnings: i64,
    pub end_time: i64,
    pub liquidity_earnings: i64,
    pub liquidity_fees: i64,
    pub rune_price_usd: i64,
    pub start_time: i64,
    pub pools: Vec<Pool>,
}

/// One time bucket of rune-pool membership metrics. Natural key: `end_time`.
#[derive(Clone, Copy, PartialEq, Eq, Debug)]
pub struct RunePoolInterval {
    pub count: i64,
    pub end_time: i64,
    pub start_time: i64,
    pub units: i64,
}

/// Mathematical image of a [`Pool`]: the name as a character sequence, the
/// amounts unchanged.
pub struct PoolView {
    pub pool: Seq<char>,
    pub asset_liquidity_fees: i64,
    pub rune_liquidity_fees: i64,
    pub total_liquidity_fees_rune: i64,
    pub saver_earning: i64,
    pub rewards: i64,
    pub earnings: i64,
}

impl View for Pool {
    type V = PoolView;

    open spec fn view(&self) -> PoolView {
        PoolView {
            pool: self.pool@,
            asset_liquidity_fees: self.asset_liquidity_fees,
            rune_liquidity_fees: self.rune_liquidity_fees,
            total_liquidity_fees_rune: self.total_liquidity_fees_rune,
            saver_earning: self.saver_earning,
            rewards: self.rewards,
            earnings: self.earnings,
        }
    }
}

/// Mathematical image of an [`EarningInterval`], with the pool list as a
/// sequence of [`PoolView`]s in its stored order.
pub struct EarningView {
    pub avg_node_count: i64,
    pub block_rewards: i64,
    pub bonding_earnings: i64,
    pub earnings: i64,
    pub end_time: i64,
    pub liquidity_earnings: i64,
    pub liquidity_fees: i64,
    pub rune_price_usd: i64,
    pub start_time: i64,
    pub pools: Seq<PoolView>,
}

impl View for EarningInterval {
    type V = EarningView;

    open spec fn view(&self) -> EarningView {
        EarningView {
            avg_node_count: self.avg_node_count,
            block_rewards: self.block_rewards,
            bonding_earnings: self.bonding_earnings,
            earnings: self.earnings,
            end_time: self.end_time,
            liquidity_earnings: self.liquidity_earnings,
            liquidity_fees: self.liquidity_fees,
            rune_price_usd: self.rune_price_usd,
            start_time: self.start_time,
            pools: self.pools@.map_values(|p: Pool| p@),
        }
    }
}

impl Pool {
    /// A field-for-field copy; the name is a fresh `String` with the same
    /// characters.
    pub fn duplicate(&self) -> (r: Pool)
        ensures
            r@ == self@,
    {
        Pool {
            pool: self.pool.clone(),
            asset_liquidity_fees: self.asset_liquidity_fees,
            rune_liquidity_fees: self.rune_liquidity_fees,
            total_liquidity_fees_rune: self.total_liquidity_fees_rune,
            saver_earning: self.saver_earning,
            rewards: self.rewards,
            earnings: self.earnings,
        }
    }
}

impl EarningInterval {
    /// A field-for-field copy, the pool list duplicated element by element in
    /// order.
    pub fn duplicate(&self) -> (r: EarningInterval)
        ensures
            r@ == self@,
    {
        let mut pools: Vec<Pool> = Vec::new();
        let mut i: usize = 0;
        while i < self.pools.len()
            invariant
                i <= self.pools.len(),
                pools@.len() == i,
                forall|j: int| 0 <= j < i ==> pools@[j]@ == self.pools@[j]@,
            decreases self.pools.len() - i,
        {
            pools.push(self.pools[i].duplicate());
            i += 1;
        }
        proof {
            assert(pools@.map_values(|p: Pool| p@) =~= self.pools@.map_values(|p: Pool| p@));
        }
        let r = EarningInterval {
            avg_node_count: self.avg_node_count,
            block_rewards: self.block_rewards,
            bonding_earnings: self.bonding_earnings,
            earnings: self.earnings,
            end_time: self.end_time,
            liquidity_earnings: self.liquidity_earnings,
            liquidity_fees: self.liquidity_fees,
            rune_price_usd: self.rune_price_usd,
            start_time: self.start_time,
            pools,
        };
        proof {
            assert(r@ =~= self@);
        }
        r
    }
}

/// A value identified by the natural key `end_time`. Implemented by the
/// record kinds themselves and by their mathematical images, so the same
/// storage semantics can be stated of both.
pub trait Keyed: Sized {
    /// The natural key in specifications.
    spec fn key_spec(&self) -> i64;
}

/// A record kind stored under the natural key `end_time`.
pub trait IntervalRecord: Keyed {
    /// The natural key, as the stored record carries it.
    fn natural_key(&self) -> (k: i64)
        ensures
            k == self.key_spec(),
    ;
}

impl Keyed for DepthInterval {
    open spec fn key_spec(&self) -> i64 {
        self.end_time
    }
}

impl Keyed for SwapsInterval {
    open spec fn key_spec(&self) -> i64 {
        self.end_time
    }
}

impl Keyed for EarningInterval {
    open spec fn key_spec(&self) -> i64 {
        self.end_time
    }
}

impl Keyed for EarningView {
    open spec fn key_spec(&self) -> i64 {
        self.end_time
    }
}

impl Keyed for RunePoolInterval {
    open spec fn key_spec(&self) -> i64 {
        self.end_time
    }
}

impl IntervalRecord for DepthInterval {
    fn natural_key(&self) -> (k: i64)
        ensures
            k == self.key_spec(),
    {
        self.end_time
    }
}

impl IntervalRecord for SwapsInterval {
    fn natural_key(&self) -> (k: i64)
        ensures
            k == self.key_spec(),
    {
        self.end_time
    }
}

impl IntervalRecord for EarningInterval {
    fn natural_key(&self) -> (k: i64)
        ensures
            k == self.key_spec(),
    {
        self.end_time
    }
}

impl IntervalRecord for RunePoolInterval {
    fn natural_key(&self) -> (k: i64)
        ensures
            k == self.key_spec(),
    {
        self.end_time
    }
}

} // verus!
