use interval_store::records::DepthInterval;
use interval_store::records::EarningInterval;
use interval_store::records::Pool;
use interval_store::records::RunePoolInterval;
use interval_store::records::SwapsInterval;
use interval_store::storage::Database;
use interval_store::storage::MemoryBackend;

fn depth(end_time: i64) -> DepthInterval {
    DepthInterval {
        asset_depth: 100,
        asset_price: 7,
        asset_price_usd: 420,
        end_time,
        liquidity_units: 11,
        luvi: 3,
        members_count: 5,
        rune_depth: 700,
        start_time: end_time - 3600,
        synth_supply: 9,
        synth_units: 2,
        units: 13,
    }
}

fn swaps(end_time: i64) -> SwapsInterval {
    SwapsInterval {
        average_slip: 1,
        end_time,
        from_trade_average_slip: 2,
        from_trade_count: 3,
        from_trade_fees: 4,
        from_trade_volume: 5,
        from_trade_volume_usd: 6,
        rune_price_usd: 7,
        start_time: end_time - 3600,
        synth_mint_average_slip: 8,
        synth_mint_count: 9,
        synth_mint_fees: 10,
        synth_mint_volume: 11,
        synth_mint_volume_usd: 12,
        synth_redeem_average_slip: 13,
        synth_redeem_count: 14,
        synth_redeem_fees: 15,
        synth_redeem_volume: 16,
        synth_redeem_volume_usd: 17,
        to_asset_average_slip: 18,
        to_asset_count: 19,
        to_asset_fees: 20,
        to_asset_volume: 21,
        to_asset_volume_usd: 22,
        to_rune_average_slip: 23,
        to_rune_count: 24,
        to_rune_fees: 25,
        to_rune_volume: 26,
        to_rune_volume_usd: 27,
        total_count: 28,
        total_fees: 29,
        total_volume: 30,
        total_volume_usd: 31,
    }
}

fn earning(end_time: i64) -> EarningInterval {
    EarningInterval {
        avg_node_count: 100,
        block_rewards: 200,
        bonding_earnings: 300,
        earnings: 400,
        end_time,
        liquidity_earnings: 500,
        liquidity_fees: 600,
        rune_price_usd: 700,
        start_time: end_time - 3600,
        pools: vec![
            Pool {
                pool: "BTC.BTC".to_string(),
                asset_liquidity_fees: 1,
                rune_liquidity_fees: 2,
                total_liquidity_fees_rune: 3,
                saver_earning: 4,
                rewards: 5,
                earnings: 6,
            },
            Pool {
                pool: "ETH.ETH".to_string(),
                asset_liquidity_fees: 7,
                rune_liquidity_fees: 8,
                total_liquidity_fees_rune: 9,
                saver_earning: 10,
                rewards: 11,
                earnings: 12,
            },
        ],
    }
}

fn runepool(end_time: i64) -> RunePoolInterval {
    RunePoolInterval { count: 42, end_time, start_time: end_time - 3600, units: 77 }
}

#[test]
fn storing_the_same_depth_twice_keeps_one_row() {
    let mut db = MemoryBackend::new();
    db.store_depth_intervals(depth(1700000000)).unwrap();
    db.store_depth_intervals(depth(1700000000)).unwrap();
    let (rows, _) = db.read_depth_intervals().unwrap();
    assert_eq!(rows.len(), 1);
    assert_eq!(rows[0], depth(1700000000));
}

#[test]
fn storing_the_same_key_of_each_kind_keeps_one_row() {
    let mut db = MemoryBackend::new();
    for _ in 0..3 {
        db.store_swaps_intervals(swaps(1700000000)).unwrap();
        db.store_earnings_intervals(earning(1700000000)).unwrap();
        db.store_runepool_intervals(runepool(1700000000)).unwrap();
    }
    assert_eq!(db.read_swaps_intervals().unwrap().0.len(), 1);
    assert_eq!(db.read_earnings_intervals().unwrap().0.len(), 1);
    assert_eq!(db.read_runepool_intervals().unwrap().0.len(), 1);
}

#[test]
fn round_trip_each_kind() {
    let mut db = MemoryBackend::new();
    db.store_depth_intervals(depth(1700000000)).unwrap();
    db.store_swaps_intervals(swaps(1700000000)).unwrap();
    db.store_earnings_intervals(earning(1700000000)).unwrap();
    db.store_runepool_intervals(runepool(1700000000)).unwrap();

    let (depths, _) = db.read_depth_intervals().unwrap();
    assert_eq!(depths, vec![depth(1700000000)]);
    let (all_swaps, _) = db.read_swaps_intervals().unwrap();
    assert_eq!(all_swaps, vec![swaps(1700000000)]);
    let (earnings, _) = db.read_earnings_intervals().unwrap();
    assert_eq!(earnings, vec![earning(1700000000)]);
    let (runepools, _) = db.read_runepool_intervals().unwrap();
    assert_eq!(runepools, vec![runepool(1700000000)]);
}

#[test]
fn earnings_round_trip_keeps_pool_order_and_contents() {
    let mut db = MemoryBackend::new();
    db.store_earnings_intervals(earning(1700000000)).unwrap();
    let (earnings, _) = db.read_earnings_intervals().unwrap();
    assert_eq!(earnings.len(), 1);
    assert_eq!(earnings[0].pools, earning(1700000000).pools);
}

#[test]
fn distinct_keys_accumulate_in_insertion_order() {
    let mut db = MemoryBackend::new();
    db.store_depth_intervals(depth(1700000000)).unwrap();
    db.store_depth_intervals(depth(1700003600)).unwrap();
    db.store_depth_intervals(depth(1700000000)).unwrap();
    let (rows, _) = db.read_depth_intervals().unwrap();
    assert_eq!(rows, vec![depth(1700000000), depth(1700003600)]);
}

#[test]
fn storing_swaps_does_not_affect_stored_depths() {
    let mut db = MemoryBackend::new();
    db.store_depth_intervals(depth(1700000000)).unwrap();
    let (before, _) = db.read_depth_intervals().unwrap();
    // same natural key as the depth row, stored under another kind
    db.store_swaps_intervals(swaps(1700000000)).unwrap();
    db.store_swaps_intervals(swaps(1)).unwrap();
    let (after, _) = db.read_depth_intervals().unwrap();
    assert_eq!(before, after);
}

#[test]
fn a_same_key_record_with_other_fields_does_not_replace_the_stored_one() {
    let mut db = MemoryBackend::new();
    db.store_runepool_intervals(runepool(1700000000)).unwrap();
    let mut other = runepool(1700000000);
    other.units = 1;
    db.store_runepool_intervals(other).unwrap();
    let (rows, _) = db.read_runepool_intervals().unwrap();
    assert_eq!(rows, vec![runepool(1700000000)]);
}

#[test]
fn every_operation_reports_an_elapsed_time() {
    let mut db = MemoryBackend::new();
    let stored = db.store_depth_intervals(depth(1700000000)).unwrap();
    let (_, read) = db.read_depth_intervals().unwrap();
    // elapsed times are unsigned nanosecond counts, never negative
    assert_eq!(stored, 0);
    assert_eq!(read, 0);
}
