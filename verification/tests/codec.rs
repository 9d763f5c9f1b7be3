use interval_store::codec::decode_pools;
use interval_store::codec::earning_row_to_interval;
use interval_store::codec::encode_pools;
use interval_store::codec::pools_from_column;
use interval_store::records::Pool;

fn pool(name: &str, amounts: [i64; 6]) -> Pool {
    Pool {
        pool: name.to_string(),
        asset_liquidity_fees: amounts[0],
        rune_liquidity_fees: amounts[1],
        total_liquidity_fees_rune: amounts[2],
        saver_earning: amounts[3],
        rewards: amounts[4],
        earnings: amounts[5],
    }
}

#[test]
fn empty_list_encodes_to_empty_text() {
    assert_eq!(encode_pools(&Vec::new()), "");
}

#[test]
fn single_pool_has_exact_encoding() {
    let text = encode_pools(&vec![pool("BTC.BTC", [1, 2, 3, 4, 5, 6])]);
    assert_eq!(text, "7:BTC.BTC,1,2,3,4,5,6;");
}

#[test]
fn negative_amounts_keep_their_sign() {
    let text = encode_pools(&vec![pool("x", [-1, 0, -305, 4, -5, 6])]);
    assert_eq!(text, "1:x,-1,0,-305,4,-5,6;");
}

#[test]
fn round_trip_single_pool() {
    let pools = vec![pool("ETH.ETH", [10, 20, 30, 40, 50, 60])];
    let decoded = decode_pools(&encode_pools(&pools)).expect("well-formed");
    assert_eq!(decoded, pools);
}

#[test]
fn round_trip_many_pools_keeps_order() {
    let pools = vec![
        pool("BTC.BTC", [1, 2, 3, 4, 5, 6]),
        pool("ETH.ETH", [0, 0, 0, 0, 0, 0]),
        pool("GAIA.ATOM", [7, -8, 9, -10, 11, -12]),
    ];
    let decoded = decode_pools(&encode_pools(&pools)).expect("well-formed");
    assert_eq!(decoded, pools);
}

#[test]
fn round_trip_extreme_amounts() {
    let pools = vec![pool("edge", [i64::MIN, i64::MAX, 0, -1, 1, i64::MIN + 1])];
    let decoded = decode_pools(&encode_pools(&pools)).expect("well-formed");
    assert_eq!(decoded, pools);
}

#[test]
fn round_trip_empty_name() {
    let pools = vec![pool("", [1, 1, 1, 1, 1, 1])];
    let decoded = decode_pools(&encode_pools(&pools)).expect("well-formed");
    assert_eq!(decoded, pools);
}

#[test]
fn round_trip_name_holding_delimiters() {
    let pools = vec![pool("a,b:c;7", [1, 2, 3, 4, 5, 6])];
    let text = encode_pools(&pools);
    assert_eq!(text, "7:a,b:c;7,1,2,3,4,5,6;");
    let decoded = decode_pools(&text).expect("well-formed");
    assert_eq!(decoded, pools);
}

#[test]
fn round_trip_non_ascii_name() {
    let pools = vec![pool("p\u{00f8}\u{00f8}l", [1, 2, 3, 4, 5, 6])];
    let decoded = decode_pools(&encode_pools(&pools)).expect("well-formed");
    assert_eq!(decoded, pools);
}

#[test]
fn malformed_text_is_rejected() {
    assert_eq!(decode_pools("garbage"), None);
    // truncated after the name
    assert_eq!(decode_pools("7:BTC.BTC"), None);
    // length prefix with a leading zero
    assert_eq!(decode_pools("07:BTC.BTC,1,2,3,4,5,6;"), None);
    // minus zero is not canonical
    assert_eq!(decode_pools("1:x,-0,2,3,4,5,6;"), None);
    // an amount beyond the signed 64-bit range
    assert_eq!(decode_pools("1:x,99999999999999999999,2,3,4,5,6;"), None);
    // a fine pool followed by junk
    assert_eq!(decode_pools("1:x,1,2,3,4,5,6;junk"), None);
    // name length pointing past the end
    assert_eq!(decode_pools("99:x,1,2,3,4,5,6;"), None);
    // a missing amount
    assert_eq!(decode_pools("1:x,1,2,3,4,5;"), None);
}

#[test]
fn well_formed_column_is_read_back() {
    let pools = vec![pool("BTC.BTC", [1, 2, 3, 4, 5, 6])];
    let read = pools_from_column(&encode_pools(&pools));
    assert_eq!(read, pools);
}

#[test]
fn malformed_column_degrades_to_empty_list() {
    assert_eq!(pools_from_column("not an encoding"), Vec::<Pool>::new());
    assert_eq!(pools_from_column("7:BTC.BTC,1,2"), Vec::<Pool>::new());
}

#[test]
fn malformed_earnings_row_reads_with_empty_pools() {
    let r = earning_row_to_interval(1, 2, 3, 4, 1700000000, 5, 6, 7, 1699996400, "broken{");
    assert_eq!(r.end_time, 1700000000);
    assert_eq!(r.start_time, 1699996400);
    assert!(r.pools.is_empty());
}

#[test]
fn well_formed_earnings_row_reads_its_pools() {
    let pools = vec![pool("BTC.BTC", [1, 2, 3, 4, 5, 6])];
    let column = encode_pools(&pools);
    let r = earning_row_to_interval(1, 2, 3, 4, 1700000000, 5, 6, 7, 1699996400, &column);
    assert_eq!(r.pools, pools);
}
