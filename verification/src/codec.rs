//! The text encoding of the per-pool earnings list.
//!
//! The relational backend keeps an earnings interval's pool list in one text
//! column. The encoding is length-prefixed and self-delimiting: each pool is
//! written as
//!
//! ```text
//! <name length> ':' <name> ',' <amount> ',' ... ',' <amount> ';'
//! ```
//!
//! with six amounts in a fixed field order and the whole column the
//! concatenation of its pools (an empty list is the empty string). Numbers
//! are canonical decimals (no leading zeros, no minus zero), so every pool
//! list has exactly one encoding. The decoder accepts exactly the encoder's
//! outputs; anything else is rejected as malformed, which a relational read
//! degrades to an empty pool list rather than an error.

use vstd::prelude::*;
use vstd::string::StrSliceExecFns;
use vstd::string::StringExecFns;

use crate::records::EarningInterval;
use crate::records::Pool;
use crate::records::PoolView;

verus! {

/// Whether `c` is a decimal digit.
pub open spec fn is_digit_char(c: char) -> bool {
    c == '0' || c == '1' || c == '2' || c == '3' || c == '4' || c == '5' || c == '6' || c == '7'
        || c == '8' || c == '9'
}

/// The digit for a value below ten.
pub open spec fn digit_char(d: int) -> char {
    if d == 0 {
        '0'
    } else if d == 1 {
        '1'
    } else if d == 2 {
        '2'
    } else if d == 3 {
        '3'
    } else if d == 4 {
        '4'
    } else if d == 5 {
        '5'
    } else if d == 6 {
        '6'
    } else if d == 7 {
        '7'
    } else if d == 8 {
        '8'
    } else {
        '9'
    }
}

/// The value of a digit character.
pub open spec fn char_digit(c: char) -> int {
    if c == '0' {
        0
    } else if c == '1' {
        1
    } else if c == '2' {
        2
    } else if c == '3' {
        3
    } else if c == '4' {
        4
    } else if c == '5' {
        5
    } else if c == '6' {
        6
    } else if c == '7' {
        7
    } else if c == '8' {
        8
    } else {
        9
    }
}

/// Canonical decimal digits of `n`, most significant first.
pub open spec fn spec_enc_nat(n: nat) -> Seq<char>
    decreases n,
{
    if n < 10 {
        seq![digit_char(n as int)]
    } else {
        spec_enc_nat(n / 10).push(digit_char((n % 10) as int))
    }
}

/// Canonical decimal of an integer: a minus sign for negative values, then
/// the digits of the magnitude.
pub open spec fn spec_enc_int(v: int) -> Seq<char> {
    if v < 0 {
        seq!['-'] + spec_enc_nat((-v) as nat)
    } else {
        spec_enc_nat(v as nat)
    }
}

/// The first position at or after `i` that does not hold a digit.
pub open spec fn digits_end(s: Seq<char>, i: int) -> int
    decreases s.len() - i when 0 <= i <= s.len()
{
    if i == s.len() || !is_digit_char(s[i]) {
        i
    } else {
        digits_end(s, i + 1)
    }
}

/// The value of the digit run `s[i .. j)`, most significant first.
pub open spec fn digits_value(s: Seq<char>, i: int, j: int) -> int
    decreases j - i,
{
    if j <= i {
        0
    } else {
        digits_value(s, i, j - 1) * 10 + char_digit(s[j - 1])
    }
}

/// Reads a canonical decimal at position `i`: the maximal digit run, which
/// must be nonempty, without leading zeros, and fit an unsigned 64-bit value.
/// Returns the value and the position after the run.
pub open spec fn dec_nat_at(s: Seq<char>, i: int) -> Option<(int, int)> {
    let j = digits_end(s, i);
    if i < j && (s[i] != '0' || j == i + 1) && digits_value(s, i, j) <= u64::MAX as int {
        Some((digits_value(s, i, j), j))
    } else {
        None
    }
}

/// Reads a canonical signed decimal at position `i`, in signed 64-bit range;
/// a minus sign demands a nonzero magnitude.
pub open spec fn dec_int_at(s: Seq<char>, i: int) -> Option<(int, int)> {
    if 0 <= i < s.len() && s[i] == '-' {
        match dec_nat_at(s, i + 1) {
            Some((m, j)) => if 1 <= m <= -(i64::MIN as int) {
                Some((-m, j))
            } else {
                None
            },
            None => None,
        }
    } else {
        match dec_nat_at(s, i) {
            Some((m, j)) => if m <= i64::MAX as int {
                Some((m, j))
            } else {
                None
            },
            None => None,
        }
    }
}

/// The encoding of one pool: length-prefixed name, then the six amounts in
/// field order, comma-separated, closed by a semicolon.
pub open spec fn spec_enc_pool(p: PoolView) -> Seq<char> {
    spec_enc_nat(p.pool.len()) + seq![':'] + p.pool + seq![','] + spec_enc_int(
        p.asset_liquidity_fees as int,
    ) + seq![','] + spec_enc_int(p.rune_liquidity_fees as int) + seq![','] + spec_enc_int(
        p.total_liquidity_fees_rune as int,
    ) + seq![','] + spec_enc_int(p.saver_earning as int) + seq![','] + spec_enc_int(
        p.rewards as int,
    ) + seq![','] + spec_enc_int(p.earnings as int) + seq![';']
}

/// The encoding of a pool list: its pools' encodings in order; an empty list
/// is the empty string.
pub open spec fn spec_enc_pools(ps: Seq<PoolView>) -> Seq<char>
    decreases ps.len(),
{
    if ps.len() == 0 {
        Seq::empty()
    } else {
        spec_enc_pool(ps[0]) + spec_enc_pools(ps.drop_first())
    }
}

/// Reads one separator character and then a signed decimal.
pub open spec fn dec_sep_int(s: Seq<char>, i: int, sep: char) -> Option<(int, int)> {
    if 0 <= i < s.len() && s[i] == sep {
        dec_int_at(s, i + 1)
    } else {
        None
    }
}

/// Reads one encoded pool at position `i`: the name length, the name by that
/// count, then the six amounts. Returns the pool and the position after the
/// closing semicolon.
pub open spec fn dec_pool_at(s: Seq<char>, i: int) -> Option<(PoolView, int)> {
    match dec_nat_at(s, i) {
        Some((len, j)) => if j < s.len() && s[j] == ':' && j + 1 + len <= s.len() {
            let name = s.subrange(j + 1, j + 1 + len);
            match dec_sep_int(s, j + 1 + len, ',') {
                Some((v1, k1)) => match dec_sep_int(s, k1, ',') {
                    Some((v2, k2)) => match dec_sep_int(s, k2, ',') {
                        Some((v3, k3)) => match dec_sep_int(s, k3, ',') {
                            Some((v4, k4)) => match dec_sep_int(s, k4, ',') {
                                Some((v5, k5)) => match dec_sep_int(s, k5, ',') {
                                    Some((v6, k6)) => if k6 < s.len() && s[k6] == ';' {
                                        Some(
                                            (
                                                PoolView {
                                                    pool: name,
                                                    asset_liquidity_fees: v1 as i64,
                                                    rune_liquidity_fees: v2 as i64,
                                                    total_liquidity_fees_rune: v3 as i64,
                                                    saver_earning: v4 as i64,
                                                    rewards: v5 as i64,
                                                    earnings: v6 as i64,
                                                },
                                                k6 + 1,
                                            ),
                                        )
                                    } else {
                                        None
                                    },
                                    None => None,
                                },
                                None => None,
                            },
                            None => None,
                        },
                        None => None,
                    },
                    None => None,
                },
                None => None,
            }
        } else {
            None
        },
        None => None,
    }
}

/// Reads pools from position `i` to the end of the input; the whole input
/// must be consumed exactly.
pub open spec fn dec_pools_from(s: Seq<char>, i: int) -> Option<Seq<PoolView>>
    decreases s.len() - i when 0 <= i <= s.len()
{
    if i == s.len() {
        Some(Seq::empty())
    } else {
        match dec_pool_at(s, i) {
            Some((p, j)) => if i < j <= s.len() {
                match dec_pools_from(s, j) {
                    Some(rest) => Some(seq![p] + rest),
                    None => None,
                }
            } else {
                None
            },
            None => None,
        }
    }
}

/// What a pool-list column decodes to, if it is well formed.
pub open spec fn spec_dec_pools(s: Seq<char>) -> Option<Seq<PoolView>> {
    dec_pools_from(s, 0)
}

/// Whether `c` is a decimal digit.
fn is_digit(c: char) -> (r: bool)
    ensures
        r == is_digit_char(c),
{
    c == '0' || c == '1' || c == '2' || c == '3' || c == '4' || c == '5' || c == '6' || c == '7'
        || c == '8' || c == '9'
}

/// The value of a digit character.
fn char_to_digit(c: char) -> (d: u64)
    requires
        is_digit_char(c),
    ensures
        d == char_digit(c),
        d < 10,
{
    if c == '0' {
        0
    } else if c == '1' {
        1
    } else if c == '2' {
        2
    } else if c == '3' {
        3
    } else if c == '4' {
        4
    } else if c == '5' {
        5
    } else if c == '6' {
        6
    } else if c == '7' {
        7
    } else if c == '8' {
        8
    } else {
        9
    }
}

/// The value of a digit run never goes down as the run grows.
proof fn lemma_digits_value_mono(s: Seq<char>, i: int, a: int, b: int)
    requires
        i <= a <= b,
    ensures
        0 <= digits_value(s, i, a) <= digits_value(s, i, b),
    decreases b - a, a - i,
{
    if a == b {
        if i == a {
        } else {
            lemma_digits_value_mono(s, i, a - 1, a - 1);
        }
    } else {
        lemma_digits_value_mono(s, i, a, b - 1);
    }
}

/// Appends one digit character.
fn push_digit(out: &mut String, d: u64)
    requires
        d < 10,
    ensures
        final(out)@ == old(out)@ + seq![digit_char(d as int)],
{
    if d == 0 {
        proof {
            reveal_strlit("0");
            assert("0"@ =~= seq![digit_char(0)]);
        }
        out.append("0");
    } else if d == 1 {
        proof {
            reveal_strlit("1");
            assert("1"@ =~= seq![digit_char(1)]);
        }
        out.append("1");
    } else if d == 2 {
        proof {
            reveal_strlit("2");
            assert("2"@ =~= seq![digit_char(2)]);
        }
        out.append("2");
    } else if d == 3 {
        proof {
            reveal_strlit("3");
            assert("3"@ =~= seq![digit_char(3)]);
        }
        out.append("3");
    } else if d == 4 {
        proof {
            reveal_strlit("4");
            assert("4"@ =~= seq![digit_char(4)]);
        }
        out.append("4");
    } else if d == 5 {
        proof {
            reveal_strlit("5");
            assert("5"@ =~= seq![digit_char(5)]);
        }
        out.append("5");
    } else if d == 6 {
        proof {
            reveal_strlit("6");
            assert("6"@ =~= seq![digit_char(6)]);
        }
        out.append("6");
    } else if d == 7 {
        proof {
            reveal_strlit("7");
            assert("7"@ =~= seq![digit_char(7)]);
        }
        out.append("7");
    } else if d == 8 {
        proof {
            reveal_strlit("8");
            assert("8"@ =~= seq![digit_char(8)]);
        }
        out.append("8");
    } else {
        proof {
            reveal_strlit("9");
            assert("9"@ =~= seq![digit_char(9)]);
        }
        out.append("9");
    }
}

/// Appends the canonical decimal digits of `n`.
fn enc_nat(out: &mut String, n: u64)
    ensures
        final(out)@ == old(out)@ + spec_enc_nat(n as nat),
    decreases n,
{
    if n < 10 {
        push_digit(out, n);
    } else {
        enc_nat(out, n / 10);
        push_digit(out, n % 10);
        proof {
            assert(old(out)@ + spec_enc_nat((n / 10) as nat) + seq![digit_char((n % 10) as int)]
                =~= old(out)@ + spec_enc_nat(n as nat));
        }
    }
}

/// Appends the canonical decimal of `v`.
fn enc_int(out: &mut String, v: i64)
    ensures
        final(out)@ == old(out)@ + spec_enc_int(v as int),
{
    if v >= 0 {
        enc_nat(out, v as u64);
    } else {
        proof {
            reveal_strlit("-");
            assert("-"@ =~= seq!['-']);
        }
        out.append("-");
        let m: u64 = ((-(v + 1)) as u64) + 1;
        proof {
            assert(m as int == -(v as int));
        }
        enc_nat(out, m);
        proof {
            assert(old(out)@ + seq!['-'] + spec_enc_nat(m as nat) =~= old(out)@ + spec_enc_int(
                v as int,
            ));
        }
    }
}

/// Appends the encoding of one pool.
fn enc_pool_into(out: &mut String, p: &Pool)
    ensures
        final(out)@ == old(out)@ + spec_enc_pool(p@),
{
    proof {
        reveal_strlit(":");
        reveal_strlit(",");
        reveal_strlit(";");
        assert(":"@ =~= seq![':']);
        assert(","@ =~= seq![',']);
        assert(";"@ =~= seq![';']);
    }
    let name_len = p.pool.as_str().unicode_len();
    enc_nat(out, name_len as u64);
    out.append(":");
    out.append(p.pool.as_str());
    out.append(",");
    enc_int(out, p.asset_liquidity_fees);
    out.append(",");
    enc_int(out, p.rune_liquidity_fees);
    out.append(",");
    enc_int(out, p.total_liquidity_fees_rune);
    out.append(",");
    enc_int(out, p.saver_earning);
    out.append(",");
    enc_int(out, p.rewards);
    out.append(",");
    enc_int(out, p.earnings);
    out.append(";");
    proof {
        assert(out@ =~= old(out)@ + spec_enc_pool(p@));
    }
}

/// Reads a canonical decimal at `i`, as [`dec_nat_at`] specifies it.
fn parse_nat(s: &str, i: usize, n: usize) -> (r: Option<(u64, usize)>)
    requires
        n == s@.len(),
        i <= n,
    ensures
        match r {
            Some(vj) => dec_nat_at(s@, i as int) == Some((vj.0 as int, vj.1 as int)) && i < vj.1
                <= n,
            None => dec_nat_at(s@, i as int) is None,
        },
{
    let mut j = i;
    while j < n && is_digit(s.get_char(j))
        invariant
            n == s@.len(),
            i <= j <= n,
            digits_end(s@, i as int) == digits_end(s@, j as int),
            forall|k: int| i <= k < j ==> is_digit_char(s@[k]),
        decreases n - j,
    {
        j += 1;
    }
    proof {
        assert(digits_end(s@, j as int) == j);
    }
    if j == i {
        return None;
    }
    if s.get_char(i) == '0' && j > i + 1 {
        return None;
    }
    let mut acc: u64 = 0;
    let mut k = i;
    while k < n && k < j
        invariant
            n == s@.len(),
            i <= k <= j <= n,
            i < j,
            digits_end(s@, i as int) == j,
            s@[i as int] != '0' || j == i + 1,
            forall|t: int| i <= t < j ==> is_digit_char(s@[t]),
            acc == digits_value(s@, i as int, k as int),
        decreases j - k,
    {
        let d = char_to_digit(s.get_char(k));
        let shifted = acc.checked_mul(10);
        match shifted {
            Some(t) => {
                match t.checked_add(d) {
                    Some(u) => {
                        acc = u;
                    },
                    None => {
                        proof {
                            assert(digits_value(s@, i as int, k as int + 1) == acc * 10
                                + char_digit(s@[k as int]));
                            lemma_digits_value_mono(s@, i as int, k as int + 1, j as int);
                        }
                        return None;
                    },
                }
            },
            None => {
                proof {
                    assert(digits_value(s@, i as int, k as int + 1) == acc * 10 + char_digit(
                        s@[k as int],
                    ));
                    assert(char_digit(s@[k as int]) >= 0);
                    lemma_digits_value_mono(s@, i as int, k as int + 1, j as int);
                }
                return None;
            },
        }
        k += 1;
    }
    Some((acc, j))
}

/// Reads a canonical signed decimal at `i`, as [`dec_int_at`] specifies it.
fn parse_int(s: &str, i: usize, n: usize) -> (r: Option<(i64, usize)>)
    requires
        n == s@.len(),
        i <= n,
    ensures
        match r {
            Some(vj) => dec_int_at(s@, i as int) == Some((vj.0 as int, vj.1 as int)) && i < vj.1
                <= n,
            None => dec_int_at(s@, i as int) is None,
        },
{
    if i < n && s.get_char(i) == '-' {
        match parse_nat(s, i + 1, n) {
            Some((m, j)) => {
                if 1 <= m && m <= 9223372036854775808u64 {
                    let v: i64 = if m == 9223372036854775808u64 {
                        i64::MIN
                    } else {
                        -(m as i64)
                    };
                    Some((v, j))
                } else {
                    None
                }
            },
            None => None,
        }
    } else {
        match parse_nat(s, i, n) {
            Some((m, j)) => {
                if m <= 9223372036854775807u64 {
                    Some((m as i64, j))
                } else {
                    None
                }
            },
            None => None,
        }
    }
}

/// Reads one separator character and a signed decimal, as [`dec_sep_int`]
/// specifies it.
fn parse_sep_int(s: &str, i: usize, n: usize, sep: char) -> (r: Option<(i64, usize)>)
    requires
        n == s@.len(),
        i <= n,
    ensures
        match r {
            Some(vj) => dec_sep_int(s@, i as int, sep) == Some((vj.0 as int, vj.1 as int)) && i
                < vj.1 <= n,
            None => dec_sep_int(s@, i as int, sep) is None,
        },
{
    if i < n {
        let c = s.get_char(i);
        if c == sep {
            parse_int(s, i + 1, n)
        } else {
            None
        }
    } else {
        None
    }
}

/// Reads one encoded pool at `i`, as [`dec_pool_at`] specifies it.
fn parse_pool(s: &str, i: usize, n: usize) -> (r: Option<(Pool, usize)>)
    requires
        n == s@.len(),
        i <= n,
    ensures
        match r {
            Some(pj) => dec_pool_at(s@, i as int) == Some((pj.0@, pj.1 as int)) && i < pj.1 <= n,
            None => dec_pool_at(s@, i as int) is None,
        },
{
    let (len, j) = match parse_nat(s, i, n) {
        Some(x) => x,
        None => {
            return None;
        },
    };
    if j == n {
        return None;
    }
    if s.get_char(j) != ':' {
        return None;
    }
    if len > (n - (j + 1)) as u64 {
        return None;
    }
    let name_end = j + 1 + (len as usize);
    let name = s.substring_char(j + 1, name_end).to_owned();
    let (v1, k1) = match parse_sep_int(s, name_end, n, ',') {
        Some(x) => x,
        None => {
            return None;
        },
    };
    let (v2, k2) = match parse_sep_int(s, k1, n, ',') {
        Some(x) => x,
        None => {
            return None;
        },
    };
    let (v3, k3) = match parse_sep_int(s, k2, n, ',') {
        Some(x) => x,
        None => {
            return None;
        },
    };
    let (v4, k4) = match parse_sep_int(s, k3, n, ',') {
        Some(x) => x,
        None => {
            return None;
        },
    };
    let (v5, k5) = match parse_sep_int(s, k4, n, ',') {
        Some(x) => x,
        None => {
            return None;
        },
    };
    let (v6, k6) = match parse_sep_int(s, k5, n, ',') {
        Some(x) => x,
        None => {
            return None;
        },
    };
    if k6 == n {
        return None;
    }
    if s.get_char(k6) != ';' {
        return None;
    }
    let p = Pool {
        pool: name,
        asset_liquidity_fees: v1,
        rune_liquidity_fees: v2,
        total_liquidity_fees_rune: v3,
        saver_earning: v4,
        rewards: v5,
        earnings: v6,
    };
    Some((p, k6 + 1))
}

/// `rest` with `pre` in front of it, if it is anything.
spec fn prepend_opt(pre: Seq<PoolView>, rest: Option<Seq<PoolView>>) -> Option<Seq<PoolView>> {
    match rest {
        Some(r) => Some(pre + r),
        None => None,
    }
}

/// Decodes a pool-list column: `Some` of the pools exactly when the text is a
/// well-formed encoding, `None` otherwise.
pub fn decode_pools(s: &str) -> (r: Option<Vec<Pool>>)
    ensures
        match r {
            Some(ps) => spec_dec_pools(s@) == Some(ps@.map_values(|q: Pool| q@)),
            None => spec_dec_pools(s@) is None,
        },
{
    let n = s.unicode_len();
    let mut out: Vec<Pool> = Vec::new();
    let mut i: usize = 0;
    proof {
        assert(out@.map_values(|q: Pool| q@) =~= Seq::<PoolView>::empty());
        match dec_pools_from(s@, 0) {
            Some(rest) => {
                assert(Seq::<PoolView>::empty() + rest =~= rest);
            },
            None => {},
        }
    }
    while i < n
        invariant
            n == s@.len(),
            i <= n,
            dec_pools_from(s@, 0) == prepend_opt(
                out@.map_values(|q: Pool| q@),
                dec_pools_from(s@, i as int),
            ),
        decreases n - i,
    {
        let ghost prev = out@.map_values(|q: Pool| q@);
        let ghost ii = i as int;
        match parse_pool(s, i, n) {
            None => {
                proof {
                    assert(dec_pools_from(s@, ii) is None);
                }
                return None;
            },
            Some((p, j)) => {
                proof {
                    match dec_pools_from(s@, j as int) {
                        Some(rest) => {
                            assert(dec_pools_from(s@, ii) == Some(seq![p@] + rest));
                            assert(prev + (seq![p@] + rest) =~= prev.push(p@) + rest);
                        },
                        None => {
                            assert(dec_pools_from(s@, ii) is None);
                        },
                    }
                }
                out.push(p);
                i = j;
                proof {
                    assert(out@.map_values(|q: Pool| q@) =~= prev.push(p@));
                }
            },
        }
    }
    proof {
        assert(dec_pools_from(s@, i as int) == Some(Seq::<PoolView>::empty()));
        assert(out@.map_values(|q: Pool| q@) + Seq::<PoolView>::empty() =~= out@.map_values(
            |q: Pool| q@,
        ));
    }
    Some(out)
}

/// Reads a pool-list column for a relational earnings row: well-formed text
/// decodes to its pools; malformed text degrades to an empty pool list rather
/// than an error.
pub fn pools_from_column(text: &str) -> (r: Vec<Pool>)
    ensures
        match spec_dec_pools(text@) {
            Some(ps) => r@.map_values(|q: Pool| q@) == ps,
            None => r@.map_values(|q: Pool| q@) == Seq::<PoolView>::empty(),
        },
{
    match decode_pools(text) {
        Some(ps) => ps,
        None => {
            let empty: Vec<Pool> = Vec::new();
            proof {
                assert(empty@.map_values(|q: Pool| q@) =~= Seq::<PoolView>::empty());
            }
            empty
        },
    }
}

/// Builds an earnings interval from one relational row: the scalar columns as
/// they stand, the pool list from its encoded column, degrading malformed
/// text to an empty list rather than an error.
pub fn earning_row_to_interval(
    avg_node_count: i64,
    block_rewards: i64,
    bonding_earnings: i64,
    earnings: i64,
    end_time: i64,
    liquidity_earnings: i64,
    liquidity_fees: i64,
    rune_price_usd: i64,
    start_time: i64,
    pools_column: &str,
) -> (r: EarningInterval)
    ensures
        r.avg_node_count == avg_node_count,
        r.block_rewards == block_rewards,
        r.bonding_earnings == bonding_earnings,
        r.earnings == earnings,
        r.end_time == end_time,
        r.liquidity_earnings == liquidity_earnings,
        r.liquidity_fees == liquidity_fees,
        r.rune_price_usd == rune_price_usd,
        r.start_time == start_time,
        match spec_dec_pools(pools_column@) {
            Some(ps) => r@.pools == ps,
            None => r@.pools == Seq::<PoolView>::empty(),
        },
{
    EarningInterval {
        avg_node_count,
        block_rewards,
        bonding_earnings,
        earnings,
        end_time,
        liquidity_earnings,
        liquidity_fees,
        rune_price_usd,
        start_time,
        pools: pools_from_column(pools_column),
    }
}

/// Appending a pool to the list appends its encoding to the text.
proof fn lemma_enc_pools_push(ps: Seq<PoolView>, p: PoolView)
    ensures
        spec_enc_pools(ps.push(p)) == spec_enc_pools(ps) + spec_enc_pool(p),
    decreases ps.len(),
{
    if ps.len() == 0 {
        assert(ps.push(p)[0] == p);
        assert(ps.push(p).drop_first() =~= Seq::<PoolView>::empty());
        assert(spec_enc_pool(p) + Seq::<char>::empty() =~= Seq::<char>::empty() + spec_enc_pool(
            p,
        ));
        assert(spec_enc_pools(ps.push(p)) == spec_enc_pool(p) + spec_enc_pools(
            ps.push(p).drop_first(),
        ));
        assert(spec_enc_pools(ps.push(p).drop_first()) == Seq::<char>::empty());
        assert(spec_enc_pools(ps) == Seq::<char>::empty());
        assert(spec_enc_pools(ps.push(p)) == spec_enc_pools(ps) + spec_enc_pool(p));
    } else {
        lemma_enc_pools_push(ps.drop_first(), p);
        assert(ps.push(p).drop_first() =~= ps.drop_first().push(p));
        assert(ps.push(p)[0] == ps[0]);
        assert((spec_enc_pool(ps[0]) + spec_enc_pools(ps.drop_first())) + spec_enc_pool(p) =~= spec_enc_pool(
            ps[0],
        ) + (spec_enc_pools(ps.drop_first()) + spec_enc_pool(p)));
    }
}

/// Digits of a canonical encoding: at least one, all digit characters, no
/// leading zero unless the number is a single digit.
proof fn lemma_enc_nat_digits(n: nat)
    ensures
        spec_enc_nat(n).len() >= 1,
        forall|k: int| 0 <= k < spec_enc_nat(n).len() ==> is_digit_char(#[trigger] spec_enc_nat(n)[k]),
        n >= 1 ==> spec_enc_nat(n)[0] != '0',
        spec_enc_nat(n)[0] != '0' || spec_enc_nat(n).len() == 1,
    decreases n,
{
    if n < 10 {
    } else {
        lemma_enc_nat_digits(n / 10);
        assert(spec_enc_nat(n)[0] == spec_enc_nat(n / 10)[0]);
        assert(forall|k: int|
            0 <= k < spec_enc_nat(n / 10).len() ==> #[trigger] spec_enc_nat(n)[k] == spec_enc_nat(
                n / 10,
            )[k]);
    }
}

/// A run of digits closed by a non-digit (or the end) is maximal.
proof fn lemma_digits_end_run(s: Seq<char>, i: int, e: int)
    requires
        0 <= i <= e <= s.len(),
        forall|k: int| i <= k < e ==> is_digit_char(#[trigger] s[k]),
        e == s.len() || !is_digit_char(s[e]),
    ensures
        digits_end(s, i) == e,
    decreases e - i,
{
    if i < e {
        lemma_digits_end_run(s, i + 1, e);
    }
}

/// An index inside an embedded sequence reads the embedded character.
proof fn lemma_index_of_eq(s: Seq<char>, i: int, w: Seq<char>, x: int)
    requires
        0 <= i,
        i + w.len() <= s.len(),
        s.subrange(i, i + w.len() as int) == w,
        0 <= x < w.len(),
    ensures
        s[i + x] == w[x],
{
    assert(s.subrange(i, i + w.len() as int)[x] == s[i + x]);
}

/// A subrange inside an embedded sequence reads the embedded subrange.
proof fn lemma_subrange_of_eq(s: Seq<char>, i: int, w: Seq<char>, a: int, b: int)
    requires
        0 <= i,
        i + w.len() <= s.len(),
        s.subrange(i, i + w.len() as int) == w,
        0 <= a <= b <= w.len(),
    ensures
        s.subrange(i + a, i + b) == w.subrange(a, b),
{
    assert(s.subrange(i + a, i + b) =~= w.subrange(a, b)) by {
        assert(forall|t: int|
            0 <= t < b - a ==> #[trigger] s.subrange(i + a, i + b)[t] == s.subrange(
                i,
                i + w.len() as int,
            )[a + t]);
    }
}

/// The digit run of an embedded canonical encoding has the encoded value.
proof fn lemma_digits_value_enc(s: Seq<char>, i: int, n: nat)
    requires
        0 <= i,
        i + spec_enc_nat(n).len() <= s.len(),
        s.subrange(i, i + spec_enc_nat(n).len() as int) == spec_enc_nat(n),
    ensures
        digits_value(s, i, i + spec_enc_nat(n).len() as int) == n,
    decreases n,
{
    let w = spec_enc_nat(n);
    let ll = w.len() as int;
    if n < 10 {
        lemma_index_of_eq(s, i, w, 0);
        assert(digits_value(s, i, i + 1) == digits_value(s, i, i) * 10 + char_digit(s[i]));
        assert(char_digit(digit_char(n as int)) == n as int);
    } else {
        let wp = spec_enc_nat(n / 10);
        let lp = wp.len() as int;
        assert(ll == lp + 1);
        lemma_subrange_of_eq(s, i, w, 0, lp);
        assert(w.subrange(0, lp) =~= wp);
        lemma_digits_value_enc(s, i, n / 10);
        lemma_index_of_eq(s, i, w, ll - 1);
        assert(w[ll - 1] == digit_char((n % 10) as int));
        assert(char_digit(digit_char((n % 10) as int)) == (n % 10) as int);
        assert(digits_value(s, i, i + ll) == digits_value(s, i, i + lp) * 10 + char_digit(
            s[i + lp],
        ));
        assert(n / 10 * 10 + n % 10 == n) by {
            vstd::arithmetic::div_mod::lemma_fundamental_div_mod(n as int, 10);
        }
    }
}

/// Reading at an embedded canonical unsigned encoding yields its value and
/// stops right after it, provided no digit follows it.
proof fn lemma_dec_enc_nat(s: Seq<char>, i: int, n: nat)
    requires
        n <= u64::MAX,
        0 <= i,
        i + spec_enc_nat(n).len() <= s.len(),
        s.subrange(i, i + spec_enc_nat(n).len() as int) == spec_enc_nat(n),
        i + spec_enc_nat(n).len() == s.len() || !is_digit_char(s[i + spec_enc_nat(n).len()]),
    ensures
        dec_nat_at(s, i) == Some((n as int, i + spec_enc_nat(n).len() as int)),
{
    let w = spec_enc_nat(n);
    let e = i + w.len() as int;
    lemma_enc_nat_digits(n);
    assert(forall|k: int| i <= k < e ==> is_digit_char(#[trigger] s[k])) by {
        assert(forall|k: int|
            i <= k < e ==> #[trigger] s[k] == s.subrange(i, i + w.len() as int)[k - i]);
    }
    lemma_digits_end_run(s, i, e);
    lemma_digits_value_enc(s, i, n);
    lemma_index_of_eq(s, i, w, 0);
}

/// Reading at an embedded canonical signed encoding yields its value and
/// stops right after it, provided no digit follows it.
proof fn lemma_dec_enc_int(s: Seq<char>, i: int, v: int)
    requires
        i64::MIN <= v <= i64::MAX,
        0 <= i,
        i + spec_enc_int(v).len() <= s.len(),
        s.subrange(i, i + spec_enc_int(v).len() as int) == spec_enc_int(v),
        i + spec_enc_int(v).len() == s.len() || !is_digit_char(s[i + spec_enc_int(v).len()]),
    ensures
        dec_int_at(s, i) == Some((v, i + spec_enc_int(v).len() as int)),
{
    let w = spec_enc_int(v);
    if v < 0 {
        let a = spec_enc_nat((-v) as nat);
        lemma_index_of_eq(s, i, w, 0);
        assert(w[0] == '-');
        lemma_subrange_of_eq(s, i, w, 1, w.len() as int);
        assert(w.subrange(1, w.len() as int) =~= a);
        lemma_dec_enc_nat(s, i + 1, (-v) as nat);
        lemma_enc_nat_digits((-v) as nat);
    } else {
        lemma_enc_nat_digits(v as nat);
        lemma_index_of_eq(s, i, w, 0);
        assert(is_digit_char(s[i]));
        assert(s[i] != '-');
        lemma_dec_enc_nat(s, i, v as nat);
    }
}

/// Reading at an embedded pool encoding yields the pool and stops right after
/// its closing semicolon.
#[verifier::rlimit(50)]
proof fn lemma_dec_enc_pool(s: Seq<char>, i: int, p: PoolView)
    requires
        p.pool.len() <= u64::MAX,
        0 <= i,
        i + spec_enc_pool(p).len() <= s.len(),
        s.subrange(i, i + spec_enc_pool(p).len() as int) == spec_enc_pool(p),
    ensures
        dec_pool_at(s, i) == Some((p, i + spec_enc_pool(p).len() as int)),
{
    let w = spec_enc_pool(p);
    let a0 = spec_enc_nat(p.pool.len());
    let nm = p.pool;
    let f1 = spec_enc_int(p.asset_liquidity_fees as int);
    let f2 = spec_enc_int(p.rune_liquidity_fees as int);
    let f3 = spec_enc_int(p.total_liquidity_fees_rune as int);
    let f4 = spec_enc_int(p.saver_earning as int);
    let f5 = spec_enc_int(p.rewards as int);
    let f6 = spec_enc_int(p.earnings as int);
    let l0 = a0.len() as int;
    let ln = nm.len() as int;
    // offsets inside the encoding
    let oc = l0;  // ':'
    let om = l0 + 1;  // name
    let ot1 = om + ln;  // ','
    let o1 = ot1 + 1;  // first amount
    let ot2 = o1 + f1.len() as int;
    let o2 = ot2 + 1;
    let ot3 = o2 + f2.len() as int;
    let o3 = ot3 + 1;
    let ot4 = o3 + f3.len() as int;
    let o4 = ot4 + 1;
    let ot5 = o4 + f4.len() as int;
    let o5 = ot5 + 1;
    let ot6 = o5 + f5.len() as int;
    let o6 = ot6 + 1;
    let ot7 = o6 + f6.len() as int;  // ';'
    let oe = ot7 + 1;  // one past the pool
    assert(w.len() == oe);
    assert(w.subrange(0, l0) =~= a0);
    assert(w[oc] == ':');
    assert(w.subrange(om, om + ln) =~= nm);
    assert(w[ot1] == ',');
    assert(w.subrange(o1, ot2) =~= f1);
    assert(w[ot2] == ',');
    assert(w.subrange(o2, ot3) =~= f2);
    assert(w[ot3] == ',');
    assert(w.subrange(o3, ot4) =~= f3);
    assert(w[ot4] == ',');
    assert(w.subrange(o4, ot5) =~= f4);
    assert(w[ot5] == ',');
    assert(w.subrange(o5, ot6) =~= f5);
    assert(w[ot6] == ',');
    assert(w.subrange(o6, ot7) =~= f6);
    assert(w[ot7] == ';');
    // the same facts at the embedding's position in `s`
    lemma_subrange_of_eq(s, i, w, 0, l0);
    lemma_index_of_eq(s, i, w, oc);
    lemma_subrange_of_eq(s, i, w, om, om + ln);
    lemma_index_of_eq(s, i, w, ot1);
    lemma_subrange_of_eq(s, i, w, o1, ot2);
    lemma_index_of_eq(s, i, w, ot2);
    lemma_subrange_of_eq(s, i, w, o2, ot3);
    lemma_index_of_eq(s, i, w, ot3);
    lemma_subrange_of_eq(s, i, w, o3, ot4);
    lemma_index_of_eq(s, i, w, ot4);
    lemma_subrange_of_eq(s, i, w, o4, ot5);
    lemma_index_of_eq(s, i, w, ot5);
    lemma_subrange_of_eq(s, i, w, o5, ot6);
    lemma_index_of_eq(s, i, w, ot6);
    lemma_subrange_of_eq(s, i, w, o6, ot7);
    lemma_index_of_eq(s, i, w, ot7);
    // the length prefix reads back, stopped by the colon
    lemma_dec_enc_nat(s, i, p.pool.len());
    assert(dec_nat_at(s, i) == Some((ln, i + l0)));
    // each amount reads back, stopped by its separator
    lemma_dec_enc_int(s, i + o1, p.asset_liquidity_fees as int);
    lemma_dec_enc_int(s, i + o2, p.rune_liquidity_fees as int);
    lemma_dec_enc_int(s, i + o3, p.total_liquidity_fees_rune as int);
    lemma_dec_enc_int(s, i + o4, p.saver_earning as int);
    lemma_dec_enc_int(s, i + o5, p.rewards as int);
    lemma_dec_enc_int(s, i + o6, p.earnings as int);
    assert(dec_sep_int(s, i + ot1, ',') == Some((p.asset_liquidity_fees as int, i + ot2)));
    assert(dec_sep_int(s, i + ot2, ',') == Some((p.rune_liquidity_fees as int, i + ot3)));
    assert(dec_sep_int(s, i + ot3, ',') == Some((p.total_liquidity_fees_rune as int, i + ot4)));
    assert(dec_sep_int(s, i + ot4, ',') == Some((p.saver_earning as int, i + ot5)));
    assert(dec_sep_int(s, i + ot5, ',') == Some((p.rewards as int, i + ot6)));
    assert(dec_sep_int(s, i + ot6, ',') == Some((p.earnings as int, i + ot7)));
    match dec_pool_at(s, i) {
        Some(pj) => {
            assert(pj.0 =~= p);
            assert(pj.1 == i + oe);
        },
        None => {
            assert(false);
        },
    }
}

/// Reading pools at an embedded pool-list encoding that reaches the end of
/// the input yields exactly the encoded pools.
proof fn lemma_dec_enc_pools_from(s: Seq<char>, i: int, ps: Seq<PoolView>)
    requires
        0 <= i <= s.len(),
        s.subrange(i, s.len() as int) == spec_enc_pools(ps),
        forall|k: int| 0 <= k < ps.len() ==> (#[trigger] ps[k]).pool.len() <= u64::MAX,
    ensures
        dec_pools_from(s, i) == Some(ps),
    decreases ps.len(),
{
    if ps.len() == 0 {
        assert(s.subrange(i, s.len() as int).len() == 0);
    } else {
        let w = spec_enc_pool(ps[0]);
        let rest = spec_enc_pools(ps.drop_first());
        let tail = s.subrange(i, s.len() as int);
        assert(tail == w + rest);
        assert(w.len() >= 1);
        let j = i + w.len() as int;
        assert(j <= s.len());
        lemma_subrange_of_eq(s, i, tail, 0, w.len() as int);
        assert(tail.subrange(0, w.len() as int) =~= w);
        lemma_dec_enc_pool(s, i, ps[0]);
        lemma_subrange_of_eq(s, i, tail, w.len() as int, tail.len() as int);
        assert(tail.subrange(w.len() as int, tail.len() as int) =~= rest);
        lemma_dec_enc_pools_from(s, j, ps.drop_first());
        assert(seq![ps[0]] + ps.drop_first() =~= ps);
    }
}

/// Round trip: every pool list decodes from its own encoding. The one premise
/// is the machine limit a stored pool meets by construction: its name length
/// fits an unsigned 64-bit value.
pub proof fn lemma_codec_round_trip(ps: Seq<PoolView>)
    requires
        forall|k: int| 0 <= k < ps.len() ==> (#[trigger] ps[k]).pool.len() <= u64::MAX,
    ensures
        spec_dec_pools(spec_enc_pools(ps)) == Some(ps),
{
    let s = spec_enc_pools(ps);
    assert(s.subrange(0, s.len() as int) =~= s);
    lemma_dec_enc_pools_from(s, 0, ps);
}

/// Encodes a pool list into its column text.
pub fn encode_pools(pools: &Vec<Pool>) -> (r: String)
    ensures
        r@ == spec_enc_pools(pools@.map_values(|q: Pool| q@)),
{
    let mut out = String::new();
    proof {
        assert(pools@.map_values(|q: Pool| q@).subrange(0, 0) =~= Seq::<PoolView>::empty());
    }
    let mut i: usize = 0;
    while i < pools.len()
        invariant
            i <= pools@.len(),
            out@ == spec_enc_pools(pools@.map_values(|q: Pool| q@).subrange(0, i as int)),
        decreases pools@.len() - i,
    {
        enc_pool_into(&mut out, &pools[i]);
        proof {
            let vs = pools@.map_values(|q: Pool| q@);
            lemma_enc_pools_push(vs.subrange(0, i as int), vs[i as int]);
            assert(vs.subrange(0, i as int).push(vs[i as int]) =~= vs.subrange(0, i as int + 1));
        }
        i += 1;
    }
    proof {
        let vs = pools@.map_values(|q: Pool| q@);
        assert(vs.subrange(0, vs.len() as int) =~= vs);
    }
    out
}

} // verus!
