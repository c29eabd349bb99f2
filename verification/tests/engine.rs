use portfolio_tracker::portfolio_service::{PortfolioService, FULL_POSITION};
use portfolio_tracker::position::{Position, PositionStatus};
use portfolio_tracker::quote::{QuoteMap, RealQuote};
use portfolio_tracker::rational::Rational;

fn pos(code: &str, name: &str, price: i64, date: &str, qty: i64, portfolio: &str) -> Position {
    Position::new(
        code.to_string(),
        name.to_string(),
        price,
        date.to_string(),
        qty,
        portfolio.to_string(),
    )
}

/// One portfolio, one code with two open trades, quoted at 15.00: the trade,
/// instrument and portfolio numbers come out exactly.
#[test]
fn scenario_single_code_two_trades() {
    let positions = vec![
        pos("600519", "贵州茅台", 1000, "2025-01-01", 100, "P1"),
        pos("600519", "贵州茅台", 1200, "2025-01-02", 50, "P1"),
    ];
    let mut quotes = QuoteMap::new();
    quotes.insert(RealQuote::new("600519".to_string(), "贵州茅台".to_string(), 1500));
    let result = PortfolioService::aggregate_positions(positions, &quotes, FULL_POSITION).unwrap();
    assert_eq!(result.len(), 1);
    let p = &result[0];
    assert_eq!(p.portfolio, "P1");
    assert_eq!(p.target_profit_losses.len(), 1);
    let t = &p.target_profit_losses[0];
    assert_eq!(t.code, "600519");
    assert_eq!(t.name, "贵州茅台");
    assert_eq!(t.real_price, 1500);
    // Most recent buy first.
    assert_eq!(t.position_profit_losses.len(), 2);
    assert_eq!(t.position_profit_losses[0].buy_date, "2025-01-02");
    assert_eq!(t.position_profit_losses[0].profit_loss, 15000);
    assert_eq!(t.position_profit_losses[0].position_cost, 60000);
    assert_eq!(t.position_profit_losses[1].buy_date, "2025-01-01");
    assert_eq!(t.position_profit_losses[1].profit_loss, 50000);
    assert_eq!(t.position_profit_losses[1].position_cost, 100000);
    // Instrument totals: cost 1600.00, profit 650.00, rate 650/1600 = 0.40625.
    assert_eq!(t.target_profit_loss, 65000);
    assert_eq!(t.target_profit_loss_rate, Rational { num: 65000, den: 160000 });
    assert_eq!(t.target_profit_loss_rate.same_value(&Rational { num: 13, den: 32 }), true);
    // Recommendation bands: most recent buy 12.00, ±10%.
    assert_eq!(t.recommended_buy_in_point, Rational { num: 9 * 1200, den: 10 });
    assert_eq!(t.recommended_sale_out_point, Rational { num: 11 * 1200, den: 10 });
    // Portfolio totals re-derived through the ratio are exactly the cost.
    assert_eq!(p.sum_position_cost, 160000);
    assert_eq!(p.sum_profit_losses, 65000);
    assert_eq!(p.sum_profit_losses_rate, Rational { num: 65000, den: 160000 });
    assert_eq!(p.full_position, 5_000_000);
}

/// A second code with no quote in the map is silently excluded: it appears
/// nowhere and changes no total.
#[test]
fn scenario_unquoted_code_excluded() {
    let positions = vec![
        pos("600519", "贵州茅台", 1000, "2025-01-01", 100, "P1"),
        pos("600519", "贵州茅台", 1200, "2025-01-02", 50, "P1"),
        pos("000001", "平安银行", 1250, "2025-01-03", 1000, "P1"),
    ];
    let mut quotes = QuoteMap::new();
    quotes.insert(RealQuote::new("600519".to_string(), "贵州茅台".to_string(), 1500));
    let result = PortfolioService::aggregate_positions(positions, &quotes, FULL_POSITION).unwrap();
    assert_eq!(result.len(), 1);
    let p = &result[0];
    assert_eq!(p.target_profit_losses.len(), 1);
    assert_eq!(p.target_profit_losses[0].code, "600519");
    assert_eq!(p.sum_position_cost, 160000);
    assert_eq!(p.sum_profit_losses, 65000);
}

/// Cost-exposure ratio: cost 1600.00 over the 50000.00 constant is exactly
/// 0.032.
#[test]
fn scenario_cost_exposure_ratio() {
    let positions = vec![
        pos("600519", "贵州茅台", 1000, "2025-01-01", 100, "P1"),
        pos("600519", "贵州茅台", 1200, "2025-01-02", 50, "P1"),
    ];
    let mut quotes = QuoteMap::new();
    quotes.insert(RealQuote::new("600519".to_string(), "贵州茅台".to_string(), 1500));
    let result = PortfolioService::aggregate_positions(positions, &quotes, FULL_POSITION).unwrap();
    let t = &result[0].target_profit_losses[0];
    assert_eq!(t.cost_position_rate, Rational { num: 160000, den: 5_000_000 });
    // 160000 / 5000000 == 0.032 == 32/1000.
    assert_eq!(t.cost_position_rate.same_value(&Rational { num: 32, den: 1000 }), true);
    // Current exposure: market value 15.00 × 150 shares over the constant.
    assert_eq!(t.current_position_rate, Rational { num: 1500 * 150, den: 5_000_000 });
}

/// A portfolio whose only code has no quote is still emitted, with an empty
/// instrument list and zero totals.
#[test]
fn portfolio_with_no_quoted_codes_is_empty() {
    let positions = vec![pos("999999", "无价", 1000, "2025-01-01", 1, "P1")];
    let quotes = QuoteMap::new();
    let result = PortfolioService::aggregate_positions(positions, &quotes, FULL_POSITION).unwrap();
    assert_eq!(result.len(), 1);
    assert_eq!(result[0].portfolio, "P1");
    assert_eq!(result[0].target_profit_losses.len(), 0);
    assert_eq!(result[0].sum_position_cost, 0);
    assert_eq!(result[0].sum_profit_losses, 0);
    assert_eq!(result[0].sum_profit_losses_rate, Rational { num: 0, den: 1 });
}

/// An empty position list aggregates to an empty list without error.
#[test]
fn scenario_empty_positions() {
    let quotes = QuoteMap::new();
    let result = PortfolioService::aggregate_positions(Vec::new(), &quotes, FULL_POSITION)
        .unwrap();
    assert_eq!(result.len(), 0);
}

/// Closed records are filtered out by the engine itself.
#[test]
fn closed_positions_are_ignored() {
    let mut closed = pos("600519", "贵州茅台", 1000, "2025-01-01", 100, "P1");
    closed.close_out(1500, "2025-02-01".to_string()).unwrap();
    assert_eq!(closed.status, PositionStatus::Closed);
    let positions = vec![closed, pos("600519", "贵州茅台", 1200, "2025-01-02", 50, "P1")];
    let mut quotes = QuoteMap::new();
    quotes.insert(RealQuote::new("600519".to_string(), "贵州茅台".to_string(), 1500));
    let result = PortfolioService::aggregate_positions(positions, &quotes, FULL_POSITION).unwrap();
    let t = &result[0].target_profit_losses[0];
    assert_eq!(t.position_profit_losses.len(), 1);
    assert_eq!(t.target_profit_loss, 15000);
}

/// Instruments within a portfolio come out ordered by cost-exposure ratio,
/// largest first; portfolios appear in order of first appearance.
#[test]
fn instruments_ordered_by_exposure() {
    let positions = vec![
        pos("000002", "小仓", 100, "2025-01-01", 10, "P1"),
        pos("600519", "大仓", 1000, "2025-01-02", 100, "P1"),
        pos("000333", "中仓", 500, "2025-01-03", 40, "P1"),
        pos("600000", "别仓", 300, "2025-01-04", 10, "P2"),
    ];
    let mut quotes = QuoteMap::new();
    quotes.insert(RealQuote::new("000002".to_string(), "小仓".to_string(), 110));
    quotes.insert(RealQuote::new("600519".to_string(), "大仓".to_string(), 1100));
    quotes.insert(RealQuote::new("000333".to_string(), "中仓".to_string(), 510));
    quotes.insert(RealQuote::new("600000".to_string(), "别仓".to_string(), 310));
    let result = PortfolioService::aggregate_positions(positions, &quotes, FULL_POSITION).unwrap();
    assert_eq!(result.len(), 2);
    assert_eq!(result[0].portfolio, "P1");
    assert_eq!(result[1].portfolio, "P2");
    let codes: Vec<&str> = result[0].target_profit_losses.iter().map(|t| t.code.as_str()).collect();
    // Costs: 600519 -> 100000, 000333 -> 20000, 000002 -> 1000.
    assert_eq!(codes, vec!["600519", "000333", "000002"]);
    for w in result[0].target_profit_losses.windows(2) {
        assert!(w[1].cost_position_rate.le(&w[0].cost_position_rate));
    }
}

/// Aggregation is a pure function: the same inputs give the same output.
#[test]
fn aggregate_is_deterministic() {
    let build = || {
        vec![
            pos("600519", "贵州茅台", 1000, "2025-01-01", 100, "P1"),
            pos("000001", "平安银行", 1250, "2025-01-02", 1000, "P2"),
        ]
    };
    let mut quotes = QuoteMap::new();
    quotes.insert(RealQuote::new("600519".to_string(), "贵州茅台".to_string(), 1500));
    quotes.insert(RealQuote::new("000001".to_string(), "平安银行".to_string(), 1300));
    let mut a = build();
    let mut b = build();
    // Identifiers are freshly generated; align them so the inputs are identical.
    for (x, y) in a.iter_mut().zip(b.iter_mut()) {
        y.id = x.id.clone();
    }
    let r1 = PortfolioService::aggregate_positions(a, &quotes, FULL_POSITION).unwrap();
    let r2 = PortfolioService::aggregate_positions(b, &quotes, FULL_POSITION).unwrap();
    assert_eq!(r1.len(), r2.len());
    for (p1, p2) in r1.iter().zip(r2.iter()) {
        assert_eq!(p1.portfolio, p2.portfolio);
        assert_eq!(p1.sum_position_cost, p2.sum_position_cost);
        assert_eq!(p1.sum_profit_losses, p2.sum_profit_losses);
        assert_eq!(p1.sum_profit_losses_rate, p2.sum_profit_losses_rate);
        assert_eq!(p1.target_profit_losses.len(), p2.target_profit_losses.len());
        for (t1, t2) in p1.target_profit_losses.iter().zip(p2.target_profit_losses.iter()) {
            assert_eq!(t1.code, t2.code);
            assert_eq!(t1.target_profit_loss, t2.target_profit_loss);
            assert_eq!(t1.cost_position_rate, t2.cost_position_rate);
        }
    }
}

/// The portfolio total cost equals the direct sum of the instruments' costs,
/// exactly, even with several instruments.
#[test]
fn portfolio_cost_equals_instrument_costs() {
    let positions = vec![
        pos("600519", "甲", 1000, "2025-01-01", 100, "P1"),
        pos("000001", "乙", 1250, "2025-01-02", 1000, "P1"),
        pos("000333", "丙", 777, "2025-01-03", 13, "P1"),
    ];
    let mut quotes = QuoteMap::new();
    quotes.insert(RealQuote::new("600519".to_string(), "甲".to_string(), 1500));
    quotes.insert(RealQuote::new("000001".to_string(), "乙".to_string(), 1300));
    quotes.insert(RealQuote::new("000333".to_string(), "丙".to_string(), 700));
    let result = PortfolioService::aggregate_positions(positions, &quotes, FULL_POSITION).unwrap();
    let p = &result[0];
    let direct: i128 = p.target_profit_losses.iter().map(|t| t.cost_position_rate.num).sum();
    assert_eq!(p.sum_position_cost, direct);
    assert_eq!(p.sum_position_cost, 100000 + 1250000 + 10101);
}

/// Trades within an instrument come out ordered by buy date, most recent
/// first, with ties kept in input order.
#[test]
fn trades_ordered_by_date() {
    let positions = vec![
        pos("600519", "甲", 1000, "2025-01-02", 10, "P1"),
        pos("600519", "甲", 1100, "2025-01-01", 20, "P1"),
        pos("600519", "甲", 1200, "2025-01-03", 30, "P1"),
        pos("600519", "甲", 1300, "2025-01-02", 40, "P1"),
    ];
    let mut quotes = QuoteMap::new();
    quotes.insert(RealQuote::new("600519".to_string(), "甲".to_string(), 1500));
    let result = PortfolioService::aggregate_positions(positions, &quotes, FULL_POSITION).unwrap();
    let trades = &result[0].target_profit_losses[0].position_profit_losses;
    let dates: Vec<&str> = trades.iter().map(|t| t.buy_date.as_str()).collect();
    assert_eq!(dates, vec!["2025-01-03", "2025-01-02", "2025-01-02", "2025-01-01"]);
    // Stability: of the two 2025-01-02 trades, the first pushed stays first.
    assert_eq!(trades[1].buy_price, 1000);
    assert_eq!(trades[2].buy_price, 1300);
}
