use portfolio_tracker::closed_trade::{ClosedTrade, ClosedTradeService};
use portfolio_tracker::error::{AppError, ErrorResponse};
use portfolio_tracker::position::{CreatePositionRequest, Position, PositionStatus};
use portfolio_tracker::rational::Rational;
use portfolio_tracker::summary::{PortfolioSummary, PositionQuery, PositionStats};

fn open_pos(code: &str, price: i64, date: &str, qty: i64) -> Position {
    Position::new(
        code.to_string(),
        "名字".to_string(),
        price,
        date.to_string(),
        qty,
        "组合".to_string(),
    )
}

#[test]
fn new_position_is_open_with_fresh_id() {
    let p = open_pos("600519", 1000, "2025-01-01", 100);
    assert_eq!(p.status, PositionStatus::Open);
    assert_eq!(p.id.chars().count(), 36);
    assert!(p.sell_price.is_none());
    assert!(p.sell_date.is_none());
    assert!(p.parent_id.is_none());
    assert!(p.is_position());
    assert!(!p.is_closed());
}

#[test]
fn from_request_lowercases_the_code() {
    let p = Position::from_request(CreatePositionRequest {
        code: "SH600519".to_string(),
        name: "贵州茅台".to_string(),
        buy_price: 1000,
        buy_date: "2025-01-01".to_string(),
        quantity: 100,
        portfolio: "组合".to_string(),
    });
    assert_eq!(p.code, "sh600519");
    assert_eq!(p.name, "贵州茅台");
}

#[test]
fn validate_reports_the_first_violation() {
    let mut p = open_pos("600519", 1000, "2025-01-01", 100);
    assert!(p.validate().is_ok());
    p.code = String::new();
    match p.validate().unwrap_err() {
        AppError::InvalidInput(m) => assert_eq!(m, "股票代码不能为空"),
        _ => panic!("wrong error kind"),
    }
    p.code = "600519".to_string();
    p.name = String::new();
    match p.validate().unwrap_err() {
        AppError::InvalidInput(m) => assert_eq!(m, "股票名称不能为空"),
        _ => panic!("wrong error kind"),
    }
    p.name = "名".to_string();
    p.buy_price = 0;
    match p.validate().unwrap_err() {
        AppError::InvalidInput(m) => assert_eq!(m, "买入价格必须大于0"),
        _ => panic!("wrong error kind"),
    }
    p.buy_price = 1;
    p.quantity = 0;
    match p.validate().unwrap_err() {
        AppError::InvalidInput(m) => assert_eq!(m, "买入数量必须大于0"),
        _ => panic!("wrong error kind"),
    }
}

#[test]
fn close_out_records_the_sale() {
    let mut p = open_pos("600519", 1000, "2025-01-01", 100);
    let e = p.close_out(0, "2025-02-01".to_string()).unwrap_err();
    match e {
        AppError::InvalidInput(m) => assert_eq!(m, "卖出价格必须大于0"),
        _ => panic!("wrong error kind"),
    }
    assert_eq!(p.status, PositionStatus::Open);
    p.close_out(1500, "2025-02-01".to_string()).unwrap();
    assert_eq!(p.status, PositionStatus::Closed);
    assert_eq!(p.sell_price, Some(1500));
    assert_eq!(p.sell_date.as_deref(), Some("2025-02-01"));
}

#[test]
fn reduce_splits_off_a_closed_record() {
    let mut p = open_pos("600519", 1000, "2025-01-01", 100);
    let original_id = p.id.clone();
    let sold = p
        .reduce(30, 1500, "2025-02-01".to_string(), "sold-1".to_string())
        .unwrap();
    assert_eq!(p.quantity, 70);
    assert_eq!(p.status, PositionStatus::Open);
    assert_eq!(sold.id, "sold-1");
    assert_eq!(sold.quantity, 30);
    assert_eq!(sold.status, PositionStatus::Closed);
    assert_eq!(sold.sell_price, Some(1500));
    assert_eq!(sold.parent_id, Some(original_id));
    assert_eq!(sold.buy_price, 1000);
}

#[test]
fn reduce_rejects_bad_requests() {
    let mut p = open_pos("600519", 1000, "2025-01-01", 100);
    match p.reduce(0, 1500, "d".to_string(), "i".to_string()).unwrap_err() {
        AppError::InvalidInput(m) => assert_eq!(m, "减仓数量必须大于0"),
        _ => panic!("wrong error kind"),
    }
    match p.reduce(100, 1500, "d".to_string(), "i".to_string()).unwrap_err() {
        AppError::InvalidInput(m) => {
            assert_eq!(m, "减仓数量必须小于持有数量，如需全部卖出请使用平仓功能")
        },
        _ => panic!("wrong error kind"),
    }
    match p.reduce(10, 0, "d".to_string(), "i".to_string()).unwrap_err() {
        AppError::InvalidInput(m) => assert_eq!(m, "卖出价格必须大于0"),
        _ => panic!("wrong error kind"),
    }
    assert_eq!(p.quantity, 100);
    p.close();
    match p.reduce(10, 1500, "d".to_string(), "i".to_string()).unwrap_err() {
        AppError::InvalidInput(m) => assert_eq!(m, "只能对持仓中的记录进行减仓操作"),
        _ => panic!("wrong error kind"),
    }
}

#[test]
fn realized_profit_loss_of_a_closed_lot() {
    let mut p = open_pos("600519", 1000, "2025-01-01", 10);
    assert_eq!(p.realized_profit_loss(), None);
    p.close_out(1200, "2025-02-01".to_string()).unwrap();
    assert_eq!(p.realized_profit_loss(), Some(2000));
    assert_eq!(p.realized_profit_loss_rate(), Some(Rational { num: 2000, den: 10000 }));
}

#[test]
fn portfolio_summary_totals_cost() {
    let positions = vec![open_pos("a", 1000, "2025-01-01", 100), open_pos("b", 1250, "2025-01-02", 1000)];
    let s = PortfolioSummary::new("组合".to_string(), positions).unwrap();
    assert_eq!(s.portfolio, "组合");
    assert_eq!(s.total_cost, 100000 + 1250000);
    assert_eq!(s.total_value, 0);
    assert_eq!(s.pnl, 0);
    assert_eq!(s.positions.len(), 2);
}

#[test]
fn where_clause_combinations() {
    let mut q = PositionQuery::new();
    let (w, p) = q.build_where_clause();
    assert_eq!(w, "");
    assert_eq!(p.len(), 0);

    q.code = Some("600519".to_string());
    let (w, p) = q.build_where_clause();
    assert_eq!(w, "WHERE code = ?");
    assert_eq!(p, vec!["600519".to_string()]);

    q.portfolio = Some("组合".to_string());
    q.status = Some("POSITION".to_string());
    let (w, p) = q.build_where_clause();
    assert_eq!(w, "WHERE code = ? AND portfolio = ? AND status = ?");
    assert_eq!(p, vec!["600519".to_string(), "组合".to_string(), "POSITION".to_string()]);

    q.code = None;
    let (w, p) = q.build_where_clause();
    assert_eq!(w, "WHERE portfolio = ? AND status = ?");
    assert_eq!(p, vec!["组合".to_string(), "POSITION".to_string()]);
}

#[test]
fn position_stats_average_and_pnl() {
    let stats = PositionStats {
        record_count: 2,
        total_quantity: 150,
        total_cost: 160000,
        avg_cost_price: Rational { num: 160000, den: 150 },
    };
    assert_eq!(stats.avg_cost_price(), Rational { num: 160000, den: 150 });
    let pnl = stats.calculate_pnl(1500);
    assert_eq!(pnl.current_value, 225000);
    assert_eq!(pnl.pnl, 65000);
    assert_eq!(pnl.pnl_rate, Rational { num: 65000, den: 160000 });

    let empty = PositionStats {
        record_count: 0,
        total_quantity: 0,
        total_cost: 0,
        avg_cost_price: Rational { num: 0, den: 1 },
    };
    assert_eq!(empty.avg_cost_price(), Rational { num: 0, den: 1 });
    let pnl = empty.calculate_pnl(1500);
    assert_eq!(pnl.current_value, 0);
    assert_eq!(pnl.pnl_rate, Rational { num: 0, den: 1 });
}

#[test]
fn closed_trade_carries_holding_days() {
    let mut p = open_pos("600519", 1000, "2025-01-01", 100);
    p.close_out(1200, "2025-01-03".to_string()).unwrap();
    let t = ClosedTrade::from_position(p);
    assert_eq!(t.profit_loss, 20000);
    assert_eq!(t.profit_loss_rate, Rational { num: 20000, den: 100000 });
    assert_eq!(t.holding_days, 2);
    assert_eq!(t.sell_price, 1200);
    assert_eq!(t.sell_date, "2025-01-03");
}

#[test]
fn closed_trade_tolerates_malformed_dates() {
    let mut p = open_pos("600519", 1000, "not-a-date", 100);
    p.close_out(1200, "2025-01-03".to_string()).unwrap();
    let t = ClosedTrade::from_position(p);
    assert_eq!(t.holding_days, 0);
}

#[test]
fn closed_trades_statistics() {
    let mut a = open_pos("600519", 1000, "2025-01-01", 100);
    a.close_out(1200, "2025-01-11".to_string()).unwrap();
    let mut b = open_pos("000001", 1000, "2025-01-01", 10);
    b.close_out(900, "2025-01-03".to_string()).unwrap();
    let mut c = open_pos("000333", 500, "2025-01-01", 10);
    c.close_out(500, "2025-01-05".to_string()).unwrap();
    let still_open = open_pos("600000", 500, "2025-01-01", 10);
    let summary = ClosedTradeService::get_closed_trades_summary(vec![a, b, c, still_open])
        .unwrap();
    assert_eq!(summary.trades.len(), 3);
    let st = &summary.statistics;
    assert_eq!(st.total_trades, 3);
    assert_eq!(st.profitable_trades, 1);
    assert_eq!(st.loss_trades, 1);
    assert_eq!(st.win_rate, Rational { num: 1, den: 3 });
    assert_eq!(st.total_profit_loss, 20000 - 1000 + 0);
    assert_eq!(st.max_profit, 20000);
    assert_eq!(st.max_loss, -1000);
    // Holding days: 10 + 2 + 4 over 3 trades.
    assert_eq!(st.average_holding_days, Rational { num: 16, den: 3 });
}

#[test]
fn empty_closed_trades_statistics_are_zero() {
    let summary = ClosedTradeService::get_closed_trades_summary(Vec::new()).unwrap();
    assert_eq!(summary.trades.len(), 0);
    let st = &summary.statistics;
    assert_eq!(st.total_trades, 0);
    assert_eq!(st.win_rate, Rational { num: 0, den: 1 });
    assert_eq!(st.max_profit, 0);
    assert_eq!(st.max_loss, 0);
}

#[test]
fn error_responses_carry_their_codes() {
    assert_eq!(ErrorResponse::database_error("x".to_string()).code, 500);
    assert_eq!(ErrorResponse::not_found("x".to_string()).code, 404);
    assert_eq!(ErrorResponse::invalid_input("x".to_string()).code, 400);
    assert_eq!(ErrorResponse::business_error("x".to_string()).code, 422);
    let r = ErrorResponse::business_error("出错了".to_string());
    assert_eq!(r.error, "出错了");
    assert!(r.details.is_none());
}

#[test]
fn app_error_exposes_its_message() {
    assert_eq!(AppError::Database("库".to_string()).message(), "库");
    assert_eq!(AppError::NotFound("无".to_string()).message(), "无");
    assert_eq!(AppError::Business("业务".to_string()).message(), "业务");
    assert_eq!(AppError::Io("io".to_string()).message(), "io");
    assert_eq!(AppError::Serialization("s".to_string()).message(), "s");
}

#[test]
fn rational_comparisons_are_exact() {
    let a = Rational { num: 1, den: 3 };
    let b = Rational { num: 2, den: 6 };
    let c = Rational { num: 1, den: 2 };
    assert!(a.same_value(&b));
    assert!(!a.same_value(&c));
    assert!(a.le(&c));
    assert!(!c.le(&a));
    assert!(c.ge(&a));
    let neg = Rational { num: -1, den: 2 };
    assert!(neg.le(&a));
    assert_eq!(Rational::new(3, 4), Rational { num: 3, den: 4 });
    assert_eq!(Rational::zero(), Rational { num: 0, den: 1 });
}

#[test]
fn position_limit_check() {
    let p = open_pos("600519", 1000, "2025-01-01", 100);
    assert!(p.within_limits());
    let q = open_pos("600519", 0, "2025-01-01", 100);
    assert!(!q.within_limits());
}
