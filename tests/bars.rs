use std::ops::{Add, Div, Mul, Sub};

use rust_decimal::Decimal;
use tradebars::data::text::bar_text;
use tradebars::data::tradebars::{TradeBar, TradeBars};
use tradebars::utils::Merge;
use tradebars::{DataNumberType, NumberType, SecuritySymbol};

#[derive(Debug, Clone, Copy, PartialEq, PartialOrd)]
struct Px(f64);

impl Add for Px {
    type Output = Px;
    fn add(self, o: Px) -> Px {
        Px(self.0 + o.0)
    }
}

impl Sub for Px {
    type Output = Px;
    fn sub(self, o: Px) -> Px {
        Px(self.0 - o.0)
    }
}

impl Mul for Px {
    type Output = Px;
    fn mul(self, o: Px) -> Px {
        Px(self.0 * o.0)
    }
}

impl Div for Px {
    type Output = Px;
    fn div(self, o: Px) -> Px {
        Px(self.0 / o.0)
    }
}

impl From<i8> for Px {
    fn from(v: i8) -> Px {
        Px(v as f64)
    }
}

impl NumberType for Px {}
impl DataNumberType for Px {}

#[derive(Debug, Clone, Copy, PartialEq, PartialOrd)]
struct Dec(Decimal);

impl Add for Dec {
    type Output = Dec;
    fn add(self, o: Dec) -> Dec {
        Dec(self.0 + o.0)
    }
}

impl Sub for Dec {
    type Output = Dec;
    fn sub(self, o: Dec) -> Dec {
        Dec(self.0 - o.0)
    }
}

impl Mul for Dec {
    type Output = Dec;
    fn mul(self, o: Dec) -> Dec {
        Dec(self.0 * o.0)
    }
}

impl Div for Dec {
    type Output = Dec;
    fn div(self, o: Dec) -> Dec {
        Dec(self.0 / o.0)
    }
}

impl From<i8> for Dec {
    fn from(v: i8) -> Dec {
        Dec(Decimal::from(v))
    }
}

impl NumberType for Dec {}
impl DataNumberType for Dec {}

fn equity(name: &str) -> SecuritySymbol {
    SecuritySymbol::Equity(String::from(name))
}

fn bar(close: f64) -> TradeBar<Px> {
    TradeBar::new(Px(100.0), Px(1.0), Px(close + 1.0), Px(0.5), Px(close), 1000, 2000, false)
}

fn aapl_bar() -> TradeBar<Px> {
    TradeBar::new(
        Px(76468400.0),
        Px(174.57),
        Px(178.49),
        Px(174.44),
        Px(178.44),
        1649030400000,
        1649116800000,
        false,
    )
}

#[test]
fn add() {
    let trade_bar = TradeBar::new(
        Dec(Decimal::new(1000, 0)),
        Dec(Decimal::new(13, 1)),
        Dec(Decimal::new(16, 1)),
        Dec(Decimal::new(11, 1)),
        Dec(Decimal::new(12, 1)),
        1001,
        1002,
        false,
    );
    assert_eq!(trade_bar.volume, Dec(Decimal::new(1000, 0)));
    assert_eq!(trade_bar.close, Dec(Decimal::new(12, 1)));
    assert_eq!(trade_bar.start_time, 1001);
    assert_eq!(trade_bar.end_time, 1002);
}

#[test]
fn construction_keeps_every_field() {
    let b = TradeBar::new(Px(5.0), Px(1.0), Px(3.0), Px(0.5), Px(2.0), -7, 9, true);
    assert_eq!(b.volume, Px(5.0));
    assert_eq!(b.open, Px(1.0));
    assert_eq!(b.high, Px(3.0));
    assert_eq!(b.low, Px(0.5));
    assert_eq!(b.close, Px(2.0));
    assert_eq!(b.start_time, -7);
    assert_eq!(b.end_time, 9);
    assert!(b.is_fill_fwd);
    assert_eq!(b.get_spot(), Px(2.0));
}

#[test]
fn bars_compare_by_fields() {
    assert_eq!(bar(2.0), bar(2.0));
    assert_ne!(bar(2.0), bar(3.0));
    let copy = bar(2.0);
    assert_eq!(copy.clone(), copy);
}

#[test]
fn new_collection_is_empty() {
    let bars: TradeBars<Px> = TradeBars::new();
    assert!(!bars.has_data());
    assert!(bars.symbols().is_empty());
    assert!(!bars.contains_symbol(&equity("AAPL")));
    assert!(bars.get_bar(&equity("AAPL")).is_none());
}

#[test]
fn adding_same_symbol_twice_keeps_second_bar() {
    let mut bars = TradeBars::new();
    bars.add(equity("AAPL"), bar(1.0));
    bars.add(equity("AAPL"), bar(2.0));
    assert_eq!(bars.symbols(), vec![equity("AAPL")]);
    assert_eq!(bars.get_bar(&equity("AAPL")), Some(&bar(2.0)));
}

#[test]
fn symbols_lists_each_symbol_once() {
    let mut bars = TradeBars::new();
    bars.add(equity("A"), bar(1.0));
    bars.add(equity("B"), bar(2.0));
    bars.add(equity("A"), bar(3.0));
    bars.add(equity("C"), bar(4.0));
    let mut names: Vec<String> = bars
        .symbols()
        .into_iter()
        .map(|s| match s {
            SecuritySymbol::Equity(n) => n,
        })
        .collect();
    names.sort();
    assert_eq!(names, vec!["A".to_string(), "B".to_string(), "C".to_string()]);
}

#[test]
fn contains_agrees_with_get_bar() {
    let mut bars = TradeBars::new();
    bars.add(equity("AAPL"), bar(1.0));
    for name in ["AAPL", "MSFT", ""] {
        let s = equity(name);
        assert_eq!(bars.contains_symbol(&s), bars.get_bar(&s).is_some());
    }
    assert!(bars.contains_symbol(&equity("AAPL")));
    assert!(!bars.contains_symbol(&equity("MSFT")));
}

#[test]
fn index_gives_the_present_bar() {
    let mut bars = TradeBars::new();
    bars.add(equity("AAPL"), bar(1.0));
    bars.add(equity("MSFT"), bar(2.0));
    assert_eq!(*bars.index(&equity("MSFT")), bar(2.0));
    assert_eq!(*bars.index(&equity("AAPL")), bar(1.0));
}

#[test]
fn merge_overwrites_keeps_and_adds() {
    let mut a = TradeBars::new();
    a.add(equity("X"), bar(1.0));
    a.add(equity("Y"), bar(2.0));
    let mut b = TradeBars::new();
    b.add(equity("X"), bar(10.0));
    b.add(equity("Z"), bar(30.0));
    a.merge(b);
    assert_eq!(a.symbols().len(), 3);
    assert_eq!(a.get_bar(&equity("X")), Some(&bar(10.0)));
    assert_eq!(a.get_bar(&equity("Y")), Some(&bar(2.0)));
    assert_eq!(a.get_bar(&equity("Z")), Some(&bar(30.0)));
}

#[test]
fn merge_order_of_disjoint_collections_does_not_matter() {
    let make = |name: &str, close: f64| {
        let mut t = TradeBars::new();
        t.add(equity(name), bar(close));
        t
    };
    let mut first = make("A", 1.0);
    first.merge(make("B", 2.0));
    first.merge(make("C", 3.0));
    let mut second = make("A", 1.0);
    second.merge(make("C", 3.0));
    second.merge(make("B", 2.0));
    for name in ["A", "B", "C", "D"] {
        assert_eq!(first.get_bar(&equity(name)), second.get_bar(&equity(name)));
    }
    assert_eq!(first.symbols().len(), 3);
    assert_eq!(second.symbols().len(), 3);
}

#[test]
fn merge_of_empty_changes_nothing() {
    let mut a = TradeBars::new();
    a.add(equity("A"), bar(1.0));
    a.merge(TradeBars::new());
    assert_eq!(a.symbols(), vec![equity("A")]);
    assert_eq!(a.get_bar(&equity("A")), Some(&bar(1.0)));
}

#[test]
fn aapl_scenario() {
    let mut bars = TradeBars::new();
    bars.add(equity("AAPL"), aapl_bar());
    assert!(bars.has_data());
    assert_eq!(bars.symbols(), vec![equity("AAPL")]);
    assert_eq!(bars.get_bar(&equity("AAPL")).unwrap().get_spot(), Px(178.44));
}

#[test]
fn merge_scenario() {
    let bar_x = bar(1.0);
    let bar_y = bar(2.0);
    let bar_z = bar(3.0);
    let mut a = TradeBars::new();
    a.add(equity("AAPL"), bar_x);
    let mut b = TradeBars::new();
    b.add(equity("AAPL"), bar_y);
    b.add(equity("MSFT"), bar_z);
    a.merge(b);
    assert_eq!(a.symbols().len(), 2);
    assert_eq!(a.get_bar(&equity("AAPL")), Some(&bar_y));
    assert_eq!(a.get_bar(&equity("MSFT")), Some(&bar_z));
}

#[test]
fn symbols_compare_by_class_and_name() {
    assert_eq!(equity("AAPL"), equity("AAPL"));
    assert_ne!(equity("AAPL"), equity("MSFT"));
    assert_eq!(equity("MSFT").clone(), equity("MSFT"));
}

#[test]
fn bar_text_labels_fields() {
    let t = bar_text("1", "2", "3", "4", "5", "s", "e", true);
    assert_eq!(t, "volume: 1, open: 2, high: 3, low: 4, close: 5, start time: s, end_time: e, fill fwd: true");
    let f = bar_text("", "", "", "", "", "", "", false);
    assert_eq!(f, "volume: , open: , high: , low: , close: , start time: , end_time: , fill fwd: false");
}

#[test]
fn bar_to_string_shows_dates() {
    let t = aapl_bar().to_string();
    assert_eq!(
        t,
        "volume: Px(76468400.0), open: Px(174.57), high: Px(178.49), low: Px(174.44), close: Px(178.44), \
         start time: Some(2022-04-04T00:00:00), end_time: Some(2022-04-05T00:00:00), fill fwd: false"
    );
}

#[test]
fn collection_to_string_lists_entries() {
    let empty: TradeBars<Px> = TradeBars::new();
    assert_eq!(empty.to_string(), "{}");
    let mut one = TradeBars::new();
    one.add(equity("A"), TradeBar::new(Px(1.0), Px(2.0), Px(3.0), Px(4.0), Px(5.0), 6, 7, false));
    assert_eq!(
        one.to_string(),
        "{Equity(\"A\"): TradeBar { volume: Px(1.0), open: Px(2.0), high: Px(3.0), low: Px(4.0), \
         close: Px(5.0), start_time: 6, end_time: 7, is_fill_fwd: false }}"
    );
    let mut two = TradeBars::new();
    two.add(equity("A"), bar(1.0));
    two.add(equity("B"), bar(2.0));
    let s = two.to_string();
    assert!(s.starts_with("{Equity("));
    assert!(s.ends_with("}"));
    assert_eq!(s.matches(", Equity(").count(), 1);
}

#[test]
fn clone_is_independent() {
    let mut a = TradeBars::new();
    a.add(equity("A"), bar(1.0));
    a.add(equity("B"), bar(2.0));
    let copy = a.clone();
    a.add(equity("A"), bar(9.0));
    a.add(equity("C"), bar(3.0));
    assert_eq!(copy.symbols().len(), 2);
    assert_eq!(copy.get_bar(&equity("A")), Some(&bar(1.0)));
    assert_eq!(copy.get_bar(&equity("B")), Some(&bar(2.0)));
    assert!(!copy.contains_symbol(&equity("C")));
}
