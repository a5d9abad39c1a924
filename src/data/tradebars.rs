//! Bars and the collection of one bar per symbol.

use vstd::prelude::*;
use vstd::string::*;

use crate::data::text::{bar_text, bar_text_of, braced, datetime_text, debug_text, joined, timestamp_text};
use crate::security::{SecuritySymbol, SymbolView};
use crate::utils::Merge;
use crate::DataNumberType;

verus! {

/// One instrument's trading over one interval: volume, open, high, low and
/// close, the interval's bounds in epoch milliseconds, and whether the bar
/// was synthesised to cover a gap.
#[derive(Debug, Copy, Clone, PartialEq, Eq)]
pub struct TradeBar<T> where T: DataNumberType {
    pub volume: T,
    pub open: T,
    pub high: T,
    pub low: T,
    pub close: T,
    pub start_time: i64,
    pub end_time: i64,
    pub is_fill_fwd: bool,
}

impl<T> TradeBar<T> where T: DataNumberType {
    /// A bar holding the given fields as they are; nothing is checked.
    pub fn new(
        volume: T,
        open: T,
        high: T,
        low: T,
        close: T,
        start_time: i64,
        end_time: i64,
        is_fill_fwd: bool,
    ) -> (r: TradeBar<T>)
        ensures
            r == (TradeBar { volume, open, high, low, close, start_time, end_time, is_fill_fwd }),
    {
        TradeBar { volume, open, high, low, close, start_time, end_time, is_fill_fwd }
    }

    /// The current price of the instrument: the close.
    pub fn get_spot(&self) -> (r: T)
        ensures
            r == self.close,
    {
        self.close
    }

    /// All fields, labelled, with the interval's bounds as dates and times.
    pub fn to_string(&self) -> (r: String)
        ensures
            exists|volume: Seq<char>, open: Seq<char>, high: Seq<char>, low: Seq<char>, close: Seq<char>|
                r@ == bar_text_of(
                    volume,
                    open,
                    high,
                    low,
                    close,
                    datetime_text(self.start_time as int),
                    datetime_text(self.end_time as int),
                    self.is_fill_fwd,
                ),
    {
        let volume = debug_text(&self.volume);
        let open = debug_text(&self.open);
        let high = debug_text(&self.high);
        let low = debug_text(&self.low);
        let close = debug_text(&self.close);
        let start = timestamp_text(self.start_time);
        let end = timestamp_text(self.end_time);
        bar_text(
            volume.as_str(),
            open.as_str(),
            high.as_str(),
            low.as_str(),
            close.as_str(),
            start.as_str(),
            end.as_str(),
            self.is_fill_fwd,
        )
    }
}

/// The symbol-to-bar mapping that a sequence of entries describes: each
/// entry sets its symbol's bar, later entries over earlier ones.
pub open spec fn entries_map<T: DataNumberType>(entries: Seq<(SecuritySymbol, TradeBar<T>)>) -> Map<
    SymbolView,
    TradeBar<T>,
>
    decreases entries.len(),
{
    if entries.len() == 0 {
        Map::empty()
    } else {
        entries_map(entries.drop_last()).insert(entries.last().0@, entries.last().1)
    }
}

/// No two entries have the same symbol.
pub open spec fn keys_unique<T: DataNumberType>(entries: Seq<(SecuritySymbol, TradeBar<T>)>) -> bool {
    forall|i: int, j: int|
        0 <= i < j < entries.len() ==> #[trigger] entries[i].0@ != #[trigger] entries[j].0@
}

/// A symbol is in the mapping exactly when some entry has it.
proof fn lemma_entries_map_dom<T: DataNumberType>(
    entries: Seq<(SecuritySymbol, TradeBar<T>)>,
    k: SymbolView,
)
    ensures
        entries_map(entries).contains_key(k) <==> exists|i: int|
            0 <= i < entries.len() && (#[trigger] entries[i]).0@ == k,
    decreases entries.len(),
{
    if entries.len() > 0 {
        let init = entries.drop_last();
        lemma_entries_map_dom(init, k);
        if entries_map(init).contains_key(k) {
            let i = choose|i: int| 0 <= i < init.len() && (#[trigger] init[i]).0@ == k;
            assert(entries[i] == init[i]);
        }
        if exists|i: int| 0 <= i < entries.len() && (#[trigger] entries[i]).0@ == k {
            let i = choose|i: int| 0 <= i < entries.len() && (#[trigger] entries[i]).0@ == k;
            if i < entries.len() - 1 {
                assert(init[i] == entries[i]);
            }
        }
    }
}

/// Entries with the same symbols and bars, position by position, describe
/// the same mapping.
proof fn lemma_entries_map_same_views<T: DataNumberType>(
    a: Seq<(SecuritySymbol, TradeBar<T>)>,
    b: Seq<(SecuritySymbol, TradeBar<T>)>,
)
    requires
        a.len() == b.len(),
        forall|j: int| 0 <= j < a.len() ==> (#[trigger] a[j]).0@ == b[j].0@ && a[j].1 == b[j].1,
    ensures
        entries_map(a) == entries_map(b),
    decreases a.len(),
{
    if a.len() > 0 {
        let (ia, ib) = (a.drop_last(), b.drop_last());
        assert forall|j: int| 0 <= j < ia.len() implies (#[trigger] ia[j]).0@ == ib[j].0@ && ia[j].1
            == ib[j].1 by {
            assert(ia[j] == a[j] && ib[j] == b[j]);
        }
        lemma_entries_map_same_views(ia, ib);
        assert(a.last() == a[a.len() - 1]);
    }
}

/// With unique symbols, the mapping has one symbol for each entry.
proof fn lemma_entries_map_len<T: DataNumberType>(entries: Seq<(SecuritySymbol, TradeBar<T>)>)
    requires
        keys_unique(entries),
    ensures
        entries_map(entries).dom().finite(),
        entries_map(entries).dom().len() == entries.len(),
    decreases entries.len(),
{
    if entries.len() > 0 {
        let init = entries.drop_last();
        assert(keys_unique(init));
        lemma_entries_map_len(init);
        lemma_entries_map_dom(init, entries.last().0@);
        assert forall|i: int| 0 <= i < init.len() implies (#[trigger] init[i]).0@ != entries.last().0@ by {
            assert(init[i] == entries[i]);
        }
    }
}

/// With unique symbols, each entry's symbol maps to that entry's bar.
proof fn lemma_entries_map_at<T: DataNumberType>(entries: Seq<(SecuritySymbol, TradeBar<T>)>, i: int)
    requires
        keys_unique(entries),
        0 <= i < entries.len(),
    ensures
        entries_map(entries).contains_key(entries[i].0@),
        entries_map(entries)[entries[i].0@] == entries[i].1,
    decreases entries.len(),
{
    let init = entries.drop_last();
    if i < entries.len() - 1 {
        assert(init[i] == entries[i]);
        assert(keys_unique(init));
        lemma_entries_map_at(init, i);
        assert(entries[i].0@ != entries[entries.len() - 1].0@);
    }
}

/// Replacing an entry's bar under the same symbol sets that symbol's bar.
proof fn lemma_entries_map_update<T: DataNumberType>(
    entries: Seq<(SecuritySymbol, TradeBar<T>)>,
    i: int,
    e: (SecuritySymbol, TradeBar<T>),
)
    requires
        keys_unique(entries),
        0 <= i < entries.len(),
        e.0@ == entries[i].0@,
    ensures
        keys_unique(entries.update(i, e)),
        entries_map(entries.update(i, e)) == entries_map(entries).insert(e.0@, e.1),
    decreases entries.len(),
{
    let updated = entries.update(i, e);
    let init = entries.drop_last();
    assert(keys_unique(updated)) by {
        assert forall|a: int, b: int| 0 <= a < b < updated.len() implies #[trigger] updated[a].0@
            != #[trigger] updated[b].0@ by {
            assert(entries[a].0@ != entries[b].0@);
        }
    }
    if i == entries.len() - 1 {
        assert(updated.drop_last() == init);
    } else {
        assert(updated.drop_last() == init.update(i, e));
        assert(keys_unique(init));
        lemma_entries_map_update(init, i, e);
        assert(e.0@ != entries.last().0@);
    }
    assert(entries_map(updated) =~= entries_map(entries).insert(e.0@, e.1));
}

/// A text made of a symbol's text, `": "`, and a bar's text.
pub open spec fn is_entry_text(t: Seq<char>) -> bool {
    exists|symbol: Seq<char>, bar: Seq<char>| t == symbol + ": "@ + bar
}

/// The bar that a mapping holds for `k`, if any.
pub open spec fn bar_lookup<T: DataNumberType>(m: Map<SymbolView, TradeBar<T>>, k: SymbolView) -> Option<
    TradeBar<T>,
> {
    if m.contains_key(k) {
        Some(m[k])
    } else {
        None
    }
}

/// The bars of one time slice, at most one for each symbol.
#[derive(Debug)]
pub struct TradeBars<T> where T: DataNumberType {
    data: Vec<(SecuritySymbol, TradeBar<T>)>,
}

impl<T> View for TradeBars<T> where T: DataNumberType {
    type V = Map<SymbolView, TradeBar<T>>;

    closed spec fn view(&self) -> Map<SymbolView, TradeBar<T>> {
        entries_map(self.data@)
    }
}

impl<T> TradeBars<T> where T: DataNumberType {
    #[verifier::type_invariant]
    spec fn inv(&self) -> bool {
        keys_unique(self.data@)
    }

    /// An empty collection.
    pub fn new() -> (r: Self)
        ensures
            r@ == Map::<SymbolView, TradeBar<T>>::empty(),
    {
        TradeBars { data: Vec::new() }
    }

    /// Sets `symbol`'s bar to `tradebar`, replacing any bar it had.
    pub fn add(&mut self, symbol: SecuritySymbol, tradebar: TradeBar<T>)
        ensures
            final(self)@ == old(self)@.insert(symbol@, tradebar),
    {
        proof {
            use_type_invariant(&*self);
        }
        let mut data: Vec<(SecuritySymbol, TradeBar<T>)> = Vec::new();
        std::mem::swap(&mut data, &mut self.data);
        let ghost before = data@;
        match find_symbol(&data, &symbol) {
            Some(i) => {
                proof {
                    lemma_entries_map_update(before, i as int, (symbol, tradebar));
                }
                data[i] = (symbol, tradebar);
                proof {
                    assert(data@ == before.update(i as int, (symbol, tradebar)));
                }
            },
            None => {
                proof {
                    lemma_entries_map_dom(before, symbol@);
                }
                data.push((symbol, tradebar));
                proof {
                    assert(data@.drop_last() == before);
                }
            },
        }
        self.data = data;
    }

    /// The symbols present, each once, in no particular order.
    pub fn symbols(&self) -> (r: Vec<SecuritySymbol>)
        ensures
            forall|i: int| 0 <= i < r@.len() ==> self@.contains_key(#[trigger] r@[i]@),
            forall|k: SymbolView| #[trigger] self@.contains_key(k) ==> exists|i: int|
                0 <= i < r@.len() && (#[trigger] r@[i])@ == k,
            forall|i: int, j: int| 0 <= i < j < r@.len() ==> #[trigger] r@[i]@ != #[trigger] r@[j]@,
            self@.dom().finite(),
            r@.len() == self@.len(),
    {
        proof {
            use_type_invariant(self);
            lemma_entries_map_len(self.data@);
        }
        let mut r: Vec<SecuritySymbol> = Vec::new();
        let mut i: usize = 0;
        while i < self.data.len()
            invariant
                i <= self.data@.len(),
                r@.len() == i,
                forall|j: int| 0 <= j < i ==> (#[trigger] r@[j])@ == self.data@[j].0@,
            decreases self.data@.len() - i,
        {
            r.push(self.data[i].0.clone());
            i = i + 1;
        }
        proof {
            assert forall|j: int| 0 <= j < r@.len() implies self@.contains_key(#[trigger] r@[j]@) by {
                lemma_entries_map_at(self.data@, j);
            }
            assert forall|k: SymbolView| #[trigger] self@.contains_key(k) implies exists|j: int|
                0 <= j < r@.len() && (#[trigger] r@[j])@ == k by {
                lemma_entries_map_dom(self.data@, k);
                let j = choose|j: int| 0 <= j < self.data@.len() && (#[trigger] self.data@[j]).0@ == k;
                assert(r@[j]@ == k);
            }
            assert forall|a: int, b: int| 0 <= a < b < r@.len() implies #[trigger] r@[a]@
                != #[trigger] r@[b]@ by {
                assert(self.data@[a].0@ != self.data@[b].0@);
            }
        }
        r
    }

    /// Whether `key` has a bar.
    pub fn contains_symbol(&self, key: &SecuritySymbol) -> (r: bool)
        ensures
            r == self@.contains_key(key@),
    {
        proof {
            use_type_invariant(self);
            lemma_entries_map_dom(self.data@, key@);
        }
        find_symbol(&self.data, key).is_some()
    }

    /// The bar of `symbol`, or nothing where it has none.
    pub fn get_bar(&self, symbol: &SecuritySymbol) -> (r: Option<&TradeBar<T>>)
        ensures
            match r {
                Some(b) => bar_lookup(self@, symbol@) == Some(*b),
                None => bar_lookup(self@, symbol@) == None::<TradeBar<T>>,
            },
    {
        proof {
            use_type_invariant(self);
            lemma_entries_map_dom(self.data@, symbol@);
        }
        match find_symbol(&self.data, symbol) {
            Some(i) => {
                proof {
                    lemma_entries_map_at(self.data@, i as int);
                }
                Some(&self.data[i].1)
            },
            None => None,
        }
    }

    /// Whether any symbol has a bar.
    pub fn has_data(&self) -> (r: bool)
        ensures
            r == exists|k: SymbolView| self@.contains_key(k),
    {
        proof {
            use_type_invariant(self);
            if self.data@.len() > 0 {
                lemma_entries_map_at(self.data@, 0);
                assert(self@.contains_key(self.data@[0].0@));
            } else {
                assert(self@ == Map::<SymbolView, TradeBar<T>>::empty());
            }
        }
        self.data.len() > 0
    }

    /// The mapping written out: each symbol's text, `": "` and its bar's
    /// text, one item for each symbol, joined by commas in braces.
    pub fn to_string(&self) -> (r: String)
        ensures
            exists|keys: Seq<SymbolView>, items: Seq<Seq<char>>|
                {
                    &&& keys.len() == items.len()
                    &&& keys.no_duplicates()
                    &&& keys.to_set() == self@.dom()
                    &&& r@ == braced(items)
                    &&& forall|i: int| 0 <= i < items.len() ==> is_entry_text(#[trigger] items[i])
                },
    {
        proof {
            use_type_invariant(self);
        }
        let mut r = String::new();
        r.append("{");
        let ghost mut keys: Seq<SymbolView> = Seq::empty();
        let ghost mut items: Seq<Seq<char>> = Seq::empty();
        let mut i: usize = 0;
        while i < self.data.len()
            invariant
                i <= self.data@.len(),
                keys.len() == i,
                items.len() == i,
                forall|j: int| 0 <= j < i ==> #[trigger] keys[j] == self.data@[j].0@,
                forall|j: int| 0 <= j < i ==> is_entry_text(#[trigger] items[j]),
                r@ == "{"@ + joined(items, ", "@),
            decreases self.data@.len() - i,
        {
            let ghost prev = items;
            if i > 0 {
                r.append(", ");
            }
            let symbol = debug_text(&self.data[i].0);
            let bar = debug_text(&self.data[i].1);
            r.append(symbol.as_str());
            r.append(": ");
            r.append(bar.as_str());
            proof {
                let t = symbol@ + ": "@ + bar@;
                assert(is_entry_text(t));
                items = prev.push(t);
                keys = keys.push(self.data@[i as int].0@);
                assert(items.drop_last() == prev);
            }
            i = i + 1;
        }
        r.append("}");
        proof {
            assert(keys.no_duplicates()) by {
                assert forall|a: int, b: int| 0 <= a < keys.len() && 0 <= b < keys.len() && a != b
                    implies keys[a] != keys[b] by {
                    if a < b {
                        assert(self.data@[a].0@ != self.data@[b].0@);
                    } else {
                        assert(self.data@[b].0@ != self.data@[a].0@);
                    }
                }
            }
            assert(keys.to_set() =~= self@.dom()) by {
                assert forall|k: SymbolView| keys.to_set().contains(k) <==> self@.dom().contains(k) by {
                    lemma_entries_map_dom(self.data@, k);
                    if keys.to_set().contains(k) {
                        let j = keys.index_of(k);
                        assert(self.data@[j].0@ == k);
                    }
                    if self@.dom().contains(k) {
                        let j = choose|j: int| 0 <= j < self.data@.len() && (#[trigger] self.data@[j]).0@ == k;
                        assert(keys[j] == k);
                    }
                }
            }
        }
        r
    }

    /// The bar of `symbol`, which must have one: the caller has established
    /// that it is present. Reaching this without one is a fault.
    pub fn index(&self, symbol: &SecuritySymbol) -> (r: &TradeBar<T>)
        requires
            self@.contains_key(symbol@),
        ensures
            *r == self@[symbol@],
    {
        self.get_bar(symbol).unwrap()
    }
}

impl<T> Clone for TradeBars<T> where T: DataNumberType {
    /// An independent copy holding the same bars under the same symbols.
    fn clone(&self) -> (r: Self)
        ensures
            r@ == self@,
    {
        proof {
            use_type_invariant(self);
        }
        let mut data: Vec<(SecuritySymbol, TradeBar<T>)> = Vec::new();
        let mut i: usize = 0;
        while i < self.data.len()
            invariant
                i <= self.data@.len(),
                data@.len() == i,
                forall|j: int|
                    0 <= j < i ==> (#[trigger] data@[j]).0@ == self.data@[j].0@ && data@[j].1
                        == self.data@[j].1,
            decreases self.data@.len() - i,
        {
            let e = &self.data[i];
            data.push((e.0.clone(), e.1));
            i = i + 1;
        }
        proof {
            lemma_entries_map_same_views(data@, self.data@);
            assert forall|a: int, b: int| 0 <= a < b < data@.len() implies #[trigger] data@[a].0@
                != #[trigger] data@[b].0@ by {
                assert(self.data@[a].0@ != self.data@[b].0@);
            }
        }
        TradeBars { data }
    }
}

impl<T> Merge for TradeBars<T> where T: DataNumberType {
    open spec fn merged(before: Self, other: Self, after: Self) -> bool {
        after@ == before@.union_prefer_right(other@)
    }

    /// Every bar of `other` replaces or joins the bar of its symbol here;
    /// symbols only here keep theirs.
    fn merge(&mut self, other: Self) {
        proof {
            use_type_invariant(&other);
        }
        let ghost goal = self@.union_prefer_right(other@);
        let TradeBars { data: mut rest } = other;
        while rest.len() > 0
            invariant
                keys_unique(rest@),
                self@.union_prefer_right(entries_map(rest@)) == goal,
            decreases rest@.len(),
        {
            let ghost before = rest@;
            let ghost here = self@;
            let e = rest.pop().unwrap();
            proof {
                assert(before.drop_last() == rest@);
                lemma_entries_map_dom(rest@, e.0@);
                assert(forall|j: int| 0 <= j < rest@.len() ==> rest@[j] == #[trigger] before[j]);
                assert(here.insert(e.0@, e.1).union_prefer_right(entries_map(rest@))
                    =~= here.union_prefer_right(entries_map(before)));
            }
            self.add(e.0, e.1);
        }
        proof {
            assert(self@.union_prefer_right(entries_map(rest@)) =~= self@);
        }
    }
}

/// Where `symbol` stands among the entries, if it does.
fn find_symbol<T: DataNumberType>(entries: &Vec<(SecuritySymbol, TradeBar<T>)>, symbol: &SecuritySymbol) -> (r: Option<usize>)
    ensures
        match r {
            Some(i) => i < entries@.len() && entries@[i as int].0@ == symbol@,
            None => forall|i: int| 0 <= i < entries@.len() ==> (#[trigger] entries@[i]).0@ != symbol@,
        },
{
    let mut i: usize = 0;
    while i < entries.len()
        invariant
            i <= entries@.len(),
            forall|j: int| 0 <= j < i ==> (#[trigger] entries@[j]).0@ != symbol@,
        decreases entries@.len() - i,
    {
        if entries[i].0.eq(symbol) {
            return Some(i);
        }
        i = i + 1;
    }
    None
}

/// Setting a symbol's bar twice leaves that symbol once, with the second
/// bar: the last write wins and nothing accumulates.
pub proof fn lemma_add_twice<T: DataNumberType>(
    bars: TradeBars<T>,
    symbol: SymbolView,
    first: TradeBar<T>,
    second: TradeBar<T>,
)
    ensures
        bars@.insert(symbol, first).insert(symbol, second) == bars@.insert(symbol, second),
        bars@.insert(symbol, first).insert(symbol, second).dom() == bars@.dom().insert(symbol),
        bars@.insert(symbol, first).insert(symbol, second)[symbol] == second,
{
    assert(bars@.insert(symbol, first).insert(symbol, second) =~= bars@.insert(symbol, second));
}

/// Merging `b` into `a`: a symbol of `b` takes `b`'s bar, a symbol only of
/// `a` keeps `a`'s bar, and no other symbol appears.
pub proof fn lemma_merge_overwrites<T: DataNumberType>(a: TradeBars<T>, b: TradeBars<T>)
    ensures
        forall|x: SymbolView| #[trigger] b@.contains_key(x) ==> a@.union_prefer_right(b@)[x] == b@[x],
        forall|y: SymbolView|
            #[trigger] a@.contains_key(y) && !b@.contains_key(y) ==> a@.union_prefer_right(b@)[y]
                == a@[y],
        a@.union_prefer_right(b@).dom() == a@.dom().union(b@.dom()),
{
}

/// Where no two of `a`, `b` and `c` share a symbol, merging `b` then `c`
/// into `a` gives the same bars as merging `c` then `b`.
pub proof fn lemma_merge_disjoint_commutes<T: DataNumberType>(
    a: TradeBars<T>,
    b: TradeBars<T>,
    c: TradeBars<T>,
)
    requires
        a@.dom().disjoint(b@.dom()),
        a@.dom().disjoint(c@.dom()),
        b@.dom().disjoint(c@.dom()),
    ensures
        a@.union_prefer_right(b@).union_prefer_right(c@) == a@.union_prefer_right(c@).union_prefer_right(
            b@,
        ),
{
    assert(a@.union_prefer_right(b@).union_prefer_right(c@) =~= a@.union_prefer_right(
        c@,
    ).union_prefer_right(b@)) by {
        assert forall|k: SymbolView|
            #[trigger] b@.contains_key(k) implies !c@.contains_key(k) by {
            assert(b@.dom().contains(k));
        }
    }
}

/// A symbol is present exactly when looking it up gives a bar, and that
/// bar is the one held.
pub proof fn lemma_presence_consistent<T: DataNumberType>(bars: TradeBars<T>, symbol: SymbolView)
    ensures
        bars@.contains_key(symbol) <==> bar_lookup(bars@, symbol) is Some,
        bars@.contains_key(symbol) ==> bar_lookup(bars@, symbol) == Some(bars@[symbol]),
{
}

} // verus!
