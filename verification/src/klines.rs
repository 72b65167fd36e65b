//! Candlesticks and the window of them that one evaluation works on.
use vstd::prelude::*;
use vstd::string::*;
use crate::intervals::{lemma_table_tags, CryptoInterval};
use crate::text::{lowercase, to_lowercase};

verus! {

/// One candlestick. Times count milliseconds since the epoch; prices and
/// volumes are numbers of the caller's type `P`.
#[derive(Debug, Clone, Copy)]
pub struct Kline<P> {
    pub open_time: i64,
    pub open: P,
    pub high: P,
    pub low: P,
    pub close: P,
    pub volume: P,
    pub close_time: i64,
    pub quote_asset_volume: P,
    pub number_of_trades: i64,
    pub taker_buy_base_asset_volume: P,
    pub taker_buy_quote_asset_volume: P,
}

/// The window of one evaluation: the candlesticks to train on, those to
/// validate on, and before both the older ones that indicators warm up on.
/// Each of the three is in ascending order of time.
#[derive(Debug, Clone)]
pub struct KlineCollection<P> {
    pub symbol: String,
    pub interval: CryptoInterval,
    pub training_percentage: P,
    pub training: Vec<Kline<P>>,
    pub validation: Vec<Kline<P>>,
    pub past: Vec<Kline<P>>,
}

/// Whether the candlesticks follow each other in time, each exactly
/// `interval_millis` milliseconds after the one before.
pub open spec fn evenly_spaced<P>(klines: Seq<Kline<P>>, interval_millis: int) -> bool {
    forall|k: int|
        0 <= k < klines.len() - 1 ==> {
            &&& (#[trigger] klines[k]).open_time < klines[k + 1].open_time
            &&& klines[k + 1].open_time - klines[k].open_time == interval_millis
        }
}

/// The name of the table that holds the candlesticks of a symbol, given in
/// lower case, and an interval: `klines_`, the symbol, `_` and the tag of
/// the interval.
pub open spec fn table_name(symbol: Seq<char>, interval: CryptoInterval) -> Seq<char> {
    "klines_"@ + symbol + "_"@ + interval.table_tag()
}

/// The name of the table that holds the candlesticks of a symbol and an
/// interval: `klines_`, the symbol in lower case, `_` and the tag of the
/// interval.
pub fn get_table_name(symbol: &str, interval: &CryptoInterval) -> (name: String)
    ensures
        name@ == table_name(lowercase(symbol@), *interval),
{
    let mut name = String::from_str("klines_");
    let lower = to_lowercase(symbol);
    name.append(lower.as_str());
    name.append("_");
    let tag = interval.to_table_tag();
    name.append(tag.as_str());
    name
}

/// The name of the table that holds the candlesticks of a collection.
pub fn get_table_name_collection<P>(klines_collection: &KlineCollection<P>) -> (name: String)
    ensures
        name@ == table_name(lowercase(klines_collection.symbol@), klines_collection.interval),
{
    get_table_name(klines_collection.symbol.as_str(), &klines_collection.interval)
}

/// Every symbol and interval has a table of its own: two names are the same
/// only where the symbols, in lower case, and the intervals are.
pub proof fn lemma_one_table_per_series(
    symbol1: Seq<char>,
    interval1: CryptoInterval,
    symbol2: Seq<char>,
    interval2: CryptoInterval,
)
    requires
        table_name(symbol1, interval1) == table_name(symbol2, interval2),
    ensures
        symbol1 == symbol2,
        interval1 == interval2,
{
    reveal_strlit("klines_");
    reveal_strlit("_");
    lemma_table_tags(interval1, interval2);
    lemma_table_tags(interval2, interval1);
    let name1 = table_name(symbol1, interval1);
    let name2 = table_name(symbol2, interval2);
    let tag1 = interval1.table_tag();
    let tag2 = interval2.table_tag();
    let head = "klines_"@;
    assert(head.len() == 7);
    assert("_"@.len() == 1 && "_"@[0] == '_');
    let length = name1.len() as int;
    assert(length == 8 + symbol1.len() + tag1.len());
    assert(name2.len() == 8 + symbol2.len() + tag2.len());
    if tag1.len() < tag2.len() {
        let at = length - tag1.len() - 1;
        assert(name1[at] == '_');
        assert(name2[at] == tag2[at - (length - tag2.len())]);
    } else if tag2.len() < tag1.len() {
        let at = length - tag2.len() - 1;
        assert(name2[at] == '_');
        assert(name1[at] == tag1[at - (length - tag1.len())]);
    }
    assert(tag1 =~= name1.subrange(length - tag1.len(), length));
    assert(tag2 =~= name2.subrange(length - tag2.len(), length));
    assert(symbol1 =~= name1.subrange(7, 7 + symbol1.len() as int));
    assert(symbol2 =~= name2.subrange(7, 7 + symbol2.len() as int));
}

fn spaced<P>(earlier: &Kline<P>, later: &Kline<P>, interval_millis: i64) -> (r: bool)
    ensures
        r == (earlier.open_time < later.open_time && later.open_time - earlier.open_time
            == interval_millis),
{
    earlier.open_time < later.open_time && later.open_time as i128 - earlier.open_time as i128
        == interval_millis as i128
}

/// Whether the candlesticks of a collection, the older ones first, then those
/// to train on, then those to validate on, follow each other in time exactly
/// one interval apart.
pub fn check_klines_collection_integrity<P>(klines_collection: &KlineCollection<P>) -> (intact:
    bool)
    ensures
        intact == klines_collection.intact(),
{
    let interval_millis = klines_collection.interval.to_minutes() * 60_000;
    let ghost all = klines_collection.timeline();
    let mut previous: Option<&Kline<P>> = None;
    let mut part: usize = 0;
    let mut i: usize = 0;
    let ghost mut seen: int = 0;
    loop
        invariant
            all == klines_collection.timeline(),
            interval_millis == klines_collection.interval.minutes() * 60_000,
            part <= 3,
            part == 0 ==> i <= klines_collection.past.len() && seen == i,
            part == 1 ==> i <= klines_collection.training.len() && seen
                == klines_collection.past.len() + i,
            part == 2 ==> i <= klines_collection.validation.len() && seen
                == klines_collection.past.len() + klines_collection.training.len() + i,
            part == 3 ==> seen == all.len(),
            0 <= seen <= all.len(),
            seen == 0 ==> previous is None,
            seen > 0 ==> previous == Some(&all[seen - 1]),
            evenly_spaced(all.subrange(0, seen), interval_millis as int),
        ensures
            seen == all.len(),
            evenly_spaced(all.subrange(0, seen), interval_millis as int),
        decreases 3 - part, all.len() - seen,
    {
        if part == 3 {
            break ;
        }
        let list = if part == 0 {
            &klines_collection.past
        } else if part == 1 {
            &klines_collection.training
        } else {
            &klines_collection.validation
        };
        if i >= list.len() {
            part += 1;
            i = 0;
            continue ;
        }
        let current = &list[i];
        assert(*current == all[seen]);
        match previous {
            Some(earlier) => {
                if !spaced(earlier, current, interval_millis) {
                    proof {
                        let k = seen - 1;
                        assert(all[k] == *earlier);
                        assert(all[k + 1] == *current);
                        assert(!evenly_spaced(all, interval_millis as int));
                    }
                    return false;
                }
            },
            None => {},
        }
        proof {
            let before = all.subrange(0, seen);
            let after = all.subrange(0, seen + 1);
            assert forall|k: int| 0 <= k < after.len() - 1 implies {
                &&& (#[trigger] after[k]).open_time < after[k + 1].open_time
                &&& after[k + 1].open_time - after[k].open_time == interval_millis
            } by {
                if k < seen - 1 {
                    assert(before[k] == after[k]);
                    assert(before[k + 1] == after[k + 1]);
                }
            }
            seen = seen + 1;
        }
        previous = Some(current);
        i += 1;
    }
    assert(all.subrange(0, seen) =~= all);
    true
}

impl<P> KlineCollection<P> {
    /// The candlesticks in the order of time: the older ones, those to train
    /// on, those to validate on.
    pub open spec fn timeline(&self) -> Seq<Kline<P>> {
        self.past@ + self.training@ + self.validation@
    }

    /// The candlesticks in the order of forward indexing: those to train on,
    /// those to validate on, then the older ones.
    pub open spec fn forward(&self) -> Seq<Kline<P>> {
        self.training@ + self.validation@ + self.past@
    }

    /// The number of candlesticks to train and to validate on.
    pub open spec fn length(&self) -> int {
        self.training.len() + self.validation.len()
    }

    /// Whether positions in the collection can be counted in 32 bits.
    pub open spec fn countable(&self) -> bool {
        self.training.len() + self.validation.len() + self.past.len() <= i32::MAX
    }

    /// Whether the candlesticks follow each other exactly one interval apart.
    pub open spec fn intact(&self) -> bool {
        evenly_spaced(self.timeline(), self.interval.minutes() * 60_000)
    }

    /// Tests whether positions in the collection can be counted in 32 bits.
    pub fn is_countable(&self) -> (r: bool)
        ensures
            r == self.countable(),
    {
        let limit: usize = 0x7fff_ffff;
        self.training.len() <= limit && self.validation.len() <= limit - self.training.len()
            && self.past.len() <= limit - self.training.len() - self.validation.len()
    }

    /// An empty collection for the one-minute interval.
    pub fn new(training_percentage: P) -> (collection: Self)
        ensures
            collection.symbol@ == Seq::<char>::empty(),
            collection.interval == CryptoInterval::Int1m,
            collection.training_percentage == training_percentage,
            collection.training@ == Seq::<Kline<P>>::empty(),
            collection.validation@ == Seq::<Kline<P>>::empty(),
            collection.past@ == Seq::<Kline<P>>::empty(),
    {
        KlineCollection {
            symbol: String::new(),
            interval: CryptoInterval::Int1m,
            training_percentage,
            training: Vec::new(),
            validation: Vec::new(),
            past: Vec::new(),
        }
    }

    /// The candlestick at a forward index: 0 is the first to train on, then
    /// come those to validate on and last the older ones.
    pub fn get(&self, index: i32) -> (kline: Option<&Kline<P>>)
        requires
            self.countable(),
        ensures
            0 <= index < self.forward().len() ==> kline == Some(&self.forward()[index as int]),
            !(0 <= index < self.forward().len()) ==> kline is None,
    {
        let validation_len = self.validation.len() as i32;
        let training_len = self.training.len() as i32;
        let past_len = self.past.len() as i32;
        let total = validation_len + training_len + past_len;
        if index < 0 || index >= total {
            return None;
        }
        if index < training_len {
            return Some(&self.training[index as usize]);
        }
        if index < training_len + validation_len {
            return Some(&self.validation[(index - training_len) as usize]);
        }
        Some(&self.past[(index - training_len - validation_len) as usize])
    }

    /// The candlestick at a reverse index: 0 is the latest of all, the last
    /// index the oldest.
    pub fn get_rev(&self, index: i32) -> (kline: Option<&Kline<P>>)
        requires
            self.countable(),
        ensures
            0 <= index < self.timeline().len() ==> kline == Some(
                &self.timeline()[self.timeline().len() - 1 - index],
            ),
            !(0 <= index < self.timeline().len()) ==> kline is None,
    {
        let validation_len = self.validation.len() as i32;
        let training_len = self.training.len() as i32;
        let past_len = self.past.len() as i32;
        let total = validation_len + training_len + past_len;
        if index < 0 || index >= total {
            return None;
        }
        if index < validation_len {
            return Some(&self.validation[(validation_len - 1 - index) as usize]);
        }
        if index < validation_len + training_len {
            return Some(&self.training[(validation_len + training_len - 1 - index) as usize]);
        }
        Some(&self.past[(validation_len + training_len + past_len - 1 - index) as usize])
    }

    /// The number of candlesticks to train and to validate on.
    pub fn get_length(&self) -> (length: i32)
        requires
            self.countable(),
        ensures
            length == self.length(),
    {
        self.training.len() as i32 + self.validation.len() as i32
    }

    /// The time that the candlesticks to train and to validate on span, in
    /// minutes.
    pub fn get_limit_minutes(&self) -> (minutes: i64)
        requires
            self.countable(),
        ensures
            minutes == self.length() * self.interval.minutes(),
    {
        let length = self.get_length() as i64;
        let each = self.interval.to_minutes();
        assert(length * each <= 0x7fff_ffff * 43200) by (nonlinear_arith)
            requires
                0 <= length <= 0x7fff_ffff,
                0 <= each <= 43200,
        ;
        assert(0 <= length * each) by (nonlinear_arith)
            requires
                0 <= length,
                0 <= each,
        ;
        length * each
    }

    /// The opening time of the latest candlestick to validate on or, where
    /// there is none, to train on; `now` where both are missing.
    pub fn get_last_open_time(&self, now: i64) -> (time: i64)
        ensures
            time == if self.validation.len() > 0 {
                self.validation@.last().open_time
            } else if self.training.len() > 0 {
                self.training@.last().open_time
            } else {
                now
            },
    {
        if self.validation.len() > 0 {
            self.validation[self.validation.len() - 1].open_time
        } else if self.training.len() > 0 {
            self.training[self.training.len() - 1].open_time
        } else {
            now
        }
    }

    /// The opening time of the first candlestick to train on or, where there
    /// is none, to validate on; `now` where both are missing.
    pub fn get_first_open_time(&self, now: i64) -> (time: i64)
        ensures
            time == if self.training.len() > 0 {
                self.training@.first().open_time
            } else if self.validation.len() > 0 {
                self.validation@.first().open_time
            } else {
                now
            },
    {
        if self.training.len() > 0 {
            self.training[0].open_time
        } else if self.validation.len() > 0 {
            self.validation[0].open_time
        } else {
            now
        }
    }

    /// The opening time of the oldest candlestick of the collection; `now`
    /// where it is empty.
    pub fn get_first_past_open_time(&self, now: i64) -> (time: i64)
        ensures
            time == if self.past.len() > 0 {
                self.past@.first().open_time
            } else if self.training.len() > 0 {
                self.training@.first().open_time
            } else if self.validation.len() > 0 {
                self.validation@.first().open_time
            } else {
                now
            },
    {
        if self.past.len() > 0 {
            self.past[0].open_time
        } else {
            self.get_first_open_time(now)
        }
    }

    /// Whether the candlesticks follow each other exactly one interval apart.
    pub fn check_integrity(&self) -> (intact: bool)
        ensures
            intact == self.intact(),
    {
        check_klines_collection_integrity(self)
    }

    /// Rejects a collection whose candlesticks do not follow each other
    /// exactly one interval apart: nothing is to be computed on it.
    pub fn require_integrity(&self) -> (checked: Result<(), String>)
        ensures
            self.intact() ==> checked is Ok,
            !self.intact() ==> (checked matches Err(message) && message@
                == "Klines collection integrity failed"@),
    {
        if self.check_integrity() {
            Ok(())
        } else {
            Err(String::from_str("Klines collection integrity failed"))
        }
    }
}

impl<P: Copy> KlineCollection<P> {
    /// The closing prices of the candlesticks to train on, then of those to
    /// validate on.
    pub open spec fn closes(&self) -> Seq<P> {
        (self.training@ + self.validation@).map_values(|k: Kline<P>| k.close)
    }

    /// The closing prices of the candlesticks to train on, then of those to
    /// validate on.
    pub fn get_close_prices_iter(&self) -> (prices: Vec<P>)
        ensures
            prices@ == self.closes(),
    {
        let mut prices: Vec<P> = Vec::new();
        let mut i: usize = 0;
        while i < self.training.len()
            invariant
                i <= self.training.len(),
                prices.len() == i,
                forall|k: int| 0 <= k < i ==> prices[k] == self.training[k].close,
            decreases self.training.len() - i,
        {
            prices.push(self.training[i].close);
            i += 1;
        }
        let mut j: usize = 0;
        while j < self.validation.len()
            invariant
                j <= self.validation.len(),
                prices.len() == self.training.len() + j,
                forall|k: int| 0 <= k < self.training.len() ==> prices[k] == self.training[k].close,
                forall|k: int|
                    0 <= k < j ==> prices[self.training.len() + k] == self.validation[k].close,
            decreases self.validation.len() - j,
        {
            prices.push(self.validation[j].close);
            j += 1;
        }
        assert(prices@ =~= self.closes());
        prices
    }
}

/// What is to be read from the store for a window.
#[derive(Debug, Clone, Copy, PartialEq, Eq, Structural)]
pub struct RetrievalPlan {
    /// Whether the exchange is to be asked for candlesticks first.
    pub acquire: bool,
    /// The number of stored candlesticks to aim at when asking the exchange.
    pub acquire_limit: i64,
    /// The time that the candlesticks to read open before.
    pub only_before: i64,
    /// The number of candlesticks to read, the latest ones.
    pub limit: i64,
}

/// A request for older candlesticks to warm indicators up on.
#[derive(Debug, Clone, Copy, PartialEq, Eq, Structural)]
pub struct Extension {
    /// The number of candlesticks that are wanted before the first one to
    /// train on.
    pub additional_klines: i32,
    /// The number of stored candlesticks that open before the first one to
    /// train on.
    pub stored_before_first: i64,
}

/// The quotient of two integers, rounded towards zero.
pub open spec fn toward_zero(a: int, b: int) -> int {
    if a >= 0 {
        a / b
    } else {
        -((-a) / b)
    }
}

impl<P> KlineCollection<P> {
    /// What is to be read from the store. Without an extension the window of
    /// `limit_minutes` is wanted: as many candlesticks as fit into it, before
    /// `only_before` or, without it, before now; the exchange is asked first
    /// where the table is missing,
    /// empty or short of them, or where `force_fetch` says so. With an
    /// extension the candlesticks that are still missing before the oldest
    /// one of the collection are wanted; the exchange is asked first unless
    /// the store already holds as many before the first one to train on as
    /// are wanted.
    pub open spec fn plan(
        &self,
        interval: CryptoInterval,
        limit_minutes: i64,
        force_fetch: bool,
        table_exists: bool,
        table_length: i64,
        only_before: Option<i64>,
        extension: Option<Extension>,
        now: i64,
    ) -> RetrievalPlan {
        let window = toward_zero(limit_minutes as int, interval.minutes());
        let short = !table_exists || table_length == 0 || table_length < window || force_fetch;
        match extension {
            Some(wanted) => RetrievalPlan {
                acquire: wanted.stored_before_first < wanted.additional_klines,
                acquire_limit: window as i64,
                only_before: if self.past.len() > 0 {
                    self.past@.first().open_time
                } else if self.training.len() > 0 {
                    self.training@.first().open_time
                } else if self.validation.len() > 0 {
                    self.validation@.first().open_time
                } else {
                    now
                },
                limit: (wanted.additional_klines - self.past.len()) as i64,
            },
            None => RetrievalPlan {
                acquire: short,
                acquire_limit: window as i64,
                only_before: match only_before {
                    Some(time) => time,
                    None => now,
                },
                limit: window as i64,
            },
        }
    }

    /// Decides what is to be read from the store.
    pub fn plan_retrieval(
        &self,
        interval: &CryptoInterval,
        limit_minutes: i64,
        force_fetch: bool,
        table_exists: bool,
        table_length: i64,
        only_before: Option<i64>,
        extension: Option<Extension>,
        now: i64,
    ) -> (plan: RetrievalPlan)
        requires
            self.countable(),
        ensures
            plan == self.plan(
                *interval,
                limit_minutes,
                force_fetch,
                table_exists,
                table_length,
                only_before,
                extension,
                now,
            ),
    {
        let each = interval.to_minutes();
        let window: i64 = if limit_minutes >= 0 {
            limit_minutes / each
        } else if limit_minutes == i64::MIN {
            -((-(limit_minutes + 1)) / each) - if (-(limit_minutes + 1)) % each == each - 1 {
                1i64
            } else {
                0i64
            }
        } else {
            -((-limit_minutes) / each)
        };
        proof {
            let a = limit_minutes as int;
            let b = each as int;
            if limit_minutes == i64::MIN {
                let c = -(a + 1);
                assert(-a == c + 1);
                assert((c + 1) / b == c / b + if c % b == b - 1 {
                    1int
                } else {
                    0int
                }) by (nonlinear_arith)
                    requires
                        c >= 0,
                        b > 0,
                ;
            }
            assert(window == toward_zero(a, b));
        }
        let short = !table_exists || table_length == 0 || table_length < window || force_fetch;
        match extension {
            Some(wanted) => {
                let enough = wanted.stored_before_first >= wanted.additional_klines as i64;
                RetrievalPlan {
                    acquire: !enough,
                    acquire_limit: window,
                    only_before: self.get_first_past_open_time(now),
                    limit: wanted.additional_klines as i64 - self.past.len() as i64,
                }
            },
            None => {
                let before = match only_before {
                    Some(time) => time,
                    None => now,
                };
                RetrievalPlan {
                    acquire: short,
                    acquire_limit: window,
                    only_before: before,
                    limit: window,
                }
            },
        }
    }

    /// The minutes that a window spans which reaches from as many
    /// candlesticks before the collection as are wanted up to now.
    pub open spec fn extended_minutes(&self, additional_klines: i32, now: i64) -> int {
        let last = if self.validation.len() > 0 {
            self.validation@.last().open_time
        } else if self.training.len() > 0 {
            self.training@.last().open_time
        } else {
            now
        };
        self.length() * self.interval.minutes() + toward_zero(now - last, 60000)
            + self.interval.minutes() * additional_klines
    }

    /// The minutes of the window to read when the collection is extended by
    /// older candlesticks.
    pub fn get_extended_limit_minutes(&self, additional_klines: i32, now: i64) -> (minutes: i64)
        requires
            self.countable(),
            i64::MIN <= now - if self.validation.len() > 0 {
                self.validation@.last().open_time
            } else if self.training.len() > 0 {
                self.training@.last().open_time
            } else {
                now
            } <= i64::MAX,
            -(1i64 << 62) < now - if self.validation.len() > 0 {
                self.validation@.last().open_time
            } else if self.training.len() > 0 {
                self.training@.last().open_time
            } else {
                now
            } < (1i64 << 62),
        ensures
            minutes == self.extended_minutes(additional_klines, now),
    {
        let last = self.get_last_open_time(now);
        let span = self.get_limit_minutes();
        let each = self.interval.to_minutes();
        let gap = now - last;
        let since: i64 = if gap >= 0 {
            gap / 60000
        } else {
            -((-gap) / 60000)
        };
        assert((1i64 << 62) == 0x4000_0000_0000_0000) by (bit_vector);
        assert(each * (additional_klines as i64) <= 43200 * 0x7fff_ffff && each * (
        additional_klines as i64) >= -43200 * 0x8000_0000) by (nonlinear_arith)
            requires
                0 <= each <= 43200,
                -0x8000_0000 <= additional_klines <= 0x7fff_ffff,
        ;
        assert(0 <= span <= 0x7fff_ffff * 43200) by (nonlinear_arith)
            requires
                span == self.length() * self.interval.minutes(),
                0 <= self.length() <= 0x7fff_ffff,
                0 <= self.interval.minutes() <= 43200,
        ;
        span + since + each * (additional_klines as i64)
    }

    /// Takes up rows of the store, which come the latest first: the oldest
    /// `training_length` of them are added to the candlesticks to train on,
    /// the others to those to validate on. The symbol and the interval of the
    /// collection are set.
    pub fn fill(
        &mut self,
        rows: Vec<Kline<P>>,
        training_length: usize,
        symbol: String,
        interval: CryptoInterval,
    )
        ensures
            final(self).symbol == symbol,
            final(self).interval == interval,
            final(self).training_percentage == old(self).training_percentage,
            final(self).past == old(self).past,
            final(self).training@ == old(self).training@ + rows@.reverse().take(
                if training_length <= rows.len() {
                    training_length as int
                } else {
                    rows.len() as int
                },
            ),
            final(self).validation@ == old(self).validation@ + rows@.reverse().skip(
                if training_length <= rows.len() {
                    training_length as int
                } else {
                    rows.len() as int
                },
            ),
    {
        let ghost start = *self;
        let ghost ascending = rows@.reverse();
        let ghost cut = if training_length <= rows.len() {
            training_length as int
        } else {
            rows.len() as int
        };
        let mut rows = rows;
        let total = rows.len();
        let mut i: usize = 0;
        while i < total
            invariant
                total == ascending.len(),
                i <= total,
                rows@ == ascending.reverse().take(total - i),
                cut == if training_length <= total {
                    training_length as int
                } else {
                    total as int
                },
                self.symbol == start.symbol,
                self.interval == start.interval,
                self.training_percentage == start.training_percentage,
                self.past == start.past,
                self.training@ == start.training@ + ascending.take(
                    if i <= cut {
                        i as int
                    } else {
                        cut
                    },
                ),
                self.validation@ == start.validation@ + ascending.subrange(
                    if i <= cut {
                        i as int
                    } else {
                        cut
                    },
                    i as int,
                ),
            decreases total - i,
        {
            let ghost training0 = self.training@;
            let ghost validation0 = self.validation@;
            match rows.pop() {
                Some(row) => {
                    assert(row == ascending[i as int]);
                    if i < training_length {
                        self.training.push(row);
                        assert(self.training@ =~= start.training@ + ascending.take(i + 1));
                        assert(self.validation@ =~= start.validation@ + ascending.subrange(
                            i + 1,
                            i + 1,
                        ));
                    } else {
                        self.validation.push(row);
                        assert(self.validation@ =~= start.validation@ + ascending.subrange(
                            cut,
                            i + 1,
                        ));
                    }
                },
                None => {},
            }
            assert(rows@ =~= ascending.reverse().take(total - (i + 1)));
            i += 1;
        }
        proof {
            assert(ascending.subrange(cut, total as int) =~= ascending.skip(cut));
        }
        self.symbol = symbol;
        self.interval = interval;
    }

    /// Takes up rows of the store, which come the latest first, as the oldest
    /// candlesticks of the collection: they are put before those that it
    /// holds for indicators to warm up on. The symbol and the interval of the
    /// collection are set.
    pub fn extend_past(&mut self, rows: Vec<Kline<P>>, symbol: String, interval: CryptoInterval)
        ensures
            final(self).symbol == symbol,
            final(self).interval == interval,
            final(self).training_percentage == old(self).training_percentage,
            final(self).training == old(self).training,
            final(self).validation == old(self).validation,
            final(self).past@ == rows@.reverse() + old(self).past@,
    {
        let ghost start = *self;
        let ghost given = rows@;
        let mut rows = rows;
        let total = rows.len();
        let mut i: usize = 0;
        while i < total
            invariant
                total == given.len(),
                i <= total,
                rows@ == given.subrange(i as int, total as int),
                self.symbol == start.symbol,
                self.interval == start.interval,
                self.training_percentage == start.training_percentage,
                self.training == start.training,
                self.validation == start.validation,
                self.past@ == given.subrange(0, i as int).reverse() + start.past@,
            decreases total - i,
        {
            let row = rows.remove(0);
            assert(row == given[i as int]);
            self.past.insert(0, row);
            assert(self.past@ =~= given.subrange(0, i + 1).reverse() + start.past@);
            assert(rows@ =~= given.subrange(i + 1, total as int));
            i += 1;
        }
        proof {
            assert(given.subrange(0, total as int) =~= given);
        }
        self.symbol = symbol;
        self.interval = interval;
    }
}

/// A collection that was empty and has been filled with rows holds all of
/// them, and trains on as many as were asked for, or on all of them.
pub proof fn lemma_filled_lengths<P>(
    before: KlineCollection<P>,
    after: KlineCollection<P>,
    rows: Seq<Kline<P>>,
    training_length: int,
)
    requires
        before.training.len() == 0,
        before.validation.len() == 0,
        0 <= training_length,
        after.training@ == before.training@ + rows.reverse().take(
            if training_length <= rows.len() {
                training_length
            } else {
                rows.len() as int
            },
        ),
        after.validation@ == before.validation@ + rows.reverse().skip(
            if training_length <= rows.len() {
                training_length
            } else {
                rows.len() as int
            },
        ),
    ensures
        after.length() == rows.len(),
        after.training.len() == if training_length <= rows.len() {
            training_length
        } else {
            rows.len() as int
        },
        after.training@ + after.validation@ == rows.reverse(),
{
    assert(after.training@ + after.validation@ =~= rows.reverse());
}

} // verus!
