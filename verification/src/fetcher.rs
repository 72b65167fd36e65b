//! The decisions of the fetcher, which asks the exchange for candlesticks
//! page by page: what to ask next, when to stop, and which rows to store.
use vstd::prelude::*;
use vstd::string::*;

verus! {

/// The direction in which the fetcher walks.
#[derive(Debug, Clone, Copy, PartialEq, Eq, Structural)]
pub enum KlinesFetchType {
    /// Forward in time, from the latest stored candlestick.
    Recent,
    /// Backward in time, from the oldest stored candlestick.
    Older,
}

/// The number of milliseconds by which a first request reaches beyond now.
pub const COLD_START_SLACK: u64 = 8_640_000_000;

/// The number of candlesticks that one request asks for.
pub open spec fn page_size() -> Seq<char> {
    "5"@
}

/// Where the fetcher stands; times count milliseconds since the epoch.
#[derive(Debug, Clone, Copy, PartialEq, Eq, Structural)]
pub struct FetchState {
    pub fetch_type: KlinesFetchType,
    /// The time that the next request starts or ends at.
    pub time_param: u64,
    /// The number of candlesticks that the table holds.
    pub table_length: i64,
    /// The number of candlesticks to stop at, if any.
    pub limit: Option<i64>,
    /// Whether to go on though the limit is reached.
    pub force_fetch: bool,
}

/// One request to the exchange.
#[derive(Debug, Clone)]
pub struct Request {
    /// The name of the time parameter.
    pub time_name: String,
    /// The time that the request starts or ends at.
    pub time_param: u64,
    /// The number of candlesticks asked for.
    pub limit: String,
}

/// What is to be done to bring a table up to date.
#[derive(Debug, Clone, Copy, PartialEq, Eq, Structural)]
pub struct Acquisition {
    /// Whether the table is to be created first.
    pub create_table: bool,
    /// Whether the latest candlesticks are fetched before the older ones.
    pub recent_first: bool,
}

/// What is to be done to bring a table up to date: a missing table is
/// created; an empty or missing table is filled backwards from now; any other
/// is topped up with the latest candlesticks and then filled backwards.
pub fn acquisition(table_exists: bool, table_length: i64) -> (plan: Acquisition)
    ensures
        plan.create_table == !table_exists,
        plan.recent_first == (table_exists && table_length != 0),
{
    Acquisition { create_table: !table_exists, recent_first: table_exists && table_length != 0 }
}

/// Whether a row of the exchange is stored: a candlestick that closes after
/// now is not complete yet and is left out.
pub fn accepts_row(close_time: u64, now: u64) -> (accepted: bool)
    ensures
        accepted == (close_time <= now),
{
    close_time <= now
}

impl FetchState {
    /// The name of the time parameter of the direction: forward requests
    /// start at a time, backward requests end at one.
    pub open spec fn time_name(self) -> Seq<char> {
        match self.fetch_type {
            KlinesFetchType::Recent => "startTime"@,
            KlinesFetchType::Older => "endTime"@,
        }
    }

    /// Whether the limit is reached and nothing forces the fetcher on.
    pub open spec fn done(self) -> bool {
        self.limit matches Some(limit) && !self.force_fetch && self.table_length >= limit
    }

    /// Where the fetcher begins: a forward walk at the latest stored opening
    /// time; a backward walk at the oldest one or, where the table is empty,
    /// somewhat beyond now.
    pub fn begin(
        fetch_type: KlinesFetchType,
        table_length: i64,
        limit: Option<i64>,
        force_fetch: bool,
        min_open_time: u64,
        max_open_time: u64,
        now: u64,
    ) -> (state: Self)
        requires
            now + COLD_START_SLACK <= u64::MAX,
        ensures
            state.fetch_type == fetch_type,
            state.table_length == table_length,
            state.limit == limit,
            state.force_fetch == force_fetch,
            state.time_param == match fetch_type {
                KlinesFetchType::Recent => max_open_time,
                KlinesFetchType::Older => if table_length == 0 {
                    (now + COLD_START_SLACK) as u64
                } else {
                    min_open_time
                },
            },
    {
        let time_param = match fetch_type {
            KlinesFetchType::Recent => max_open_time,
            KlinesFetchType::Older => if table_length == 0 {
                now + COLD_START_SLACK
            } else {
                min_open_time
            },
        };
        FetchState { fetch_type, time_param, table_length, limit, force_fetch }
    }

    /// The next request, or none where the limit is reached and nothing
    /// forces the fetcher on.
    pub fn next_request(&self) -> (request: Option<Request>)
        ensures
            self.done() ==> request is None,
            !self.done() ==> (request matches Some(r) && r.time_name@ == self.time_name()
                && r.time_param == self.time_param && r.limit@ == page_size()),
    {
        match self.limit {
            Some(limit) => {
                if !self.force_fetch && self.table_length >= limit {
                    return None;
                }
            },
            None => {},
        }
        let time_name = match self.fetch_type {
            KlinesFetchType::Recent => String::from_str("startTime"),
            KlinesFetchType::Older => String::from_str("endTime"),
        };
        Some(Request { time_name, time_param: self.time_param, limit: String::from_str("5") })
    }

    /// Takes note of the opening times of the rows of a response, in their
    /// order, and says whether the fetcher goes on: a response of at most one
    /// row ends the walk; after any other the next request continues at the
    /// last row of a forward walk and at the first row of a backward walk.
    pub fn take_response(&mut self, open_times: &Vec<u64>) -> (go_on: bool)
        ensures
            go_on == (open_times.len() > 1),
            final(self).fetch_type == old(self).fetch_type,
            final(self).table_length == old(self).table_length,
            final(self).limit == old(self).limit,
            final(self).force_fetch == old(self).force_fetch,
            final(self).time_param == if open_times.len() > 1 {
                match old(self).fetch_type {
                    KlinesFetchType::Recent => open_times@.last(),
                    KlinesFetchType::Older => open_times@.first(),
                }
            } else {
                old(self).time_param
            },
    {
        if open_times.len() <= 1 {
            return false;
        }
        self.time_param =
        match self.fetch_type {
            KlinesFetchType::Recent => open_times[open_times.len() - 1],
            KlinesFetchType::Older => open_times[0],
        };
        true
    }

    /// Takes note of what the store did with an accepted row: a row that was
    /// stored counts; one whose opening time the table already held does not.
    pub fn count_row(&mut self, stored: bool)
        requires
            old(self).table_length < i64::MAX,
        ensures
            final(self).fetch_type == old(self).fetch_type,
            final(self).time_param == old(self).time_param,
            final(self).limit == old(self).limit,
            final(self).force_fetch == old(self).force_fetch,
            final(self).table_length == if stored {
                old(self).table_length + 1
            } else {
                old(self).table_length as int
            },
    {
        if stored {
            self.table_length = self.table_length + 1;
        }
    }
}

} // verus!
