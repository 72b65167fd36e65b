//! What a worker decides before it evaluates a task: whether the task can be
//! run at all, and with which indicators and which window.
use vstd::prelude::*;
use vstd::string::*;
use crate::indicators::making::Parameter;
use crate::indicators::types::Indicator;
use crate::objects::CryptoListComplete;

verus! {

/// An indicator of a combination, as the store holds it: its name and its
/// parameters as text.
#[derive(Debug, Clone)]
pub struct IndicatorInCombination {
    pub indicator_combination_id: i32,
    pub indicator_struct_name: String,
    pub parameters: String,
}

/// An indicator of a combination with its parameters read.
#[derive(Debug, Clone)]
pub struct IndicatorRequest<P> {
    pub struct_name: String,
    pub parameters: Vec<Parameter<P>>,
}

/// What a worker runs a task with.
#[derive(Debug, Clone)]
pub struct ExecutionPlan<P> {
    pub indicators: Vec<Indicator<P>>,
    pub limit_minutes: i64,
    pub force_fetch: bool,
    pub training_percentage: P,
}

/// Whether candlesticks are fetched though the window is already stored,
/// where a task does not say.
pub const FORCE_FETCH_DEFAULT: bool = false;

/// The least number of candlesticks of a window.
pub const LEAST_WINDOW: i32 = 10;

/// Whether every request is for an indicator that can be made.
pub open spec fn all_made<P: Copy, T: Fn(&P) -> String>(
    requests: Seq<IndicatorRequest<P>>,
    label: T,
    indicators: Seq<Indicator<P>>,
) -> bool {
    &&& indicators.len() == requests.len()
    &&& forall|k: int|
        0 <= k < requests.len() ==> Indicator::described(
            (#[trigger] requests[k]).struct_name@,
            requests[k].parameters@,
            label,
            Some(indicators[k]),
        )
}

/// Whether a request is for an indicator that cannot be made: its name is
/// unknown, or one of its parameters is not there or not of its kind.
pub open spec fn unknown<P: Copy, T: Fn(&P) -> String>(
    request: IndicatorRequest<P>,
    label: T,
) -> bool {
    Indicator::described(request.struct_name@, request.parameters@, label, None)
}

/// Lets a worker go on unless its task was cancelled: wherever the worker
/// asks, a cancelled task ends with the same error.
pub fn checkpoint(cancelled: bool) -> (go: Result<(), String>)
    ensures
        cancelled ==> (go matches Err(message) && message@ == "Task was cancelled"@),
        !cancelled ==> go is Ok,
{
    if cancelled {
        Err(String::from_str("Task was cancelled"))
    } else {
        Ok(())
    }
}

/// Why a task cannot be run, if it cannot: the first of these that holds.
/// Its optimizer, its list of symbols or its indicator combination is not
/// set or not stored; one of its indicators cannot be made; it was cancelled
/// meanwhile; its window holds fewer than ten candlesticks.
pub open spec fn refusal<P: Copy, T: Fn(&P) -> String>(
    mh_object_found: bool,
    crypto_list: Option<&CryptoListComplete>,
    combination_found: bool,
    requests: Seq<IndicatorRequest<P>>,
    cancelled: bool,
    label: T,
) -> Option<Seq<char>> {
    if !mh_object_found {
        Some("MH object not found"@)
    } else if crypto_list is None {
        Some("Crypto list not found"@)
    } else if !combination_found {
        Some("Indicator combination not found"@)
    } else if exists|k: int| 0 <= k < requests.len() && unknown(#[trigger] requests[k], label) {
        Some("Error creating indicator"@)
    } else if cancelled {
        Some("Task was cancelled"@)
    } else if crypto_list.unwrap().limit_count < LEAST_WINDOW {
        Some("limit_minutes must be at least 10 times the interval"@)
    } else {
        None
    }
}

/// Decides whether a task can be run, and with what. `mh_object_found` and
/// `combination_found` say whether the task names an optimizer and an
/// indicator combination that the store holds; `crypto_list` is its list of
/// symbols, if it names one that the store holds. Where the task cannot be
/// run, the error says why. Otherwise the plan holds the indicators in
/// their order, the window in minutes and the defaults filled in.
pub fn prepare<P: Copy, T: Fn(&P) -> String>(
    mh_object_found: bool,
    crypto_list: Option<&CryptoListComplete>,
    combination_found: bool,
    requests: &Vec<IndicatorRequest<P>>,
    cancelled: bool,
    force_fetch: Option<bool>,
    training_percentage: P,
    label: &T,
) -> (prepared: Result<ExecutionPlan<P>, String>)
    requires
        forall|number: P| call_requires(*label, (&number,)),
    ensures
        match refusal(
            mh_object_found,
            crypto_list,
            combination_found,
            requests@,
            cancelled,
            *label,
        ) {
            Some(reason) => prepared matches Err(message) && message@ == reason,
            None => prepared matches Ok(plan) && all_made(requests@, *label, plan.indicators@)
                && plan.limit_minutes == crypto_list.unwrap().limit_count
                * crypto_list.unwrap().interval.minutes() && plan.force_fetch == match force_fetch {
                Some(value) => value,
                None => FORCE_FETCH_DEFAULT,
            } && plan.training_percentage == training_percentage,
        },
{
    if !mh_object_found {
        return Err(String::from_str("MH object not found"));
    }
    let list = match crypto_list {
        Some(list) => list,
        None => {
            return Err(String::from_str("Crypto list not found"));
        },
    };
    if !combination_found {
        return Err(String::from_str("Indicator combination not found"));
    }
    let mut indicators: Vec<Indicator<P>> = Vec::with_capacity(requests.len());
    let mut k: usize = 0;
    while k < requests.len()
        invariant
            mh_object_found,
            crypto_list == Some(list),
            combination_found,
            forall|number: P| call_requires(*label, (&number,)),
            k <= requests.len(),
            all_made(requests@.subrange(0, k as int), *label, indicators@),
        decreases requests.len() - k,
    {
        let ghost earlier = indicators@;
        let request = &requests[k];
        let made = Indicator::new_from_struct_name(
            request.struct_name.as_str(),
            &request.parameters,
            label,
        );
        match made {
            Some(indicator) => {
                indicators.push(indicator);
                proof {
                    let taken = requests@.subrange(0, k + 1);
                    assert forall|t: int| 0 <= t < taken.len() implies Indicator::described(
                        (#[trigger] taken[t]).struct_name@,
                        taken[t].parameters@,
                        *label,
                        Some(indicators@[t]),
                    ) by {
                        if t < k {
                            assert(requests@.subrange(0, k as int)[t] == taken[t]);
                            assert(indicators@[t] == earlier[t]);
                        }
                    }
                }
            },
            None => {
                assert(unknown(requests[k as int], *label));
                return Err(String::from_str("Error creating indicator"));
            },
        }
        k += 1;
    }
    proof {
        assert(requests@.subrange(0, k as int) =~= requests@);
        assert forall|t: int| 0 <= t < requests.len() implies !unknown(
            #[trigger] requests[t],
            *label,
        ) by {
            assert(Indicator::described(
                requests[t].struct_name@,
                requests[t].parameters@,
                *label,
                Some(indicators@[t]),
            ));
            lemma_made_is_known(requests[t], *label, indicators@[t]);
        }
    }
    match checkpoint(cancelled) {
        Err(message) => {
            return Err(message);
        },
        Ok(_) => {},
    }
    if list.limit_count < LEAST_WINDOW {
        return Err(String::from_str("limit_minutes must be at least 10 times the interval"));
    }
    let each = list.interval.to_minutes();
    let count = list.limit_count as i64;
    assert(0 <= count * each <= 0x7fff_ffff * 43200) by (nonlinear_arith)
        requires
            0 <= count <= 0x7fff_ffff,
            0 <= each <= 43200,
    ;
    let limit_minutes = count * each;
    let force = match force_fetch {
        Some(value) => value,
        None => FORCE_FETCH_DEFAULT,
    };
    Ok(ExecutionPlan { indicators, limit_minutes, force_fetch: force, training_percentage })
}

/// A request from which an indicator was made is not one from which none can
/// be made.
pub proof fn lemma_made_is_known<P: Copy, T: Fn(&P) -> String>(
    request: IndicatorRequest<P>,
    label: T,
    indicator: Indicator<P>,
)
    requires
        Indicator::described(request.struct_name@, request.parameters@, label, Some(indicator)),
    ensures
        !unknown(request, label),
{
}

} // verus!
