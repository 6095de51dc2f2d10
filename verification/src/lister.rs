use vstd::prelude::*;

verus! {

/// Applies `f` to `req` and the value when one is present; hands `req` back
/// unchanged otherwise. The building block for request parameters that are
/// only set when configured.
pub fn maybe_update_req<R, V, F: FnOnce(R, V) -> R>(req: R, val: Option<V>, f: F) -> (r: R)
    requires
        val matches Some(v) ==> call_requires(f, (req, v)),
    ensures
        match val {
            Some(v) => call_ensures(f, (req, v), r),
            None => r == req,
        },
{
    match val {
        Some(v) => f(req, v),
        None => req,
    }
}

/// The optional filters a listing passes through to every page request,
/// unchanged: they never affect cursor semantics.
#[derive(Debug, Clone)]
pub struct ListFilters {
    /// Only events modified after this instant, seconds since the Unix epoch.
    pub updated_after: Option<i64>,
    /// Only events starting at or after this instant, seconds since the Unix
    /// epoch.
    pub starting_after: Option<i64>,
}

/// One page request of an event listing: the calendar it is scoped to, the
/// cursor of the page wanted (`None` for the first), and the filters.
#[derive(Debug, Clone)]
pub struct ListQuery {
    /// The calendar listed.
    pub calendar: String,
    /// The cursor returned by the previous page, absent for the first page.
    pub page_token: Option<String>,
    /// Only events modified after this instant.
    pub updated_min: Option<i64>,
    /// Only events starting at or after this instant.
    pub time_min: Option<i64>,
}

/// Builds the page request for one fetch of an event listing: scoped to the
/// calendar, continuing from the given cursor, with each configured filter
/// set and each unconfigured one left out.
pub fn build_list_query(calendar: String, page_token: Option<String>, filters: &ListFilters) -> (q:
    ListQuery)
    ensures
        q.calendar == calendar,
        q.page_token == page_token,
        q.updated_min == filters.updated_after,
        q.time_min == filters.starting_after,
{
    let set_token = |r: ListQuery, t: String| -> (out: ListQuery)
        ensures
            out.page_token == Some(t) && out.calendar == r.calendar && out.updated_min
                == r.updated_min && out.time_min == r.time_min
        {
            ListQuery {
                calendar: r.calendar,
                page_token: Some(t),
                updated_min: r.updated_min,
                time_min: r.time_min,
            }
        };
    let set_updated = |r: ListQuery, u: i64| -> (out: ListQuery)
        ensures
            out.updated_min == Some(u) && out.calendar == r.calendar && out.page_token
                == r.page_token && out.time_min == r.time_min
        {
            ListQuery {
                calendar: r.calendar,
                page_token: r.page_token,
                updated_min: Some(u),
                time_min: r.time_min,
            }
        };
    let set_start = |r: ListQuery, s: i64| -> (out: ListQuery)
        ensures
            out.time_min == Some(s) && out.calendar == r.calendar && out.page_token
                == r.page_token && out.updated_min == r.updated_min
        {
            ListQuery {
                calendar: r.calendar,
                page_token: r.page_token,
                updated_min: r.updated_min,
                time_min: Some(s),
            }
        };
    let q = ListQuery { calendar, page_token: None, updated_min: None, time_min: None };
    let q = maybe_update_req(q, page_token, set_token);
    let q = maybe_update_req(q, filters.updated_after, set_updated);
    let q = maybe_update_req(q, filters.starting_after, set_start);
    q
}

} // verus!
