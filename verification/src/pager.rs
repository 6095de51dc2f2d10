use vstd::prelude::*;
use vstd::arithmetic::div_mod::{
    lemma_div_by_self, lemma_div_is_ordered, lemma_div_plus_one, lemma_div_pos_is_pos,
};
use crate::errors::SyncError;

verus! {

/// What one fetch of a page hands back: the page's items with the optional
/// next cursor, or the error that ended the stream.
pub type FetchReply<T> = Result<(Vec<T>, Option<String>), SyncError>;

/// The pagination state threaded through successive fetches. A listing starts
/// at `Going(None)`; each fetched page moves to `Going(cursor)` or, when the
/// reply carries no next cursor, to `Done`. A fetch error moves to `Failed`.
/// `Done` and `Failed` are absorbing: no further fetch is attempted from them.
#[derive(Debug, Clone)]
pub enum PagerState {
    /// Mid-stream: the next fetch passes the held cursor (`None` asks for the
    /// first page).
    Going(Option<String>),
    /// The page without a next cursor has been fetched; the stream is over.
    Done,
    /// A fetch failed; the error was yielded once and the stream is over.
    Failed,
}

impl PagerState {
    /// The state a fresh listing starts from: about to request the first
    /// page, with no cursor.
    pub fn start() -> (r: PagerState)
        ensures
            r == PagerState::Going(None::<String>),
    {
        PagerState::Going(None)
    }

    /// Whether the stream still owes a fetch. Only a `Going` state does.
    pub fn wants_fetch(&self) -> (r: bool)
        ensures
            r == (self is Going),
    {
        match self {
            PagerState::Going(_) => true,
            PagerState::Done => false,
            PagerState::Failed => false,
        }
    }

    /// Consumes a successful fetch's next cursor: with a cursor the stream
    /// keeps going from it, without one it is done.
    pub fn advance(self, next: Option<String>) -> (r: PagerState)
        requires
            self is Going,
        ensures
            next matches Some(t) ==> r == PagerState::Going(Some(t)),
            next is None ==> r == PagerState::Done,
    {
        match next {
            Some(t) => PagerState::Going(Some(t)),
            None => PagerState::Done,
        }
    }

    /// Records a fetch error: the stream ends and owes nothing further.
    pub fn fail(self) -> (r: PagerState)
        ensures
            r == PagerState::Failed,
    {
        PagerState::Failed
    }
}

/// What consuming a paginated listing produced: the items yielded in order,
/// how many fetches were made, and the error that ended the stream, if one
/// did.
pub struct StreamOutcome<T> {
    /// Every item yielded, in cross-page then intra-page order.
    pub items: Vec<T>,
    /// The number of fetches performed.
    pub fetches: usize,
    /// `Some` when the stream ended on a fetch error, after yielding the
    /// items of the pages before it.
    pub error: Option<SyncError>,
}

/// The mathematical outcome of consuming a scripted listing.
pub ghost struct StreamModel<T> {
    /// The items yielded, in order.
    pub items: Seq<T>,
    /// How many fetches were consumed.
    pub fetches: int,
    /// The error that ended the stream, if one did.
    pub error: Option<SyncError>,
}

/// `budget` less `used` items, where `None` is an unbounded budget.
pub open spec fn sub_budget(budget: Option<int>, used: int) -> Option<int> {
    match budget {
        Some(b) => Some(b - used),
        None => None,
    }
}

/// The item budget a consumer's limit allows, `None` for no limit.
pub open spec fn spec_budget(limit: Option<usize>) -> Option<int> {
    match limit {
        Some(n) => Some(n as int),
        None => None,
    }
}

/// What consuming the scripted replies yields, fetch by fetch: each page's
/// items in order, until the budget is spent, a reply carries no next cursor,
/// a reply is an error, or the script runs out. No fetch is consumed once the
/// budget is spent, and none after an error or a cursorless page.
pub open spec fn stream_model<T>(script: Seq<FetchReply<T>>, budget: Option<int>) -> StreamModel<
    T,
>
    decreases script.len(),
{
    if (budget matches Some(b) && b <= 0) || script.len() == 0 {
        StreamModel { items: Seq::empty(), fetches: 0, error: None }
    } else {
        match script[0] {
            Err(e) => StreamModel { items: Seq::empty(), fetches: 1, error: Some(e) },
            Ok((page, next)) => {
                let taken = match budget {
                    Some(b) => if b < page@.len() {
                        page@.take(b)
                    } else {
                        page@
                    },
                    None => page@,
                };
                match next {
                    Some(_) => {
                        let rest = stream_model(
                            script.drop_first(),
                            sub_budget(budget, taken.len() as int),
                        );
                        StreamModel {
                            items: taken + rest.items,
                            fetches: 1 + rest.fetches,
                            error: rest.error,
                        }
                    },
                    None => StreamModel { items: taken, fetches: 1, error: None },
                }
            },
        }
    }
}

/// A stream never consumes more fetches than the script offers.
pub proof fn lemma_stream_model_fetches_bound<T>(script: Seq<FetchReply<T>>, budget: Option<int>)
    ensures
        0 <= stream_model(script, budget).fetches <= script.len(),
    decreases script.len(),
{
    if (budget matches Some(b) && b <= 0) || script.len() == 0 {
    } else {
        match script[0] {
            Err(_) => {},
            Ok((page, next)) => {
                let taken_len: int = match budget {
                    Some(b) => if b < page@.len() {
                        b
                    } else {
                        page@.len() as int
                    },
                    None => page@.len() as int,
                };
                match next {
                    Some(_) => {
                        lemma_stream_model_fetches_bound(
                            script.drop_first(),
                            sub_budget(budget, taken_len),
                        );
                    },
                    None => {},
                }
            },
        }
    }
}

/// What consuming a paginated listing page by page produced: the pages in
/// fetch order, how many fetches were made, and the error that ended the
/// stream, if one did.
pub struct PagesOutcome<T> {
    /// Every page fetched, in order, each with its items in service order.
    pub pages: Vec<Vec<T>>,
    /// The number of fetches performed.
    pub fetches: usize,
    /// `Some` when the stream ended on a fetch error, after yielding the
    /// pages before it.
    pub error: Option<SyncError>,
}

/// What consuming the scripted replies yields as a sequence of whole pages:
/// one page per fetch, until a reply carries no next cursor, a reply is an
/// error, or the script runs out; no fetch follows an error or a cursorless
/// page.
pub open spec fn pages_model<T>(script: Seq<FetchReply<T>>) -> StreamModel<Vec<T>>
    decreases script.len(),
{
    if script.len() == 0 {
        StreamModel { items: Seq::empty(), fetches: 0, error: None }
    } else {
        match script[0] {
            Err(e) => StreamModel { items: Seq::empty(), fetches: 1, error: Some(e) },
            Ok((page, next)) => match next {
                Some(_) => {
                    let rest = pages_model(script.drop_first());
                    StreamModel {
                        items: seq![page] + rest.items,
                        fetches: 1 + rest.fetches,
                        error: rest.error,
                    }
                },
                None => StreamModel { items: seq![page], fetches: 1, error: None },
            },
        }
    }
}

/// A page stream never consumes more fetches than the script offers.
proof fn lemma_pages_model_fetches_bound<T>(script: Seq<FetchReply<T>>)
    ensures
        0 <= pages_model(script).fetches <= script.len(),
    decreases script.len(),
{
    if script.len() > 0 {
        match script[0] {
            Err(_) => {},
            Ok((_, next)) => match next {
                Some(_) => {
                    lemma_pages_model_fetches_bound(script.drop_first());
                },
                None => {},
            },
        }
    }
}

/// Consumes scripted fetch replies as a lazy page stream would: each page is
/// yielded whole, in fetch order, and consumption stops at the first
/// cursorless page or at the first error — the error ends the stream after
/// the pages before it.
pub fn stream_pages<T>(script: Vec<FetchReply<T>>) -> (r: PagesOutcome<T>)
    ensures
        ({
            let m = pages_model(script@);
            r.pages@ == m.items && r.fetches as int == m.fetches && r.error == m.error
        }),
    decreases script@.len(),
{
    let mut script = script;
    if script.len() == 0 {
        return PagesOutcome { pages: Vec::new(), fetches: 0, error: None };
    }
    let ghost script0 = script@;
    let first = script.remove(0);
    proof {
        assert(script@ =~= script0.drop_first());
    }
    match first {
        Err(e) => PagesOutcome { pages: Vec::new(), fetches: 1, error: Some(e) },
        Ok((page, next)) => match next {
            Some(_) => {
                proof {
                    lemma_pages_model_fetches_bound(script@);
                }
                let rest = stream_pages(script);
                let mut pages: Vec<Vec<T>> = Vec::new();
                pages.push(page);
                let mut rest_pages = rest.pages;
                pages.append(&mut rest_pages);
                proof {
                    assert(pages@ =~= seq![page] + pages_model(script0.drop_first()).items);
                }
                PagesOutcome { pages, fetches: 1 + rest.fetches, error: rest.error }
            },
            None => {
                let mut pages: Vec<Vec<T>> = Vec::new();
                pages.push(page);
                proof {
                    assert(pages@ =~= seq![page]);
                }
                PagesOutcome { pages, fetches: 1, error: None }
            },
        },
    }
}

/// The contents of each page, as sequences.
pub open spec fn page_views<T>(pages: Seq<Vec<T>>) -> Seq<Seq<T>> {
    pages.map_values(|p: Vec<T>| p@)
}

/// The item stream is the page stream flattened: consuming items without a
/// limit yields each fetched page's items in order, with the same fetch
/// count and the same terminal error.
pub proof fn lemma_items_flatten_pages<T>(script: Seq<FetchReply<T>>)
    ensures
        stream_model(script, None).items == page_views(pages_model(script).items).flatten(),
        stream_model(script, None).fetches == pages_model(script).fetches,
        stream_model(script, None).error == pages_model(script).error,
    decreases script.len(),
{
    let pm = pages_model(script);
    let views = page_views(pm.items);
    if script.len() == 0 {
        assert(views.len() == 0);
        assert(views.flatten() =~= Seq::<T>::empty());
    } else {
        match script[0] {
            Err(_) => {
                assert(views.len() == 0);
                assert(views.flatten() =~= Seq::<T>::empty());
            },
            Ok((page, next)) => {
                match next {
                    None => {
                        assert(views =~= seq![page@]);
                        assert(views.drop_first().len() == 0);
                        assert(views.drop_first().flatten() =~= Seq::<T>::empty());
                        assert(views.flatten() =~= page@);
                    },
                    Some(_) => {
                        lemma_items_flatten_pages(script.drop_first());
                        let restp = pages_model(script.drop_first());
                        let restviews = page_views(restp.items);
                        assert(views =~= seq![page@] + restviews);
                        assert(views.first() == page@);
                        assert(views.drop_first() =~= restviews);
                        assert(views.flatten() == page@ + restviews.flatten());
                        assert(stream_model(script, None).items == page@ + stream_model(
                            script.drop_first(),
                            None,
                        ).items);
                    },
                }
            },
        }
    }
}

/// The items of a successful reply; empty for an error reply.
pub open spec fn page_items<T>(reply: FetchReply<T>) -> Seq<T> {
    match reply {
        Ok((page, _)) => page@,
        Err(_) => Seq::empty(),
    }
}

/// The concatenation of the items of the first `n` replies, in script order
/// and with each page's own order kept.
pub open spec fn concat_items<T>(script: Seq<FetchReply<T>>, n: int) -> Seq<T>
    decreases n,
{
    if n <= 0 {
        Seq::empty()
    } else {
        page_items(script[0]) + concat_items(script.drop_first(), n - 1)
    }
}

/// An unlimited consumer of a script whose page `k` is the first without a
/// next cursor yields the concatenation of the items of pages `0..=k` in
/// order, fetches exactly those `k + 1` pages, and ends without error: no
/// fetch happens past the cursorless page.
pub proof fn lemma_stream_yields_all_pages<T>(script: Seq<FetchReply<T>>, k: int)
    requires
        0 <= k < script.len(),
        forall|i: int| 0 <= i < k ==> (#[trigger] script[i] matches Ok(p) && p.1 is Some),
        script[k] matches Ok(p) && p.1 is None,
    ensures
        stream_model(script, None).items == concat_items(script, k + 1),
        stream_model(script, None).fetches == k + 1,
        stream_model(script, None).error is None,
    decreases k,
{
    if k == 0 {
        assert(concat_items(script.drop_first(), 0) == Seq::<T>::empty());
        assert(page_items(script[0]) + Seq::<T>::empty() =~= page_items(script[0]));
    } else {
        let sub = script.drop_first();
        assert(script[0] matches Ok(p) && p.1 is Some);
        assert forall|i: int| 0 <= i < k - 1 implies (#[trigger] sub[i] matches Ok(p) && p.1 is Some) by {
            assert(sub[i] == script[i + 1]);
        }
        assert(sub[k - 1] == script[k]);
        lemma_stream_yields_all_pages(sub, k - 1);
    }
}

/// When the fetch of page `k` errors after `k` pages that each carried a next
/// cursor, the stream yields exactly the items of pages `0..k` followed by
/// that error, then ends: the erroring fetch is the last, and no further
/// fetch occurs.
pub proof fn lemma_stream_stops_at_error<T>(script: Seq<FetchReply<T>>, k: int, e: SyncError)
    requires
        0 <= k < script.len(),
        forall|i: int| 0 <= i < k ==> (#[trigger] script[i] matches Ok(p) && p.1 is Some),
        script[k] == Err::<(Vec<T>, Option<String>), SyncError>(e),
    ensures
        stream_model(script, None).items == concat_items(script, k),
        stream_model(script, None).fetches == k + 1,
        stream_model(script, None).error == Some(e),
    decreases k,
{
    if k == 0 {
    } else {
        let sub = script.drop_first();
        assert(script[0] matches Ok(p) && p.1 is Some);
        assert forall|i: int| 0 <= i < k - 1 implies (#[trigger] sub[i] matches Ok(p) && p.1 is Some) by {
            assert(sub[i] == script[i + 1]);
        }
        assert(sub[k - 1] == script[k]);
        lemma_stream_stops_at_error(sub, k - 1, e);
    }
}

/// A consumer that wants at most `n` items from pages of exactly `p` items
/// each causes at most `(n + p - 1) / p` fetches — the ceiling of `n / p`.
pub proof fn lemma_stream_fetches_within_budget<T>(script: Seq<FetchReply<T>>, n: int, p: int)
    requires
        n >= 0,
        p >= 1,
        forall|i: int| 0 <= i < script.len() ==> (#[trigger] script[i] matches Ok(pg) && pg.0@.len() == p),
    ensures
        stream_model(script, Some(n)).fetches <= (n + p - 1) / p,
    decreases script.len(),
{
    if n == 0 || script.len() == 0 {
        lemma_div_pos_is_pos(n + p - 1, p);
    } else {
        assert(script[0] matches Ok(pg) && pg.0@.len() == p);
        lemma_div_is_ordered(p, n + p - 1, p);
        lemma_div_by_self(p);
        assert((n + p - 1) / p >= 1);
        match script[0] {
            Err(_) => {
                assert(false);
            },
            Ok((page, next)) => {
                assert(page@.len() == p);
                match next {
                    None => {
                        assert(stream_model(script, Some(n)).fetches == 1);
                    },
                    Some(_) => {
                        let sub = script.drop_first();
                        if n < p {
                            assert(page@.take(n).len() == n);
                            assert(stream_model(script, Some(n)).fetches == 1 + stream_model(
                                sub,
                                Some(0),
                            ).fetches);
                            assert(stream_model(sub, Some(0)).fetches == 0);
                        } else {
                            assert(stream_model(script, Some(n)).fetches == 1 + stream_model(
                                sub,
                                Some(n - p),
                            ).fetches);
                            assert forall|i: int|
                                0 <= i < sub.len() implies (#[trigger] sub[i] matches Ok(pg)
                                && pg.0@.len() == p) by {
                                assert(sub[i] == script[i + 1]);
                            }
                            lemma_stream_fetches_within_budget(sub, n - p, p);
                            lemma_div_plus_one(n - 1, p);
                            assert(1 + (n - 1) / p == (p + n - 1) / p);
                            assert(p + n - 1 == n + p - 1);
                        }
                    },
                }
            },
        }
    }
}

/// Consumes scripted fetch replies as a lazy item stream would: pages are
/// taken in order, their items concatenated, and consumption stops at the
/// first cursorless page, at the first error, or as soon as `limit` items
/// are gathered — whichever comes first. The fetch count records how many
/// replies were consumed; a consumer that stops early fetches no further.
pub fn stream_items<T>(script: Vec<FetchReply<T>>, limit: Option<usize>) -> (r: StreamOutcome<T>)
    ensures
        ({
            let m = stream_model(script@, spec_budget(limit));
            r.items@ == m.items && r.fetches as int == m.fetches && r.error == m.error
        }),
    decreases script@.len(),
{
    let mut script = script;
    match limit {
        Some(b) => {
            if b == 0 {
                return StreamOutcome { items: Vec::new(), fetches: 0, error: None };
            }
        },
        None => {},
    }
    if script.len() == 0 {
        return StreamOutcome { items: Vec::new(), fetches: 0, error: None };
    }
    let ghost script0 = script@;
    let first = script.remove(0);
    proof {
        assert(script@ =~= script0.drop_first());
    }
    match first {
        Err(e) => StreamOutcome { items: Vec::new(), fetches: 1, error: Some(e) },
        Ok((page, next)) => {
            let mut page = page;
            match limit {
                Some(b) => {
                    if b < page.len() {
                        page.truncate(b);
                    }
                },
                None => {},
            }
            match next {
                Some(_) => {
                    let new_limit: Option<usize> = match limit {
                        Some(b) => Some(b - page.len()),
                        None => None,
                    };
                    proof {
                        lemma_stream_model_fetches_bound(script@, spec_budget(new_limit));
                    }
                    let rest = stream_items(script, new_limit);
                    let mut items = page;
                    let mut rest_items = rest.items;
                    items.append(&mut rest_items);
                    StreamOutcome { items, fetches: 1 + rest.fetches, error: rest.error }
                },
                None => StreamOutcome { items: page, fetches: 1, error: None },
            }
        },
    }
}

} // verus!
