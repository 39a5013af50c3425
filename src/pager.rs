use vstd::prelude::*;

verus! {

/// A record handle as listed by one page of a collection query.
#[derive(Debug, Clone)]
pub struct PropertyResult {
    pub id: String,
}

/// One page of a collection query.
#[derive(Debug, Clone)]
pub struct Response {
    pub results: Vec<PropertyResult>,
    pub has_more: bool,
    pub next_cursor: Option<String>,
}

/// The next query to send: the collection's query path and the cursor to
/// put in the request body, if any.
#[derive(Debug, Clone)]
pub struct QueryRequest {
    pub path: String,
    pub start_cursor: Option<String>,
}

/// The pagination state of one collection: the cursor of the next page, the
/// record handles gathered so far, whether the server announced more pages,
/// and how many pages were received.
pub struct Pager {
    pub db_id: String,
    pub cursor: Option<String>,
    pub results: Vec<PropertyResult>,
    pub has_more: bool,
    pub pages: Ghost<nat>,
}

/// The record handles of a run of pages, page after page.
pub open spec fn all_results(pages: Seq<Response>) -> Seq<PropertyResult>
    decreases pages.len(),
{
    if pages.len() == 0 {
        Seq::empty()
    } else {
        all_results(pages.drop_last()) + pages.last().results@
    }
}

/// Whether `p` is a pager at the first page: no cursor, nothing gathered.
pub open spec fn fresh(p: Pager) -> bool {
    &&& p.cursor is None
    &&& p.results@.len() == 0
    &&& p.has_more
    &&& p.pages@ == 0
}

/// Whether `after` is `before` once it has taken in `page`: the handles
/// appended in server order, the cursor and the continuation flag replaced.
pub open spec fn received(before: Pager, page: Response, after: Pager) -> bool {
    &&& after.db_id == before.db_id
    &&& after.results@ == before.results@ + page.results@
    &&& after.has_more == page.has_more
    &&& after.cursor == page.next_cursor
    &&& after.pages@ == before.pages@ + 1
}

/// Whether `states` are the successive states of a pager that started fresh
/// and took in `pages` one after the other.
pub open spec fn pager_run(states: Seq<Pager>, pages: Seq<Response>) -> bool {
    &&& states.len() == pages.len() + 1
    &&& fresh(states[0])
    &&& forall|k: int| 0 <= k < pages.len() ==> received(states[k], #[trigger] pages[k], states[k + 1])
}

/// After `k` pages of a run, the pager holds the handles of those pages.
proof fn lemma_run_prefix(states: Seq<Pager>, pages: Seq<Response>, k: int)
    requires
        pager_run(states, pages),
        0 <= k <= pages.len(),
    ensures
        states[k].results@ == all_results(pages.take(k)),
        states[k].pages@ == k,
    decreases k,
{
    if k == 0 {
        assert(all_results(pages.take(0)) =~= Seq::<PropertyResult>::empty());
    } else {
        lemma_run_prefix(states, pages, k - 1);
        assert(received(states[k - 1], pages[k - 1], states[k]));
        assert(pages.take(k).drop_last() =~= pages.take(k - 1));
        assert(pages.take(k).last() == pages[k - 1]);
    }
}

/// Pagination is complete: when every page but the last announces more and
/// the last does not, a fresh pager asks for each page in turn (it expects
/// more before each one), and ends done, holding the handles of all pages in
/// page order, whatever the size of each page.
pub proof fn lemma_pagination_complete(states: Seq<Pager>, pages: Seq<Response>)
    requires
        pages.len() >= 1,
        pager_run(states, pages),
        forall|i: int| 0 <= i < pages.len() - 1 ==> (#[trigger] pages[i]).has_more,
        !pages.last().has_more,
    ensures
        forall|k: int| 0 <= k < pages.len() ==> (#[trigger] states[k]).has_more,
        !states.last().has_more,
        states.last().results@ == all_results(pages),
        states.last().pages@ == pages.len(),
{
    let n = pages.len() as int;
    assert forall|k: int| 0 <= k < n implies (#[trigger] states[k]).has_more by {
        if k > 0 {
            assert(received(states[k - 1], pages[k - 1], states[k]));
            assert(pages[k - 1].has_more);
        }
    }
    assert(received(states[n - 1], pages[n - 1], states[n]));
    lemma_run_prefix(states, pages, n);
    assert(pages.take(n) =~= pages);
}

/// A first page that announces no more ends the pagination after that one
/// request: the pager is done and holds that page's handles alone.
pub proof fn lemma_single_page(states: Seq<Pager>, page: Response)
    requires
        pager_run(states, seq![page]),
        !page.has_more,
    ensures
        !states[1].has_more,
        states[1].results@ == page.results@,
        states[1].pages@ == 1,
{
    let pages = seq![page];
    assert(pages.last() == page);
    lemma_pagination_complete(states, pages);
    assert(pages.drop_last() =~= Seq::<Response>::empty());
    assert(all_results(pages) =~= page.results@);
}


impl Pager {
    /// A pager at the first page of collection `db_id`: no cursor, nothing gathered.
    pub fn new(db_id: &str) -> (r: Pager)
        ensures
            r.db_id@ == db_id@,
            fresh(r),
    {
        Pager {
            db_id: String::from_str(db_id),
            cursor: None,
            results: Vec::new(),
            has_more: true,
            pages: Ghost(0),
        }
    }

    /// Whether the last page has been received.
    pub fn is_done(&self) -> (r: bool)
        ensures
            r == !self.has_more,
    {
        !self.has_more
    }

    /// The query for the next page, carrying the current cursor, or `None`
    /// once the server has said that no page follows.
    pub fn next_query(&self) -> (r: Option<QueryRequest>)
        ensures
            r is None <==> !self.has_more,
            r is Some ==> r->Some_0.path@ == query_path(self.db_id@),
            r is Some ==> r->Some_0.start_cursor == self.cursor,
    {
        if !self.has_more {
            return None;
        }
        Some(QueryRequest { path: query_path_of(&self.db_id), start_cursor: self.cursor.clone() })
    }

    /// Takes in the next page: its handles are appended in server order and
    /// its cursor and continuation flag replace the current ones.
    pub fn receive(&mut self, page: Response)
        requires
            old(self).has_more,
        ensures
            received(*old(self), page, *final(self)),
    {
        let Response { results, has_more, next_cursor } = page;
        let mut items = results;
        self.results.append(&mut items);
        self.has_more = has_more;
        self.cursor = next_cursor;
        self.pages = Ghost(self.pages@ + 1);
    }

    /// The handles gathered over all pages, in page order.
    pub fn into_results(self) -> (r: Vec<PropertyResult>)
        ensures
            r@ == self.results@,
    {
        self.results
    }
}

/// The path of the query endpoint of collection `id`.
pub open spec fn query_path(id: Seq<char>) -> Seq<char> {
    "databases/"@ + id + "/query"@
}

/// Builds the path of the query endpoint of collection `id`.
pub fn query_path_of(id: &str) -> (r: String)
    ensures
        r@ == query_path(id@),
{
    let mut p = String::from_str("databases/");
    p.append(id);
    p.append("/query");
    p
}

} // verus!
