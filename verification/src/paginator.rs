//! Following the feed's cursor chain, one page at a time.
//!
//! A [`Paginator`] decides; its caller sends. The caller asks it for the next
//! request, sends that, and hands back what came of it; the paginator answers
//! with what to do next. Pages are asked for strictly one after another, since
//! each request needs the cursor of the last record of the page before.

use crate::api_schema::{Edges, Query, RequestBody, TRANSACTIONS_QUERY};
use crate::ReportError;
use vstd::prelude::*;

verus! {

/// What came of one request.
#[derive(Debug)]
pub enum Response {
    /// The body was read as a page.
    Page(Query),
    /// The request could not be sent, was refused, or its body was no page.
    Failure,
}

/// A retrieval under way: the range asked for, the cursor of the next request
/// and the records gathered so far.
#[derive(Debug)]
pub struct Paginator {
    created_at_min: String,
    created_at_max: String,
    cursor: String,
    collected: Vec<Edges>,
}

pub struct PaginatorView {
    pub created_at_min: Seq<char>,
    pub created_at_max: Seq<char>,
    pub cursor: Seq<char>,
    pub collected: Seq<Edges>,
}

impl View for Paginator {
    type V = PaginatorView;

    closed spec fn view(&self) -> PaginatorView {
        PaginatorView {
            created_at_min: self.created_at_min@,
            created_at_max: self.created_at_max@,
            cursor: self.cursor@,
            collected: self.collected@,
        }
    }
}

/// What to do after a response.
#[derive(Debug)]
pub enum Step {
    /// Another page follows: send the request of this state.
    Continue(Paginator),
    /// The feed is exhausted: these are all its records, in the order given.
    Done(Vec<Edges>),
    /// The retrieval is over, with nothing to show for it.
    Failed(ReportError),
}

pub enum StepView {
    Continue(PaginatorView),
    Done(Seq<Edges>),
    Failed(ReportError),
}

impl View for Step {
    type V = StepView;

    open spec fn view(&self) -> StepView {
        match *self {
            Step::Continue(state) => StepView::Continue(state@),
            Step::Done(records) => StepView::Done(records@),
            Step::Failed(error) => StepView::Failed(error),
        }
    }
}

pub open spec fn has_next(page: Query) -> bool {
    page.data.transactions.page_info.has_next_page
}

pub open spec fn edges_of(page: Query) -> Seq<Edges> {
    page.data.transactions.edges@
}

/// The state before the first request: the empty cursor, nothing gathered.
pub open spec fn start(created_at_min: Seq<char>, created_at_max: Seq<char>) -> PaginatorView {
    PaginatorView {
        created_at_min,
        created_at_max,
        cursor: Seq::empty(),
        collected: Seq::empty(),
    }
}

/// What follows from one response. A page's records join those gathered. If
/// it announces a successor, the next cursor is that of its last record; a
/// page that announces a successor and holds no record breaks the feed's
/// contract.
pub open spec fn next_step(state: PaginatorView, response: Response) -> StepView {
    match response {
        Response::Failure => StepView::Failed(ReportError::TransportOrParseFailure),
        Response::Page(page) => if !has_next(page) {
            StepView::Done(state.collected + edges_of(page))
        } else if edges_of(page).len() == 0 {
            StepView::Failed(ReportError::ContractViolation)
        } else {
            StepView::Continue(
                PaginatorView {
                    cursor: edges_of(page).last().cursor@,
                    collected: state.collected + edges_of(page),
                    ..state
                },
            )
        },
    }
}

/// Where a retrieval stands after `responses`, one for each request made. Once
/// it is done or has failed no further request is made, and what was decided
/// stands.
pub open spec fn outcome(state: PaginatorView, responses: Seq<Response>) -> StepView
    decreases responses.len(),
{
    if responses.len() == 0 {
        StepView::Continue(state)
    } else {
        match outcome(state, responses.drop_last()) {
            StepView::Continue(reached) => next_step(reached, responses.last()),
            ended => ended,
        }
    }
}

/// The records of `pages`, page after page.
pub open spec fn all_edges(pages: Seq<Query>) -> Seq<Edges>
    decreases pages.len(),
{
    if pages.len() == 0 {
        Seq::empty()
    } else {
        all_edges(pages.drop_last()) + edges_of(pages.last())
    }
}

/// The responses of a feed that serves `pages` without failure.
pub open spec fn served(pages: Seq<Query>) -> Seq<Response> {
    Seq::new(pages.len(), |i: int| Response::Page(pages[i]))
}

/// A feed of at least one page in which every page but the last announces a
/// successor and holds a record, and the last announces none.
pub open spec fn well_chained(pages: Seq<Query>) -> bool {
    &&& pages.len() > 0
    &&& forall|i: int|
        0 <= i < pages.len() - 1 ==> has_next(#[trigger] pages[i]) && edges_of(pages[i]).len() > 0
    &&& !has_next(pages.last())
}

/// The state in which request number `k` (from zero) is made against a feed
/// that serves `pages`: the cursor is empty for the first request and after
/// that the cursor of the last record of the page before; gathered are the
/// records of the pages before.
pub open spec fn state_at(
    created_at_min: Seq<char>,
    created_at_max: Seq<char>,
    pages: Seq<Query>,
    k: int,
) -> PaginatorView {
    PaginatorView {
        created_at_min,
        created_at_max,
        cursor: if k == 0 {
            Seq::empty()
        } else {
            edges_of(pages[k - 1]).last().cursor@
        },
        collected: all_edges(pages.take(k)),
    }
}

/// Against a well-chained feed, each of its pages is asked for in turn, with
/// the cursor of the last record of the page before.
pub proof fn lemma_follows_chain(
    created_at_min: Seq<char>,
    created_at_max: Seq<char>,
    pages: Seq<Query>,
    k: int,
)
    requires
        well_chained(pages),
        0 <= k < pages.len(),
    ensures
        outcome(start(created_at_min, created_at_max), served(pages).take(k)) == StepView::Continue(
            state_at(created_at_min, created_at_max, pages, k),
        ),
    decreases k,
{
    let begin = start(created_at_min, created_at_max);
    if k == 0 {
        assert(pages.take(0) =~= Seq::<Query>::empty());
        assert(state_at(created_at_min, created_at_max, pages, 0) == begin);
    } else {
        lemma_follows_chain(created_at_min, created_at_max, pages, k - 1);
        assert(served(pages).take(k).drop_last() =~= served(pages).take(k - 1));
        assert(served(pages).take(k).last() == Response::Page(pages[k - 1]));
        assert(pages.take(k).drop_last() =~= pages.take(k - 1));
        assert(pages.take(k).last() == pages[k - 1]);
    }
}

/// Against a well-chained feed of `n` pages the retrieval ends with the
/// response to request number `n - 1`, and yields the records of all pages in
/// order.
pub proof fn lemma_exhausts_feed(
    created_at_min: Seq<char>,
    created_at_max: Seq<char>,
    pages: Seq<Query>,
)
    requires
        well_chained(pages),
    ensures
        outcome(start(created_at_min, created_at_max), served(pages)) == StepView::Done(
            all_edges(pages),
        ),
{
    let k = pages.len() - 1;
    lemma_follows_chain(created_at_min, created_at_max, pages, k);
    assert(served(pages).drop_last() =~= served(pages).take(k));
    assert(pages.drop_last() =~= pages.take(k));
}

impl Paginator {
    /// A retrieval of the records created in `[created_at_min,
    /// created_at_max)`, before its first request.
    pub fn new(created_at_min: &str, created_at_max: &str) -> (state: Paginator)
        ensures
            state@ == start(created_at_min@, created_at_max@),
    {
        Paginator {
            created_at_min: created_at_min.to_owned(),
            created_at_max: created_at_max.to_owned(),
            cursor: String::new(),
            collected: Vec::new(),
        }
    }

    /// The request to send in this state.
    pub fn request(&self) -> (body: RequestBody)
        ensures
            body.query@ == TRANSACTIONS_QUERY@,
            body.variables.cursor@ == self@.cursor,
            body.variables.created_at_min@ == self@.created_at_min,
            body.variables.created_at_max@ == self@.created_at_max,
    {
        RequestBody::new(
            self.cursor.as_str(),
            self.created_at_min.as_str(),
            self.created_at_max.as_str(),
        )
    }

    /// Takes the response to the request of this state and decides what
    /// follows.
    pub fn advance(self, response: Response) -> (step: Step)
        ensures
            step@ == next_step(self@, response),
    {
        match response {
            Response::Failure => Step::Failed(ReportError::TransportOrParseFailure),
            Response::Page(page) => {
                let mut state = self;
                let mut edges = page.data.transactions.edges;
                let more = page.data.transactions.page_info.has_next_page;
                if more && edges.len() == 0 {
                    return Step::Failed(ReportError::ContractViolation);
                }
                if more {
                    state.cursor = edges[edges.len() - 1].cursor.clone();
                }
                state.collected.append(&mut edges);
                if more {
                    Step::Continue(state)
                } else {
                    Step::Done(state.collected)
                }
            },
        }
    }
}

} // verus!
