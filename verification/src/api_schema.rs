//! The shapes exchanged with the transaction feed, and the shapes of a report.

use vstd::prelude::*;

verus! {

/// A whole response body: one page of the feed inside its envelope.
#[derive(Debug)]
pub struct Query {
    pub data: Data,
}

#[derive(Debug)]
pub struct Data {
    pub transactions: Transactions,
}

/// One page: its records in the order the feed gave them, and whether another
/// page follows.
#[derive(Debug)]
pub struct Transactions {
    pub edges: Vec<Edges>,
    pub page_info: PageInfo,
}

/// One record together with the cursor that marks its place in the feed.
#[derive(Debug)]
pub struct Edges {
    pub cursor: String,
    pub node: Node,
}

#[derive(Debug)]
pub struct PageInfo {
    pub has_next_page: bool,
}

/// A sale: what was paid, when, for which application, by which shop.
#[derive(Debug)]
pub struct Node {
    pub id: String,
    pub created_at: String,
    pub net_amount: NetAmount,
    pub app: App,
    pub shop: Shop,
}

/// The amount as the feed sends it: decimal text.
#[derive(Debug)]
pub struct NetAmount {
    pub amount: String,
}

/// The application a sale belongs to. Only `id` identifies it; `name` is for
/// display.
#[derive(Debug)]
pub struct App {
    pub id: String,
    pub name: String,
}

#[derive(Debug)]
pub struct Shop {
    pub name: String,
    pub myshopify_domain: String,
}

/// The report over all records. `total_paid` is in millionths of a currency
/// unit.
#[derive(Debug)]
pub struct ResultData {
    pub count: usize,
    pub total_paid: i128,
    pub data: Vec<Edges>,
}

/// The report over the records of one application. `total_paid` is in
/// millionths of a currency unit.
#[derive(Debug)]
pub struct Apps {
    pub id: String,
    pub app_name: String,
    pub count: usize,
    pub total_paid: i128,
    pub data: Vec<Edges>,
}

impl Clone for NetAmount {
    fn clone(&self) -> (copy: Self)
        ensures
            copy == *self,
    {
        NetAmount { amount: self.amount.clone() }
    }
}

impl Clone for App {
    fn clone(&self) -> (copy: Self)
        ensures
            copy == *self,
    {
        App { id: self.id.clone(), name: self.name.clone() }
    }
}

impl Clone for Shop {
    fn clone(&self) -> (copy: Self)
        ensures
            copy == *self,
    {
        Shop { name: self.name.clone(), myshopify_domain: self.myshopify_domain.clone() }
    }
}

impl Clone for Node {
    fn clone(&self) -> (copy: Self)
        ensures
            copy == *self,
    {
        Node {
            id: self.id.clone(),
            created_at: self.created_at.clone(),
            net_amount: self.net_amount.clone(),
            app: self.app.clone(),
            shop: self.shop.clone(),
        }
    }
}

impl Clone for Edges {
    fn clone(&self) -> (copy: Self)
        ensures
            copy == *self,
    {
        Edges { cursor: self.cursor.clone(), node: self.node.clone() }
    }
}

/// What is sent for one page: the query text and its three variables.
#[derive(Debug)]
pub struct RequestBody {
    pub query: String,
    pub variables: Variables,
}

#[derive(Debug)]
pub struct Variables {
    pub cursor: String,
    pub created_at_min: String,
    pub created_at_max: String,
}

/// The query sent with every request: subscription sales after `$cursor`,
/// created in `[$createdAtMin, $createdAtMax)`, at most 100 to a page.
pub const TRANSACTIONS_QUERY: &'static str = r#"
                query($cursor: String, $createdAtMin: DateTime, $createdAtMax: DateTime) {
                    transactions(types: [APP_SUBSCRIPTION_SALE] after: $cursor, first: 100, createdAtMin: $createdAtMin, createdAtMax: $createdAtMax) {
                        edges {
                            cursor
                            node {
                                    id
                                    createdAt
                                    ... on AppSubscriptionSale {
                                    netAmount {
                                        amount
                                }
                                app {
                                        id
                                        name
                                }
                                shop {
                                        name
                                        myshopifyDomain
                                    }
                                }
                            }
                            }
                            pageInfo {
                            hasNextPage
                            }
                        }
                    }
                "#;

impl RequestBody {
    /// The request for the page that starts after `cursor` (the empty cursor
    /// asks for the first page), over the given creation-time range.
    pub fn new(cursor: &str, created_at_min: &str, created_at_max: &str) -> (body: Self)
        ensures
            body.query@ == TRANSACTIONS_QUERY@,
            body.variables.cursor@ == cursor@,
            body.variables.created_at_min@ == created_at_min@,
            body.variables.created_at_max@ == created_at_max@,
    {
        let variables = Variables {
            cursor: cursor.to_owned(),
            created_at_min: created_at_min.to_owned(),
            created_at_max: created_at_max.to_owned(),
        };
        RequestBody { query: TRANSACTIONS_QUERY.to_owned(), variables }
    }
}

} // verus!
