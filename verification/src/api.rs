//! Descriptors of the service's external interface: which operations are
//! exposed, in mount order, and under which base path. The transport layer
//! turns these into its own route table.

use vstd::prelude::*;
use vstd::string::*;

verus! {

/// One exposed operation of the record service.
#[derive(Clone, Copy, PartialEq, Eq, Structural, Debug)]
pub enum ApiRoute {
    List,
    Get,
    FindByPolarId,
    Post,
    Put,
    Delete,
    Archive,
    Restore,
}

/// The operations the service mounts, in mount order.
pub open spec fn spec_routes() -> Seq<ApiRoute> {
    seq![
        ApiRoute::List,
        ApiRoute::Get,
        ApiRoute::FindByPolarId,
        ApiRoute::Post,
        ApiRoute::Put,
        ApiRoute::Delete,
        ApiRoute::Archive,
        ApiRoute::Restore,
    ]
}

/// The route table of the record service.
pub fn routes() -> (r: Vec<ApiRoute>)
    ensures
        r@ == spec_routes(),
{
    let mut r: Vec<ApiRoute> = Vec::new();
    r.push(ApiRoute::List);
    r.push(ApiRoute::Get);
    r.push(ApiRoute::FindByPolarId);
    r.push(ApiRoute::Post);
    r.push(ApiRoute::Put);
    r.push(ApiRoute::Delete);
    r.push(ApiRoute::Archive);
    r.push(ApiRoute::Restore);
    proof {
        assert(r@ =~= spec_routes());
    }
    r
}

/// The mounted service interface: a base path and the routes under it.
pub struct Api {
    pub base: String,
    pub routes: Vec<ApiRoute>,
}

/// Build the service interface: every route, mounted under the versioned
/// base path.
pub fn init() -> (a: Api)
    ensures
        a.base@ == "/polars/api/v1"@,
        a.routes@ == spec_routes(),
{
    Api { base: String::from_str("/polars/api/v1"), routes: routes() }
}

} // verus!
