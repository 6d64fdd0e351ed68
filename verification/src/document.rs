//! Operation ids for all the endpoints of a description at once.

use vstd::prelude::*;
use crate::error::RegistryError;
use crate::model::{
    lemma_empty_consistent, lemma_register_explicit, lemma_register_synthetic, RegistryView,
};
use crate::registry::OperationIds;
use crate::text::string_views;

verus! {

/// One operation of an API description: the path template it stands under,
/// its method, and its operation id where the description gives one.
#[derive(Debug)]
pub struct Endpoint {
    pub path: String,
    pub method: String,
    pub operation_id: Option<String>,
}

/// An operation of an API description as a mathematical value.
pub struct EndpointView {
    pub path: Seq<char>,
    pub method: Seq<char>,
    pub operation_id: Option<Seq<char>>,
}

impl View for Endpoint {
    type V = EndpointView;

    open spec fn view(&self) -> EndpointView {
        EndpointView {
            path: self.path@,
            method: self.method@,
            operation_id: match self.operation_id {
                Some(id) => Some(id@),
                None => None,
            },
        }
    }
}

/// Why a description could not be given its operation ids: the position of
/// the first endpoint that the registry refused, and the reason.
#[derive(Clone, Copy, Debug, PartialEq, Eq, Structural)]
pub struct Refusal {
    pub index: usize,
    pub reason: RegistryError,
}

/// What each endpoint of `v` holds.
pub open spec fn endpoint_views(v: Seq<Endpoint>) -> Seq<EndpointView> {
    v.map_values(|e: Endpoint| e@)
}

/// What comes of registering one endpoint: under its own id where it has
/// one, under a synthetic id where it has none.
pub open spec fn register(reg: RegistryView, endpoint: EndpointView) -> Result<
    (RegistryView, Seq<char>),
    RegistryError,
> {
    match endpoint.operation_id {
        Some(id) => match reg.register_explicit(id, endpoint.path, endpoint.method) {
            Ok(next) => Ok((next, id)),
            Err(e) => Err(e),
        },
        None => reg.register_synthetic(endpoint.path, endpoint.method),
    }
}

/// The outcome `rest` for the endpoints that follow `ids.len()` endpoints
/// with the operation ids `ids`, as the outcome for all of them.
pub open spec fn after(
    ids: Seq<Seq<char>>,
    rest: Result<Seq<Seq<char>>, (int, RegistryError)>,
) -> Result<Seq<Seq<char>>, (int, RegistryError)> {
    match rest {
        Ok(more) => Ok(ids + more),
        Err((index, reason)) => Err((ids.len() + index, reason)),
    }
}

/// The operation ids that the endpoints have once each of them is
/// registered, one after the other, in a registry that starts as `reg`; or
/// the position of the first endpoint that cannot be registered, and the
/// reason why.
pub open spec fn assigned_ids(reg: RegistryView, endpoints: Seq<EndpointView>) -> Result<
    Seq<Seq<char>>,
    (int, RegistryError),
>
    decreases endpoints.len(),
{
    if endpoints.len() == 0 {
        Ok(Seq::empty())
    } else {
        match register(reg, endpoints.first()) {
            Ok((next, id)) => after(seq![id], assigned_ids(next, endpoints.drop_first())),
            Err(reason) => Err((0, reason)),
        }
    }
}

/// The ids that a run of registrations assigns are as many as the endpoints,
/// no two of them are the same, none was in use before, and an endpoint that
/// came with an id has kept it.
pub proof fn lemma_assigned_ids(reg: RegistryView, endpoints: Seq<EndpointView>)
    requires
        reg.consistent(),
        assigned_ids(reg, endpoints) is Ok,
    ensures
        ({
            let ids = assigned_ids(reg, endpoints)->Ok_0;
            &&& ids.len() == endpoints.len()
            &&& ids.no_duplicates()
            &&& forall|i: int| 0 <= i < ids.len() ==> !reg.ids().contains(#[trigger] ids[i])
            &&& forall|i: int|
                0 <= i < ids.len() ==> ((#[trigger] endpoints[i]).operation_id matches Some(id)
                    ==> ids[i] == id)
        }),
    decreases endpoints.len(),
{
    if endpoints.len() > 0 {
        let first = endpoints.first();
        let (next, id) = register(reg, first)->Ok_0;
        let rest = endpoints.drop_first();
        match first.operation_id {
            Some(own) => {
                lemma_register_explicit(reg, own, first.path, first.method);
            },
            None => {
                lemma_register_synthetic(reg, first.path, first.method);
            },
        }
        lemma_assigned_ids(next, rest);
        let more = assigned_ids(next, rest)->Ok_0;
        let ids = assigned_ids(reg, endpoints)->Ok_0;
        assert(ids =~= seq![id] + more);
        assert forall|i: int| 0 < i < ids.len() implies ids[i] == more[i - 1] && endpoints[i]
            == rest[i - 1] && !next.ids().contains(ids[i]) by {}
    }
}

/// Gives every endpoint of a description an operation id. The endpoints are
/// taken in order: one that has an id keeps it, one that has none gets a
/// synthetic id that no earlier endpoint has. Returns the id of each endpoint,
/// or the first endpoint that could not be registered and the reason why.
pub fn gen_operation_ids(endpoints: &Vec<Endpoint>) -> (r: Result<Vec<String>, Refusal>)
    ensures
        assigned_ids(RegistryView::empty(), endpoint_views(endpoints@)) == (match r {
            Ok(ids) => Ok(string_views(ids@)),
            Err(refusal) => Err((refusal.index as int, refusal.reason)),
        }),
        r matches Ok(ids) ==> ids.len() == endpoints.len() && string_views(ids@).no_duplicates(),
{
    let mut opids = OperationIds::default();
    let mut ids: Vec<String> = Vec::new();
    let ghost all = endpoint_views(endpoints@);
    let mut i: usize = 0;
    proof {
        assert(all.skip(0) =~= all);
    }
    while i < endpoints.len()
        invariant
            i <= endpoints.len(),
            all == endpoint_views(endpoints@),
            ids.len() == i,
            assigned_ids(RegistryView::empty(), all) == after(
                string_views(ids@),
                assigned_ids(opids@, all.skip(i as int)),
            ),
        decreases endpoints.len() - i,
    {
        let endpoint = &endpoints[i];
        let ghost done = string_views(ids@);
        proof {
            assert(all.skip(i as int).drop_first() =~= all.skip(i + 1));
        }
        let id = match &endpoint.operation_id {
            Some(id) => {
                match opids.insert_opid_with_path_method(
                    id.as_str(),
                    endpoint.path.as_str(),
                    endpoint.method.as_str(),
                ) {
                    Ok(()) => id.clone(),
                    Err(reason) => {
                        return Err(Refusal { index: i, reason });
                    },
                }
            },
            None => {
                match opids.insert_synthetic_opid_for_path_method(
                    endpoint.path.as_str(),
                    endpoint.method.as_str(),
                ) {
                    Ok(id) => id,
                    Err(reason) => {
                        return Err(Refusal { index: i, reason });
                    },
                }
            },
        };
        let ghost given = id@;
        ids.push(id);
        i = i + 1;
        proof {
            assert(string_views(ids@) =~= done.push(given));
            if let Ok(more) = assigned_ids(opids@, all.skip(i as int)) {
                assert(done + (seq![given] + more) =~= done.push(given) + more);
            }
        }
    }
    proof {
        lemma_empty_consistent();
        lemma_assigned_ids(RegistryView::empty(), all);
    }
    Ok(ids)
}

} // verus!
