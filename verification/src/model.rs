//! The registry as a mathematical value, and what holds of it.
//!
//! A registry is a pair of maps, from operation ids to endpoint keys and
//! back. The requests that the store answers are stated here as functions on
//! such pairs; the store's contracts refer to them.

use vstd::prelude::*;
use crate::error::RegistryError;
use crate::key::{endpoint_key, PathMethodView};
use crate::opid::{candidate_id, lemma_attempts_differ};

verus! {

/// A registry as a mathematical value: the map from operation ids to
/// endpoint keys, and the map back.
pub struct RegistryView {
    pub by_id: Map<Seq<char>, PathMethodView>,
    pub by_key: Map<PathMethodView, Seq<char>>,
}

/// Whether `attempt` is the first whose candidate for `key` is not among `taken`.
pub open spec fn is_first_free(taken: Set<Seq<char>>, key: PathMethodView, attempt: nat) -> bool {
    &&& !taken.contains(candidate_id(key, attempt))
    &&& forall|earlier: nat|
        earlier < attempt ==> taken.contains(#[trigger] candidate_id(key, earlier))
}

/// The first attempt whose candidate for `key` is not among `taken`.
pub open spec fn first_free_attempt(taken: Set<Seq<char>>, key: PathMethodView) -> nat {
    choose|attempt: nat| is_first_free(taken, key, attempt)
}

/// The synthetic operation id that `key` gets where the ids `taken` are in use.
pub open spec fn synthetic_id(taken: Set<Seq<char>>, key: PathMethodView) -> Seq<char> {
    candidate_id(key, first_free_attempt(taken, key))
}

/// Whether `key` is the key of some endpoint, that is, what normalizing a
/// path template with the key's method gives.
pub open spec fn is_endpoint_key(key: PathMethodView) -> bool {
    exists|path: Seq<char>| endpoint_key(path, key.method) == Some(key)
}

impl RegistryView {
    /// The registry without any entry.
    pub open spec fn empty() -> RegistryView {
        RegistryView { by_id: Map::empty(), by_key: Map::empty() }
    }

    /// The registry with the operation id `id` given to the endpoint `key`.
    pub open spec fn with(self, id: Seq<char>, key: PathMethodView) -> RegistryView {
        RegistryView { by_id: self.by_id.insert(id, key), by_key: self.by_key.insert(key, id) }
    }

    /// The operation ids in use.
    pub open spec fn ids(self) -> Set<Seq<char>> {
        self.by_id.dom()
    }

    /// The endpoints that have an operation id.
    pub open spec fn keys(self) -> Set<PathMethodView> {
        self.by_key.dom()
    }

    /// Each map is the inverse of the other.
    pub open spec fn mutual_inverses(self) -> bool {
        &&& forall|id: Seq<char>| #[trigger]
            self.ids().contains(id) ==> self.keys().contains(self.by_id[id])
                && self.by_key[self.by_id[id]] == id
        &&& forall|key: PathMethodView| #[trigger]
            self.keys().contains(key) ==> self.ids().contains(self.by_key[key])
                && self.by_id[self.by_key[key]] == key
    }

    /// What holds of every registry: finitely many ids are in use, each map
    /// is the inverse of the other, and every key is the key of an endpoint.
    pub open spec fn consistent(self) -> bool {
        &&& self.ids().finite()
        &&& self.mutual_inverses()
        &&& forall|key: PathMethodView| #[trigger]
            self.keys().contains(key) ==> is_endpoint_key(key)
    }

    /// The operation id of the endpoint with this path template and method,
    /// where it has one. An endpoint without a key has none.
    pub open spec fn id_for(self, path: Seq<char>, method: Seq<char>) -> Option<Seq<char>> {
        match endpoint_key(path, method) {
            Some(key) => if self.keys().contains(key) {
                Some(self.by_key[key])
            } else {
                None
            },
            None => None,
        }
    }

    /// The normalized path and the method of the endpoint that has the
    /// operation id `id`, where there is one.
    pub open spec fn path_method_for(self, id: Seq<char>) -> Option<(Seq<char>, Seq<char>)> {
        if self.ids().contains(id) {
            Some((self.by_id[id].path, self.by_id[id].method))
        } else {
            None
        }
    }

    /// What comes of registering the id `id` for the endpoint with this path
    /// template and method: the new registry, or the reason why the registry
    /// stays as it is. An endpoint without a key is refused first, then an id
    /// that belongs to another endpoint, then an endpoint that has an id.
    pub open spec fn register_explicit(
        self,
        id: Seq<char>,
        path: Seq<char>,
        method: Seq<char>,
    ) -> Result<RegistryView, RegistryError> {
        match endpoint_key(path, method) {
            None => Err(RegistryError::InvalidKey),
            Some(key) => if self.ids().contains(id) && self.by_id[id] != key {
                Err(RegistryError::DuplicateId)
            } else if self.keys().contains(key) {
                Err(RegistryError::DuplicateEndpoint)
            } else {
                Ok(self.with(id, key))
            },
        }
    }

    /// What comes of registering the endpoint with this path template and
    /// method under a synthetic id: the new registry and the id, or the
    /// reason why the registry stays as it is.
    pub open spec fn register_synthetic(self, path: Seq<char>, method: Seq<char>) -> Result<
        (RegistryView, Seq<char>),
        RegistryError,
    > {
        match endpoint_key(path, method) {
            None => Err(RegistryError::InvalidKey),
            Some(key) => if self.keys().contains(key) {
                Err(RegistryError::DuplicateEndpoint)
            } else {
                let id = synthetic_id(self.ids(), key);
                Ok((self.with(id, key), id))
            },
        }
    }
}

/// Where every candidate before an attempt is taken, at least as many ids
/// are in use as attempts were made.
pub proof fn lemma_taken_attempts(taken: Set<Seq<char>>, key: PathMethodView, attempts: nat)
    requires
        taken.finite(),
        forall|earlier: nat|
            earlier < attempts ==> taken.contains(#[trigger] candidate_id(key, earlier)),
    ensures
        attempts <= taken.len(),
    decreases attempts,
{
    if attempts > 0 {
        let last = candidate_id(key, (attempts - 1) as nat);
        let rest = taken.remove(last);
        assert forall|earlier: nat| earlier < attempts - 1 implies rest.contains(
            #[trigger] candidate_id(key, earlier),
        ) by {
            lemma_attempts_differ(key, earlier, (attempts - 1) as nat);
        }
        lemma_taken_attempts(rest, key, (attempts - 1) as nat);
    }
}

/// There is only one first free attempt.
pub proof fn lemma_first_free(taken: Set<Seq<char>>, key: PathMethodView, attempt: nat)
    requires
        is_first_free(taken, key, attempt),
    ensures
        first_free_attempt(taken, key) == attempt,
        synthetic_id(taken, key) == candidate_id(key, attempt),
{
    assert(is_first_free(taken, key, first_free_attempt(taken, key)));
}

/// The first free attempt from `from` on, where every earlier candidate is taken.
proof fn lemma_first_free_from(taken: Set<Seq<char>>, key: PathMethodView, from: nat) -> (attempt:
    nat)
    requires
        taken.finite(),
        forall|earlier: nat|
            earlier < from ==> taken.contains(#[trigger] candidate_id(key, earlier)),
    ensures
        is_first_free(taken, key, attempt),
        attempt <= taken.len(),
    decreases taken.len() - from,
{
    lemma_taken_attempts(taken, key, from);
    if taken.contains(candidate_id(key, from)) {
        lemma_taken_attempts(taken, key, from + 1);
        lemma_first_free_from(taken, key, from + 1)
    } else {
        from
    }
}

/// Where finitely many ids are in use, every endpoint has a first free
/// attempt, and it is at most the number of ids in use.
pub proof fn lemma_first_free_exists(taken: Set<Seq<char>>, key: PathMethodView)
    requires
        taken.finite(),
    ensures
        is_first_free(taken, key, first_free_attempt(taken, key)),
        first_free_attempt(taken, key) <= taken.len(),
{
    let attempt = lemma_first_free_from(taken, key, 0);
    lemma_first_free(taken, key, attempt);
}

/// A consistent registry stays so with one more id for one more endpoint.
proof fn lemma_with_consistent(reg: RegistryView, id: Seq<char>, key: PathMethodView)
    requires
        reg.consistent(),
        !reg.ids().contains(id),
        !reg.keys().contains(key),
        is_endpoint_key(key),
    ensures
        reg.with(id, key).consistent(),
{
}

/// The registry without any entry is consistent.
pub proof fn lemma_empty_consistent()
    ensures
        RegistryView::empty().consistent(),
{
}

/// Registering an id for an endpoint keeps a registry consistent: the maps
/// are still inverses of each other. Neither the id nor the endpoint was in
/// the registry before.
pub proof fn lemma_register_explicit(
    reg: RegistryView,
    id: Seq<char>,
    path: Seq<char>,
    method: Seq<char>,
)
    requires
        reg.consistent(),
        reg.register_explicit(id, path, method) is Ok,
    ensures
        reg.register_explicit(id, path, method)->Ok_0.consistent(),
        !reg.ids().contains(id),
        !reg.keys().contains(endpoint_key(path, method)->Some_0),
{
    let key = endpoint_key(path, method)->Some_0;
    lemma_with_consistent(reg, id, key);
}

/// Registering an endpoint under a synthetic id keeps a registry consistent:
/// the maps are still inverses of each other. The id is the candidate of the
/// first attempt that was free, and it was not in the registry before.
pub proof fn lemma_register_synthetic(reg: RegistryView, path: Seq<char>, method: Seq<char>)
    requires
        reg.consistent(),
        reg.register_synthetic(path, method) is Ok,
    ensures
        reg.register_synthetic(path, method)->Ok_0.0.consistent(),
        !reg.ids().contains(reg.register_synthetic(path, method)->Ok_0.1),
        is_first_free(
            reg.ids(),
            endpoint_key(path, method)->Some_0,
            first_free_attempt(reg.ids(), endpoint_key(path, method)->Some_0),
        ),
{
    let key = endpoint_key(path, method)->Some_0;
    lemma_first_free_exists(reg.ids(), key);
    lemma_with_consistent(reg, synthetic_id(reg.ids(), key), key);
}

/// No two endpoints of a registry have the same operation id.
pub proof fn lemma_ids_differ(reg: RegistryView, first: PathMethodView, second: PathMethodView)
    requires
        reg.consistent(),
        reg.keys().contains(first),
        reg.keys().contains(second),
        first != second,
    ensures
        reg.by_key[first] != reg.by_key[second],
{
}

/// Of two endpoints whose first candidates are the same, registered one
/// after the other under synthetic ids, the second gets the candidate of a
/// later attempt, and the two ids differ.
pub proof fn lemma_colliding_endpoints(
    reg: RegistryView,
    first_path: Seq<char>,
    first_method: Seq<char>,
    second_path: Seq<char>,
    second_method: Seq<char>,
)
    requires
        reg.consistent(),
        reg.register_synthetic(first_path, first_method) is Ok,
        reg.register_synthetic(first_path, first_method)->Ok_0.0.register_synthetic(
            second_path,
            second_method,
        ) is Ok,
        candidate_id(endpoint_key(first_path, first_method)->Some_0, 0) == candidate_id(
            endpoint_key(second_path, second_method)->Some_0,
            0,
        ),
    ensures
        ({
            let (mid, first_id) = reg.register_synthetic(first_path, first_method)->Ok_0;
            let (end, second_id) = mid.register_synthetic(second_path, second_method)->Ok_0;
            let second = endpoint_key(second_path, second_method)->Some_0;
            let attempt = first_free_attempt(mid.ids(), second);
            &&& attempt >= 1
            &&& second_id == candidate_id(second, attempt)
            &&& second_id != first_id
            &&& end.consistent()
        }),
{
    let (mid, first_id) = reg.register_synthetic(first_path, first_method)->Ok_0;
    lemma_register_synthetic(reg, first_path, first_method);
    lemma_register_synthetic(mid, second_path, second_method);
}

/// Looking up the endpoint of an id and then the id of that endpoint gives
/// the id back, for an endpoint whose path has no parameters.
pub proof fn lemma_lookup_round_trip(reg: RegistryView, id: Seq<char>)
    requires
        reg.consistent(),
        reg.ids().contains(id),
        reg.by_id[id].params is None,
    ensures
        reg.path_method_for(id) is Some,
        reg.id_for(reg.path_method_for(id)->Some_0.0, reg.path_method_for(id)->Some_0.1) == Some(
            id,
        ),
{
    let key = reg.by_id[id];
    assert(is_endpoint_key(key));
    assert(endpoint_key(key.path, key.method) == Some(key));
}

} // verus!
