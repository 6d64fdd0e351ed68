//! The store of operation ids.

use vstd::prelude::*;
use crate::error::RegistryError;
use crate::key::{PathMethod, PathMethodView};
use crate::model::{is_endpoint_key, lemma_first_free, lemma_taken_attempts, RegistryView};
use crate::opid::{base_token, candidate_id, compose_operation_id};
use crate::text::{lowercase_of, string_views};

verus! {

/// One entry of a store as a mathematical value.
struct Registration {
    id: Seq<char>,
    key: PathMethodView,
}

/// The map from ids to keys that a list of registrations stands for.
spec fn ids_to_keys(log: Seq<Registration>) -> Map<Seq<char>, PathMethodView>
    decreases log.len(),
{
    if log.len() == 0 {
        Map::empty()
    } else {
        ids_to_keys(log.drop_last()).insert(log.last().id, log.last().key)
    }
}

/// The map from keys to ids that a list of registrations stands for.
spec fn keys_to_ids(log: Seq<Registration>) -> Map<PathMethodView, Seq<char>>
    decreases log.len(),
{
    if log.len() == 0 {
        Map::empty()
    } else {
        keys_to_ids(log.drop_last()).insert(log.last().key, log.last().id)
    }
}

/// No id and no key occurs twice in the list, and every key is the key of an
/// endpoint.
spec fn distinct(log: Seq<Registration>) -> bool {
    &&& forall|i: int, j: int| 0 <= i < j < log.len() ==> log[i].id != log[j].id
    &&& forall|i: int, j: int| 0 <= i < j < log.len() ==> log[i].key != log[j].key
    &&& forall|i: int| 0 <= i < log.len() ==> is_endpoint_key(#[trigger] log[i].key)
}

/// The maps of a list without repetitions hold exactly its registrations.
proof fn lemma_log_maps(log: Seq<Registration>)
    requires
        distinct(log),
    ensures
        forall|i: int|
            0 <= i < log.len() ==> {
                &&& ids_to_keys(log).dom().contains(#[trigger] log[i].id)
                &&& ids_to_keys(log)[log[i].id] == log[i].key
            },
        forall|i: int|
            0 <= i < log.len() ==> {
                &&& keys_to_ids(log).dom().contains(#[trigger] log[i].key)
                &&& keys_to_ids(log)[log[i].key] == log[i].id
            },
        forall|id: Seq<char>| #[trigger]
            ids_to_keys(log).dom().contains(id) ==> exists|i: int|
                0 <= i < log.len() && #[trigger] log[i].id == id,
        forall|key: PathMethodView| #[trigger]
            keys_to_ids(log).dom().contains(key) ==> exists|i: int|
                0 <= i < log.len() && #[trigger] log[i].key == key,
        ids_to_keys(log).dom().finite(),
        ids_to_keys(log).dom().len() == log.len(),
    decreases log.len(),
{
    if log.len() > 0 {
        let init = log.drop_last();
        let last = log.last();
        lemma_log_maps(init);
        assert forall|i: int| 0 <= i < log.len() implies {
            &&& ids_to_keys(log).dom().contains(#[trigger] log[i].id)
            &&& ids_to_keys(log)[log[i].id] == log[i].key
            &&& keys_to_ids(log).dom().contains(log[i].key)
            &&& keys_to_ids(log)[log[i].key] == log[i].id
        } by {
            if i < log.len() - 1 {
                assert(init[i] == log[i]);
            }
        }
        assert forall|id: Seq<char>| #[trigger]
            ids_to_keys(log).dom().contains(id) implies exists|i: int|
            0 <= i < log.len() && #[trigger] log[i].id == id by {
            if id != last.id {
                let i = choose|i: int| 0 <= i < init.len() && #[trigger] init[i].id == id;
                assert(log[i].id == id);
            }
        }
        assert forall|key: PathMethodView| #[trigger]
            keys_to_ids(log).dom().contains(key) implies exists|i: int|
            0 <= i < log.len() && #[trigger] log[i].key == key by {
            if key != last.key {
                let i = choose|i: int| 0 <= i < init.len() && #[trigger] init[i].key == key;
                assert(log[i].key == key);
            }
        }
        if ids_to_keys(init).dom().contains(last.id) {
            let i = choose|i: int| 0 <= i < init.len() && #[trigger] init[i].id == last.id;
            assert(log[i].id == log[log.len() - 1].id);
        }
    }
}

/// An operation id together with the endpoint it belongs to.
#[derive(Debug)]
struct Entry {
    opid: String,
    key: PathMethod,
}

/// Store for a one to one mapping between operation ids and endpoints. The
/// store supports lookup in each direction, and nothing is ever taken out.
///
/// Whatever is put into a store, it stands for a consistent registry: its two
/// maps are inverses of each other. Every function of the store says so of
/// the store it is called on.
#[derive(Debug)]
pub struct OperationIds {
    entries: Vec<Entry>,
}

impl View for OperationIds {
    type V = RegistryView;

    closed spec fn view(&self) -> RegistryView {
        RegistryView { by_id: ids_to_keys(self.log()), by_key: keys_to_ids(self.log()) }
    }
}

impl Default for OperationIds {
    /// The store without any entry.
    fn default() -> (r: Self)
        ensures
            r@ == RegistryView::empty(),
    {
        OperationIds { entries: Vec::new() }
    }
}

impl OperationIds {
    /// The registrations in the order in which they were made.
    spec fn log(&self) -> Seq<Registration> {
        self.entries@.map_values(|e: Entry| Registration { id: e.opid@, key: e.key@ })
    }

    /// The invariant of the store: no operation id and no endpoint occurs
    /// twice in it, and every key in it is the key of an endpoint.
    #[verifier::type_invariant]
    spec fn wf(&self) -> bool {
        distinct(self.log())
    }

    /// Where the operation id `id` stands among the entries.
    fn find_id(&self, id: &String) -> (r: Option<usize>)
        ensures
            match r {
                Some(i) => i < self.log().len() && self.log()[i as int].id == id@,
                None => forall|k: int| 0 <= k < self.log().len() ==> self.log()[k].id != id@,
            },
    {
        let mut i: usize = 0;
        while i < self.entries.len()
            invariant
                i <= self.entries.len(),
                forall|k: int| 0 <= k < i ==> self.log()[k].id != id@,
            decreases self.entries.len() - i,
        {
            if self.entries[i].opid == *id {
                return Some(i);
            }
            i = i + 1;
        }
        None
    }

    /// Where the endpoint `key` stands among the entries.
    fn find_key(&self, key: &PathMethod) -> (r: Option<usize>)
        ensures
            match r {
                Some(i) => i < self.log().len() && self.log()[i as int].key == key@,
                None => forall|k: int| 0 <= k < self.log().len() ==> self.log()[k].key != key@,
            },
    {
        let mut i: usize = 0;
        while i < self.entries.len()
            invariant
                i <= self.entries.len(),
                forall|k: int| 0 <= k < i ==> self.log()[k].key != key@,
            decreases self.entries.len() - i,
        {
            if self.entries[i].key.same(key) {
                return Some(i);
            }
            i = i + 1;
        }
        None
    }

    /// Adds an entry for an id and a key that the store does not hold yet.
    /// The entries are taken out, extended and put back, so that the store
    /// meets its invariant at every step.
    fn record(&mut self, opid: String, key: PathMethod)
        requires
            !old(self)@.ids().contains(opid@),
            !old(self)@.keys().contains(key@),
            is_endpoint_key(key@),
        ensures
            final(self)@ == old(self)@.with(opid@, key@),
    {
        proof {
            use_type_invariant(&*self);
            lemma_log_maps(self.log());
        }
        let ghost before = self.log();
        let ghost added = Registration { id: opid@, key: key@ };
        let mut entries: Vec<Entry> = Vec::new();
        core::mem::swap(&mut self.entries, &mut entries);
        entries.push(Entry { opid, key });
        proof {
            let after = entries@.map_values(|e: Entry| Registration { id: e.opid@, key: e.key@ });
            assert(after =~= before.push(added));
            assert(after.drop_last() =~= before);
        }
        self.entries = entries;
    }

    /// The number of operation ids in the store.
    pub fn len(&self) -> (n: usize)
        ensures
            self@.consistent(),
            n == self@.ids().len(),
    {
        proof {
            use_type_invariant(self);
            lemma_log_maps(self.log());
        }
        self.entries.len()
    }

    /// Find operation id for given path and method. Returns nothing if no
    /// operation id was found, and for an endpoint without a key.
    pub fn opid_for_path_method(&self, path: &str, method: &str) -> (r: Option<&str>)
        ensures
            self@.consistent(),
            self@.id_for(path@, method@) == (match r {
                Some(id) => Some(id@),
                None => None,
            }),
    {
        proof {
            use_type_invariant(self);
            lemma_log_maps(self.log());
        }
        let key = match PathMethod::for_endpoint(path, method) {
            Ok(key) => key,
            Err(_) => {
                return None;
            },
        };
        match self.find_key(&key) {
            Some(i) => Some(self.entries[i].opid.as_str()),
            None => None,
        }
    }

    /// Find path and method for a given operation id. Returns nothing if no
    /// endpoint was found for the given operation id. The path is the
    /// normalized one.
    pub fn path_method_for_opid(&self, operation_id: &str) -> (r: Option<(&str, &str)>)
        ensures
            self@.consistent(),
            self@.path_method_for(operation_id@) == (match r {
                Some((path, method)) => Some((path@, method@)),
                None => None,
            }),
    {
        proof {
            use_type_invariant(self);
            lemma_log_maps(self.log());
        }
        let id = operation_id.to_owned();
        match self.find_id(&id) {
            Some(i) => Some((self.entries[i].key.path(), self.entries[i].key.method())),
            None => None,
        }
    }

    /// Generate a new operation id candidate for the given endpoint,
    /// considering the number of attempts that have already been made. The
    /// number of attempts is included in the candidate (unless it is 0), to
    /// help resolve name collisions. A candidate that would start with a
    /// digit gets an `n` in front.
    ///
    /// The candidates have the pattern `path [attempt] _ method`, each part
    /// in lower case: `GET /foo/bar` yields `foo_bar_get`. The method comes
    /// last, so that the ids of one path stand next to each other in a
    /// sorted list.
    pub fn gen_operation_id(path_method: &PathMethod, attempt: u32) -> (r: String)
        ensures
            r@ == candidate_id(path_method@, attempt as nat),
            r@.len() > 0,
    {
        Self::candidate(path_method, attempt as u64)
    }

    /// The candidate of an attempt, for as many attempts as a store can hold
    /// ids.
    fn candidate(path_method: &PathMethod, attempt: u64) -> (r: String)
        ensures
            r@ == candidate_id(path_method@, attempt as nat),
            r@.len() > 0,
    {
        let base = base_token(path_method.path());
        let method = path_method.method().to_lowercase();
        let mut names: Vec<String> = Vec::new();
        if let Some(params) = path_method.params() {
            let mut i: usize = 0;
            while i < params.len()
                invariant
                    i <= params.len(),
                    names.len() == i,
                    forall|k: int| 0 <= k < i ==> names[k]@ == lowercase_of(params[k]@),
                decreases params.len() - i,
            {
                names.push(params[i].as_str().to_lowercase());
                i = i + 1;
            }
            assert(string_views(names@) =~= string_views(params@).map_values(
                |name: Seq<char>| lowercase_of(name),
            ));
        }
        compose_operation_id(base.as_str(), attempt, method.as_str(), &names)
    }

    /// Insert a new operation id with its path and method attached. Fails,
    /// and leaves the store as it is, if the path or the method is empty, if
    /// the operation id belongs to another endpoint, or if the combination of
    /// path and method already exists in the store.
    pub fn insert_opid_with_path_method(
        &mut self,
        operation_id: &str,
        path: &str,
        method: &str,
    ) -> (r: Result<(), RegistryError>)
        ensures
            old(self)@.consistent(),
            final(self)@.consistent(),
            old(self)@.register_explicit(operation_id@, path@, method@) == (match r {
                Ok(()) => Ok(final(self)@),
                Err(e) => Err(e),
            }),
            r is Err ==> final(self)@ == old(self)@,
    {
        proof {
            use_type_invariant(&*self);
            lemma_log_maps(self.log());
        }
        let key = match PathMethod::for_endpoint(path, method) {
            Ok(key) => key,
            Err(e) => {
                return Err(e);
            },
        };
        let id = operation_id.to_owned();
        match self.find_id(&id) {
            Some(i) => {
                if self.entries[i].key.same(&key) {
                    return Err(RegistryError::DuplicateEndpoint);
                } else {
                    return Err(RegistryError::DuplicateId);
                }
            },
            None => {},
        }
        if self.find_key(&key).is_some() {
            return Err(RegistryError::DuplicateEndpoint);
        }
        self.record(id, key);
        Ok(())
    }

    /// Insert a generated operation id for the given path and method
    /// combination: the candidate of the first attempt that does not collide
    /// with an operation id in the store. Fails, and leaves the store as it
    /// is, if the path or the method is empty, or if the combination of path
    /// and method already exists. Returns the synthetic operation id.
    pub fn insert_synthetic_opid_for_path_method(&mut self, path: &str, method: &str) -> (r:
        Result<String, RegistryError>)
        ensures
            old(self)@.consistent(),
            final(self)@.consistent(),
            old(self)@.register_synthetic(path@, method@) == (match r {
                Ok(id) => Ok((final(self)@, id@)),
                Err(e) => Err(e),
            }),
            r is Err ==> final(self)@ == old(self)@,
            r matches Ok(id) ==> id@.len() > 0,
    {
        proof {
            use_type_invariant(&*self);
            lemma_log_maps(self.log());
        }
        let key = match PathMethod::for_endpoint(path, method) {
            Ok(key) => key,
            Err(e) => {
                return Err(e);
            },
        };
        if self.find_key(&key).is_some() {
            return Err(RegistryError::DuplicateEndpoint);
        }
        let ghost taken = self@.ids();
        assert(taken.len() == self.entries.len());
        let mut attempt: u64 = 0;
        let mut candidate = Self::candidate(&key, attempt);
        while self.find_id(&candidate).is_some()
            invariant
                *self == *old(self),
                distinct(self.log()),
                taken == self@.ids(),
                taken.finite(),
                taken.len() <= usize::MAX,
                candidate@ == candidate_id(key@, attempt as nat),
                forall|earlier: nat|
                    earlier < attempt ==> taken.contains(#[trigger] candidate_id(key@, earlier)),
            decreases taken.len() - attempt,
        {
            proof {
                lemma_log_maps(self.log());
                lemma_taken_attempts(taken, key@, (attempt + 1) as nat);
            }
            attempt = attempt + 1;
            candidate = Self::candidate(&key, attempt);
        }
        proof {
            lemma_log_maps(self.log());
            lemma_first_free(taken, key@, attempt as nat);
        }
        self.record(candidate.clone(), key);
        Ok(candidate)
    }
}

} // verus!
