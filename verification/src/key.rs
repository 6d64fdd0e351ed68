//! Endpoint keys: what identifies an endpoint in the registry.

use vstd::prelude::*;
use crate::error::RegistryError;
use crate::path::{extract_params, extracted};
use crate::text::{str_views, string_views};

verus! {

/// An endpoint key as a mathematical value: the normalized path, the method,
/// and the parameter names of the path where it has any.
pub struct PathMethodView {
    pub path: Seq<char>,
    pub method: Seq<char>,
    pub params: Option<Seq<Seq<char>>>,
}

impl PathMethodView {
    /// A key is valid when neither its path nor its method is empty.
    pub open spec fn valid(self) -> bool {
        self.path.len() > 0 && self.method.len() > 0
    }
}

/// The key under which the endpoint with this path template and method is
/// kept, where it has one: the path is normalized first, and neither the
/// normalized path nor the method may be empty.
pub open spec fn endpoint_key(path: Seq<char>, method: Seq<char>) -> Option<PathMethodView> {
    let key = match extracted(path) {
        Some((names, clean)) => PathMethodView { path: clean, method, params: Some(names) },
        None => PathMethodView { path, method, params: None },
    };
    if key.valid() {
        Some(key)
    } else {
        None
    }
}

/// The combination of path and method that identifies an endpoint. Two keys
/// are the same when path, method and parameter names are the same. The type
/// can stand as a key in the maps of the standard library.
#[derive(Debug, PartialEq, Eq, PartialOrd, Ord, Hash)]
pub struct PathMethod {
    path: String,
    method: String,
    params: Option<Vec<String>>,
}

impl View for PathMethod {
    type V = PathMethodView;

    closed spec fn view(&self) -> PathMethodView {
        PathMethodView {
            path: self.path@,
            method: self.method@,
            params: match self.params {
                Some(names) => Some(string_views(names@)),
                None => None,
            },
        }
    }
}

/// An owned copy of each name.
fn owned_names(names: &Vec<&str>) -> (r: Vec<String>)
    ensures
        string_views(r@) == str_views(names@),
{
    let mut r: Vec<String> = Vec::new();
    let mut i: usize = 0;
    while i < names.len()
        invariant
            i <= names.len(),
            r.len() == i,
            forall|k: int| 0 <= k < i ==> r[k]@ == names[k]@,
        decreases names.len() - i,
    {
        r.push(names[i].to_owned());
        i = i + 1;
    }
    r
}

/// Whether two lists hold the same names in the same order.
fn same_names(a: &Vec<String>, b: &Vec<String>) -> (r: bool)
    ensures
        r == (string_views(a@) == string_views(b@)),
{
    if a.len() != b.len() {
        return false;
    }
    let mut i: usize = 0;
    while i < a.len()
        invariant
            i <= a.len(),
            a.len() == b.len(),
            forall|k: int| 0 <= k < i ==> a[k]@ == b[k]@,
        decreases a.len() - i,
    {
        if a[i] != b[i] {
            assert(string_views(a@)[i as int] != string_views(b@)[i as int]);
            return false;
        }
        i = i + 1;
    }
    assert(string_views(a@) =~= string_views(b@));
    true
}

impl PathMethod {
    #[verifier::type_invariant]
    spec fn well_formed(self) -> bool {
        self@.valid()
    }

    /// Makes the key of the given path, method and parameter names. Fails
    /// where the path or the method is empty.
    pub fn new(path: &str, method: &str, params: Option<Vec<&str>>) -> (r: Result<
        PathMethod,
        RegistryError,
    >)
        ensures
            match r {
                Ok(key) => key@.valid() && key@ == (PathMethodView {
                    path: path@,
                    method: method@,
                    params: match params {
                        Some(names) => Some(str_views(names@)),
                        None => None,
                    },
                }),
                Err(e) => e == RegistryError::InvalidKey && (path@.len() == 0 || method@.len()
                    == 0),
            },
    {
        if path.is_empty() || method.is_empty() {
            return Err(RegistryError::InvalidKey);
        }
        let names = match params {
            Some(v) => Some(owned_names(&v)),
            None => None,
        };
        Ok(PathMethod { path: path.to_owned(), method: method.to_owned(), params: names })
    }

    /// Makes the key of an endpoint from its path template and method: the
    /// path is normalized, and a path without parameters is taken as it is.
    pub fn for_endpoint(path: &str, method: &str) -> (r: Result<PathMethod, RegistryError>)
        ensures
            endpoint_key(path@, method@) == (match r {
                Ok(key) => Some(key@),
                Err(_) => None,
            }),
            r matches Err(e) ==> e == RegistryError::InvalidKey,
            r matches Ok(key) ==> !path@.contains('{') ==> key@.path == path@ && key@.params
                is None,
    {
        match extract_params(path) {
            Some((names, clean)) => PathMethod::new(clean.as_str(), method, Some(names)),
            None => PathMethod::new(path, method, None),
        }
    }

    /// The normalized path.
    pub fn path(&self) -> (r: &str)
        ensures
            r@ == self@.path,
            r@.len() > 0,
    {
        proof {
            use_type_invariant(self);
        }
        self.path.as_str()
    }

    /// The method, as it was given.
    pub fn method(&self) -> (r: &str)
        ensures
            r@ == self@.method,
            r@.len() > 0,
    {
        proof {
            use_type_invariant(self);
        }
        self.method.as_str()
    }

    /// The parameter names of the path, where it has any.
    pub fn params(&self) -> (r: Option<&Vec<String>>)
        ensures
            match r {
                Some(names) => self@.params == Some(string_views(names@)),
                None => self@.params is None,
            },
    {
        self.params.as_ref()
    }

    /// Whether `self` and `other` are the same key.
    pub fn same(&self, other: &PathMethod) -> (r: bool)
        ensures
            r == (self@ == other@),
    {
        if self.path != other.path || self.method != other.method {
            return false;
        }
        match (&self.params, &other.params) {
            (Some(a), Some(b)) => same_names(a, b),
            (None, None) => true,
            _ => false,
        }
    }
}

impl Clone for PathMethod {
    fn clone(&self) -> (r: Self)
        ensures
            r@ == self@,
    {
        proof {
            use_type_invariant(self);
        }
        let params = match &self.params {
            Some(names) => {
                let mut copy: Vec<String> = Vec::new();
                let mut i: usize = 0;
                while i < names.len()
                    invariant
                        i <= names.len(),
                        copy.len() == i,
                        forall|k: int| 0 <= k < i ==> copy[k]@ == names[k]@,
                    decreases names.len() - i,
                {
                    copy.push(names[i].clone());
                    i = i + 1;
                }
                assert(string_views(copy@) =~= string_views(names@));
                Some(copy)
            },
            None => None,
        };
        PathMethod { path: self.path.clone(), method: self.method.clone(), params }
    }
}

} // verus!
