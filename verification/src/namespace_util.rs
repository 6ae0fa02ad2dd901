//! The namespace an application or job falls back to.
use vstd::prelude::*;

verus! {

/// The namespace used by xxl-job clients that name none.
pub const DEFAULT_XXL_NAMESPACE: &'static str = "xxl";

/// The characters of the default namespace.
pub open spec fn default_namespace() -> Seq<char> {
    seq!['x', 'x', 'l']
}

/// A fresh copy of the default namespace.
pub fn default_xxl_namespace() -> (r: String)
    ensures
        r@ == default_namespace(),
{
    proof {
        reveal_strlit("xxl");
    }
    "xxl".to_owned()
}

/// The namespace to use for a given one: the default where it is empty.
pub open spec fn effective_namespace(namespace: Seq<char>) -> Seq<char> {
    if namespace.len() == 0 {
        default_namespace()
    } else {
        namespace
    }
}

/// The namespace to use for `namespace`: itself, or the default where it is empty.
pub fn get_namespace(namespace: &String) -> (r: String)
    ensures
        r@ == effective_namespace(namespace@),
{
    if namespace.as_str().is_empty() {
        default_xxl_namespace()
    } else {
        namespace.clone()
    }
}

/// The namespace to use for an optional one: the default where it is absent or empty.
pub fn get_namespace_by_option(namespace: &Option<String>) -> (r: String)
    ensures
        r@ == match namespace {
            Some(ns) => effective_namespace(ns@),
            None => default_namespace(),
        },
{
    match namespace {
        Some(ns) => get_namespace(ns),
        None => default_xxl_namespace(),
    }
}

/// The namespace chosen for any input is never empty.
pub proof fn lemma_effective_namespace_not_empty(namespace: Seq<char>)
    ensures
        effective_namespace(namespace).len() > 0,
{
}

} // verus!
