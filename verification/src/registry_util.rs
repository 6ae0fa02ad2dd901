//! Parsing of the registry keys that executors register under.
use crate::namespace_util::{default_namespace, default_xxl_namespace};
use crate::text::{
    chars_of, find_chars, first_index, lemma_find_from_lands, lemma_first_index, match_at, occurs_at,
    seq_contains, sub_chars,
};
use vstd::prelude::*;
use vstd::string::StrSliceExecFns;

verus! {

/// A registry key split into namespace and application name.
pub struct ParsedRegistryKey {
    pub namespace: String,
    pub app_name: String,
}

/// The prefix of the `ns://namespace/app` form.
pub open spec fn ns_prefix() -> Seq<char> {
    seq!['n', 's', ':', '/', '/']
}

/// The separator of the `namespace@@app` form.
pub open spec fn at_separator() -> Seq<char> {
    seq!['@', '@']
}

/// The key is `ns://` followed by a non-empty namespace, a `/` (the first one
/// after the prefix) and a non-empty application name.
pub open spec fn ns_form_applies(key: Seq<char>) -> bool {
    let rest = key.skip(5);
    let p = first_index(rest, seq!['/']);
    key.len() >= 5 && key.take(5) == ns_prefix() && p > 0 && p + 1 < rest.len()
}

/// How a registry key splits into (namespace, application name):
/// `ns://namespace/app` where both parts are non-empty, else `namespace@@app`
/// (first `@@`) where both parts are non-empty, else the default namespace and
/// the whole key.
pub open spec fn parse_registry_key_spec(key: Seq<char>) -> (Seq<char>, Seq<char>) {
    let rest = key.skip(5);
    let p = first_index(rest, seq!['/']);
    let q = first_index(key, at_separator());
    if ns_form_applies(key) {
        (rest.take(p), rest.skip(p + 1))
    } else if q > 0 && q + 2 < key.len() {
        (key.take(q), key.skip(q + 2))
    } else {
        (default_namespace(), key)
    }
}

/// Splits a registry key into namespace and application name.
pub fn parse_registry_key(registry_key: &str) -> (r: ParsedRegistryKey)
    ensures
        (r.namespace@, r.app_name@) == parse_registry_key_spec(registry_key@),
{
    let key = chars_of(registry_key);
    let n = key.len();
    let ghost k = registry_key@;
    let prefix: Vec<char> = vec!['n', 's', ':', '/', '/'];
    proof {
        assert(prefix@ == ns_prefix());
    }
    if n >= 5 && match_at(&key, &prefix, 0) {
        proof {
            assert(k.subrange(0, 5) == k.take(5));
        }
        let rest = sub_chars(&key, 5, n);
        proof {
            assert(rest@ == k.skip(5));
        }
        let slash: Vec<char> = vec!['/'];
        proof {
            assert(slash@ == seq!['/']);
            lemma_first_index(rest@, slash@);
        }
        match find_chars(&rest, &slash) {
            Some(pos) => {
                if pos > 0 && pos + 1 < rest.len() {
                    let namespace = registry_key.substring_char(5, 5 + pos).to_owned();
                    let app_name = registry_key.substring_char(5 + pos + 1, n).to_owned();
                    proof {
                        assert(namespace@ == k.skip(5).take(pos as int));
                        assert(app_name@ == k.skip(5).skip(pos + 1));
                    }
                    return ParsedRegistryKey { namespace, app_name };
                }
            },
            None => {},
        }
    }
    let sep: Vec<char> = vec!['@', '@'];
    proof {
        assert(sep@ == at_separator());
        lemma_first_index(key@, sep@);
    }
    match find_chars(&key, &sep) {
        Some(pos) => {
            if pos > 0 && pos + 2 < n {
                let namespace = registry_key.substring_char(0, pos).to_owned();
                let app_name = registry_key.substring_char(pos + 2, n).to_owned();
                proof {
                    assert(namespace@ == k.take(pos as int));
                    assert(app_name@ == k.skip(pos + 2));
                }
                return ParsedRegistryKey { namespace, app_name };
            }
        },
        None => {},
    }
    ParsedRegistryKey { namespace: default_xxl_namespace(), app_name: registry_key.to_owned() }
}


/// Keys of the form `ns://namespace/app` name their namespace and application.
pub proof fn lemma_parse_ns_form(ns: Seq<char>, app: Seq<char>)
    requires
        ns.len() > 0,
        app.len() > 0,
        !ns.contains('/'),
    ensures
        parse_registry_key_spec(ns_prefix() + ns + seq!['/'] + app) == (ns, app),
{
    let key = ns_prefix() + ns + seq!['/'] + app;
    let rest = key.skip(5);
    assert(key.take(5) == ns_prefix());
    assert(rest == ns + seq!['/'] + app);
    assert(occurs_at(rest, seq!['/'], ns.len() as int)) by {
        assert(rest.subrange(ns.len() as int, ns.len() + 1 as int) == seq!['/']);
    }
    assert forall|j: int| 0 <= j < ns.len() implies !occurs_at(rest, seq!['/'], j) by {
        if occurs_at(rest, seq!['/'], j) {
            assert(rest.subrange(j, j + 1)[0] == rest[j]);
            assert(rest[j] == ns[j]);
        }
    }
    lemma_find_from_lands(rest, seq!['/'], 0, ns.len() as int);
    assert(rest.take(ns.len() as int) == ns);
    assert(rest.skip((ns.len() + 1) as int) == app);
}

/// Keys of the form `namespace@@app` name their namespace and application,
/// unless the key is also of the `ns://namespace/app` form, which wins.
pub proof fn lemma_parse_at_form(ns: Seq<char>, app: Seq<char>)
    requires
        ns.len() > 0,
        app.len() > 0,
        !seq_contains(ns, at_separator()),
        ns.last() != '@',
        !ns_form_applies(ns + at_separator() + app),
    ensures
        parse_registry_key_spec(ns + at_separator() + app) == (ns, app),
{
    let key = ns + at_separator() + app;
    let sep = at_separator();
    assert(occurs_at(key, sep, ns.len() as int)) by {
        assert(key.subrange(ns.len() as int, ns.len() + 2 as int) == sep);
    }
    assert forall|j: int| 0 <= j < ns.len() implies !occurs_at(key, sep, j) by {
        if occurs_at(key, sep, j) {
            assert(key.subrange(j, j + 2)[0] == key[j]);
            assert(key.subrange(j, j + 2)[1] == key[j + 1]);
            if j + 1 < ns.len() {
                assert(ns.subrange(j, j + 2) =~= key.subrange(j, j + 2));
                assert(occurs_at(ns, sep, j));
            } else {
                assert(key[j] == ns[j]);
            }
        }
    }
    lemma_find_from_lands(key, sep, 0, ns.len() as int);
    assert(key.take(ns.len() as int) == ns);
    assert(key.skip((ns.len() + 2) as int) == app);
}

} // verus!
