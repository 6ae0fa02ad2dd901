//! HTTP responses as the service keeps them: status, headers and body bytes.
use crate::text::str_eq;
use vstd::prelude::*;
use vstd::utf8::{decode_utf8, valid_utf8};

verus! {

/// The text `String::from_utf8_lossy` makes of some bytes.
pub uninterp spec fn utf8_lossy(bytes: Seq<u8>) -> Seq<char>;

/// `String::from_utf8`: the text the bytes encode, where they are valid UTF-8
/// (as std documents it, the decoding of vstd's `decode_utf8`); none otherwise.
#[verifier::external_body]
pub(crate) fn string_from_utf8(bytes: Vec<u8>) -> (r: Option<String>)
    ensures
        r is Some <==> valid_utf8(bytes@),
        r is Some ==> r->0@ == decode_utf8(bytes@),
{
    String::from_utf8(bytes).ok()
}

/// `String::from_utf8_lossy`: its text, named `utf8_lossy`. Its documentation
/// says that valid UTF-8 comes back as the text it encodes; how invalid
/// sequences are replaced by U+FFFD is not stated here.
#[verifier::external_body]
pub(crate) fn string_from_utf8_lossy(bytes: &Vec<u8>) -> (r: String)
    ensures
        r@ == utf8_lossy(bytes@),
        valid_utf8(bytes@) ==> r@ == decode_utf8(bytes@),
{
    String::from_utf8_lossy(bytes.as_slice()).into_owned()
}

/// A response: status code, headers in the order received, body.
#[derive(Debug, Default)]
pub struct ResponseWrap {
    pub status: u16,
    pub headers: Vec<(String, String)>,
    pub body: Vec<u8>,
}

/// The header names, in order.
pub open spec fn header_names(h: Seq<(String, String)>) -> Seq<Seq<char>> {
    h.map_values(|e: (String, String)| e.0@)
}

/// Headers as a map from name to value; a later header overrides an earlier
/// one with the same name.
pub open spec fn headers_map(h: Seq<(String, String)>) -> Map<Seq<char>, Seq<char>>
    decreases h.len(),
{
    if h.len() == 0 {
        Map::empty()
    } else {
        headers_map(h.drop_last()).insert(h.last().0@, h.last().1@)
    }
}

impl ResponseWrap {
    /// Whether the status is 200.
    pub fn status_is_200(&self) -> (r: bool)
        ensures
            r == (self.status == 200),
    {
        self.status == 200
    }

    /// The body as text, invalid UTF-8 replaced as `String::from_utf8_lossy` does.
    pub fn get_lossy_string_body(&self) -> (r: String)
        ensures
            r@ == utf8_lossy(self.body@),
            valid_utf8(self.body@) ==> r@ == decode_utf8(self.body@),
    {
        string_from_utf8_lossy(&self.body)
    }

    /// The body as text; the body must be valid UTF-8.
    pub fn get_string_body(&self) -> (r: String)
        requires
            valid_utf8(self.body@),
        ensures
            r@ == decode_utf8(self.body@),
    {
        match string_from_utf8(self.body.clone()) {
            Some(s) => s,
            None => String::new(),
        }
    }

    /// The headers by name, each name once with its last value, in order of first appearance.
    pub fn get_map_headers(&self) -> (r: Vec<(String, String)>)
        ensures
            header_names(r@).no_duplicates(),
            headers_map(r@) == headers_map(self.headers@),
    {
        let mut copy: Vec<(String, String)> = Vec::new();
        let mut i: usize = 0;
        while i < self.headers.len()
            invariant
                i <= self.headers.len(),
                copy@ == self.headers@.take(i as int),
            decreases self.headers.len() - i,
        {
            let (k, v) = &self.headers[i];
            copy.push((k.clone(), v.clone()));
            proof {
                assert(self.headers@.take(i + 1) == self.headers@.take(i as int).push(self.headers@[i as int]));
            }
            i = i + 1;
        }
        proof {
            assert(self.headers@.take(self.headers.len() as int) == self.headers@);
        }
        Self::convert_to_map_headers(copy)
    }

    /// The headers by name, each name once with its last value, in order of first appearance.
    pub fn convert_to_map_headers(headers: Vec<(String, String)>) -> (r: Vec<(String, String)>)
        ensures
            header_names(r@).no_duplicates(),
            headers_map(r@) == headers_map(headers@),
    {
        let mut out: Vec<(String, String)> = Vec::new();
        let mut i: usize = 0;
        while i < headers.len()
            invariant
                i <= headers.len(),
                header_names(out@).no_duplicates(),
                headers_map(out@) == headers_map(headers@.take(i as int)),
            decreases headers.len() - i,
        {
            let (k, v) = &headers[i];
            proof {
                assert(headers@.take(i + 1).drop_last() == headers@.take(i as int));
                assert(headers@.take(i + 1).last() == headers@[i as int]);
            }
            let pos = find_header(&out, k.as_str());
            let ghost before = out@;
            if let Some(j) = pos {
                out.set(j, (k.clone(), v.clone()));
                proof {
                    lemma_headers_map_set(before, j as int, out@[j as int]);
                    assert(header_names(out@) =~= header_names(before));
                }
            } else {
                out.push((k.clone(), v.clone()));
                proof {
                    assert(out@.drop_last() == before);
                    assert(header_names(out@) =~= header_names(before).push(k@));
                    assert forall|a: int, b: int| 0 <= a < b < header_names(out@).len() implies header_names(out@)[a]
                        != header_names(out@)[b] by {
                        if b == header_names(out@).len() - 1 {
                            assert(header_names(out@)[a] == before[a].0@);
                        } else {
                            assert(header_names(before)[a] != header_names(before)[b]);
                        }
                    }
                }
            }
            i = i + 1;
        }
        proof {
            assert(headers@.take(headers.len() as int) == headers@);
        }
        out
    }
}

/// The position of the header named `name`, if any.
fn find_header(out: &Vec<(String, String)>, name: &str) -> (r: Option<usize>)
    ensures
        match r {
            Some(j) => j < out@.len() && out@[j as int].0@ == name@,
            None => forall|m: int| 0 <= m < out@.len() ==> out@[m].0@ != name@,
        },
{
    let mut j: usize = 0;
    while j < out.len()
        invariant
            j <= out.len(),
            forall|m: int| 0 <= m < j ==> out@[m].0@ != name@,
        decreases out.len() - j,
    {
        if str_eq(out[j].0.as_str(), name) {
            return Some(j);
        }
        j = j + 1;
    }
    None
}

/// Replacing the value of a header whose name occurs once changes only that name's value.
proof fn lemma_headers_map_set(h: Seq<(String, String)>, j: int, e: (String, String))
    requires
        0 <= j < h.len(),
        header_names(h).no_duplicates(),
        e.0@ == h[j].0@,
    ensures
        headers_map(h.update(j, e)) == headers_map(h).insert(e.0@, e.1@),
    decreases h.len(),
{
    let t = h.update(j, e);
    if j == h.len() - 1 {
        assert(t.drop_last() == h.drop_last());
        assert(headers_map(h).insert(e.0@, e.1@) =~= headers_map(h.drop_last()).insert(e.0@, e.1@));
    } else {
        let p = h.drop_last();
        assert(header_names(p).no_duplicates()) by {
            assert forall|a: int, b: int| 0 <= a < b < header_names(p).len() implies header_names(p)[a]
                != header_names(p)[b] by {
                assert(header_names(h)[a] != header_names(h)[b]);
            }
        }
        lemma_headers_map_set(p, j, e);
        assert(t.drop_last() == p.update(j, e));
        assert(h.last().0@ != e.0@) by {
            assert(header_names(h)[j] != header_names(h)[h.len() - 1]);
        }
        assert(headers_map(t) =~= headers_map(h).insert(e.0@, e.1@));
    }
}

/// The client side of HTTP requests; the requests themselves go out from the
/// program around the library.
#[derive(Debug, Default)]
pub struct HttpUtils;

} // verus!
