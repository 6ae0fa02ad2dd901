//! The messages of the service's gRPC interface and the helpers that build and
//! print them.
use crate::http_utils::{string_from_utf8_lossy, utf8_lossy};
use std::collections::HashMap;
use vstd::prelude::*;
use vstd::string::{StrSliceExecFns, StringExecFns};
use vstd::utf8::encode_utf8;

verus! {

/// A typed blob.
#[derive(Debug, Default)]
pub struct Any {
    pub type_url: String,
    pub value: Vec<u8>,
}

/// A request or answer: its type name, headers and body.
#[derive(Debug, Default)]
pub struct Payload {
    pub payload_type: String,
    pub headers: HashMap<String, String>,
    pub body: Option<Any>,
}

/// What is known of the connection a request came on.
#[derive(Debug, Default)]
pub struct RequestMeta {
    pub connection_id: String,
}

/// What a request handler answers: success or not, the answer, maybe a message.
#[derive(Debug)]
pub struct HandlerResult {
    pub success: bool,
    pub payload: Payload,
    pub message: Option<String>,
}

/// A handler of requests of one type, for users of the library to implement.
pub trait PayloadHandler {
    fn handle(&self, request_payload: Payload, request_meta: RequestMeta) -> Result<HandlerResult, String>;
}

/// The payload holds the type name `t`, no headers, and the body `v` with an empty type url.
pub open spec fn payload_is(p: Payload, t: Seq<char>, v: Seq<u8>) -> bool {
    &&& p.payload_type@ == t
    &&& p.headers@ == Map::<String, String>::empty()
    &&& p.body is Some
    &&& p.body->0.type_url@ == Seq::<char>::empty()
    &&& p.body->0.value@ == v
}

/// The headers as `{:?}` prints them. Nothing is stated of the text: the order
/// in which a `HashMap` is walked is seeded per process.
#[verifier::external_body]
fn debug_headers(headers: &HashMap<String, String>) -> String {
    format!("{:?}", headers)
}

/// Builders and printers of payloads.
#[derive(Debug, Default)]
pub struct PayloadUtils;

impl PayloadUtils {
    /// An error answer: type `ErrorResponse`, the message's UTF-8 bytes as body.
    pub fn build_error_payload(error_code: u16, error_msg: String) -> (r: Payload)
        ensures
            payload_is(r, "ErrorResponse"@, encode_utf8(error_msg@)),
    {
        let error_val = error_msg.as_str().as_bytes_vec();
        Self::build_payload("ErrorResponse", error_val)
    }

    /// A payload with an empty type name, no headers and no body.
    pub fn build_empty_payload() -> (r: Payload)
        ensures
            r.payload_type@ == Seq::<char>::empty(),
            r.headers@ == Map::<String, String>::empty(),
            r.body is None,
    {
        proof {
            reveal_strlit("");
        }
        Payload { payload_type: "".to_owned(), headers: HashMap::new(), body: None }
    }

    /// A payload of type `payload_type` with no headers and the body `val`.
    pub fn build_payload(payload_type: &str, val: Vec<u8>) -> (r: Payload)
        ensures
            payload_is(r, payload_type@, val@),
    {
        Self::build_full_payload(payload_type, val, HashMap::new())
    }

    /// A payload of type `payload_type` with the given headers and the body `val`.
    pub fn build_full_payload(payload_type: &str, val: Vec<u8>, headers: HashMap<String, String>) -> (r: Payload)
        ensures
            r.payload_type@ == payload_type@,
            r.headers == headers,
            r.body is Some,
            r.body->0.type_url@ == Seq::<char>::empty(),
            r.body->0.value@ == val@,
    {
        proof {
            reveal_strlit("");
        }
        let body = Any { type_url: "".to_owned(), value: val };
        Payload { payload_type: payload_type.to_owned(), headers, body: Some(body) }
    }

    /// `type:<type>,header:<headers as {:?} prints them>,`.
    pub fn get_payload_header(payload: &Payload) -> (r: String)
        ensures
            exists|h: Seq<char>| r@ == #[trigger] framed_header(payload, h),
    {
        proof {
            reveal_strlit("type:");
            reveal_strlit(",header:");
            reveal_strlit(",");
        }
        let mut s = "type:".to_owned();
        s.append(payload.payload_type.as_str());
        s.append(",header:");
        let h = debug_headers(&payload.headers);
        s.append(h.as_str());
        s.append(",");
        proof {
            assert(s@ =~= framed_header(payload, h@));
        }
        s
    }

    /// `header` followed, where the payload has a body, by `body:` and the body
    /// as text (invalid UTF-8 replaced as `String::from_utf8_lossy` does).
    pub fn append_payload_body(header: String, payload: &Payload) -> (r: String)
        ensures
            r@ == header@ + body_text(payload),
    {
        let mut s = header;
        match &payload.body {
            Some(body) => {
                let value_str = string_from_utf8_lossy(&body.value);
                s.append("body:");
                s.append(value_str.as_str());
            },
            None => {
                proof {
                    assert(s@ =~= s@ + Seq::<char>::empty());
                }
            },
        }
        s
    }

    /// What `get_payload_header` prints, then `body:` and the body as text
    /// (invalid UTF-8 replaced as `String::from_utf8_lossy` does), where there is a body.
    pub fn get_payload_string(payload: &Payload) -> (r: String)
        ensures
            exists|h: Seq<char>| r@ == #[trigger] framed_header(payload, h) + body_text(payload),
    {
        let header = Self::get_payload_header(payload);
        let ghost h = choose|h: Seq<char>| header@ == framed_header(payload, h);
        let s = Self::append_payload_body(header, payload);
        proof {
            assert(s@ == framed_header(payload, h) + body_text(payload));
        }
        s
    }
}

/// A header printout around the headers' text `h`: `type:<type>,header:<h>,`.
pub open spec fn framed_header(p: &Payload, h: Seq<char>) -> Seq<char> {
    header_prefix(p) + h + ","@
}

/// What follows the header in a printout: `body:` and the body as text where
/// there is a body, else nothing.
pub open spec fn body_text(p: &Payload) -> Seq<char> {
    match p.body {
        Some(b) => "body:"@ + utf8_lossy(b.value@),
        None => Seq::empty(),
    }
}

/// What every printout of a payload starts with: `type:<type>,header:`.
pub open spec fn header_prefix(p: &Payload) -> Seq<char> {
    "type:"@ + p.payload_type@ + ",header:"@
}

impl HandlerResult {
    /// A successful answer.
    pub fn success(payload: Payload) -> (r: HandlerResult)
        ensures
            r == (HandlerResult { success: true, message: None, payload }),
    {
        HandlerResult { success: true, message: None, payload }
    }

    /// A failure answered with an error payload carrying `message`.
    pub fn error(code: u16, message: String) -> (r: HandlerResult)
        ensures
            !r.success,
            r.message == Some(message),
            payload_is(r.payload, "ErrorResponse"@, encode_utf8(message@)),
    {
        let payload = PayloadUtils::build_error_payload(code, message.clone());
        HandlerResult { success: false, message: Some(message), payload }
    }

    /// A failure answered with `payload` and no message.
    pub fn error_mark(payload: Payload) -> (r: HandlerResult)
        ensures
            r == (HandlerResult { success: false, message: None, payload }),
    {
        HandlerResult { success: false, message: None, payload }
    }

    /// A failure answered with `payload` and a message.
    pub fn error_with_message(payload: Payload, message: String) -> (r: HandlerResult)
        ensures
            r == (HandlerResult { success: false, message: Some(message), payload }),
    {
        HandlerResult { success: false, message: Some(message), payload }
    }
}


/// The names handlers are registered under, in order.
pub open spec fn handler_names<H>(hs: Seq<(String, H)>) -> Seq<Seq<char>> {
    hs.map_values(|p: (String, H)| p.0@)
}

/// `i` is the first position whose name is `url`.
pub open spec fn first_named(names: Seq<Seq<char>>, url: Seq<char>, i: int) -> bool {
    &&& 0 <= i < names.len()
    &&& names[i] == url
    &&& forall|j: int| 0 <= j < i ==> names[j] != url
}

/// The message of a request no handler is registered for.
pub open spec fn not_found_message(t: Seq<char>) -> Seq<char> {
    t + " RequestHandler Not Found"@
}

/// Handlers by request type name; the first registered under a name serves it.
pub struct InvokerHandler<H> {
    pub handlers: Vec<(String, H)>,
}

impl<H: PayloadHandler> InvokerHandler<H> {
    /// The names handlers are registered under, in order.
    pub open spec fn names(&self) -> Seq<Seq<char>> {
        handler_names(self.handlers@)
    }

    /// No handlers.
    pub fn new() -> (r: Self)
        ensures
            r.handlers@ == Seq::<(String, H)>::empty(),
    {
        InvokerHandler { handlers: Vec::new() }
    }

    /// Registers a handler under a request type name, after those already there.
    pub fn add_handler(&mut self, url: &str, handler: H)
        ensures
            final(self).handlers@.len() == old(self).handlers@.len() + 1,
            final(self).handlers@.drop_last() == old(self).handlers@,
            final(self).handlers@.last().0@ == url@,
            final(self).handlers@.last().1 == handler,
    {
        self.handlers.push((url.to_owned(), handler));
        proof {
            assert(self.handlers@.drop_last() =~= old(self).handlers@);
        }
    }

    /// The first handler registered under `url`, if any.
    pub fn match_handler(&self, url: &str) -> (r: Option<&H>)
        ensures
            r is Some <==> self.names().contains(url@),
            r matches Some(h) ==> exists|i: int| #[trigger] first_named(self.names(), url@, i) && *h
                == self.handlers@[i].1,
    {
        let mut i: usize = 0;
        while i < self.handlers.len()
            invariant
                i <= self.handlers@.len(),
                forall|j: int| 0 <= j < i ==> self.names()[j] != url@,
            decreases self.handlers.len() - i,
        {
            let (name, h) = &self.handlers[i];
            proof {
                assert(self.names()[i as int] == name@);
            }
            if crate::text::str_eq(name.as_str(), url) {
                proof {
                    assert(first_named(self.names(), url@, i as int));
                }
                return Some(h);
            }
            i = i + 1;
        }
        proof {
            if self.names().contains(url@) {
                let k = choose|k: int| 0 <= k < self.names().len() && self.names()[k] == url@;
                assert(self.names()[k] != url@);
            }
        }
        None
    }
}

impl<H: PayloadHandler> PayloadHandler for InvokerHandler<H> {
    /// Hands the request to the first handler registered under its type name;
    /// where there is none, answers with error 302, "<type> RequestHandler Not Found".
    fn handle(&self, request_payload: Payload, request_meta: RequestMeta) -> (r: Result<HandlerResult, String>)
        ensures
            !self.names().contains(request_payload.payload_type@) ==> (r matches Ok(h) && !h.success
                && h.message is Some && h.message.unwrap()@ == not_found_message(request_payload.payload_type@)),
    {
        match self.match_handler(request_payload.payload_type.as_str()) {
            Some(handler) => handler.handle(request_payload, request_meta),
            None => {
                let mut message = request_payload.payload_type.clone();
                message.append(" RequestHandler Not Found");
                Ok(HandlerResult::error(302, message))
            },
        }
    }
}

} // verus!
