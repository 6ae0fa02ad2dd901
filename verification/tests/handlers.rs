use ratchjob::app_model::AppKey;
use ratchjob::grpc::{HandlerResult, InvokerHandler, Payload, PayloadHandler, RequestMeta};

struct Named(&'static str);

impl PayloadHandler for Named {
    fn handle(&self, request_payload: Payload, _request_meta: RequestMeta) -> Result<HandlerResult, String> {
        let mut p = request_payload;
        p.payload_type = self.0.to_string();
        Ok(HandlerResult::success(p))
    }
}

fn payload(t: &str) -> Payload {
    Payload { payload_type: t.to_string(), ..Default::default() }
}

#[test]
fn first_registered_handler_serves() {
    let mut h = InvokerHandler::new();
    h.add_handler("RaftVoteRequest", Named("vote"));
    h.add_handler("RaftAppendRequest", Named("append"));
    h.add_handler("RaftVoteRequest", Named("vote2"));
    assert_eq!(h.match_handler("RaftVoteRequest").unwrap().0, "vote");
    assert_eq!(h.match_handler("RaftAppendRequest").unwrap().0, "append");
    assert!(h.match_handler("Other").is_none());
    let r = h.handle(payload("RaftAppendRequest"), RequestMeta::default()).unwrap();
    assert!(r.success);
    assert_eq!(r.payload.payload_type, "append");
}

#[test]
fn unknown_type_is_answered_with_error() {
    let h: InvokerHandler<Named> = InvokerHandler::new();
    let r = h.handle(payload("Nope"), RequestMeta::default()).unwrap();
    assert!(!r.success);
    assert_eq!(r.message.unwrap(), "Nope RequestHandler Not Found");
    assert_eq!(r.payload.payload_type, "ErrorResponse");
}

#[test]
fn app_key_from_storage_key() {
    let k = AppKey::new("app".to_string(), "dev".to_string());
    let back = AppKey::from_key(&k.build_key());
    assert_eq!(back.namespace, "dev");
    assert_eq!(back.app_name, "app");
    let only = AppKey::from_key("solo");
    assert_eq!(only.namespace, "solo");
    assert_eq!(only.app_name, "");
    let extra = AppKey::from_key("a\x02b\x02c");
    assert_eq!(extra.namespace, "a");
    assert_eq!(extra.app_name, "b");
}
