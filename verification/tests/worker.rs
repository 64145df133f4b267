use std::collections::HashMap;

use dino::worker::{JsWorker, Req, WorkerError};

#[test]
fn js_worker_should_run() {
    let code = r#"
    (function(){async function hello(){print("hello world");return"hello";}return{hello:hello};})();
    "#;
    let worker = JsWorker::try_new(code).unwrap();
    worker.run("await handlers.hello()").unwrap();
}

#[test]
fn js_worker_should_run_http() {
    let code = r#"
        (function(){
            async function hello(req){
                return {
                    status:200,
                    headers:{
                        "content-type":"application/json"
                    },
                    body: JSON.stringify(req),
                };
            }
            return{hello:hello};
        })();
    "#;
    let req = Req::builder()
        .method("GET")
        .url("https://example.com")
        .headers(HashMap::new())
        .build();
    let worker = JsWorker::try_new(code).unwrap();
    worker.run_http("hello", req).unwrap();
}

#[test]
fn handler_response_is_decoded() {
    let code = r#"(function(){async function h(req){ return {status:200, headers:{}, body:null}; } return {h:h};})();"#;
    let worker = JsWorker::try_new(code).unwrap();
    let req = Req::builder()
        .method("GET")
        .url("https://example.com")
        .headers(HashMap::new())
        .build();
    let res = worker.run_http("h", req).unwrap();
    assert_eq!(res.status, 200);
    assert!(res.headers.is_empty());
    assert!(res.body.is_none());
}

#[test]
fn handler_sees_request_fields() {
    let code = r#"(function(){
        async function echo(req){
            return {status:201, headers:{method:req.method, url:req.url}, body:req.body};
        }
        return {echo:echo};
    })();"#;
    let worker = JsWorker::try_new(code).unwrap();
    let req = Req::builder()
        .method("POST")
        .url("https://example.com/a")
        .headers(HashMap::new())
        .body("payload")
        .build();
    let res = worker.run_http("echo", req).unwrap();
    assert_eq!(res.status, 201);
    assert_eq!(res.headers.get("method").unwrap(), "POST");
    assert_eq!(res.headers.get("url").unwrap(), "https://example.com/a");
    assert_eq!(res.body.unwrap(), "payload");
}

#[test]
fn handler_sees_request_headers() {
    let code = r#"(function(){
        async function echo(req){
            return {status:200, headers:req.headers, body:null};
        }
        return {echo:echo};
    })();"#;
    let worker = JsWorker::try_new(code).unwrap();
    let mut headers = HashMap::new();
    headers.insert("x-token".to_string(), "abc".to_string());
    headers.insert("accept".to_string(), "text/plain".to_string());
    let req = Req::builder()
        .method("GET")
        .url("https://example.com")
        .headers(headers)
        .build();
    let res = worker.run_http("echo", req).unwrap();
    assert_eq!(res.status, 200);
    assert_eq!(res.headers.len(), 2);
    assert_eq!(res.headers.get("x-token").unwrap(), "abc");
    assert_eq!(res.headers.get("accept").unwrap(), "text/plain");
}

#[test]
fn missing_handler_leaves_worker_usable() {
    let code = r#"(function(){async function h(req){ return {status:200, headers:{}, body:null}; } return {h:h};})();"#;
    let worker = JsWorker::try_new(code).unwrap();
    let req = Req::builder()
        .method("GET")
        .url("https://example.com")
        .headers(HashMap::new())
        .build();
    let e = worker.run_http("nope", req).unwrap_err();
    assert!(matches!(e, WorkerError::HandlerNotFound { ref name } if name == "nope"));
    let req2 = Req::builder()
        .method("GET")
        .url("https://example.com")
        .headers(HashMap::new())
        .build();
    let res = worker.run_http("h", req2).unwrap();
    assert_eq!(res.status, 200);
}

#[test]
fn rejected_handler_leaves_worker_usable() {
    let code = r#"(function(){
        async function bad(req){ throw new Error("boom"); }
        async function good(req){ return {status:204, headers:{}, body:null}; }
        return {bad:bad, good:good};
    })();"#;
    let worker = JsWorker::try_new(code).unwrap();
    let req = Req::builder()
        .method("GET")
        .url("https://example.com")
        .headers(HashMap::new())
        .build();
    let e = worker.run_http("bad", req).unwrap_err();
    assert!(matches!(e, WorkerError::HandlerRejected { .. }));
    let req2 = Req::builder()
        .method("GET")
        .url("https://example.com")
        .headers(HashMap::new())
        .build();
    let res = worker.run_http("good", req2).unwrap();
    assert_eq!(res.status, 204);
}

#[test]
fn malformed_response_is_a_decode_error() {
    let code = r#"(function(){
        async function h(req){ return {status:"nope", headers:{}, body:null}; }
        return {h:h};
    })();"#;
    let worker = JsWorker::try_new(code).unwrap();
    let req = Req::builder()
        .method("GET")
        .url("https://example.com")
        .headers(HashMap::new())
        .build();
    let e = worker.run_http("h", req).unwrap_err();
    assert!(matches!(e, WorkerError::ResponseDecode { .. }));
}

#[test]
fn bad_bundle_is_a_runtime_init_error() {
    let e = match JsWorker::try_new("this is not javascript at all (") {
        Err(e) => e,
        Ok(_) => panic!("expected initialization to fail"),
    };
    assert!(matches!(e, WorkerError::RuntimeInit { .. }));
    let e2 = match JsWorker::try_new("42") {
        Err(e) => e,
        Ok(_) => panic!("expected initialization to fail"),
    };
    assert!(matches!(e2, WorkerError::RuntimeInit { .. }));
}
