//! Worker runtime: one QuickJS execution context bound to one loaded bundle.
//! The bundle's top-level value is captured as the `handlers` table, a `print`
//! primitive is installed into the guest global scope, and a named handler
//! can be invoked with a request value; its deferred result is driven to
//! completion and decoded into a response value. Every run-time error is
//! scoped to its invocation: the worker stays usable afterwards.

use vstd::prelude::*;
use vstd::string::*;
use std::collections::HashMap;
use std::io::Write;

verus! {

/// A request value crossing the host/guest boundary by full copy.
#[derive(Debug)]
pub struct Req {
    pub headers: HashMap<String, String>,
    pub method: String,
    pub url: String,
    pub body: Option<String>,
}

/// A response value decoded from the settled handler result.
#[derive(Debug)]
pub struct Res {
    pub status: u16,
    pub headers: HashMap<String, String>,
    pub body: Option<String>,
}

/// Step-by-step builder for [`Req`].
pub struct ReqBuilder {
    pub headers: Option<HashMap<String, String>>,
    pub method: Option<String>,
    pub url: Option<String>,
    pub body: Option<String>,
}

impl Req {
    /// Starts building a request.
    pub fn builder() -> (r: ReqBuilder)
        ensures
            r.headers is None,
            r.method is None,
            r.url is None,
            r.body is None,
    {
        ReqBuilder { headers: None, method: None, url: None, body: None }
    }
}

impl ReqBuilder {
    /// Sets the method.
    pub fn method(self, m: &str) -> (r: ReqBuilder)
        ensures
            r.method matches Some(s) && s@ == m@,
            r.headers == self.headers,
            r.url == self.url,
            r.body == self.body,
    {
        ReqBuilder { method: Some(m.to_owned()), ..self }
    }

    /// Sets the url.
    pub fn url(self, u: &str) -> (r: ReqBuilder)
        ensures
            r.url matches Some(s) && s@ == u@,
            r.headers == self.headers,
            r.method == self.method,
            r.body == self.body,
    {
        ReqBuilder { url: Some(u.to_owned()), ..self }
    }

    /// Sets the headers.
    pub fn headers(self, h: HashMap<String, String>) -> (r: ReqBuilder)
        ensures
            r.headers == Some(h),
            r.method == self.method,
            r.url == self.url,
            r.body == self.body,
    {
        ReqBuilder { headers: Some(h), ..self }
    }

    /// Sets the optional body.
    pub fn body(self, b: &str) -> (r: ReqBuilder)
        ensures
            r.body matches Some(s) && s@ == b@,
            r.headers == self.headers,
            r.method == self.method,
            r.url == self.url,
    {
        ReqBuilder { body: Some(b.to_owned()), ..self }
    }

    /// Finishes the request; method, url and headers must have been set.
    pub fn build(self) -> (r: Req)
        requires
            self.method is Some,
            self.url is Some,
            self.headers is Some,
        ensures
            Some(r.method) == self.method,
            Some(r.url) == self.url,
            Some(r.headers) == self.headers,
            r.body == self.body,
    {
        Req {
            method: self.method.unwrap(),
            url: self.url.unwrap(),
            headers: self.headers.unwrap(),
            body: self.body,
        }
    }
}

/// Worker-side failures. Initialization failures are fatal to the worker;
/// every other variant is scoped to one handler invocation.
#[derive(Debug)]
pub enum WorkerError {
    /// The bundle failed to evaluate or lacked an exports object.
    RuntimeInit { message: String },
    /// The named handler is absent from the handlers table or not callable.
    HandlerNotFound { name: String },
    /// The handler threw or its deferred value settled to an error.
    HandlerRejected { message: String },
    /// The settled value had no integer `status` or no `headers` mapping.
    ResponseDecode { message: String },
}

impl WorkerError {
    /// A human-readable description.
    pub fn message(&self) -> (r: String)
    {
        match self {
            WorkerError::RuntimeInit { message } => {
                let mut r = String::from_str("worker initialization failed: ");
                r.append(message.as_str());
                r
            },
            WorkerError::HandlerNotFound { name } => {
                let mut r = String::from_str("handler not found: ");
                r.append(name.as_str());
                r
            },
            WorkerError::HandlerRejected { message } => {
                let mut r = String::from_str("handler rejected: ");
                r.append(message.as_str());
                r
            },
            WorkerError::ResponseDecode { message } => {
                let mut r = String::from_str("malformed response: ");
                r.append(message.as_str());
                r
            },
        }
    }
}

/// What one handler invocation came back with, as plain values read off the
/// guest: the raw material the verified decoder classifies.
#[derive(Debug)]
pub enum InvokeOutcome {
    /// No callable of that name in the handlers table.
    NotFound,
    /// The call or its deferred value failed guest-side.
    Rejected { message: String },
    /// The deferred value settled; each field is present as read, absent
    /// when missing or of the wrong guest type.
    Settled {
        status: Option<i64>,
        headers: Option<HashMap<String, String>>,
        body: Option<String>,
    },
}

#[verifier::external_type_specification]
#[verifier::external_body]
pub struct ExContext(rquickjs::Context);

#[verifier::external_type_specification]
#[verifier::external_body]
pub struct ExCtx<'js>(rquickjs::Ctx<'js>);

#[verifier::external_type_specification]
#[verifier::external_body]
pub struct ExObject<'js>(rquickjs::Object<'js>);

#[verifier::external_type_specification]
#[verifier::external_body]
pub struct ExFunction<'js>(rquickjs::Function<'js>);

#[verifier::external_type_specification]
#[verifier::external_body]
pub struct ExValue<'js>(rquickjs::Value<'js>);

/// Relies on rquickjs `Function::new`, `Function::with_name` and
/// `Object::set`: installs a `print(string)` primitive into the guest
/// global scope. The closure handed to the engine writes the line to
/// standard output itself: the host-exposed logging primitive is I/O by
/// nature, so no verified function could carry its effect, and this one
/// write is the closure's whole body.
#[verifier::external_body]
fn install_print(c: &rquickjs::Ctx<'_>) -> (r: Result<(), ()>) {
    let printer = |m: String| {
        let _ = writeln!(std::io::stdout(), "{m}");
    };
    rquickjs::Function::new(c.clone(), printer)
        .and_then(|f| f.with_name("print"))
        .and_then(|f| c.globals().set("print", f))
        .map_err(|_| ())
}

/// Relies on rquickjs `Ctx::eval` and `Object::set`: evaluates the bundle,
/// requiring its value to be an object, and stores that object as the
/// global `handlers` table.
#[verifier::external_body]
fn eval_bundle(c: &rquickjs::Ctx<'_>, module: &str) -> (r: Result<(), String>) {
    let exports: rquickjs::Object = c.eval(module).map_err(|e| format!("{e}"))?;
    c.globals().set("handlers", exports).map_err(|e| format!("{e}"))
}

/// Relies on rquickjs `Runtime::new` and `Context::full`, composed with the
/// two wrappers above: a fresh context with the bundle's exports captured
/// as `handlers` and the `print` primitive installed.
#[verifier::external_body]
fn context_init(module: &str) -> (r: Result<rquickjs::Context, String>) {
    let rt = rquickjs::Runtime::new().map_err(|e| e.to_string())?;
    let ctx = rquickjs::Context::full(&rt).map_err(|e| e.to_string())?;
    ctx.with(|c| eval_bundle(&c, module))?;
    match ctx.with(|c| install_print(&c)) {
        Ok(()) => Ok(ctx),
        Err(()) => Err("cannot install the print primitive".to_string()),
    }
}

/// Relies on rquickjs `Ctx::eval_promise` and `Promise::finish`: evaluates
/// `code`, drives the resulting deferred value to completion by draining the
/// guest job queue, and discards the settled value.
#[verifier::external_body]
fn context_run(ctx: &rquickjs::Context, code: &str) -> (r: Result<(), String>) {
    ctx.with(|c| match c.eval_promise(code).and_then(|p| p.finish::<rquickjs::Value>()) {
        Ok(_) => Ok(()),
        Err(e) => Err(
            if e.is_exception() {
                format!("{:?}", c.catch())
            } else {
                format!("{e}")
            },
        ),
    })
}

/// Relies on rquickjs `Object::get`: the named member of the `handlers`
/// table, when it exists and is callable.
#[verifier::external_body]
fn lookup_handler<'js>(c: &rquickjs::Ctx<'js>, name: &str) -> (r: Result<
    rquickjs::Function<'js>,
    (),
>) {
    c.globals().get::<_, rquickjs::Object>("handlers")
        .and_then(|h| h.get(name))
        .map_err(|_| ())
}

/// Relies on rquickjs `Object::new`, `Object::set` and the `IntoJs`
/// conversions for strings and string maps: the request as a guest object
/// with fields `method`, `url`, `headers` and `body`.
#[verifier::external_body]
fn marshal_request<'js>(c: &rquickjs::Ctx<'js>, req: &Req) -> (r: Result<
    rquickjs::Object<'js>,
    String,
>) {
    let build = || -> rquickjs::Result<rquickjs::Object<'js>> {
        let o = rquickjs::Object::new(c.clone())?;
        o.set("method", req.method.clone())?;
        o.set("url", req.url.clone())?;
        o.set("headers", req.headers.clone())?;
        o.set("body", req.body.clone())?;
        Ok(o)
    };
    build().map_err(|e| format!("{e}"))
}

/// Relies on rquickjs `Function::call` and `Promise::finish`: invokes the
/// callable with one argument and drains the guest job queue until its
/// deferred value settles; the error text of a guest-side failure.
#[verifier::external_body]
fn call_and_settle<'js>(
    c: &rquickjs::Ctx<'js>,
    fun: rquickjs::Function<'js>,
    arg: rquickjs::Object<'js>,
) -> (r: Result<rquickjs::Value<'js>, String>) {
    fun.call::<_, rquickjs::Promise>((arg,))
        .and_then(|p| p.finish::<rquickjs::Value>())
        .map_err(|e| {
            if e.is_exception() {
                format!("{:?}", c.catch())
            } else {
                format!("{e}")
            }
        })
}

/// Relies on the `FromJs` conversions for integers, strings and string
/// maps: reads `status`, `headers` and `body` off the settled value, each
/// absent when missing or of the wrong guest type.
#[verifier::external_body]
fn read_response(v: rquickjs::Value<'_>) -> (o: InvokeOutcome) {
    match v.into_object() {
        Some(obj) => InvokeOutcome::Settled {
            status: obj.get::<_, i64>("status").ok(),
            headers: obj.get::<_, HashMap<String, String>>("headers").ok(),
            body: obj.get::<_, Option<String>>("body").unwrap_or(None),
        },
        None => InvokeOutcome::Settled { status: None, headers: None, body: None },
    }
}

/// Relies on the four wrappers above, composed inside one context entry:
/// what one invocation of the named handler came back with.
#[verifier::external_body]
fn context_invoke(ctx: &rquickjs::Context, name: &str, req: &Req) -> (o: InvokeOutcome) {
    ctx.with(|c| {
        let fun = match lookup_handler(&c, name) {
            Ok(f) => f,
            Err(()) => return InvokeOutcome::NotFound,
        };
        let arg = match marshal_request(&c, req) {
            Ok(o) => o,
            Err(message) => return InvokeOutcome::Rejected { message },
        };
        match call_and_settle(&c, fun, arg) {
            Ok(v) => read_response(v),
            Err(message) => InvokeOutcome::Rejected { message },
        }
    })
}

/// Classifies what an invocation came back with, exactly: a missing callable
/// is `HandlerNotFound`, a guest-side failure is `HandlerRejected`, a settled
/// value decodes to a response when `status` is an integer in `u16` range and
/// `headers` is a string mapping, and is `ResponseDecode` otherwise.
pub fn decode_outcome(name: &str, o: InvokeOutcome) -> (r: Result<Res, WorkerError>)
    ensures
        match o {
            InvokeOutcome::NotFound => r matches Err(e) && e matches WorkerError::HandlerNotFound {
                name: n,
            } && n@ == name@,
            InvokeOutcome::Rejected { message } => r matches Err(e) && e
                matches WorkerError::HandlerRejected { message: m } && m == message,
            InvokeOutcome::Settled { status, headers, body } => match (status, headers) {
                (Some(s), Some(h)) => if 0 <= s <= 65535 {
                    r matches Ok(res) && res.status == s as u16 && res.headers == h && res.body
                        == body
                } else {
                    r matches Err(e) && e is ResponseDecode
                },
                _ => r matches Err(e) && e is ResponseDecode,
            },
        },
{
    match o {
        InvokeOutcome::NotFound => Err(WorkerError::HandlerNotFound { name: name.to_owned() }),
        InvokeOutcome::Rejected { message } => Err(WorkerError::HandlerRejected { message }),
        InvokeOutcome::Settled { status, headers, body } => {
            match (status, headers) {
                (Some(s), Some(h)) => {
                    if 0 <= s && s <= 65535 {
                        Ok(Res { status: s as u16, headers: h, body })
                    } else {
                        Err(
                            WorkerError::ResponseDecode {
                                message: String::from_str("status out of range"),
                            },
                        )
                    }
                },
                _ => Err(
                    WorkerError::ResponseDecode {
                        message: String::from_str("missing integer status or headers mapping"),
                    },
                ),
            }
        },
    }
}

/// One live guest execution context bound to exactly one loaded bundle.
pub struct JsWorker {
    ctx: rquickjs::Context,
}

impl JsWorker {
    /// Evaluates `module` in a fresh context and captures its exports as the
    /// handlers table. Failure to evaluate, or a non-object bundle value, is
    /// a `RuntimeInit` error, fatal to the worker being built.
    pub fn try_new(module: &str) -> (r: Result<JsWorker, WorkerError>)
        ensures
            r matches Err(e) ==> e is RuntimeInit,
    {
        match context_init(module) {
            Ok(ctx) => Ok(JsWorker { ctx }),
            Err(message) => Err(WorkerError::RuntimeInit { message }),
        }
    }

    /// Evaluates `code` as a deferred-returning expression, drives it to
    /// completion, and discards the result.
    pub fn run(&self, code: &str) -> (r: Result<(), WorkerError>)
        ensures
            r matches Err(e) ==> e is HandlerRejected,
    {
        match context_run(&self.ctx, code) {
            Ok(()) => Ok(()),
            Err(message) => Err(WorkerError::HandlerRejected { message }),
        }
    }

    /// Invokes the named handler with `req` and decodes its settled value
    /// per [`decode_outcome`]. Every failure is scoped to this invocation:
    /// none is a `RuntimeInit` error, and the worker stays usable.
    pub fn run_http(&self, name: &str, req: Req) -> (r: Result<Res, WorkerError>)
        ensures
            r matches Err(e) ==> !(e is RuntimeInit),
            match r {
                Err(WorkerError::HandlerNotFound { name: n }) => n@ == name@,
                _ => true,
            },
    {
        let o = context_invoke(&self.ctx, name, &req);
        decode_outcome(name, o)
    }
}

} // verus!
