//! A thin, verified facade over the embedded Javascript engine: it owns
//! the script context, a registry of named module sources, and the
//! local-storage location, and routes script execution through the
//! context.

use vstd::prelude::*;
use std::path::PathBuf;
use quick_js::{Context, ContextError, ExecutionError, JsValue, ValueError};

verus! {

#[verifier::external_type_specification]
#[verifier::external_body]
pub struct ExContext(Context);

#[verifier::external_type_specification]
#[verifier::external_body]
pub struct ExContextError(ContextError);

#[verifier::external_type_specification]
#[verifier::external_body]
pub struct ExExecutionError(ExecutionError);

#[verifier::external_type_specification]
#[verifier::external_body]
pub struct ExJsValue(JsValue);

#[verifier::external_type_specification]
#[verifier::external_body]
pub struct ExValueError(ValueError);

#[verifier::external_type_specification]
#[verifier::external_body]
pub struct ExPathBuf(PathBuf);

/// Relies on quick_js::Context::new: builds a fresh Javascript context
/// with default settings, or reports why the runtime could not be set
/// up.
#[verifier::external_body]
fn js_context_new() -> (r: Result<Context, ContextError>) {
    Context::new()
}

/// Relies on quick_js::Context::eval: evaluates a script in the context
/// and returns the value of its final expression, or the error the
/// evaluation raised.  A script holding an interior zero byte is always
/// rejected, so success implies the source had none.
#[verifier::external_body]
fn js_eval(ctx: &Context, code: &str) -> (r: Result<JsValue, ExecutionError>)
    ensures
        r is Ok ==> !code@.contains('\u{0}'),
{
    ctx.eval(code)
}

/// Relies on quick_js::ExecutionError::Internal: wraps a message naming
/// the missing module as an error value.
#[verifier::external_body]
fn module_not_found_error(name: &str) -> (r: ExecutionError) {
    ExecutionError::Internal(format!("module not found: {}", name))
}

/// How a call from script into a native function can fail: the
/// arguments or the result failed to convert, or the call itself
/// raised.
pub enum JsCallError {
    ConversionError(ValueError),
    ExecutionError(ExecutionError),
}

/// Relies on quick_js::ExecutionError's Display implementation:
/// renders the error as a message string.
#[verifier::external_body]
fn execution_error_message(e: &ExecutionError) -> (r: String) {
    e.to_string()
}

/// Folds a native function's outcome into the two-level result the
/// script bridge hands back: a value passes through, a conversion
/// failure propagates as the outer error, and an execution failure
/// becomes a script-visible error message.
pub fn map_js_call_result(r: Result<JsValue, JsCallError>) -> (out: Result<
    Result<JsValue, String>,
    ValueError,
>)
    ensures
        match r {
            Result::Ok(v) => out == Result::<Result<JsValue, String>, ValueError>::Ok(
                Result::<JsValue, String>::Ok(v),
            ),
            Result::Err(e) => match e {
                JsCallError::ConversionError(ce) => out == Result::<
                    Result<JsValue, String>,
                    ValueError,
                >::Err(ce),
                JsCallError::ExecutionError(_) => out is Ok && out->Ok_0 is Err,
            },
        },
{
    match r {
        Result::Ok(v) => Result::Ok(Result::Ok(v)),
        Result::Err(e) => match e {
            JsCallError::ConversionError(ce) => Result::Err(ce),
            JsCallError::ExecutionError(ee) => Result::Ok(
                Result::Err(execution_error_message(&ee)),
            ),
        },
    }
}

/// The source registered for `name`, if any; an earlier registration of
/// a name wins over a later one.
pub open spec fn spec_find_module(ms: Seq<(String, String)>, name: Seq<char>) -> Option<Seq<char>>
    decreases ms.len(),
{
    if ms.len() == 0 {
        None
    } else if ms[0].0@ == name {
        Some(ms[0].1@)
    } else {
        spec_find_module(ms.drop_first(), name)
    }
}

/// The scripting engine: the Javascript context, the registry of named
/// module sources, and the local-storage location once enabled.
pub struct JsEngine {
    /// The underlying Javascript context.
    pub js_context: Context,
    /// Registered modules: name and source, in registration order.
    pub modules: Vec<(String, String)>,
    /// Where local storage lives, once enabled.
    pub localstorage_dir: Option<PathBuf>,
}

impl JsEngine {
    /// The source registered for a module name, if any.
    pub open spec fn module_source(self, name: Seq<char>) -> Option<Seq<char>> {
        spec_find_module(self.modules@, name)
    }

    /// Builds an engine around a fresh Javascript context, with no
    /// modules registered and local storage disabled.
    pub fn new() -> (r: Result<JsEngine, ContextError>)
        ensures
            r is Ok ==> r->Ok_0.modules@ == Seq::<(String, String)>::empty(),
            r is Ok ==> r->Ok_0.localstorage_dir is None,
    {
        match js_context_new() {
            Result::Ok(ctx) => Result::Ok(
                JsEngine { js_context: ctx, modules: Vec::new(), localstorage_dir: None },
            ),
            Result::Err(e) => Result::Err(e),
        }
    }

    /// Registers a module's source under a name.  An earlier
    /// registration of the same name keeps precedence.
    pub fn add_module(&mut self, name: String, source: String)
        ensures
            final(self).modules@ == old(self).modules@.push((name, source)),
            final(self).localstorage_dir == old(self).localstorage_dir,
            final(self).js_context == old(self).js_context,
    {
        self.modules.push((name, source));
    }

    /// Executes a registered module by name: evaluates its source in
    /// the engine's context.  An unregistered name yields an error;
    /// success means the module was found and its evaluation succeeded.
    #[verifier::loop_isolation(false)]
    pub fn execute_module(&mut self, module_name: &str) -> (r: Result<(), ExecutionError>)
        ensures
            final(self).modules@ == old(self).modules@,
            final(self).localstorage_dir == old(self).localstorage_dir,
            final(self).js_context == old(self).js_context,
            old(self).module_source(module_name@) is None ==> r is Err,
            r is Ok ==> old(self).module_source(module_name@) is Some,
    {
        let name = module_name.to_owned();
        let n = self.modules.len();
        proof {
            assert(self.modules@.skip(0) =~= self.modules@);
        }
        let mut i: usize = 0;
        while i < n
            invariant
                i <= n,
                spec_find_module(self.modules@, name@) == spec_find_module(
                    self.modules@.skip(i as int),
                    name@,
                ),
            decreases n - i,
        {
            proof {
                assert(self.modules@.skip(i as int)[0] == self.modules@[i as int]);
                assert(self.modules@.skip(i as int).drop_first() =~= self.modules@.skip(
                    i as int + 1,
                ));
            }
            if self.modules[i].0 == name {
                let result = js_eval(&self.js_context, self.modules[i].1.as_str());
                return match result {
                    Result::Ok(_) => Result::Ok(()),
                    Result::Err(e) => Result::Err(e),
                };
            }
            i = i + 1;
        }
        proof {
            assert(self.modules@.skip(n as int) =~= Seq::<(String, String)>::empty());
        }
        Result::Err(module_not_found_error(module_name))
    }

    /// Runs the engine's entry module, registered under the name
    /// `main`.  Errors are swallowed, as frame-driving callers cannot
    /// act on them.
    pub fn execute_main(&mut self)
        ensures
            final(self).modules@ == old(self).modules@,
            final(self).localstorage_dir == old(self).localstorage_dir,
            final(self).js_context == old(self).js_context,
    {
        let _ = self.execute_module("main");
    }

    /// Enables local storage, remembering the directory it lives in.
    pub fn enable_localstorage(&mut self, p: PathBuf)
        ensures
            final(self).localstorage_dir == Some(p),
            final(self).modules@ == old(self).modules@,
            final(self).js_context == old(self).js_context,
    {
        self.localstorage_dir = Some(p);
    }
}

} // verus!
