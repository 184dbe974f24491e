use vstd::prelude::*;

use crate::context::CtxView;
use crate::context::RenderContext;

verus! {

/// Whether a template source parses. Names the outcome of minijinja's
/// `Environment::template_from_str` on a default environment: a function of
/// the source text alone.
pub uninterp spec fn template_compiles(source: Seq<char>) -> bool;

/// What rendering a template source against a context produces: `Some(text)`
/// on success, `None` when the source does not parse or the render itself
/// fails (a missing variable, with strict undefined lookup). Names the
/// outcome of minijinja's `Environment::render_str` on a default environment
/// with strict undefined behavior: a function of source and context alone.
pub uninterp spec fn render_outcome(source: Seq<char>, ctx: CtxView) -> Option<Seq<char>>;

/// Relies on minijinja's `Environment::template_from_str`: parsing a template
/// source on a freshly made default environment succeeds or fails as a
/// function of the source text alone.
#[verifier::external_body]
pub(crate) fn compile_check(source: &String) -> (r: bool)
    ensures
        r == template_compiles(source@),
{
    let env = minijinja::Environment::new();
    env.template_from_str(source).is_ok()
}

/// Relies on minijinja's `Environment::render_str` on a freshly made default
/// environment with `UndefinedBehavior::Strict`: the outcome depends on the
/// source text and the supplied context alone, and success implies the source
/// parsed.
#[verifier::external_body]
pub(crate) fn render_source(source: &String, ctx: &RenderContext) -> (r: Option<String>)
    ensures
        r is Some <==> render_outcome(source@, ctx@) is Some,
        r matches Some(t) ==> t@ == render_outcome(source@, ctx@)->0,
        r is Some ==> template_compiles(source@),
{
    let mut env = minijinja::Environment::new();
    env.set_undefined_behavior(minijinja::UndefinedBehavior::Strict);
    let row = |u: &crate::context::UserRow| minijinja::Value::from_iter([("id", minijinja::Value::from(u.id)), ("name", minijinja::Value::from(u.name.as_str()))]);
    let bound = match ctx {
        RenderContext::Scalar { key, value } => minijinja::Value::from_iter([(key.as_str(), minijinja::Value::from(value.as_str()))]),
        RenderContext::UserList { key, users } => minijinja::Value::from_iter([(key.as_str(), minijinja::Value::from_iter(users.iter().map(row)))]),
    };
    env.render_str(source, bound).ok()
}

} // verus!
