use vstd::prelude::*;

use crate::context::CtxView;
use crate::context::RenameSubmission;
use crate::context::RenderContext;
use crate::context::UserRow;
use crate::context::rows_view;
use crate::environment::Environment;
use crate::errors::ServiceError;

verus! {

/// The fixed fragment the click endpoint returns, byte for byte.
pub open spec fn click_text() -> Seq<char> {
    "<h2>You clicked the button</h2>"@
}

/// The fixed header value that tells the client a rename went through.
pub open spec fn rename_trigger_text() -> Seq<char> {
    "{\"namechanged\":{\"message\":\"Name successfully changed!\"}}"@
}

/// The context the index page renders with: `name` bound to `World`.
pub open spec fn index_ctx() -> CtxView {
    CtxView::Scalar { key: "name"@, value: "World"@ }
}

/// The context the user-list page renders with: `users` bound to the rows
/// the caller fetched, in fetch order.
pub open spec fn mypage_ctx(rows: Seq<(i32, Seq<char>)>) -> CtxView {
    CtxView::UserList { key: "users"@, users: rows }
}

/// The name of the index page's template.
pub fn index_name() -> (r: String)
    ensures
        r@ == "index"@,
{
    "index".to_owned()
}

/// The name of the user-list page's template.
pub fn mypage_name() -> (r: String)
    ensures
        r@ == "mypage"@,
{
    "mypage".to_owned()
}

/// Build the index page's render context.
pub fn index_context() -> (r: RenderContext)
    ensures
        r@ == index_ctx(),
{
    RenderContext::Scalar { key: "name".to_owned(), value: "World".to_owned() }
}

/// Build the user-list page's render context from fetched rows.
pub fn mypage_context(users: Vec<UserRow>) -> (r: RenderContext)
    ensures
        r@ == mypage_ctx(rows_view(users@)),
{
    RenderContext::UserList { key: "users".to_owned(), users }
}

/// The index page: render the `index` template with `name` bound to `World`.
/// A shared borrow suffices - the ProdCached read path - and the outcome is
/// whatever the store's cache determines.
pub fn index_page(env: &Environment) -> (r: Result<String, ServiceError>)
    requires
        env.wf(),
    ensures
        r matches Ok(s) <==> env.spec_render("index"@, index_ctx()) is Ok,
        r matches Ok(s) ==> s@ == env.spec_render("index"@, index_ctx())->Ok_0,
        r matches Err(e) ==> e == env.spec_render("index"@, index_ctx())->Err_0,
{
    env.render(&index_name(), &index_context())
}

/// The user-list page: render the `mypage` template with the rows the caller
/// fetched from the external store, one entry per row, in fetch order. The
/// caller surfaces its own fetch failure as `DataAccessError` instead of
/// calling this.
pub fn mypage_page(env: &Environment, users: Vec<UserRow>) -> (r: Result<String, ServiceError>)
    requires
        env.wf(),
    ensures
        r matches Ok(s) <==> env.spec_render("mypage"@, mypage_ctx(rows_view(users@))) is Ok,
        r matches Ok(s) ==> s@ == env.spec_render("mypage"@, mypage_ctx(rows_view(users@)))->Ok_0,
        r matches Err(e) ==> e == env.spec_render(
            "mypage"@,
            mypage_ctx(rows_view(users@)),
        )->Err_0,
{
    env.render(&mypage_name(), &mypage_context(users))
}

/// The click fragment: a fixed heading, no inputs, no failure modes, so
/// repeated calls return byte-identical fragments.
pub fn click_fragment() -> (r: String)
    ensures
        r@ == click_text(),
{
    "<h2>You clicked the button</h2>".to_owned()
}

/// The rename echo: the submitted name comes back verbatim as the body,
/// beside the fixed header value announcing the rename. Deliberately
/// stateless: nothing is persisted, no store is touched.
pub fn rename_response(submission: RenameSubmission) -> (r: (String, String))
    ensures
        r.0@ == submission.name@,
        r.1@ == rename_trigger_text(),
{
    (
        submission.name,
        "{\"namechanged\":{\"message\":\"Name successfully changed!\"}}".to_owned(),
    )
}

} // verus!
