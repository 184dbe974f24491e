use vstd::prelude::*;

verus! {

/// One row of the external `user_account` table, read-only for this core.
#[derive(Clone, Debug)]
pub struct UserRow {
    pub id: i32,
    pub name: String,
}

impl View for UserRow {
    type V = (i32, Seq<char>);

    open spec fn view(&self) -> (i32, Seq<char>) {
        (self.id, self.name@)
    }
}

/// The `name` a client posted to the rename endpoint; lives only for the
/// duration of one request and is never persisted.
#[derive(Clone, Debug)]
pub struct RenameSubmission {
    pub name: String,
}

/// The mathematical rows a row vector denotes.
pub open spec fn rows_view(users: Seq<UserRow>) -> Seq<(i32, Seq<char>)> {
    users.map_values(|u: UserRow| u@)
}

/// Mathematical form of a render context: what a single render call binds.
pub ghost enum CtxView {
    Scalar { key: Seq<char>, value: Seq<char> },
    UserList { key: Seq<char>, users: Seq<(i32, Seq<char>)> },
}

/// The immutable name-to-value binding passed into one render call: either a
/// single scalar (a greeting string) or an ordered sequence of user rows.
pub enum RenderContext {
    Scalar { key: String, value: String },
    UserList { key: String, users: Vec<UserRow> },
}

impl View for RenderContext {
    type V = CtxView;

    open spec fn view(&self) -> CtxView {
        match self {
            RenderContext::Scalar { key, value } => CtxView::Scalar {
                key: key@,
                value: value@,
            },
            RenderContext::UserList { key, users } => CtxView::UserList {
                key: key@,
                users: rows_view(users@),
            },
        }
    }
}

} // verus!
