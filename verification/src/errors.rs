use vstd::prelude::*;

verus! {

/// The failures a request can surface: the three template-store failures, a
/// data-store failure raised by the caller that fetches rows, and a malformed
/// form submission.
#[derive(Clone, Copy, Debug, PartialEq, Eq, Structural)]
pub enum ServiceError {
    /// The requested template name has no source.
    TemplateNotFound,
    /// The template source failed to compile.
    TemplateSyntaxError,
    /// The render context is missing a variable the template needs.
    RenderError,
    /// The external store is unreachable or the query failed.
    DataAccessError,
    /// The form submission is malformed or missing its field.
    FormDecodeError,
}

impl ServiceError {
    /// Only a malformed form submission is the client's fault; every other
    /// failure is the server's.
    pub open spec fn spec_is_client_fault(self) -> bool {
        self == ServiceError::FormDecodeError
    }

    pub fn is_client_fault(&self) -> (r: bool)
        ensures
            r == self.spec_is_client_fault(),
    {
        matches!(self, ServiceError::FormDecodeError)
    }

    /// The status code that reports this failure: bad client input for a
    /// form-decoding failure, server fault for the rest.
    pub fn status_code(&self) -> (r: u16)
        ensures
            self.spec_is_client_fault() ==> r == 400,
            !self.spec_is_client_fault() ==> r == 500,
    {
        if self.is_client_fault() {
            400
        } else {
            500
        }
    }
}

} // verus!
