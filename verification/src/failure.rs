use vstd::prelude::*;

verus! {

/// Why a command stops. Each kind has its own exit code.
#[derive(Debug)]
pub enum Failure {
    Usage(String),
    Auth(String),
    NotFound(String),
    Upstream(String),
    ConfirmationRequired(String),
    Other(String),
}

/// A failure with its message as characters.
pub enum FailureView {
    Usage(Seq<char>),
    Auth(Seq<char>),
    NotFound(Seq<char>),
    Upstream(Seq<char>),
    ConfirmationRequired(Seq<char>),
    Other(Seq<char>),
}

impl View for Failure {
    type V = FailureView;

    open spec fn view(&self) -> FailureView {
        match self {
            Failure::Usage(s) => FailureView::Usage(s@),
            Failure::Auth(s) => FailureView::Auth(s@),
            Failure::NotFound(s) => FailureView::NotFound(s@),
            Failure::Upstream(s) => FailureView::Upstream(s@),
            Failure::ConfirmationRequired(s) => FailureView::ConfirmationRequired(s@),
            Failure::Other(s) => FailureView::Other(s@),
        }
    }
}

/// An outcome with its value and its failure as models.
pub open spec fn outcome<T: View>(r: Result<T, Failure>) -> Result<T::V, FailureView> {
    match r {
        Ok(v) => Ok(v@),
        Err(e) => Err(e@),
    }
}

/// An outcome that carries nothing but success or failure.
pub open spec fn verdict(r: Result<(), Failure>) -> Result<(), FailureView> {
    match r {
        Ok(_) => Ok(()),
        Err(e) => Err(e@),
    }
}

impl FailureView {
    /// The exit code of a failure; success is 0.
    pub open spec fn code(self) -> int {
        match self {
            FailureView::Other(_) => 1,
            FailureView::Usage(_) => 2,
            FailureView::Auth(_) => 3,
            FailureView::NotFound(_) => 4,
            FailureView::Upstream(_) => 5,
            FailureView::ConfirmationRequired(_) => 6,
        }
    }

    /// The word a machine-readable error carries.
    pub open spec fn word(self) -> Seq<char> {
        match self {
            FailureView::Other(_) => "error"@,
            FailureView::Usage(_) => "usage"@,
            FailureView::Auth(_) => "auth"@,
            FailureView::NotFound(_) => "not_found"@,
            FailureView::Upstream(_) => "upstream"@,
            FailureView::ConfirmationRequired(_) => "confirmation_required"@,
        }
    }

    pub open spec fn text(self) -> Seq<char> {
        match self {
            FailureView::Other(s) => s,
            FailureView::Usage(s) => s,
            FailureView::Auth(s) => s,
            FailureView::NotFound(s) => s,
            FailureView::Upstream(s) => s,
            FailureView::ConfirmationRequired(s) => s,
        }
    }
}

impl Failure {
    pub fn exit_code(&self) -> (r: i32)
        ensures
            r == self@.code(),
    {
        match self {
            Failure::Other(_) => 1,
            Failure::Usage(_) => 2,
            Failure::Auth(_) => 3,
            Failure::NotFound(_) => 4,
            Failure::Upstream(_) => 5,
            Failure::ConfirmationRequired(_) => 6,
        }
    }

    pub fn label(&self) -> (r: &'static str)
        ensures
            r@ == self@.word(),
    {
        match self {
            Failure::Other(_) => "error",
            Failure::Usage(_) => "usage",
            Failure::Auth(_) => "auth",
            Failure::NotFound(_) => "not_found",
            Failure::Upstream(_) => "upstream",
            Failure::ConfirmationRequired(_) => "confirmation_required",
        }
    }

    pub fn message(&self) -> (r: &str)
        ensures
            r@ == self@.text(),
    {
        match self {
            Failure::Other(s) => s.as_str(),
            Failure::Usage(s) => s.as_str(),
            Failure::Auth(s) => s.as_str(),
            Failure::NotFound(s) => s.as_str(),
            Failure::Upstream(s) => s.as_str(),
            Failure::ConfirmationRequired(s) => s.as_str(),
        }
    }
}

} // verus!
