//! The one error type of the leash.

use vstd::prelude::*;
use vstd::string::*;

verus! {

/// Why a tool call did not produce a result.
#[derive(Debug, Clone, PartialEq, Eq)]
pub enum ToolError {
    /// The leash refused: the requested authority was not granted.
    Denied {
        /// What was refused, in words fit for an operator.
        reason: String,
    },
    /// No tool is registered under this name.
    NotFound {
        /// The name that was asked for.
        name: String,
    },
    /// The call budget of the grant is exhausted.
    Budget,
    /// The grant is not valid for the generation of a gate.
    Generation,
    /// The tool ran and failed; the text describes the failure.
    Exec(String),
    /// Any other failure; the text describes it.
    Other(String),
}

/// What a fallible operation of the leash returns.
pub type ToolResult<T> = Result<T, ToolError>;

impl ToolError {
    /// The error is a refusal with exactly this reason.
    pub open spec fn is_denial(self, reason: Seq<char>) -> bool {
        self matches ToolError::Denied { reason: text } && text@ == reason
    }

    /// A refusal with a reason.
    pub fn denied(reason: String) -> (r: Self)
        ensures
            r.is_denial(reason@),
    {
        ToolError::Denied { reason }
    }

    /// No tool of this name.
    pub fn not_found(name: String) -> (r: Self)
        ensures
            r == (ToolError::NotFound { name }),
    {
        ToolError::NotFound { name }
    }

    /// The text that [`ToolError::message`] gives.
    pub open spec fn message_text(self) -> Seq<char> {
        match self {
            ToolError::Denied { reason } => "denied: "@ + reason@,
            ToolError::NotFound { name } => "no such tool: "@ + name@,
            ToolError::Budget => "denied: call budget (max_calls) exhausted"@,
            ToolError::Generation => "denied: grant is not valid for the "@ + "gate's generation"@,
            ToolError::Exec(text) => "tool execution failed: "@ + text@,
            ToolError::Other(text) => text@,
        }
    }

    /// The stable text of the error.
    pub fn message(&self) -> (r: String)
        ensures
            r@ == self.message_text(),
    {
        match self {
            ToolError::Denied { reason } => "denied: ".to_owned().concat(reason.as_str()),
            ToolError::NotFound { name } => "no such tool: ".to_owned().concat(name.as_str()),
            ToolError::Budget => "denied: call budget (max_calls) exhausted".to_owned(),
            ToolError::Generation => {
                "denied: grant is not valid for the ".to_owned().concat("gate's generation")
            },
            ToolError::Exec(text) => "tool execution failed: ".to_owned().concat(text.as_str()),
            ToolError::Other(text) => text.clone(),
        }
    }

    /// Whether the error is a refusal by the leash.
    pub fn is_denied(&self) -> (r: bool)
        ensures
            r == (self is Denied),
    {
        match self {
            ToolError::Denied { .. } => true,
            _ => false,
        }
    }
}

/// The text of an error ends with what it is about. Every refusal, the spent
/// budget and the stale grant among them, begins in the same way, and no failed
/// execution and no unknown tool does.
pub proof fn law_a_message_says_what_the_error_is_about(
    error: &ToolError,
    r: String,
    denied: bool,
    reason: String,
    refusal: ToolError,
    name: String,
    missing: ToolError,
)
    requires
        call_ensures(ToolError::message, (error,), r),
        call_ensures(ToolError::is_denied, (error,), denied),
        call_ensures(ToolError::denied, (reason,), refusal),
        call_ensures(ToolError::not_found, (name,), missing),
    ensures
        denied <==> error is Denied,
        refusal is Denied && refusal->reason@ == reason@,
        missing is NotFound && missing->name@ == name@,
        error is Denied ==> exists|front: Seq<char>|
            r@ == #[trigger] (front + error->reason@) && front.len() == 8,
        error is NotFound ==> exists|front: Seq<char>| r@ == #[trigger] (front + error->name@),
        error is Exec ==> exists|front: Seq<char>| r@ == #[trigger] (front + error->Exec_0@),
        error is Other ==> r@ == error->Other_0@,
        error is Denied || error is Budget || error is Generation ==> r@.len() >= 8
            && r@.subrange(0, 8) == "denied: "@,
        error is NotFound || error is Exec ==> r@.len() >= 8 && r@.subrange(0, 8) != "denied: "@,
{
    reveal_strlit("denied: ");
    reveal_strlit("no such tool: ");
    reveal_strlit("tool execution failed: ");
    reveal_strlit("denied: call budget (max_calls) exhausted");
    reveal_strlit("denied: grant is not valid for the ");
    match error {
        ToolError::Denied { reason } => {
            assert(r@ == "denied: "@ + reason@);
            assert(r@.subrange(0, 8) =~= "denied: "@);
        },
        ToolError::NotFound { name } => {
            assert(r@ == "no such tool: "@ + name@);
            assert(r@.subrange(0, 8)[0] == 'n');
        },
        ToolError::Budget => {
            assert(r@.subrange(0, 8) =~= "denied: "@);
        },
        ToolError::Generation => {
            assert(r@.subrange(0, 8) =~= "denied: "@);
        },
        ToolError::Exec(text) => {
            assert(r@ == "tool execution failed: "@ + text@);
            assert(r@.subrange(0, 8)[0] == 't');
        },
        ToolError::Other(_) => {},
    }
}

} // verus!
