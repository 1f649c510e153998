//! Error types of the service and the text of an error chain.
use vstd::prelude::*;
use vstd::string::StringExecFns;

verus! {

/// Why a login was refused.
#[derive(PartialEq, Eq, Debug)]
pub enum AuthError {
    /// Unknown user or wrong password.
    InvalidCredentials(String),
    /// The check itself could not be made.
    UnexpectedError(String),
}

/// Why a subscription request failed.
#[derive(PartialEq, Eq, Debug)]
pub enum SubscribeError {
    /// The form was refused; the text says why.
    ValidationError(String),
    /// Storing or mailing failed.
    UnexpectedError(String),
}

pub const BAD_REQUEST: u16 = 400;

pub const INTERNAL_SERVER_ERROR: u16 = 500;

impl SubscribeError {
    /// A refused form is the client's fault; anything else the server's.
    pub fn status_code(&self) -> (r: u16)
        ensures
            self is ValidationError ==> r == BAD_REQUEST,
            self is UnexpectedError ==> r == INTERNAL_SERVER_ERROR,
    {
        match self {
            SubscribeError::ValidationError(_) => BAD_REQUEST,
            SubscribeError::UnexpectedError(_) => INTERNAL_SERVER_ERROR,
        }
    }
}

/// The report lines for the causes of an error, outermost first.
pub open spec fn cause_lines(causes: Seq<Seq<char>>) -> Seq<char>
    decreases causes.len(),
{
    if causes.len() == 0 {
        Seq::empty()
    } else {
        cause_lines(causes.drop_last()) + "Caused by:\n\t"@ + causes.last() + "\n"@
    }
}

/// An error's message, a blank line, then one "Caused by" entry per cause.
pub open spec fn error_chain_text(message: Seq<char>, causes: Seq<Seq<char>>) -> Seq<char> {
    message + "\n\n"@ + cause_lines(causes)
}

pub open spec fn string_views(v: Seq<String>) -> Seq<Seq<char>> {
    v.map_values(|s: String| s@)
}

/// Writes an error and its chain of causes for a log.
pub fn error_chain_fmt(message: &str, causes: &Vec<String>) -> (r: String)
    ensures
        r@ == error_chain_text(message@, string_views(causes@)),
{
    let mut out = String::from_str(message);
    out.append("\n\n");
    let ghost cs = string_views(causes@);
    let mut i: usize = 0;
    while i < causes.len()
        invariant
            i <= causes@.len(),
            cs == string_views(causes@),
            out@ == message@ + "\n\n"@ + cause_lines(cs.subrange(0, i as int)),
        decreases causes.len() - i,
    {
        out.append("Caused by:\n\t");
        out.append(causes[i].as_str());
        out.append("\n");
        proof {
            let sub = cs.subrange(0, i + 1);
            assert(sub.drop_last() =~= cs.subrange(0, i as int));
            assert(sub.last() == causes@[i as int]@);
            assert(out@ =~= message@ + "\n\n"@ + cause_lines(sub));
        }
        i = i + 1;
    }
    proof {
        assert(cs.subrange(0, cs.len() as int) =~= cs);
    }
    out
}

} // verus!
