//! The deployment environment.
use vstd::prelude::*;
use vstd::string::StringExecFns;

verus! {

/// The deployment the service runs in; it picks the settings file.
#[derive(PartialEq, Eq, Structural, Debug, Clone, Copy)]
pub enum Environment {
    Local,
    Production,
}

/// What `str::to_lowercase` makes of a text.
pub uninterp spec fn lowercase_of(s: Seq<char>) -> Seq<char>;

/// Relies on str::to_lowercase: Unicode lower-casing, a function of the text
/// alone.
#[verifier::external_body]
fn to_lowercase(s: &str) -> (r: String)
    ensures
        r@ == lowercase_of(s@),
{
    s.to_lowercase()
}

pub open spec fn environment_error(lowered: Seq<char>) -> Seq<char> {
    lowered + " is not a supported Environment. Use `local` or `production`."@
}

impl Environment {
    pub fn as_str(&self) -> (r: &'static str)
        ensures
            *self == Environment::Local ==> r@ == "local"@,
            *self == Environment::Production ==> r@ == "production"@,
    {
        match self {
            Environment::Local => "local",
            Environment::Production => "production",
        }
    }

    /// Reads an already lower-cased name: `local` or `production`.
    pub fn from_lowercase(lowered: String) -> (r: Result<Environment, String>)
        ensures
            lowered@ == "local"@ ==> r == Ok::<Environment, String>(Environment::Local),
            lowered@ == "production"@ ==> r == Ok::<Environment, String>(Environment::Production),
            lowered@ != "local"@ && lowered@ != "production"@ ==> r is Err && r->Err_0@
                == environment_error(lowered@),
    {
        proof {
            reveal_strlit("local");
            reveal_strlit("production");
            assert("local"@.len() == 5);
            assert("production"@.len() == 10);
        }
        let local = String::from_str("local");
        let production = String::from_str("production");
        if lowered == local {
            Ok(Environment::Local)
        } else if lowered == production {
            Ok(Environment::Production)
        } else {
            Err(lowered.concat(" is not a supported Environment. Use `local` or `production`."))
        }
    }

    /// Reads an environment name in any case.
    pub fn try_from(value: String) -> (r: Result<Environment, String>)
        ensures
            lowercase_of(value@) == "local"@ ==> r == Ok::<Environment, String>(Environment::Local),
            lowercase_of(value@) == "production"@ ==> r == Ok::<Environment, String>(
                Environment::Production,
            ),
            lowercase_of(value@) != "local"@ && lowercase_of(value@) != "production"@ ==> r is Err
                && r->Err_0@ == environment_error(lowercase_of(value@)),
    {
        Environment::from_lowercase(to_lowercase(value.as_str()))
    }
}

} // verus!
