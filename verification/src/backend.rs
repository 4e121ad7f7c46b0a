//! Device backends, by name.

use vstd::prelude::*;

use crate::error::Error;
use crate::http::{lowered, to_lower};
use crate::text::{cat3, chars_of, same_text, string_of};

verus! {

/// The device backends.
#[derive(Clone, Copy, PartialEq, Eq, Structural, Debug)]
pub enum Backend {
    /// The GPU, by Metal.
    Metal,
    /// The host's processor.
    Cpu,
}

/// A text as `{:?}` writes it: in quotes, with escapes.
pub uninterp spec fn debug_text(s: Seq<char>) -> Seq<char>;

/// A text in quotes and with escapes, by the `Debug` of `str`.
#[verifier::external_body]
fn debug_string(s: &str) -> (r: String)
    ensures
        r@ == debug_text(s@),
{
    format!("{s:?}")
}

/// The backend of a name, in either case of letters.
pub open spec fn backend_of(name: Seq<char>) -> Option<Backend> {
    let n = lowered(name);
    if n == "metal"@ || n == "gpu"@ {
        Some(Backend::Metal)
    } else if n == "cpu"@ {
        Some(Backend::Cpu)
    } else {
        None
    }
}

impl Backend {
    /// The backend of a name.
    pub fn from_name(name: &str) -> (r: Result<Backend, Error>)
        ensures
            match r {
                Ok(b) => backend_of(name@) == Some(b),
                Err(e) => backend_of(name@) is None && e.text() == "unknown device "@
                    + debug_text(lowered(name@)) + "; available: metal, cpu"@,
            },
    {
        let c = chars_of(name);
        let n = to_lower(&c);
        let n = string_of(&n);
        if same_text(&n, "metal") || same_text(&n, "gpu") {
            Ok(Backend::Metal)
        } else if same_text(&n, "cpu") {
            Ok(Backend::Cpu)
        } else {
            let d = debug_string(&n);
            Err(Error::Msg(cat3("unknown device ", &d, "; available: metal, cpu")))
        }
    }

    /// The backend of an explicit name; without one, the GPU if there is one.
    pub fn resolve(explicit: Option<&str>, metal: bool) -> (r: Result<Backend, Error>)
        ensures
            match explicit {
                Some(name) => match r {
                    Ok(b) => backend_of(name@) == Some(b),
                    Err(e) => backend_of(name@) is None && e.text() == "unknown device "@
                        + debug_text(lowered(name@)) + "; available: metal, cpu"@,
                },
                None => r == Ok::<Backend, Error>(
                    if metal {
                        Backend::Metal
                    } else {
                        Backend::Cpu
                    },
                ),
            },
    {
        match explicit {
            Some(name) => Backend::from_name(name),
            None => {
                if metal {
                    Ok(Backend::Metal)
                } else {
                    Ok(Backend::Cpu)
                }
            },
        }
    }

    /// The name of a backend.
    pub fn name(self) -> (s: &'static str)
        ensures
            s@ == backend_name(self),
    {
        match self {
            Backend::Metal => "metal",
            Backend::Cpu => "cpu",
        }
    }
}

pub open spec fn backend_name(b: Backend) -> Seq<char> {
    match b {
        Backend::Metal => "metal"@,
        Backend::Cpu => "cpu"@,
    }
}

/// A backend is found again by its name.
pub proof fn names_resolve(b: Backend)
    ensures
        backend_of(backend_name(b)) == Some(b),
{
    reveal_strlit("metal");
    reveal_strlit("cpu");
    reveal_strlit("gpu");
    assert(lowered("metal"@) =~= "metal"@);
    assert(lowered("cpu"@) =~= "cpu"@);
    assert("cpu"@[0] != "gpu"@[0]);
    assert("metal"@.len() != "cpu"@.len());
}

/// Errors that carry a message of one's own.
pub struct Exception;

impl Exception {
    /// An error with a message.
    pub fn custom(msg: String) -> (e: Error)
        ensures
            e.text() == msg@,
    {
        Error::Msg(msg)
    }
}

/// Compiled programs are chosen one by one: there is no library to set.
pub fn set_metallib_path(_path: &str) -> (r: Result<(), String>)
    ensures
        r is Ok,
{
    Ok(())
}

/// Errors are reported in results: there is nothing to install.
pub fn install_error_handler() {
}

} // verus!
