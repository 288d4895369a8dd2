//! Where the defaults come from: the invoking user's home directory, and
//! the directories below it.

use vstd::prelude::*;
use crate::text::{chars_of, push_all, string_of};

verus! {

/// Why the defaults could not be resolved.
#[derive(Debug, PartialEq, Eq, Clone, Copy, Structural)]
pub enum ResolverError {
    /// The platform reports no home directory for the invoking user.
    NoHomeDirectory,
}

/// `dirs::home_dir`: the home directory of the invoking user as the
/// platform reports it now, as text, or `None` where it reports none.
/// Nothing is claimed of the outcome: it depends on the environment.
#[verifier::external_body]
pub(crate) fn home_dir() -> (r: Option<String>) {
    dirs::home_dir().map(|p| p.to_string_lossy().into_owned())
}

/// `std::path::MAIN_SEPARATOR`: the character that parts the components of
/// a path on the platform this was built for. Nothing is claimed of it.
#[verifier::external_body]
pub(crate) fn main_separator() -> (r: char) {
    std::path::MAIN_SEPARATOR
}

/// The path of `child` below `base`: the two parted by one separator, unless
/// `base` is empty or ends in one already.
pub open spec fn join_path(base: Seq<char>, child: Seq<char>, sep: char) -> Seq<char> {
    if base.len() == 0 {
        child
    } else if base.last() == sep {
        base + child
    } else {
        base + seq![sep] + child
    }
}

/// The path of `child` below `base`.
pub fn join(base: &str, child: &str, sep: char) -> (r: String)
    ensures
        r@ == join_path(base@, child@, sep),
{
    let b = chars_of(base);
    let c = chars_of(child);
    let mut out: Vec<char> = Vec::new();
    push_all(&mut out, &b);
    assert(out@ =~= b@);
    if b.len() > 0 && b[b.len() - 1] != sep {
        out.push(sep);
    }
    push_all(&mut out, &c);
    assert(out@ =~= join_path(base@, child@, sep));
    string_of(&out)
}

/// The home directory, or the error that says there is none.
pub fn require_home(home: Option<String>) -> (r: Result<String, ResolverError>)
    ensures
        match home {
            Some(h) => r == Ok::<String, ResolverError>(h),
            None => r == Err::<String, ResolverError>(ResolverError::NoHomeDirectory),
        },
{
    match home {
        Some(h) => Ok(h),
        None => Err(ResolverError::NoHomeDirectory),
    }
}

} // verus!
