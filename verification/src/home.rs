//! Where the user's own files are.

use crate::native::{native_joined, NativePath};
use vstd::prelude::*;
use vstd::utf8::encode_utf8;

verus! {

/// `dirs::home_dir`, as the bytes of the path. What it returns is the machine's
/// and the environment's, so nothing is claimed of it.
#[verifier::external_body]
pub(crate) fn home_dir() -> (r: Option<NativePath>) {
    dirs::home_dir().map(|home| NativePath { bytes: home.into_os_string().into_encoded_bytes() })
}

/// There is no home directory to put a file under.
#[derive(Debug, Clone, Copy, PartialEq, Eq, Structural)]
pub struct NoHome;

impl NoHome {
    pub fn message(&self) -> (r: String)
        ensures
            r@ == "cannot determine the home directory"@,
    {
        "cannot determine the home directory".to_owned()
    }
}

/// Whether `r` is the path `rel` below `home`, or says that there is no home.
pub open spec fn is_below(
    home: Option<NativePath>,
    rel: Seq<char>,
    r: Result<NativePath, NoHome>,
) -> bool {
    match home {
        Some(dir) => r matches Ok(path) && path@ == native_joined(dir@, encode_utf8(rel)),
        None => r == Err::<NativePath, NoHome>(NoHome),
    }
}

/// The path `rel` below `home`.
pub fn path_below(home: &Option<NativePath>, rel: &str) -> (r: Result<NativePath, NoHome>)
    ensures
        is_below(*home, rel@, r),
{
    match home {
        Some(dir) => Ok(dir.join(rel)),
        None => Err(NoHome),
    }
}

} // verus!
