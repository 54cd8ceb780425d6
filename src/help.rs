//! Help texts of the command line.
use vstd::prelude::*;

verus! {

/// How a vault or partition (named by `kind`) can be selected, after
/// `prefix`.
pub fn mk_help(kind: &str, prefix: &str) -> (r: String)
    ensures
        r@ == prefix@ + "A "@ + kind@
            + " can be selected by the directory used to stored its resources, by its name (which may be ambiguous), or by the index in the vault description file."@,
{
    let mut r = String::from_str(prefix);
    r.append("A ");
    r.append(kind);
    r.append(
        " can be selected by the directory used to stored its resources, by its name (which may be ambiguous), or by the index in the vault description file.",
    );
    r
}

} // verus!
