//! Where a master finds what it needs when it starts.

use vstd::prelude::*;
use vstd::string::*;

verus! {

/// A name under a directory: the directory, a separator unless the
/// directory is empty or ends in one, and the name.
pub open spec fn under(directory: Seq<char>, name: Seq<char>) -> Seq<char> {
    if directory.len() == 0 || directory.last() == '/' {
        directory + name
    } else {
        directory + "/"@ + name
    }
}

/// The place of the registry's store for a master whose configuration is
/// under `etc` and whose data is under `var`: the name `db` under `var`,
/// wherever the configuration is.
pub fn start(_etc: &str, var: &str) -> (db: String)
    ensures
        db@ == under(var@, "db"@),
{
    let mut db = var.to_owned();
    let n = var.unicode_len();
    if n > 0 && var.get_char(n - 1) != '/' {
        db.append("/");
    }
    db.append("db");
    db
}

} // verus!
