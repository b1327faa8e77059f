//! The lock that serialises appends to `log.jsonl` across processes.

use vstd::prelude::*;
use crate::paths::{join, join_spec};

verus! {

/// `<root>/.agentrec/log.lock`.
pub fn lock_path(root: &str) -> (p: String)
    ensures
        p@ == join_spec(join_spec(root@, ".agentrec"@), "log.lock"@),
{
    let dir = join(root, ".agentrec");
    join(dir.as_str(), "log.lock")
}

} // verus!
