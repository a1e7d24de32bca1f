//! The prompt shown before each line.

use vstd::prelude::*;

verus! {

/// The prompt for the working directory `current_dir`: the directory, then ` $ `.
pub fn prompt_text(current_dir: &str) -> (r: String)
    ensures
        r@ == current_dir@ + " $ "@,
{
    let mut r = current_dir.to_owned();
    r.append(" $ ");
    r
}

} // verus!
