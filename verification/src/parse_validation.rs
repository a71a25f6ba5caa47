//! The post-parse validation pass: a program must declare a function named
//! `main`.

use vstd::prelude::*;
use crate::errors::CompileError;
use crate::parsing::{lemma_view_funcs_index, lemma_view_funcs_len, view_funcs, NodeRoot, SpecFunc};

verus! {

/// Whether some function of the program is named `main`.
pub open spec fn has_main(root: NodeRoot) -> bool {
    exists|i: int| 0 <= i < root.funcs@.len() && (#[trigger] root.funcs@[i]).f_name@ == "main"@
}

/// The same question, asked of a program's mathematical image.
pub open spec fn spec_has_main(fs: Seq<SpecFunc>) -> bool {
    exists|i: int| 0 <= i < fs.len() && (#[trigger] fs[i]).name == "main"@
}

/// A program declares `main` exactly when its image does.
pub proof fn lemma_has_main_view(root: NodeRoot)
    ensures
        has_main(root) <==> spec_has_main(view_funcs(root.funcs@)),
{
    if has_main(root) {
        let i = choose|i: int|
            0 <= i < root.funcs@.len() && (#[trigger] root.funcs@[i]).f_name@ == "main"@;
        lemma_view_funcs_index(root.funcs@, i);
        assert(view_funcs(root.funcs@)[i].name == "main"@);
    }
    if spec_has_main(view_funcs(root.funcs@)) {
        lemma_view_funcs_len(root.funcs@);
        let i = choose|i: int|
            0 <= i < view_funcs(root.funcs@).len() && (#[trigger] view_funcs(root.funcs@)[i]).name
                == "main"@;
        lemma_view_funcs_index(root.funcs@, i);
        assert(root.funcs@[i].f_name@ == "main"@);
    }
}

/// Checks that the program declares a `main` function; that is the one
/// semantic requirement on an otherwise well-parsed program.
pub fn parse_validation(root: &NodeRoot) -> (r: Result<(), CompileError>)
    ensures
        r is Ok <==> has_main(*root),
        r is Err ==> r matches Err(CompileError::MissingMain),
{
    let main_name: String = String::from_str("main");
    let n = root.funcs.len();
    let mut i: usize = 0;
    while i < n
        invariant
            i <= n,
            n == root.funcs@.len(),
            main_name@ == "main"@,
            forall|k: int| 0 <= k < i ==> (#[trigger] root.funcs@[k]).f_name@ != "main"@,
        decreases n - i,
    {
        if root.funcs[i].f_name == main_name {
            return Ok(());
        }
        i += 1;
    }
    Err(CompileError::MissingMain)
}

} // verus!
