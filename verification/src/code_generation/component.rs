use vstd::prelude::*;
use crate::ast::Component;
use crate::code_generation::content::contents_to_ops;
use crate::code_generation::{CompileError, contents_lowerable};
use crate::env::Env;
use crate::ops::{Op, ops_sem};
use crate::semantics::render_contents;

verus! {

impl Component {
    /// Lower a whole template to its operation sequence: each top-level
    /// node's operations in source order.
    pub fn to_ops(&self) -> (r: Result<Vec<Op>, CompileError>)
        ensures
            match r {
                Ok(ops) => contents_lowerable(self.children@) && forall|env: Env|
                    ops_sem(ops@, env) == render_contents(self.children@, env),
                Err(e) => !contents_lowerable(self.children@) && e.message@
                    == "Empty attribute"@,
            },
            crate::ast::contents_are_static(self.children@) ==> (r matches Ok(ops) && ops@.len()
                == self.children@.len() && (forall|k: int|
                0 <= k < ops@.len() ==> (#[trigger] ops@[k]) is Lit)),
    {
        proof {
            assert(self.children@.skip(0) =~= self.children@);
        }
        contents_to_ops(&self.children, 0)
    }
}

} // verus!
