//! The code generator: walks the AST and emits AArch64 assembly as
//! structured lines, keeping a per-function scope stack and a global label
//! counter. `generate` renders the structured output to text lines.

use vstd::prelude::*;
use crate::assembly::{labels_distinct, line_text, render_lines, view_lines};
use crate::codegen::code_generator::{generate_code, label_weight_funcs, spec_emit_program};
use crate::errors::CompileError;
use crate::parsing::NodeRoot;

pub mod code_gen_expr;
pub mod code_generator;
pub mod code_gen_stack;
pub mod code_gen_structs;

verus! {

/// Compiles a program to its assembly text, one string per line: exactly
/// the rendering of the lines `spec_emit_program` describes.
pub fn generate(node_root: &NodeRoot) -> (r: Result<Vec<String>, CompileError>)
    ensures
        r is Ok <==> (spec_emit_program(*node_root) is Some && label_weight_funcs(
            node_root.funcs@,
        ) <= usize::MAX),
        r matches Ok(v) ==> (spec_emit_program(*node_root) matches Some(lines) && v@.len()
            == lines.len() && (forall|i: int|
            0 <= i < lines.len() ==> (#[trigger] v@[i])@ == line_text(lines[i]))
            && labels_distinct(lines)),
        r matches Err(e) ==> (e is AlreadyDefined || e is UndefinedVariable || e is NotDeclared
            || e is ExpectedIdentifier || e is TooManyLabels),
{
    match generate_code(node_root) {
        Err(e) => Err(e),
        Ok(buffer) => {
            let rendered = render_lines(&buffer);
            proof {
                assert(forall|i: int|
                    0 <= i < buffer@.len() ==> view_lines(buffer@)[i] == buffer@[i]@);
            }
            Ok(rendered)
        },
    }
}

} // verus!
