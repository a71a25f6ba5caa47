//! A small compiler for a statically typed toy language that lowers source
//! text to AArch64 (Darwin) assembly.
//!
//! The pipeline has three stages, each a total function over its input:
//! lexing (`lexical`), parsing (`parsing`, with a validation pass in
//! `parse_validation`), and code generation (`codegen`, emitting the
//! structured lines of `assembly`). Every stage models failure as a value of
//! `errors::CompileError`; callers decide how to report.

#![verifier::loop_isolation(false)]

use vstd::prelude::*;

pub mod assembly;
pub mod codegen;
pub mod errors;
pub mod lexical;
pub mod parse_validation;
pub mod parsing;

use crate::assembly::{labels_distinct, line_text};
use crate::codegen::code_generator::{label_weight_funcs, spec_emit_program};
use crate::errors::CompileError;
use crate::lexical::spec_tokenize;
use crate::parse_validation::{has_main, spec_has_main};
use crate::parsing::{func_respects, spec_parse, view_funcs, NodeRoot};

verus! {

/// Runs the whole pipeline on source text: lexing, parsing, validation and
/// code generation, producing the assembly text, one string per line.
///
/// The contract chains the stages' specifications: the source must lex
/// (`spec_tokenize`) and parse (`spec_parse`), the parsed program must
/// declare `main`, and the output is exactly the rendering of the code
/// generator's specification on the parsed program, whose labels are all
/// distinct. Each stage's first failure is returned as that stage's
/// diagnostic.
pub fn compile(content: &str) -> (r: Result<Vec<String>, CompileError>)
    requires
        content@.len() < 0x7fff_ffff,
    ensures
        r is Ok ==> spec_tokenize(content@) is Ok,
        spec_tokenize(content@) matches Err(line) ==> r matches Err(
            CompileError::InvalidChar { line: l },
        ) && l as int == line,
        spec_tokenize(content@) matches Ok(tds) ==> {
            &&& (spec_parse(tds) matches Err(pe) ==> r matches Err(e) && e@ == pe)
            &&& (spec_parse(tds) matches Ok(sfs) ==> {
                &&& (!spec_has_main(sfs) ==> r matches Err(CompileError::MissingMain))
                &&& (spec_has_main(sfs) ==> (r matches Ok(v) ==> exists|root: NodeRoot|
                    {
                        &&& view_funcs(root.funcs@) == sfs
                        &&& #[trigger] spec_emit_program(root) matches Some(lines)
                        &&& has_main(root)
                        &&& forall|i: int|
                            0 <= i < root.funcs@.len() ==> func_respects(
                                #[trigger] root.funcs@[i],
                            )
                        &&& v@.len() == lines.len()
                        &&& forall|i: int|
                            0 <= i < lines.len() ==> (#[trigger] v@[i])@ == line_text(lines[i])
                        &&& labels_distinct(lines)
                    }))
                &&& (spec_has_main(sfs) ==> (r matches Err(e) ==> (e is AlreadyDefined
                    || e is UndefinedVariable || e is NotDeclared || e is ExpectedIdentifier
                    || e is TooManyLabels) && exists|
                    root: NodeRoot,
                |
                    view_funcs(root.funcs@) == sfs && !(#[trigger] spec_emit_program(root) is Some
                        && label_weight_funcs(root.funcs@) <= usize::MAX)))
            })
        },
{
    let tokens = match crate::lexical::tokenize(content) {
        Err(e) => {
            return Err(e);
        },
        Ok(ts) => ts,
    };
    let nodes = match crate::parsing::parse(tokens) {
        Err(e) => {
            return Err(e);
        },
        Ok(root) => root,
    };
    proof {
        crate::parse_validation::lemma_has_main_view(nodes);
    }
    match crate::parse_validation::parse_validation(&nodes) {
        Err(e) => {
            return Err(e);
        },
        Ok(()) => {},
    }
    match crate::codegen::generate(&nodes) {
        Err(e) => {
            proof {
                if spec_tokenize(content@) is Ok {
                    let tds = spec_tokenize(content@)->Ok_0;
                    let sfs = spec_parse(tds)->Ok_0;
                    assert(view_funcs(nodes.funcs@) == sfs);
                    assert(!(spec_emit_program(nodes) is Some && label_weight_funcs(nodes.funcs@)
                        <= usize::MAX));
                }
            }
            Err(e)
        },
        Ok(v) => {
            proof {
                if spec_tokenize(content@) is Ok {
                    let tds = spec_tokenize(content@)->Ok_0;
                    let sfs = spec_parse(tds)->Ok_0;
                    assert(view_funcs(nodes.funcs@) == sfs);
                    assert(spec_emit_program(nodes) is Some);
                    assert(has_main(nodes));
                }
            }
            Ok(v)
        },
    }
}

} // verus!
