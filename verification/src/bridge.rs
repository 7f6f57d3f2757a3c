//! The boundary to the outside parsing, renaming and serializing machinery:
//! the parser turns source text into a tree, the rename pass rewrites every
//! identifier matching a map entry, a normalization pass repairs syntactic
//! artifacts, and the code generator turns the tree back into text.
use vstd::prelude::*;
use rustc_hash::FxHashMap;
use swc_atoms::Atom;
use swc_common::{BytePos, SyntaxContext, GLOBALS};
use swc_ecma_ast::Module;
use swc_ecma_visit::VisitMutWith;
use crate::rename::{make_rename_map, pair_views, rename_map_ok};
use crate::tracker::names_of;

verus! {

#[verifier::external_type_specification]
#[verifier::external_body]
pub struct ExModule(Module);

/// Whether a text is a syntactically valid module of the source language.
pub uninterp spec fn parses(code: Seq<char>) -> bool;

/// Relies on swc_ecma_parser::Parser::parse_module: Ok exactly when the text
/// is one syntactically valid module, and which texts are valid depends on
/// the text alone. A failure carries the parser's own description of the
/// syntax error, position included.
#[verifier::external_body]
fn parse_module_text(code: &str) -> (r: Result<Module, String>)
    ensures
        r is Ok <==> parses(code@),
{
    let end = BytePos(code.len() as u32);
    let input = swc_ecma_parser::StringInput::new(code, BytePos(0), end);
    let lexer = swc_ecma_parser::lexer::Lexer::new(
        swc_ecma_parser::Syntax::Es(Default::default()),
        Default::default(),
        input,
        None,
    );
    let mut parser = swc_ecma_parser::Parser::new_from(lexer);
    match parser.parse_module() {
        Ok(module) => Ok(module),
        Err(diagnostic) => Err(format!("{:?}", diagnostic)),
    }
}

/// Relies on swc_ecma_transforms_base::rename::rename: every identifier
/// whose name and syntax context match a map entry, binding or reference, is
/// rewritten to the entry's generated name; identifiers matching no entry
/// are left unchanged.
#[verifier::external_body]
fn apply_rename_map(module: Module, pairs: &Vec<(String, String)>) -> (r: Module) {
    let mut map: FxHashMap<swc_ecma_ast::Id, Atom> = FxHashMap::default();
    let mut i: usize = 0;
    while i < pairs.len() {
        let key = (Atom::from(pairs[i].0.as_str()), SyntaxContext::empty());
        map.insert(key, Atom::from(pairs[i].1.as_str()));
        i += 1;
    }
    let mut m = module;
    GLOBALS.set(&Default::default(), || {
        m.visit_mut_with(&mut swc_ecma_transforms_base::rename::rename(&map));
    });
    m
}

/// Relies on swc_ecma_transforms::fixer and swc_ecma_codegen::to_code: the
/// fixer repairs parenthesization and statement termination after a
/// rewrite, and the code generator serializes the tree to source text.
/// Whether that text is syntactically valid is not taken on trust: the
/// caller checks it by parsing the text again.
#[verifier::external_body]
fn normalize_and_emit(module: Module) -> (r: String) {
    let mut m = module;
    GLOBALS.set(&Default::default(), || {
        m.visit_mut_with(&mut swc_ecma_transforms::fixer(None));
    });
    swc_ecma_codegen::to_code(&m)
}

/// Parses one source text: a tree exactly for syntactically valid input, and
/// the parser's diagnostic for a syntax error.
pub fn parse_program(code: &str) -> (r: Result<Module, String>)
    ensures
        r is Ok <==> parses(code@),
{
    parse_module_text(code)
}

/// The whole rename transform: builds the rename map for the declared names,
/// rewrites the tree with it, repairs the result, serializes it, and checks
/// the serialization by parsing the emitted text again. On success, the map
/// that was applied together with the rewritten source: the map is complete
/// over the declared names, source-unique, target-injective, and its
/// generated names collide with no declared or avoided name, and the
/// rewritten source re-parses without a syntax error. A text the parser
/// rejects is a serialization failure, returned as the parser's diagnostic.
pub fn obfuscate_module(module: Module, declared: &Vec<String>, avoid: &Vec<String>) -> (r:
    Result<(Vec<(String, String)>, String), String>)
    ensures
        r matches Ok(out) ==> rename_map_ok(pair_views(out.0@), names_of(declared@), names_of(avoid@))
            && parses(out.1@),
{
    let pairs = make_rename_map(declared, avoid);
    let renamed = apply_rename_map(module, &pairs);
    let text = normalize_and_emit(renamed);
    match parse_module_text(text.as_str()) {
        Ok(_) => Ok((pairs, text)),
        Err(diagnostic) => Err(diagnostic),
    }
}

} // verus!
