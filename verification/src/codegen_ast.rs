//! Generation of JavaScript syntax trees from reactive functions.
//!
//! A reactive function is walked over once; what comes out is a list of statements with the guards
//! that memoize its scopes, and what the module around the function has to provide for them.

pub mod assemble;
pub mod computed;
pub mod deps;
pub mod fuse;
pub mod generate;
pub mod js;
pub mod laws;
pub mod loops;
pub mod make;
pub mod meaning;
pub mod memo;
pub mod mention;
pub mod nested;
pub mod outside;
pub mod pieces;
pub mod scan;
pub mod shape;
pub mod state;
pub mod stores;
pub mod ternary;
pub mod values;
pub mod walk;

use vstd::prelude::*;

use crate::codegen_ast::generate::codegen_block;
use crate::codegen_ast::js::{stmt_models, St, Stmt, Text};
use crate::codegen_ast::pieces::{
    lemma_prepared, prepare, prepared, strip_void_return, without_void_return,
};
use crate::codegen_ast::state::{
    start, with_slot, CodegenContext, Cx, PreservedInitializer, Settings, WalkSettings,
};
use crate::codegen_ast::walk::{block_code, function_name};
use crate::collections::{choose_free_name, free_name, IdSet, IdTexts, NameSet};
use crate::hir::ReactiveFunction;
use crate::text::{cat3, clone_texts, decimal, decimal_text, owned, texts};

verus! {

/// The name of the variable that the slots of a fast refresh are counted with.
pub const REFRESH_INDEX_NAME: &'static str = "$i";

/// The slot that holds the hash of the source, so that a changed source resets the cache.
#[derive(Debug, Clone, PartialEq, Eq)]
pub struct FastRefreshPrologue {
    pub cache_index: u32,
    pub hash: String,
    pub index_binding_name: String,
}

/// The declaration of the cache in front of the body of a function.
#[derive(Debug, Clone, PartialEq, Eq)]
pub struct CachePrologue {
    pub binding_name: String,
    pub size: u32,
    pub fast_refresh: Option<FastRefreshPrologue>,
}

/// A violated expectation of code generation.
#[derive(Debug, Clone, PartialEq, Eq)]
pub struct CompilerError {
    pub reason: String,
    pub description: Option<String>,
}

pub struct CodegenOptions {
    pub enable_change_variable_codegen: bool,
    pub enable_emit_hook_guards: bool,
    pub enable_change_detection_for_debugging: bool,
    pub enable_reset_cache_on_source_file_changes: bool,
    pub fast_refresh_source_hash: Option<String>,
    pub disable_memoization_features: bool,
    pub disable_memoization_for_debugging: bool,
    pub fbt_operands: IdSet,
    /// The name of the cache, where it cannot be the first free one of `$`, `$0`, `$1`, ...
    pub cache_binding_name: Option<String>,
    /// All names that the source uses.
    pub unique_identifiers: NameSet,
    /// The names of declarations whose identifiers have none.
    pub param_name_overrides: IdTexts,
    /// Whether functions without names get the names that are suggested for them.
    pub enable_name_anonymous_functions: bool,
    /// The values that `let` declarations start with although the assignments of them were removed.
    pub preserved_initializers: Vec<PreservedInitializer>,
}

pub struct CodegenFunctionResult {
    pub body: Vec<Stmt>,
    pub cache_size: u32,
    pub needs_cache_import: bool,
    pub param_names: Vec<String>,
    pub needs_hook_guards: bool,
    pub needs_function_hook_guard_wrapper: bool,
    pub needs_structural_check_import: bool,
    pub cache_prologue: Option<CachePrologue>,
    pub error: Option<CompilerError>,
}

/// What a result holds besides the body.
#[derive(Clone)]
pub struct CodegenMetadata {
    pub cache_size: u32,
    pub needs_cache_import: bool,
    pub param_names: Vec<String>,
    pub needs_hook_guards: bool,
    pub needs_function_hook_guard_wrapper: bool,
    pub needs_structural_check_import: bool,
    pub cache_prologue: Option<CachePrologue>,
    pub error: Option<CompilerError>,
}

// ---------------------------------------------------------------------------
// Models
// ---------------------------------------------------------------------------

pub struct RefreshModel {
    pub cache_index: u32,
    pub hash: Text,
    pub index_binding_name: Text,
}

pub struct PrologueModel {
    pub binding_name: Text,
    pub size: u32,
    pub fast_refresh: Option<RefreshModel>,
}

pub struct ErrorModel {
    pub reason: Text,
    pub description: Option<Text>,
}

pub open spec fn refresh_model(r: Option<FastRefreshPrologue>) -> Option<RefreshModel> {
    match r {
        Some(r) => Some(
            RefreshModel {
                cache_index: r.cache_index,
                hash: r.hash@,
                index_binding_name: r.index_binding_name@,
            },
        ),
        None => None,
    }
}

pub open spec fn prologue_model(p: Option<CachePrologue>) -> Option<PrologueModel> {
    match p {
        Some(p) => Some(
            PrologueModel {
                binding_name: p.binding_name@,
                size: p.size,
                fast_refresh: refresh_model(p.fast_refresh),
            },
        ),
        None => None,
    }
}

pub open spec fn error_model(e: Option<CompilerError>) -> Option<ErrorModel> {
    match e {
        Some(e) => Some(
            ErrorModel {
                reason: e.reason@,
                description: match e.description {
                    Some(d) => Some(d@),
                    None => None,
                },
            },
        ),
        None => None,
    }
}

/// The name of the cache: the one that is asked for, else the first free one of `$`, `$0`, `$1`, ...
pub open spec fn cache_name(options: CodegenOptions) -> Text {
    match options.cache_binding_name {
        Some(s) => s@,
        None => {
            free_name("$"@, options.unique_identifiers@)
        },
    }
}

/// The settings of the walk over a function.
pub open spec fn walk_settings(func: ReactiveFunction, options: CodegenOptions) -> Settings {
    Settings {
        change_variables: options.enable_change_variable_codegen,
        hook_guards: options.enable_emit_hook_guards,
        change_detection: options.enable_change_detection_for_debugging,
        no_features: options.disable_memoization_features,
        always_recompute: options.disable_memoization_for_debugging,
        name_functions: options.enable_name_anonymous_functions,
        quiet: false,
        fbt: options.fbt_operands@,
        initializers: options.preserved_initializers@,
        cache: cache_name(options),
        function: function_name(func),
    }
}

/// Whether a slot is kept for the hash of the source.
pub open spec fn is_refreshed(options: CodegenOptions) -> bool {
    options.enable_reset_cache_on_source_file_changes && options.fast_refresh_source_hash is Some
}

/// The state behind the parameters of a function, and their names.
pub open spec fn entered(func: ReactiveFunction, options: CodegenOptions) -> (Cx, Seq<Text>) {
    prepared(
        start(
            walk_settings(func, options),
            options.unique_identifiers@,
            options.param_name_overrides@,
        ),
        func,
    )
}

/// The state behind the body of a function, and its statements.
pub open spec fn function_code(func: ReactiveFunction, options: CodegenOptions) -> (Cx, Seq<St>) {
    let cx = entered(func, options).0;
    let out = block_code(
        if is_refreshed(options) {
            with_slot(cx)
        } else {
            cx
        },
        func.body@,
    );
    (out.0, without_void_return(out.1))
}

/// The declaration of the cache: there is one where slots are used and memoization is not switched
/// off.
pub open spec fn prologue(cx: Cx, options: CodegenOptions) -> Option<PrologueModel> {
    if cx.next_slot > 0 && !options.disable_memoization_features {
        Some(
            PrologueModel {
                binding_name: cache_name(options),
                size: cx.next_slot,
                fast_refresh: if is_refreshed(options) {
                    Some(
                        RefreshModel {
                            cache_index: 0,
                            hash: (options.fast_refresh_source_hash->0)@,
                            index_binding_name: REFRESH_INDEX_NAME@,
                        },
                    )
                } else {
                    None
                },
            },
        )
    } else {
        None
    }
}

/// The error for an identifier without a name.
pub open spec fn unnamed_error(id: u32) -> ErrorModel {
    ErrorModel {
        reason:
            "Expected temporaries to be promoted to named identifiers in an earlier pass"@,
        description: Some("identifier "@ + decimal(id as nat) + " is unnamed"@),
    }
}

/// The error that a walk ends with: an identifier without a name that had to be resolved, else one
/// that had to be written.
pub open spec fn final_error(cx: Cx) -> Option<ErrorModel> {
    match cx.error {
        Some(id) => Some(unnamed_error(id)),
        None => match cx.unnamed {
            Some(id) => Some(unnamed_error(id)),
            None => None,
        },
    }
}

// ---------------------------------------------------------------------------
// Code generation
// ---------------------------------------------------------------------------

fn copy_refresh(r: &Option<FastRefreshPrologue>) -> (c: Option<FastRefreshPrologue>)
    ensures
        refresh_model(c) == refresh_model(*r),
{
    match r {
        Some(r) => Some(
            FastRefreshPrologue {
                cache_index: r.cache_index,
                hash: owned(r.hash.as_str()),
                index_binding_name: owned(r.index_binding_name.as_str()),
            },
        ),
        None => None,
    }
}

fn copy_prologue(p: &Option<CachePrologue>) -> (c: Option<CachePrologue>)
    ensures
        prologue_model(c) == prologue_model(*p),
{
    match p {
        Some(p) => Some(
            CachePrologue {
                binding_name: owned(p.binding_name.as_str()),
                size: p.size,
                fast_refresh: copy_refresh(&p.fast_refresh),
            },
        ),
        None => None,
    }
}

fn copy_error(e: &Option<CompilerError>) -> (c: Option<CompilerError>)
    ensures
        error_model(c) == error_model(*e),
{
    match e {
        Some(e) => {
            let description = match &e.description {
                Some(d) => Some(owned(d.as_str())),
                None => None,
            };
            Some(CompilerError { reason: owned(e.reason.as_str()), description })
        },
        None => None,
    }
}

impl CodegenFunctionResult {
    /// What the result holds besides the body.
    pub fn metadata(&self) -> (r: CodegenMetadata)
        ensures
            r.cache_size == self.cache_size,
            r.needs_cache_import == self.needs_cache_import,
            texts(r.param_names@) == texts(self.param_names@),
            r.needs_hook_guards == self.needs_hook_guards,
            r.needs_function_hook_guard_wrapper == self.needs_function_hook_guard_wrapper,
            r.needs_structural_check_import == self.needs_structural_check_import,
            prologue_model(r.cache_prologue) == prologue_model(self.cache_prologue),
            error_model(r.error) == error_model(self.error),
    {
        CodegenMetadata {
            cache_size: self.cache_size,
            needs_cache_import: self.needs_cache_import,
            param_names: clone_texts(&self.param_names),
            needs_hook_guards: self.needs_hook_guards,
            needs_function_hook_guard_wrapper: self.needs_function_hook_guard_wrapper,
            needs_structural_check_import: self.needs_structural_check_import,
            cache_prologue: copy_prologue(&self.cache_prologue),
            error: copy_error(&self.error),
        }
    }
}

fn choose_cache_name(options: &CodegenOptions) -> (r: String)
    ensures
        r@ == cache_name(*options),
{
    match &options.cache_binding_name {
        Some(s) => owned(s.as_str()),
        None => {
            let none = NameSet::new();
            assert(options.unique_identifiers@.union(none@) =~= options.unique_identifiers@);
            choose_free_name("$", &options.unique_identifiers, &none)
        },
    }
}

fn make_unnamed_error(id: u32) -> (r: CompilerError)
    ensures
        error_model(Some(r)) == Some(unnamed_error(id)),
{
    CompilerError {
        reason: owned("Expected temporaries to be promoted to named identifiers in an earlier pass"),
        description: Some(cat3("identifier ", decimal_text(id as u64).as_str(), " is unnamed")),
    }
}

fn error_of(cx: &CodegenContext) -> (r: Option<CompilerError>)
    ensures
        error_model(r) == final_error(cx@),
{
    match cx.error() {
        Some(id) => Some(make_unnamed_error(id)),
        None => match cx.unnamed() {
            Some(id) => Some(make_unnamed_error(id)),
            None => None,
        },
    }
}

fn make_refresh(slot: Option<u32>, hash: Option<String>) -> (r: Option<FastRefreshPrologue>)
    ensures
        refresh_model(r) == match (slot, hash) {
            (Some(slot), Some(hash)) => Some(
                RefreshModel {
                    cache_index: slot,
                    hash: hash@,
                    index_binding_name: REFRESH_INDEX_NAME@,
                },
            ),
            _ => None,
        },
{
    match (slot, hash) {
        (Some(slot), Some(hash)) => Some(
            FastRefreshPrologue {
                cache_index: slot,
                hash,
                index_binding_name: owned(REFRESH_INDEX_NAME),
            },
        ),
        _ => None,
    }
}

/// Generates the statements of a reactive function.
pub fn codegen_reactive_function(func: &ReactiveFunction, options: CodegenOptions) -> (r:
    CodegenFunctionResult)
    ensures
        ({
            let out = function_code(*func, options);
            &&& stmt_models(r.body@) == out.1
            &&& r.cache_size == out.0.next_slot
            &&& texts(r.param_names@) == entered(*func, options).1
            &&& r.needs_hook_guards == out.0.guards
            &&& r.needs_function_hook_guard_wrapper == out.0.guards
            &&& r.needs_structural_check_import == out.0.structural
            &&& prologue_model(r.cache_prologue) == prologue(out.0, options)
            &&& r.needs_cache_import == (r.cache_prologue is Some)
            &&& error_model(r.error) == final_error(out.0)
        }),
{
    let cache = choose_cache_name(&options);
    let function = match &func.id {
        Some(s) => owned(s.as_str()),
        None => String::new(),
    };
    let no_features = options.disable_memoization_features;
    let refreshed = options.enable_reset_cache_on_source_file_changes
        && options.fast_refresh_source_hash.is_some();
    let settings = WalkSettings {
        change_variables: options.enable_change_variable_codegen,
        hook_guards: options.enable_emit_hook_guards,
        change_detection: options.enable_change_detection_for_debugging,
        no_features,
        always_recompute: options.disable_memoization_for_debugging,
        name_functions: options.enable_name_anonymous_functions,
        quiet: false,
        fbt: options.fbt_operands,
        initializers: &options.preserved_initializers,
        cache: owned(cache.as_str()),
        function,
    };
    assert(settings@ == walk_settings(*func, options));
    let mut cx = CodegenContext::new(
        settings,
        options.unique_identifiers,
        options.param_name_overrides,
    );
    let param_names = prepare(&mut cx, func, no_features);
    proof {
        lemma_prepared(
            start(
                walk_settings(*func, options),
                options.unique_identifiers@,
                options.param_name_overrides@,
            ),
            *func,
        );
    }
    let slot = if refreshed {
        Some(cx.alloc_cache_slot())
    } else {
        None
    };
    let mut body = codegen_block(&mut cx, &func.body);
    strip_void_return(&mut body);
    let cache_size = cx.slots();
    let cache_prologue = if cache_size > 0 && !no_features {
        let fast_refresh = make_refresh(slot, options.fast_refresh_source_hash);
        Some(CachePrologue { binding_name: cache, size: cache_size, fast_refresh })
    } else {
        None
    };
    CodegenFunctionResult {
        body,
        cache_size,
        needs_cache_import: cache_prologue.is_some(),
        param_names,
        needs_hook_guards: cx.has_guards(),
        needs_function_hook_guard_wrapper: cx.has_guards(),
        needs_structural_check_import: cx.has_structural_check(),
        cache_prologue,
        error: error_of(&cx),
    }
}

} // verus!
