//! Calls of hooks, told by their names.

use vstd::prelude::*;

use crate::text::{
    before, chars_of, has_prefix, is_uppercase, same, starts_with, text_before, uppercase,
};

verus! {

/// The name in front of the arguments of a call.
pub open spec fn called_name(expr: Seq<char>) -> Seq<char> {
    before(expr, '(')
}

/// Whether an expression looks like the call of a hook: `use` and an upper case letter.
pub open spec fn hook_call(expr: Seq<char>) -> bool {
    let name = called_name(expr);
    has_prefix(name, "use"@) && name.len() > 3 && uppercase(name[3])
}

/// Whether what a hook returns is the same at each call.
pub open spec fn stable_hook(name: Seq<char>) -> bool {
    name == "useRef"@
}

/// Whether the element at `index` of the array that a hook returns can change from call to call.
pub open spec fn reactive_element(name: Seq<char>, index: int) -> bool {
    if name == "useState"@ || name == "useReducer"@ {
        index == 0
    } else if name == "useActionState"@ {
        index == 0 || index == 2
    } else {
        true
    }
}

/// Checks if an expression looks like a call of a hook.
pub fn looks_like_hook_call(expr: &str) -> (r: bool)
    ensures
        r == hook_call(expr@),
{
    let name = text_before(expr, '(');
    if !starts_with(&name, "use") {
        return false;
    }
    let cs = chars_of(&name);
    cs.len() > 3 && is_uppercase(cs[3])
}

/// Checks if what a hook returns is the same at each call. It is for `useRef`.
pub fn is_stable_hook_return(hook_name: &str) -> (r: bool)
    ensures
        r == stable_hook(hook_name@),
{
    same(hook_name, "useRef")
}

/// Checks if the element at `index` of the array that a hook returns can change from call to call.
/// The setter of `useState` and the dispatch functions of `useReducer` and `useActionState` cannot.
pub fn is_reactive_destructured_element(hook_name: &str, index: usize) -> (r: bool)
    ensures
        r == reactive_element(hook_name@, index as int),
{
    if same(hook_name, "useState") || same(hook_name, "useReducer") {
        index == 0
    } else if same(hook_name, "useActionState") {
        index == 0 || index == 2
    } else {
        true
    }
}

} // verus!
