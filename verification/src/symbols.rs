//! The fixed symbol table: markup tokens, ligatures and named symbols and the
//! output text each one stands for. Pure lookup; a token with no entry is an
//! error at tree-building time, never a renderer concern.

use vstd::prelude::*;
use crate::textutil::str_eq;
use vstd::string::StringExecFns;

verus! {

/// The output text for a recognized token, `None` for an unknown one.
pub open spec fn symbol_spec(tok: Seq<char>) -> Option<Seq<char>> {
    if tok == "\n"@ {
        Some("\n"@)
    } else if tok == "-"@ {
        Some("-"@)
    } else if tok == "~"@ {
        Some("\u{00a0}"@)
    } else if tok == "---"@ {
        Some("\u{2014}"@)
    } else if tok == "--"@ {
        Some("\u{2013}"@)
    } else if tok == "``"@ {
        Some("\u{201c}"@)
    } else if tok == "''"@ {
        Some("\u{201d}"@)
    } else if tok == "`"@ {
        Some("\u{2018}"@)
    } else if tok == "'"@ {
        Some("\u{2019}"@)
    } else if tok == "textbackslash"@ {
        Some("\\"@)
    } else if tok == "omission"@ {
        Some("[...]"@)
    } else {
        None
    }
}

/// Look a token up in the fixed symbol table.
pub fn resolve(token: &str) -> (r: Option<String>)
    ensures
        match r {
            Some(out) => symbol_spec(token@) == Some(out@),
            None => symbol_spec(token@) is None,
        },
{
    if str_eq(token, "\n") {
        Some(String::from_str("\n"))
    } else if str_eq(token, "-") {
        Some(String::from_str("-"))
    } else if str_eq(token, "~") {
        Some(String::from_str("\u{00a0}"))
    } else if str_eq(token, "---") {
        Some(String::from_str("\u{2014}"))
    } else if str_eq(token, "--") {
        Some(String::from_str("\u{2013}"))
    } else if str_eq(token, "``") {
        Some(String::from_str("\u{201c}"))
    } else if str_eq(token, "''") {
        Some(String::from_str("\u{201d}"))
    } else if str_eq(token, "`") {
        Some(String::from_str("\u{2018}"))
    } else if str_eq(token, "'") {
        Some(String::from_str("\u{2019}"))
    } else if str_eq(token, "textbackslash") {
        Some(String::from_str("\\"))
    } else if str_eq(token, "omission") {
        Some(String::from_str("[...]"))
    } else {
        None
    }
}

} // verus!
