//! The closed set of unused-declaration kinds this tool recognizes, the
//! mapping from a diagnostic's lint identifier to a kind, and the parsing
//! of the user-facing kind filter.

use vstd::prelude::*;

verus! {

/// The nine declaration kinds whose unused-diagnostics are acted on.
/// The set is closed: every dispatch over it is an exhaustive match.
#[derive(Clone, Copy, Debug, PartialEq, Eq, Structural)]
pub enum UnusedDiagnosticKind {
    Function,
    Const,
    Static,
    Struct,
    Enum,
    Union,
    TypeAlias,
    AssociatedFunction,
    MacroDefinition,
}

/// The kind, if any, that a diagnostic's lint identifier maps to.
/// Identifiers outside this table are not unused-declaration reports
/// and their diagnostics are discarded by the normalizer.
pub open spec fn spec_kind_of_lint(lint: Seq<char>) -> Option<UnusedDiagnosticKind> {
    if lint == "function"@ {
        Some(UnusedDiagnosticKind::Function)
    } else if lint == "const"@ {
        Some(UnusedDiagnosticKind::Const)
    } else if lint == "static"@ {
        Some(UnusedDiagnosticKind::Static)
    } else if lint == "struct"@ {
        Some(UnusedDiagnosticKind::Struct)
    } else if lint == "enum"@ {
        Some(UnusedDiagnosticKind::Enum)
    } else if lint == "union"@ {
        Some(UnusedDiagnosticKind::Union)
    } else if lint == "type_alias"@ {
        Some(UnusedDiagnosticKind::TypeAlias)
    } else if lint == "associated_function"@ {
        Some(UnusedDiagnosticKind::AssociatedFunction)
    } else if lint == "macro_definition"@ {
        Some(UnusedDiagnosticKind::MacroDefinition)
    } else {
        None
    }
}

/// Whether `k` passes the user's kind filter: an empty filter selects
/// every kind, a non-empty one only the kinds it lists.
pub open spec fn spec_kind_selected(kinds: Seq<UnusedDiagnosticKind>, k: UnusedDiagnosticKind) -> bool {
    kinds.len() == 0 || kinds.contains(k)
}

impl UnusedDiagnosticKind {
    /// Maps a lint identifier to its kind; `None` for an identifier
    /// outside the recognized set.
    pub fn from_lint(lint: &String) -> (r: Option<UnusedDiagnosticKind>)
        ensures
            r == spec_kind_of_lint(lint@),
    {
        if *lint == "function".to_owned() {
            Some(UnusedDiagnosticKind::Function)
        } else if *lint == "const".to_owned() {
            Some(UnusedDiagnosticKind::Const)
        } else if *lint == "static".to_owned() {
            Some(UnusedDiagnosticKind::Static)
        } else if *lint == "struct".to_owned() {
            Some(UnusedDiagnosticKind::Struct)
        } else if *lint == "enum".to_owned() {
            Some(UnusedDiagnosticKind::Enum)
        } else if *lint == "union".to_owned() {
            Some(UnusedDiagnosticKind::Union)
        } else if *lint == "type_alias".to_owned() {
            Some(UnusedDiagnosticKind::TypeAlias)
        } else if *lint == "associated_function".to_owned() {
            Some(UnusedDiagnosticKind::AssociatedFunction)
        } else if *lint == "macro_definition".to_owned() {
            Some(UnusedDiagnosticKind::MacroDefinition)
        } else {
            None
        }
    }

    /// The kind named by one value of the user's `--kinds` filter,
    /// written in its upper-case command-line spelling.
    pub open spec fn spec_parse(s: Seq<char>) -> Option<UnusedDiagnosticKind> {
        if s == "FUNCTION"@ {
            Some(UnusedDiagnosticKind::Function)
        } else if s == "CONST"@ {
            Some(UnusedDiagnosticKind::Const)
        } else if s == "STATIC"@ {
            Some(UnusedDiagnosticKind::Static)
        } else if s == "STRUCT"@ {
            Some(UnusedDiagnosticKind::Struct)
        } else if s == "ENUM"@ {
            Some(UnusedDiagnosticKind::Enum)
        } else if s == "UNION"@ {
            Some(UnusedDiagnosticKind::Union)
        } else if s == "TYPE_ALIAS"@ {
            Some(UnusedDiagnosticKind::TypeAlias)
        } else if s == "ASSOCIATED_FUNCTION"@ {
            Some(UnusedDiagnosticKind::AssociatedFunction)
        } else if s == "MACRO_DEFINITION"@ {
            Some(UnusedDiagnosticKind::MacroDefinition)
        } else {
            None
        }
    }

    /// Parses one value of the user's `--kinds` filter.
    pub fn parse(s: &String) -> (r: Option<UnusedDiagnosticKind>)
        ensures
            r == Self::spec_parse(s@),
    {
        if *s == "FUNCTION".to_owned() {
            Some(UnusedDiagnosticKind::Function)
        } else if *s == "CONST".to_owned() {
            Some(UnusedDiagnosticKind::Const)
        } else if *s == "STATIC".to_owned() {
            Some(UnusedDiagnosticKind::Static)
        } else if *s == "STRUCT".to_owned() {
            Some(UnusedDiagnosticKind::Struct)
        } else if *s == "ENUM".to_owned() {
            Some(UnusedDiagnosticKind::Enum)
        } else if *s == "UNION".to_owned() {
            Some(UnusedDiagnosticKind::Union)
        } else if *s == "TYPE_ALIAS".to_owned() {
            Some(UnusedDiagnosticKind::TypeAlias)
        } else if *s == "ASSOCIATED_FUNCTION".to_owned() {
            Some(UnusedDiagnosticKind::AssociatedFunction)
        } else if *s == "MACRO_DEFINITION".to_owned() {
            Some(UnusedDiagnosticKind::MacroDefinition)
        } else {
            None
        }
    }
}

/// Whether `k` passes the user's kind filter.
pub fn kind_selected(kinds: &Vec<UnusedDiagnosticKind>, k: UnusedDiagnosticKind) -> (r: bool)
    ensures
        r == spec_kind_selected(kinds@, k),
{
    if kinds.len() == 0 {
        return true;
    }
    let mut i: usize = 0;
    while i < kinds.len()
        invariant
            0 <= i <= kinds@.len(),
            forall|j: int| 0 <= j < i ==> kinds@[j] != k,
        decreases kinds@.len() - i,
    {
        if kinds[i] == k {
            assert(kinds@.contains(k));
            return true;
        }
        i += 1;
    }
    assert(!kinds@.contains(k));
    false
}

} // verus!
