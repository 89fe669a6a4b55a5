//! Diagnostics of a checked script.
use vstd::prelude::*;

verus! {

/// How severe a diagnostic of a script is.
#[derive(Clone, Copy, PartialEq, Eq, Structural)]
pub enum DiagnosticKind {
    Error,
    Warning,
    Hint,
}

/// How many of `kinds` are errors.
pub open spec fn error_count(kinds: Seq<DiagnosticKind>) -> nat
    decreases kinds.len(),
{
    if kinds.len() == 0 {
        0
    } else {
        error_count(kinds.drop_last()) + if kinds.last() == DiagnosticKind::Error {
            1nat
        } else {
            0nat
        }
    }
}

proof fn lemma_error_count_bound(kinds: Seq<DiagnosticKind>)
    ensures
        error_count(kinds) <= kinds.len(),
    decreases kinds.len(),
{
    if kinds.len() > 0 {
        lemma_error_count_bound(kinds.drop_last());
    }
}

/// The number of errors among a script's diagnostics.
pub fn diagnostic_error_count(kinds: &Vec<DiagnosticKind>) -> (n: usize)
    ensures
        n == error_count(kinds@),
{
    let mut n: usize = 0;
    let mut i: usize = 0;
    while i < kinds.len()
        invariant
            i <= kinds@.len(),
            n == error_count(kinds@.take(i as int)),
        decreases kinds.len() - i,
    {
        proof {
            assert(kinds@.take(i + 1).drop_last() =~= kinds@.take(i as int));
            lemma_error_count_bound(kinds@.take(i as int));
        }
        if kinds[i] == DiagnosticKind::Error {
            n = n + 1;
        }
        i = i + 1;
    }
    proof {
        assert(kinds@.take(kinds@.len() as int) =~= kinds@);
    }
    n
}

/// Whether a script has an error among its diagnostics.
pub fn has_diagnostic_error(kinds: &Vec<DiagnosticKind>) -> (b: bool)
    ensures
        b == (error_count(kinds@) > 0),
{
    diagnostic_error_count(kinds) > 0
}

} // verus!
