//! Font preference order. The licensed Helvetica LT Std never ships with
//! the binary — it is only used when already installed on the system.

use vstd::prelude::*;

verus! {

#[derive(Debug, Clone, Copy, PartialEq, Eq)]
pub struct Candidate {
    pub family: &'static str,
    /// True when the family needs a condensed stretch to select the
    /// condensed face (typographic family). The GDI-compatible "... Cond"
    /// family already is the condensed face at normal stretch.
    pub condensed: bool,
}

/// Probe order, most preferred first: (family, condensed).
pub open spec fn candidates_spec() -> Seq<(Seq<char>, bool)> {
    seq![("Helvetica LT Std Cond"@, false), ("Helvetica LT Std"@, true)]
}

pub open spec fn candidate_view(c: Candidate) -> (Seq<char>, bool) {
    (c.family@, c.condensed)
}

/// The system font candidates, most preferred first.
pub fn system_candidates() -> (r: [Candidate; 2])
    ensures
        candidate_view(r[0]) == candidates_spec()[0],
        candidate_view(r[1]) == candidates_spec()[1],
{
    [
        Candidate { family: "Helvetica LT Std Cond", condensed: false },
        Candidate { family: "Helvetica LT Std", condensed: true },
    ]
}

/// The predicate answered `false` for candidate `j`.
pub open spec fn rejected<F: Fn(&Candidate) -> bool>(f: F, j: int) -> bool {
    exists|d: Candidate| candidate_view(d) == candidates_spec()[j] && #[trigger] f.ensures((&d,), false)
}

/// First usable candidate wins; `None` means that no preferred family is
/// usable and the caller falls back to its own font. The predicate should
/// verify that the bold condensed face is actually present, not just the
/// family name.
pub fn pick<F: Fn(&Candidate) -> bool>(is_usable: F) -> (r: Option<Candidate>)
    requires
        forall|c: &Candidate| #[trigger] is_usable.requires((c,)),
    ensures
        match r {
            Some(c) => is_usable.ensures((&c,), true) && (candidate_view(c) == candidates_spec()[0]
                || (candidate_view(c) == candidates_spec()[1] && rejected(is_usable, 0))),
            None => rejected(is_usable, 0) && rejected(is_usable, 1),
        },
{
    let cands = system_candidates();
    let first = cands[0];
    if is_usable(&first) {
        return Some(first);
    }
    let second = cands[1];
    if is_usable(&second) {
        return Some(second);
    }
    None
}

} // verus!
