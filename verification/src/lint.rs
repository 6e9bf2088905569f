//! What every rule offers.
use vstd::prelude::*;

use crate::ast::SpecFile;
use crate::diagnostic::{Diagnostic, DiagnosticView, LintCategory, Severity};

verus! {

/// The identity of a rule.
#[derive(Clone, Copy, Debug)]
pub struct LintMetadata {
    pub id: &'static str,
    pub name: &'static str,
    pub description: &'static str,
    pub default_severity: Severity,
    pub category: LintCategory,
}

/// What [`LintMetadata`] says.
pub struct Identity {
    pub id: Seq<char>,
    pub name: Seq<char>,
    pub description: Seq<char>,
    pub default_severity: Severity,
    pub category: LintCategory,
}

impl View for LintMetadata {
    type V = Identity;

    open spec fn view(&self) -> Identity {
        Identity {
            id: self.id@,
            name: self.name@,
            description: self.description@,
            default_severity: self.default_severity,
            category: self.category,
        }
    }
}

/// A rule: it visits spec files and buffers what it finds.
pub trait Lint {
    /// Who the rule is.
    spec fn identity() -> Identity;

    /// The buffered diagnostics.
    spec fn pending(&self) -> Seq<DiagnosticView>;

    /// The diagnostics that will be buffered once `spec` has been visited.
    spec fn after(&self, spec: SpecFile) -> Seq<DiagnosticView>;

    /// Whether both rules hold the same settings.
    spec fn same_settings(&self, other: &Self) -> bool;

    fn metadata(&self) -> (r: LintMetadata)
        ensures
            r@ == Self::identity(),
    ;

    fn visit_spec(&mut self, spec: &SpecFile)
        ensures
            final(self).pending() == old(self).after(*spec),
            final(self).same_settings(old(self)),
    ;

    /// Hands over the buffered diagnostics and forgets them.
    fn take_diagnostics(&mut self) -> (r: Vec<Diagnostic>)
        ensures
            crate::diagnostic::reports(r@) == old(self).pending(),
            final(self).pending() == Seq::<DiagnosticView>::empty(),
            final(self).same_settings(old(self)),
    ;
}

/// Empties a buffer.
pub fn drain(buffer: &mut Vec<Diagnostic>) -> (r: Vec<Diagnostic>)
    ensures
        r@ == old(buffer)@,
        final(buffer)@ == Seq::<Diagnostic>::empty(),
        crate::diagnostic::reports(final(buffer)@) == Seq::<DiagnosticView>::empty(),
{
    let mut out: Vec<Diagnostic> = Vec::new();
    std::mem::swap(buffer, &mut out);
    assert(crate::diagnostic::reports(buffer@) =~= Seq::<DiagnosticView>::empty());
    out
}

} // verus!
