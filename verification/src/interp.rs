//! The interpreter.
//!
//! One parsed operation is executed against the registry and becomes an
//! outcome for the host process to render: silence, a value to print, help
//! text, the wish to quit, or a warning. Every registry error is caught here;
//! none escapes, so the read-eval loop always continues.

use vstd::prelude::*;

use crate::metric::{resolve, Metric};
use crate::registry::{spec_add, spec_get, spec_remove, DynamicRegistry, RegError};

verus! {

/// One operation bound to plain values: a `set`'s value arrives as the 64
/// bits of its gauge value.
pub enum Op {
    SetCmd { metric: Metric, bits: u64 },
    GetCmd { metric: Metric },
    DelCmd { metric: Metric },
    ExitCmd,
    HelpCmd,
    Empty,
}

impl Op {
    /// The carried metric identity, if any, is well-formed.
    pub open spec fn wf(&self) -> bool {
        match self {
            Op::SetCmd { metric, bits } => metric@.wf(),
            Op::GetCmd { metric } => metric@.wf(),
            Op::DelCmd { metric } => metric@.wf(),
            Op::ExitCmd => true,
            Op::HelpCmd => true,
            Op::Empty => true,
        }
    }
}

/// What one executed operation hands back to the operator loop.
pub enum Outcome {
    /// Nothing to show.
    Quiet,
    /// The bits of the value a `get` found.
    Value(u64),
    /// Text to print as it stands.
    Text(String),
    /// The operator asked to leave.
    Quit,
    /// A registry error, to surface as a warning.
    Warn(RegError),
}

/// The help text, as characters.
pub open spec fn help_view() -> Seq<char> {
    "commands:\n  set NAME[k=\"v\",...] = VALUE\n  get NAME[k=\"v\",...]\n  del NAME[k=\"v\",...]\n  help\n  exit | quit\n"@
}

/// The fixed help text block.
pub fn help_text() -> (r: String)
    ensures
        r@ == help_view(),
{
    "commands:\n  set NAME[k=\"v\",...] = VALUE\n  get NAME[k=\"v\",...]\n  del NAME[k=\"v\",...]\n  help\n  exit | quit\n".to_owned()
}

/// Executes one operation against the registry: the exhaustive dispatch over
/// the closed operation type. `Empty` and `Exit` touch nothing; `Get` is
/// read-only; every error becomes a `Warn` outcome.
pub fn execute(op: &Op, reg: &mut DynamicRegistry) -> (r: Outcome)
    requires
        old(reg).wf(),
        op.wf(),
    ensures
        final(reg).wf(),
        ({
            match *op {
                Op::SetCmd { metric, bits } => match r {
                    Outcome::Quiet => final(reg)@ == spec_add(old(reg)@, metric@, bits),
                    Outcome::Warn(e) => e == RegError::Registration && final(reg)@ == old(reg)@
                        && !old(reg)@.contains_key(metric@.name),
                    _ => false,
                },
                Op::GetCmd { metric } => final(reg)@ == old(reg)@ && (match spec_get(
                    old(reg)@,
                    metric@,
                ) {
                    Some(b) => r == Outcome::Value(b),
                    None => r == Outcome::Warn(RegError::NotFound),
                }),
                Op::DelCmd { metric } => (match r {
                    Outcome::Quiet => final(reg)@ == spec_remove(old(reg)@, metric@),
                    Outcome::Warn(e) => (e == RegError::SeriesRemoval || e
                        == RegError::Unregistration) && (e == RegError::SeriesRemoval ==> final(reg)@ == old(reg)@) && (e == RegError::Unregistration ==> final(reg)@
                        == spec_remove(old(reg)@, metric@)),
                    _ => false,
                }) && (!old(reg)@.contains_key(metric@.name) ==> r == Outcome::Quiet) && (old(
                    reg,
                )@.contains_key(metric@.name) && !old(reg)@[metric@.name].series.contains_key(
                    resolve(old(reg)@[metric@.name].labels, metric@.pairs),
                ) ==> r == Outcome::Warn(RegError::SeriesRemoval)),
                Op::ExitCmd => r == Outcome::Quit && final(reg)@ == old(reg)@,
                Op::HelpCmd => (r matches Outcome::Text(t) && t@ == help_view()) && final(reg)@
                    == old(reg)@,
                Op::Empty => r == Outcome::Quiet && final(reg)@ == old(reg)@,
            }
        }),
{
    match op {
        Op::SetCmd { metric, bits } => match reg.add(metric, *bits) {
            Ok(()) => Outcome::Quiet,
            Err(e) => Outcome::Warn(e),
        },
        Op::GetCmd { metric } => match reg.get(metric) {
            Ok(b) => Outcome::Value(b),
            Err(e) => Outcome::Warn(e),
        },
        Op::DelCmd { metric } => match reg.remove(metric) {
            Ok(()) => Outcome::Quiet,
            Err(e) => Outcome::Warn(e),
        },
        Op::ExitCmd => Outcome::Quit,
        Op::HelpCmd => Outcome::Text(help_text()),
        Op::Empty => Outcome::Quiet,
    }
}

} // verus!
