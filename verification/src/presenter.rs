//! What the command line says about a finished render.

use vstd::prelude::*;
use crate::fmt::{decimal, push_decimal};
use crate::render::{RenderReportDto, SkippedConstructDto};

verus! {

/// The line announcing what was written.
pub open spec fn produced_spec(output: Seq<char>, bytes: nat) -> Seq<char> {
    "wrote "@ + output + " ("@ + decimal(bytes) + " bytes)"@
}

/// The line naming one construct that was left out, placed the way the
/// domain spells a location.
pub open spec fn omission_spec(construct: Seq<char>, line: nat, column: nat) -> Seq<char> {
    "adocpdf: skipped "@ + construct + " at line "@ + decimal(line) + ", column "@ + decimal(column)
}

/// The line counting what was left out.
pub open spec fn count_spec(n: nat) -> Seq<char> {
    "adocpdf: "@ + decimal(n) + " construct(s) were not rendered"@
}

/// Announces what was written and how large it is.
pub fn produced_line(report: &RenderReportDto) -> (r: String)
    ensures
        r@ == produced_spec(report.output@, report.bytes_written as nat),
{
    let mut out = String::from_str("wrote ");
    out.append(report.output.as_str());
    out.append(" (");
    push_decimal(&mut out, report.bytes_written);
    out.append(" bytes)");
    out
}

/// Names one construct that was left out, and where.
pub fn omission_line(skipped: &SkippedConstructDto) -> (r: String)
    ensures
        r@ == omission_spec(skipped.construct@, skipped.line as nat, skipped.column as nat),
{
    let mut out = String::from_str("adocpdf: skipped ");
    out.append(skipped.construct.as_str());
    out.append(" at line ");
    push_decimal(&mut out, skipped.line as u64);
    out.append(", column ");
    push_decimal(&mut out, skipped.column as u64);
    out
}

/// The warnings for a render: one line per construct left out, in order,
/// then a count; nothing at all when nothing was left out.
pub fn omission_lines(report: &RenderReportDto) -> (r: Vec<String>)
    ensures
        report.skipped@.len() == 0 ==> r@.len() == 0,
        report.skipped@.len() > 0 ==> {
            &&& r@.len() == report.skipped@.len() + 1
            &&& forall|k: int| 0 <= k < report.skipped@.len() ==> (#[trigger] r@[k])@ == omission_spec(
                report.skipped@[k].construct@,
                report.skipped@[k].line as nat,
                report.skipped@[k].column as nat,
            )
            &&& r@[report.skipped@.len() as int]@ == count_spec(report.skipped@.len())
        },
{
    let mut lines: Vec<String> = Vec::new();
    if report.skipped.len() == 0 {
        return lines;
    }
    let mut i: usize = 0;
    while i < report.skipped.len()
        invariant
            i <= report.skipped@.len(),
            lines@.len() == i,
            forall|k: int| 0 <= k < i ==> (#[trigger] lines@[k])@ == omission_spec(
                report.skipped@[k].construct@,
                report.skipped@[k].line as nat,
                report.skipped@[k].column as nat,
            ),
        decreases report.skipped.len() - i,
    {
        lines.push(omission_line(&report.skipped[i]));
        i = i + 1;
    }
    let mut count = String::from_str("adocpdf: ");
    push_decimal(&mut count, report.skipped.len() as u64);
    count.append(" construct(s) were not rendered");
    lines.push(count);
    lines
}

} // verus!
