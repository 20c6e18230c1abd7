//! Pieces that reports are put together from.

use vstd::prelude::*;

use crate::text;
use crate::text::decimal_of;

verus! {

/// `**label**: value`, on a line.
pub open spec fn field(label: Seq<char>, value: Seq<char>) -> Seq<char> {
    "**"@ + label + "**: "@ + value + "\n"@
}

/// `**label**: value` with the value as code, on a line.
pub open spec fn code_field(label: Seq<char>, value: Seq<char>) -> Seq<char> {
    field(label, "`"@ + value + "`"@)
}

pub open spec fn truth(b: bool) -> Seq<char> {
    if b {
        "true"@
    } else {
        "false"@
    }
}

/// Appends a field.
pub fn push_field(out: &mut String, label: &str, value: &str)
    ensures
        final(out)@ == old(out)@ + field(label@, value@),
{
    let ghost before = out@;
    out.append("**");
    out.append(label);
    out.append("**: ");
    out.append(value);
    out.append("\n");
    assert(out@ =~= before + field(label@, value@));
}

/// Appends a field with its value as code.
pub fn push_code_field(out: &mut String, label: &str, value: &str)
    ensures
        final(out)@ == old(out)@ + code_field(label@, value@),
{
    let mut code = "`".to_owned();
    code.append(value);
    code.append("`");
    push_field(out, label, code.as_str());
}

/// Appends a field with a number.
pub fn push_count(out: &mut String, label: &str, value: usize)
    ensures
        final(out)@ == old(out)@ + field(label@, text::decimal(value as nat)),
{
    let digits = decimal_of(value as u64);
    push_field(out, label, digits.as_str());
}

/// Appends a field that is true or false.
pub fn push_truth(out: &mut String, label: &str, value: bool)
    ensures
        final(out)@ == old(out)@ + field(label@, truth(value)),
{
    push_field(
        out,
        label,
        if value {
            "true"
        } else {
            "false"
        },
    );
}

/// One row of a loss table.
pub open spec fn loss_row(epoch: nat, loss: Seq<char>) -> Seq<char> {
    "| "@ + text::decimal(epoch) + " | "@ + loss + " |\n"@
}

/// The rows of a loss table, one for each epoch.
pub open spec fn loss_rows(losses: Seq<Seq<char>>) -> Seq<char>
    decreases losses.len(),
{
    if losses.len() == 0 {
        seq![]
    } else {
        loss_rows(losses.drop_last()) + loss_row(losses.len(), losses.last())
    }
}

/// Appends the rows of a loss table.
pub fn push_loss_rows(out: &mut String, losses: &Vec<String>)
    ensures
        final(out)@ == old(out)@ + loss_rows(text::strings(losses@)),
{
    let ghost before = out@;
    let ghost all = text::strings(losses@);
    let n: usize = losses.len();
    let mut i: usize = 0;
    assert(all.take(0) =~= Seq::<Seq<char>>::empty());
    assert(out@ =~= before + loss_rows(all.take(0)));
    while i < n
        invariant
            n == losses@.len(),
            i <= n,
            all == text::strings(losses@),
            out@ == before + loss_rows(all.take(i as int)),
        decreases n - i,
    {
        let ghost upto = all.take(i + 1);
        assert(upto.drop_last() =~= all.take(i as int));
        assert(upto.last() == losses@[i as int]@);
        let ghost so_far = out@;
        out.append("| ");
        let number = decimal_of((i + 1) as u64);
        out.append(number.as_str());
        out.append(" | ");
        out.append(losses[i].as_str());
        out.append(" |\n");
        assert(out@ =~= so_far + loss_row((i + 1) as nat, losses@[i as int]@));
        assert(out@ =~= before + loss_rows(upto));
        i = i + 1;
    }
    assert(all.take(n as int) =~= all);
}

} // verus!
