//! Loading of a saved scoring head: which shapes are tried, and what is said
//! when none fits.

use vstd::prelude::*;

use super::config;
use super::config::{
    scoring_head_hidden_candidates, scoring_head_output_dim_from_config, FineTuneArgs,
    ScoringHeadConfig,
};
use crate::error::{Error, ErrorView};
use crate::text;
use crate::text::decimal_of;

verus! {

/// A shape that a saved scoring head may have.
#[derive(Debug, Clone, Copy, PartialEq, Eq, Structural)]
pub struct HeadAttempt {
    /// Whether the head lacks the layer that pools by attention.
    pub legacy: bool,
    pub hidden: usize,
    pub output: usize,
}

impl HeadAttempt {
    /// The shape in short.
    pub open spec fn name(self) -> Seq<char> {
        if self.legacy {
            "legacy/"@ + text::decimal(self.hidden as nat) + "x"@ + text::decimal(
                self.output as nat,
            )
        } else {
            "new/"@ + text::decimal(self.hidden as nat) + "x"@ + text::decimal(self.output as nat)
        }
    }

    /// The shape in short, such as `new/256x1`.
    pub fn label(&self) -> (r: String)
        ensures
            r@ == self.name(),
    {
        let mut out = if self.legacy {
            "legacy/".to_owned()
        } else {
            "new/".to_owned()
        };
        let hidden = decimal_of(self.hidden as u64);
        out.append(hidden.as_str());
        out.append("x");
        let output = decimal_of(self.output as u64);
        out.append(output.as_str());
        out
    }

    /// What is said of this shape when it does not fit: the shape and the cause.
    pub fn failure(&self, cause: &str) -> (r: String)
        ensures
            r@ == self.name() + ": "@ + cause@,
    {
        let mut out = self.label();
        out.append(": ");
        out.append(cause);
        out
    }
}

/// Every width in turn, in the present form, and in the legacy form behind it
/// where there is one output.
pub open spec fn attempts(widths: Seq<usize>, output: usize) -> Seq<HeadAttempt>
    decreases widths.len(),
{
    if widths.len() == 0 {
        seq![]
    } else {
        let hidden = widths.last();
        let present = attempts(widths.drop_last(), output).push(
            HeadAttempt { legacy: false, hidden, output },
        );
        if output == 1 {
            present.push(HeadAttempt { legacy: true, hidden, output })
        } else {
            present
        }
    }
}

/// The shapes to try for a head, in order.
pub fn head_attempts(config: &ScoringHeadConfig) -> (r: Vec<HeadAttempt>)
    ensures
        r@ == attempts(
            config::hidden_widths(config.hidden_dim),
            config::saved_output_width(*config),
        ),
{
    let widths = scoring_head_hidden_candidates(config);
    let output: usize = scoring_head_output_dim_from_config(config);
    let n: usize = widths.len();
    let mut out: Vec<HeadAttempt> = Vec::new();
    let mut i: usize = 0;
    assert(widths@.take(0) =~= Seq::<usize>::empty());
    while i < n
        invariant
            n == widths@.len(),
            i <= n,
            out@ == attempts(widths@.take(i as int), output),
        decreases n - i,
    {
        let ghost upto = widths@.take(i + 1);
        assert(upto.drop_last() =~= widths@.take(i as int));
        let hidden: usize = widths[i];
        assert(upto.last() == hidden);
        out.push(HeadAttempt { legacy: false, hidden, output });
        if output == 1 {
            out.push(HeadAttempt { legacy: true, hidden, output });
        }
        i = i + 1;
    }
    assert(widths@.take(n as int) =~= widths@);
    out
}

proof fn lemma_attempts_hold(widths: Seq<usize>, output: usize, i: int)
    requires
        0 <= i < widths.len(),
    ensures
        attempts(widths, output).contains(
            HeadAttempt { legacy: false, hidden: widths[i], output },
        ),
    decreases widths.len(),
{
    let wanted = HeadAttempt { legacy: false, hidden: widths[i], output };
    let front = attempts(widths.drop_last(), output);
    if i == widths.len() - 1 {
        assert(attempts(widths, output)[front.len() as int] == wanted);
    } else {
        lemma_attempts_hold(widths.drop_last(), output, i);
        let k = choose|k: int| 0 <= k < front.len() && front[k] == wanted;
        assert(attempts(widths, output)[k] == wanted);
    }
}

/// The shape that a run trains its head in is among those that are tried when the
/// head is loaded by the configuration that the run saved.
pub proof fn law_trained_shape_is_tried(args: FineTuneArgs, saved: ScoringHeadConfig)
    requires
        saved.hidden_dim == args.scoring_hidden,
        saved.output_dim == config::output_width(args),
    ensures
        attempts(
            config::hidden_widths(saved.hidden_dim),
            config::saved_output_width(saved),
        ).contains(
            HeadAttempt {
                legacy: false,
                hidden: config::hidden_in_use(args),
                output: config::output_width(args),
            },
        ),
{
    let widths = config::hidden_widths(saved.hidden_dim);
    let i: int = if 256 < args.scoring_hidden && args.scoring_hidden <= 512 {
        1
    } else if args.scoring_hidden > 512 {
        2
    } else {
        0
    };
    assert(widths[i] == config::hidden_in_use(args));
    lemma_attempts_hold(widths, config::saved_output_width(saved), i);
}

/// The failures, parted by semicolons.
pub open spec fn listed(failures: Seq<Seq<char>>) -> Seq<char>
    decreases failures.len(),
{
    if failures.len() == 0 {
        seq![]
    } else if failures.len() == 1 {
        failures[0]
    } else {
        listed(failures.drop_last()) + "; "@ + failures.last()
    }
}

/// The error when no shape fits: what went wrong with each.
pub fn head_failure(path: &str, failures: &Vec<String>) -> (r: Error)
    ensures
        r@ == ErrorView::Process(
            "Failed to load scoring head "@ + path@ + ": "@ + listed(text::strings(failures@)),
        ),
{
    let mut list = String::new();
    let ghost all = text::strings(failures@);
    let n: usize = failures.len();
    let mut i: usize = 0;
    assert(all.take(0) =~= Seq::<Seq<char>>::empty());
    assert(list@ =~= listed(all.take(0)));
    while i < n
        invariant
            n == failures@.len(),
            i <= n,
            all == text::strings(failures@),
            list@ == listed(all.take(i as int)),
        decreases n - i,
    {
        let ghost upto = all.take(i + 1);
        assert(upto.drop_last() =~= all.take(i as int));
        assert(upto.last() == failures@[i as int]@);
        if i > 0 {
            list.append("; ");
            list.append(failures[i].as_str());
        } else {
            list = failures[i].clone();
        }
        i = i + 1;
    }
    assert(all.take(n as int) =~= all);
    let mut message = "Failed to load scoring head ".to_owned();
    message.append(path);
    message.append(": ");
    message.append(list.as_str());
    Error::process(message.as_str())
}

} // verus!
