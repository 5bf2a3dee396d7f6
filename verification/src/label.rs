//! Labels for the bins of a histogram.
//!
//! A label shows a bin's two bounds with a hyphen between them. Quality
//! bounds are shown as plain decimal numbers; length bounds are shown in
//! units of magnitude (`kB`, `MB`, ...).

use crate::histogram::Bin;
use vstd::prelude::*;
use vstd::string::*;

verus! {

/// A histogram as it is drawn: for each bin its label and its count.
pub type Histogram = Vec<(String, u64)>;

/// The character of a decimal digit.
pub open spec fn digit_char(d: int) -> char {
    if d == 0 {
        '0'
    } else if d == 1 {
        '1'
    } else if d == 2 {
        '2'
    } else if d == 3 {
        '3'
    } else if d == 4 {
        '4'
    } else if d == 5 {
        '5'
    } else if d == 6 {
        '6'
    } else if d == 7 {
        '7'
    } else if d == 8 {
        '8'
    } else {
        '9'
    }
}

/// The decimal numeral of `n`, without leading zeros.
pub open spec fn decimal(n: nat) -> Seq<char>
    decreases n,
{
    if n < 10 {
        seq![digit_char(n as int)]
    } else {
        decimal(n / 10).push(digit_char((n % 10) as int))
    }
}

/// What `humansize::format_size` gives for `n` with the options `DECIMAL`:
/// the number divided by 1000 for as long as it is 1000 or more, a space and
/// the unit that belongs to the number of divisions (`B`, `kB`, `MB`, ...).
pub uninterp spec fn human_size(n: u64) -> Seq<char>;

/// The label of a range, given how its bounds are shown.
pub open spec fn range_label_spec(lower: Seq<char>, upper: Seq<char>) -> Seq<char> {
    lower + seq!['-'] + upper
}

/// The label of a bin whose bounds are shown as decimal numbers.
pub open spec fn plain_label(bin: Bin) -> Seq<char> {
    range_label_spec(decimal(bin.lower as nat), decimal(bin.upper as nat))
}

/// The label of a bin whose bounds are shown in units of magnitude.
pub open spec fn human_label(bin: Bin) -> Seq<char> {
    range_label_spec(human_size(bin.lower), human_size(bin.upper))
}

fn digit_str(d: u64) -> (s: &'static str)
    requires
        d < 10,
    ensures
        s@ == seq![digit_char(d as int)],
{
    proof {
        reveal_strlit("0");
        reveal_strlit("1");
        reveal_strlit("2");
        reveal_strlit("3");
        reveal_strlit("4");
        reveal_strlit("5");
        reveal_strlit("6");
        reveal_strlit("7");
        reveal_strlit("8");
        reveal_strlit("9");
    }
    let s = if d == 0 {
        "0"
    } else if d == 1 {
        "1"
    } else if d == 2 {
        "2"
    } else if d == 3 {
        "3"
    } else if d == 4 {
        "4"
    } else if d == 5 {
        "5"
    } else if d == 6 {
        "6"
    } else if d == 7 {
        "7"
    } else if d == 8 {
        "8"
    } else {
        "9"
    };
    assert(s@ =~= seq![digit_char(d as int)]);
    s
}

/// Writes a number in decimal.
pub fn decimal_string(n: u64) -> (s: String)
    ensures
        s@ == decimal(n as nat),
    decreases n,
{
    if n < 10 {
        String::from_str(digit_str(n))
    } else {
        let mut s = decimal_string(n / 10);
        s.append(digit_str(n % 10));
        assert(s@ =~= decimal(n as nat));
        s
    }
}

/// Calls `humansize::format_size` with the options `humansize::DECIMAL`.
/// The contract names what comes back: it depends on the number alone.
#[verifier::external_body]
fn format_human_size(n: u64) -> (s: String)
    ensures
        s@ == human_size(n),
{
    humansize::format_size(n, humansize::DECIMAL)
}

/// Joins the two bounds of a range, as they are shown, into its label.
pub fn range_label(lower: &str, upper: &str) -> (s: String)
    ensures
        s@ == range_label_spec(lower@, upper@),
{
    proof {
        reveal_strlit("-");
    }
    let mut s = String::from_str(lower);
    s.append("-");
    s.append(upper);
    assert(s@ =~= range_label_spec(lower@, upper@)) by {
        assert("-"@ =~= seq!['-']);
    }
    s
}

/// Labels each bin with its bounds as decimal numbers.
pub fn plain_labels(bins: &Vec<Bin>) -> (h: Histogram)
    ensures
        h@.len() == bins@.len(),
        forall|i: int|
            0 <= i < h@.len() ==> (#[trigger] h@[i]).0@ == plain_label(bins@[i]) && h@[i].1
                == bins@[i].count,
{
    let mut out: Histogram = Vec::new();
    let mut i: usize = 0;
    while i < bins.len()
        invariant
            i <= bins@.len(),
            out@.len() == i,
            forall|j: int|
                0 <= j < i ==> (#[trigger] out@[j]).0@ == plain_label(bins@[j]) && out@[j].1
                    == bins@[j].count,
        decreases bins@.len() - i,
    {
        let bin = bins[i];
        let lower = decimal_string(bin.lower);
        let upper = decimal_string(bin.upper);
        out.push((range_label(lower.as_str(), upper.as_str()), bin.count));
        i = i + 1;
    }
    out
}

/// Labels each bin with its bounds in units of magnitude.
pub fn human_labels(bins: &Vec<Bin>) -> (h: Histogram)
    ensures
        h@.len() == bins@.len(),
        forall|i: int|
            0 <= i < h@.len() ==> (#[trigger] h@[i]).0@ == human_label(bins@[i]) && h@[i].1
                == bins@[i].count,
{
    let mut out: Histogram = Vec::new();
    let mut i: usize = 0;
    while i < bins.len()
        invariant
            i <= bins@.len(),
            out@.len() == i,
            forall|j: int|
                0 <= j < i ==> (#[trigger] out@[j]).0@ == human_label(bins@[j]) && out@[j].1
                    == bins@[j].count,
        decreases bins@.len() - i,
    {
        let bin = bins[i];
        let lower = format_human_size(bin.lower);
        let upper = format_human_size(bin.upper);
        out.push((range_label(lower.as_str(), upper.as_str()), bin.count));
        i = i + 1;
    }
    out
}

} // verus!
