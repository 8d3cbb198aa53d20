//! Aligning two series of dated returns.
//!
//! Two series are aligned by calendar date: a return of the first series is
//! kept when the second series has a return on the same date, and the two
//! are paired. Dates are read by the `chrono` crate from the first word of
//! each date-time text.

use std::collections::HashMap;
use vstd::prelude::*;
use vstd::string::StrSliceExecFns;
use crate::quantitative::double::Double;
use crate::quantitative::traits::AssetReturn;
use crate::quantitative::traits::ReturnDatetime;

verus! {

broadcast use vstd::std_specs::hash::group_hash_axioms;

/// White space as Unicode defines it: the characters that separate words.
pub open spec fn whitespace(c: char) -> bool {
    let u = c as u32;
    ||| 0x09 <= u <= 0x0D
    ||| u == 0x20
    ||| u == 0x85
    ||| u == 0xA0
    ||| u == 0x1680
    ||| 0x2000 <= u <= 0x200A
    ||| u == 0x2028
    ||| u == 0x2029
    ||| u == 0x202F
    ||| u == 0x205F
    ||| u == 0x3000
}

/// Decides [`whitespace`].
pub fn is_whitespace(c: char) -> (r: bool)
    ensures
        r == whitespace(c),
{
    let u: u32 = c as u32;
    (0x09 <= u && u <= 0x0D) || u == 0x20 || u == 0x85 || u == 0xA0 || u == 0x1680 || (0x2000 <= u
        && u <= 0x200A) || u == 0x2028 || u == 0x2029 || u == 0x202F || u == 0x205F || u == 0x3000
}

/// Number of characters at the start of `text` that are white space, if
/// `blank` is set, or that are not, if it is not.
pub open spec fn run_length(text: Seq<char>, blank: bool) -> int
    decreases text.len(),
{
    if text.len() == 0 || whitespace(text[0]) != blank {
        0
    } else {
        1 + run_length(text.drop_first(), blank)
    }
}

/// The first word of `text`: what stands between its leading white space
/// and the next white space. Empty where `text` holds no word.
pub open spec fn first_word(text: Seq<char>) -> Seq<char> {
    let from = run_length(text, true);
    let rest = text.skip(from);
    rest.take(run_length(rest, false))
}

/// A position that ends a run is its length: every character before it
/// is of the run's kind and the one at it, if there is one, is not.
pub proof fn lemma_run_length_is(text: Seq<char>, blank: bool, at: int)
    requires
        0 <= at <= text.len(),
        at < text.len() ==> whitespace(text[at]) != blank,
        forall|j: int| 0 <= j < at ==> whitespace(#[trigger] text[j]) == blank,
    ensures
        run_length(text, blank) == at,
    decreases text.len(),
{
    if at > 0 {
        assert(whitespace(text[0]) == blank);
        let rest = text.drop_first();
        assert forall|j: int| 0 <= j < at - 1 implies whitespace(#[trigger] rest[j]) == blank by {
            assert(rest[j] == text[j + 1]);
        }
        lemma_run_length_is(rest, blank, at - 1);
    }
}

/// The first word of a text.
pub fn first_token(text: &str) -> (word: &str)
    ensures
        word@ == first_word(text@),
{
    let n = text.unicode_len();
    let mut from: usize = 0;
    while from < n && is_whitespace(text.get_char(from))
        invariant
            from <= n,
            n == text@.len(),
            forall|j: int| 0 <= j < from ==> whitespace(#[trigger] text@[j]),
        decreases n - from,
    {
        from = from + 1;
    }
    proof {
        lemma_run_length_is(text@, true, from as int);
    }
    let ghost rest = text@.skip(from as int);
    let mut to: usize = from;
    while to < n && !is_whitespace(text.get_char(to))
        invariant
            from <= to <= n,
            n == text@.len(),
            rest == text@.skip(from as int),
            forall|j: int| 0 <= j < to - from ==> !whitespace(#[trigger] rest[j]),
        decreases n - to,
    {
        assert(rest[to - from] == text@[to as int]);
        to = to + 1;
    }
    proof {
        if to < n {
            assert(rest[to - from] == text@[to as int]);
        }
        lemma_run_length_is(rest, false, to - from);
        assert(text@.subrange(from as int, to as int) =~= rest.take(to - from));
    }
    text.substring_char(from, to)
}

/// The day that the `chrono` crate reads from `text` under the format
/// `pattern`, counted from the first of January of year one as day one.
/// `None` where it reads no date.
pub uninterp spec fn parsed_day(pattern: Seq<char>, text: Seq<char>) -> Option<i32>;

/// Calls `chrono::NaiveDate::parse_from_str` and numbers the date it
/// returns with `chrono::Datelike::num_days_from_ce`.
///
/// Believed, not proved: the result is [`parsed_day`] of the two texts.
#[verifier::external_body]
fn parse_day(text: &str, pattern: &str) -> (r: Option<i32>)
    ensures
        r == parsed_day(pattern@, text@),
{
    match chrono::NaiveDate::parse_from_str(text, pattern) {
        Ok(date) => Some(chrono::Datelike::num_days_from_ce(&date)),
        Err(_) => None,
    }
}

/// The day a dated return belongs to: the date read from the first word of
/// its date-time text, written as year, month and day joined by hyphens.
pub open spec fn day_of(text: Seq<char>) -> Option<i32> {
    parsed_day("%Y-%m-%d"@, first_word(text))
}

/// The return found on each day of a series. Where a day occurs more than
/// once, the last return on it stands.
pub open spec fn by_day<T: ReturnDatetime + AssetReturn>(series: Seq<T>) -> Map<i32, Double>
    decreases series.len(),
{
    if series.len() == 0 {
        Map::empty()
    } else {
        let last = series.last();
        match day_of(last.datetime_text()) {
            Some(day) => by_day(series.drop_last()).insert(day, last.return_value()),
            None => by_day(series.drop_last()),
        }
    }
}

/// The returns of `series` on days that `other` knows, in order, each
/// beside the return that `other` holds for that day.
pub open spec fn paired<T: ReturnDatetime + AssetReturn>(
    series: Seq<T>,
    other: Map<i32, Double>,
) -> (Seq<Double>, Seq<Double>)
    decreases series.len(),
{
    if series.len() == 0 {
        (Seq::empty(), Seq::empty())
    } else {
        let before = paired(series.drop_last(), other);
        let last = series.last();
        match day_of(last.datetime_text()) {
            Some(day) => if other.contains_key(day) {
                (before.0.push(last.return_value()), before.1.push(other[day]))
            } else {
                before
            },
            None => before,
        }
    }
}

/// Some entry of the series carries a text from which no date is read.
pub open spec fn undated<T: ReturnDatetime + AssetReturn>(series: Seq<T>) -> bool {
    exists|i: int| 0 <= i < series.len() && day_of((#[trigger] series[i]).datetime_text()) is None
}

/// Aligns two series of returns by date.
///
/// The second series is read first and an undated entry in it is reported
/// before one in the first series. Series that share no date are refused.
pub fn align_returns<T>(returns1: &[T], returns2: &[T]) -> (r: Result<
    (Vec<Double>, Vec<Double>),
    String,
>) where T: ReturnDatetime + AssetReturn
    ensures
        undated(returns2@) ==> (r matches Err(message) && message@
            == "Error: Invalid returns dataset 2 date format."@),
        !undated(returns2@) && undated(returns1@) ==> (r matches Err(message) && message@
            == "Error: Invalid returns dataset 1 date format."@),
        !undated(returns2@) && !undated(returns1@) && paired(returns1@, by_day(returns2@)).0.len()
            == 0 ==> (r matches Err(message) && message@
            == "Error: No overlapping dates between return dataset 1 and return dataset 2"@),
        !undated(returns2@) && !undated(returns1@) && paired(returns1@, by_day(returns2@)).0.len()
            > 0 ==> (r matches Ok(aligned) && (aligned.0@, aligned.1@) == paired(
            returns1@,
            by_day(returns2@),
        )),
{
    let mut known: HashMap<i32, Double> = HashMap::new();
    let mut j: usize = 0;
    while j < returns2.len()
        invariant
            j <= returns2.len(),
            known@ == by_day(returns2@.take(j as int)),
            forall|k: int| 0 <= k < j ==> day_of((#[trigger] returns2@[k]).datetime_text()) is Some,
        decreases returns2.len() - j,
    {
        let entry = &returns2[j];
        let word = first_token(entry.datetime());
        proof {
            assert(returns2@.take(j + 1).drop_last() =~= returns2@.take(j as int));
            assert(returns2@.take(j + 1).last() == returns2@[j as int]);
        }
        match parse_day(word, "%Y-%m-%d") {
            Some(day) => {
                known.insert(day, entry.asset_return());
            },
            None => {
                assert(day_of(returns2@[j as int].datetime_text()) is None);
                return Err("Error: Invalid returns dataset 2 date format.".to_owned());
            },
        }
        j = j + 1;
    }
    proof {
        assert(returns2@.take(j as int) =~= returns2@);
    }
    let mut aligned1: Vec<Double> = Vec::new();
    let mut aligned2: Vec<Double> = Vec::new();
    let mut i: usize = 0;
    while i < returns1.len()
        invariant
            i <= returns1.len(),
            !undated(returns2@),
            known@ == by_day(returns2@),
            (aligned1@, aligned2@) == paired(returns1@.take(i as int), known@),
            forall|k: int| 0 <= k < i ==> day_of((#[trigger] returns1@[k]).datetime_text()) is Some,
        decreases returns1.len() - i,
    {
        let entry = &returns1[i];
        let word = first_token(entry.datetime());
        proof {
            assert(returns1@.take(i + 1).drop_last() =~= returns1@.take(i as int));
            assert(returns1@.take(i + 1).last() == returns1@[i as int]);
        }
        match parse_day(word, "%Y-%m-%d") {
            Some(day) => {
                match known.get(&day) {
                    Some(other) => {
                        aligned1.push(entry.asset_return());
                        aligned2.push(*other);
                    },
                    None => {},
                }
            },
            None => {
                assert(day_of(returns1@[i as int].datetime_text()) is None);
                return Err("Error: Invalid returns dataset 1 date format.".to_owned());
            },
        }
        i = i + 1;
    }
    proof {
        assert(returns1@.take(i as int) =~= returns1@);
    }
    if aligned1.len() == 0 || aligned2.len() == 0 {
        proof {
            lemma_paired_lengths(returns1@, known@);
        }
        return Err(
            "Error: No overlapping dates between return dataset 1 and return dataset 2".to_owned(),
        );
    }
    Ok((aligned1, aligned2))
}

/// Both sides of a pairing have one entry per shared day, so they are
/// equally long.
pub proof fn lemma_paired_lengths<T: ReturnDatetime + AssetReturn>(
    series: Seq<T>,
    other: Map<i32, Double>,
)
    ensures
        paired(series, other).0.len() == paired(series, other).1.len(),
        paired(series, other).0.len() <= series.len(),
    decreases series.len(),
{
    if series.len() > 0 {
        lemma_paired_lengths(series.drop_last(), other);
    }
}

} // verus!
