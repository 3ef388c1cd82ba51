//! Views on a stitched dataset: labels, lists and chart data.
pub mod inbound_prefix_idx;
pub mod mermaid;
pub mod proc_oper_graph;
pub mod ranking;
pub mod scope;
pub mod selection;
pub mod types;
pub mod chain_list;
pub mod data_set;

use super::stitch_list::StitchSourceItem;
use super::stitched::Stitched;
use crate::text::{chars_of, decimal, str_eq, string_of, views};
use vstd::prelude::*;
use vstd::string::*;

verus! {

/// Whether `m` is one of the two-digit months "01" ..= "12".
pub open spec fn valid_month(m: Seq<char>) -> bool {
    ||| m == "01"@
    ||| m == "02"@
    ||| m == "03"@
    ||| m == "04"@
    ||| m == "05"@
    ||| m == "06"@
    ||| m == "07"@
    ||| m == "08"@
    ||| m == "09"@
    ||| m == "10"@
    ||| m == "11"@
    ||| m == "12"@
}

/// The short name of a two-digit month, as the graph labels write it: "10" is written "Sept",
/// so that a date 20231008 is labelled "Sept 8".
pub open spec fn month_name(m: Seq<char>) -> Seq<char> {
    if m == "01"@ { "Jan"@ }
    else if m == "02"@ { "Febr"@ }
    else if m == "03"@ { "March"@ }
    else if m == "04"@ { "April"@ }
    else if m == "05"@ { "May"@ }
    else if m == "06"@ { "June"@ }
    else if m == "07"@ { "July"@ }
    else if m == "08"@ { "Aug"@ }
    else if m == "09"@ { "Sept"@ }
    else if m == "10"@ { "Sept"@ }
    else if m == "11"@ { "Nov"@ }
    else { "Dec"@ }
}

/// The labels name the calendar months: January "Jan", February "Febr", March "March",
/// April "April", May "May", June "June", July "July", August "Aug", September "Sept",
/// November "Nov" and December "Dec"; October is written "Sept", as a date 20231008 is
/// labelled "Sept 8".
pub proof fn law_month_names()
    ensures
        month_name("01"@) == "Jan"@,
        month_name("02"@) == "Febr"@,
        month_name("03"@) == "March"@,
        month_name("04"@) == "April"@,
        month_name("05"@) == "May"@,
        month_name("06"@) == "June"@,
        month_name("07"@) == "July"@,
        month_name("08"@) == "Aug"@,
        month_name("09"@) == "Sept"@,
        month_name("10"@) == "Sept"@,
        month_name("11"@) == "Nov"@,
        month_name("12"@) == "Dec"@,
{
    reveal_strlit("01");
    reveal_strlit("Jan");
    reveal_strlit("02");
    reveal_strlit("Febr");
    reveal_strlit("03");
    reveal_strlit("March");
    reveal_strlit("04");
    reveal_strlit("April");
    reveal_strlit("05");
    reveal_strlit("May");
    reveal_strlit("06");
    reveal_strlit("June");
    reveal_strlit("07");
    reveal_strlit("July");
    reveal_strlit("08");
    reveal_strlit("Aug");
    reveal_strlit("09");
    reveal_strlit("Sept");
    reveal_strlit("10");
    reveal_strlit("Sept");
    reveal_strlit("11");
    reveal_strlit("Nov");
    reveal_strlit("12");
    reveal_strlit("Dec");
    assert("02"@[1] != "01"@[1]);
    assert("03"@[1] != "01"@[1]);
    assert("03"@[1] != "02"@[1]);
    assert("04"@[1] != "01"@[1]);
    assert("04"@[1] != "02"@[1]);
    assert("04"@[1] != "03"@[1]);
    assert("05"@[1] != "01"@[1]);
    assert("05"@[1] != "02"@[1]);
    assert("05"@[1] != "03"@[1]);
    assert("05"@[1] != "04"@[1]);
    assert("06"@[1] != "01"@[1]);
    assert("06"@[1] != "02"@[1]);
    assert("06"@[1] != "03"@[1]);
    assert("06"@[1] != "04"@[1]);
    assert("06"@[1] != "05"@[1]);
    assert("07"@[1] != "01"@[1]);
    assert("07"@[1] != "02"@[1]);
    assert("07"@[1] != "03"@[1]);
    assert("07"@[1] != "04"@[1]);
    assert("07"@[1] != "05"@[1]);
    assert("07"@[1] != "06"@[1]);
    assert("08"@[1] != "01"@[1]);
    assert("08"@[1] != "02"@[1]);
    assert("08"@[1] != "03"@[1]);
    assert("08"@[1] != "04"@[1]);
    assert("08"@[1] != "05"@[1]);
    assert("08"@[1] != "06"@[1]);
    assert("08"@[1] != "07"@[1]);
    assert("09"@[1] != "01"@[1]);
    assert("09"@[1] != "02"@[1]);
    assert("09"@[1] != "03"@[1]);
    assert("09"@[1] != "04"@[1]);
    assert("09"@[1] != "05"@[1]);
    assert("09"@[1] != "06"@[1]);
    assert("09"@[1] != "07"@[1]);
    assert("09"@[1] != "08"@[1]);
    assert("10"@[0] != "01"@[0]);
    assert("10"@[0] != "02"@[0]);
    assert("10"@[0] != "03"@[0]);
    assert("10"@[0] != "04"@[0]);
    assert("10"@[0] != "05"@[0]);
    assert("10"@[0] != "06"@[0]);
    assert("10"@[0] != "07"@[0]);
    assert("10"@[0] != "08"@[0]);
    assert("10"@[0] != "09"@[0]);
    assert("11"@[0] != "01"@[0]);
    assert("11"@[0] != "02"@[0]);
    assert("11"@[0] != "03"@[0]);
    assert("11"@[0] != "04"@[0]);
    assert("11"@[0] != "05"@[0]);
    assert("11"@[0] != "06"@[0]);
    assert("11"@[0] != "07"@[0]);
    assert("11"@[0] != "08"@[0]);
    assert("11"@[0] != "09"@[0]);
    assert("11"@[1] != "10"@[1]);
    assert("12"@[0] != "01"@[0]);
    assert("12"@[0] != "02"@[0]);
    assert("12"@[0] != "03"@[0]);
    assert("12"@[0] != "04"@[0]);
    assert("12"@[0] != "05"@[0]);
    assert("12"@[0] != "06"@[0]);
    assert("12"@[0] != "07"@[0]);
    assert("12"@[0] != "08"@[0]);
    assert("12"@[0] != "09"@[0]);
    assert("12"@[1] != "10"@[1]);
    assert("12"@[1] != "11"@[1]);
}

/// Map a two-digit month like "02" to its name, like "Febr".
pub fn get_month_description(month: &str) -> (r: &'static str)
    requires
        valid_month(month@),
    ensures
        r@ == month_name(month@),
{
    if str_eq(month, "01") { "Jan" }
    else if str_eq(month, "02") { "Febr" }
    else if str_eq(month, "03") { "March" }
    else if str_eq(month, "04") { "April" }
    else if str_eq(month, "05") { "May" }
    else if str_eq(month, "06") { "June" }
    else if str_eq(month, "07") { "July" }
    else if str_eq(month, "08") { "Aug" }
    else if str_eq(month, "09") { "Sept" }
    else if str_eq(month, "10") { "Sept" }
    else if str_eq(month, "11") { "Nov" }
    else { "Dec" }
}

/// The year, month and day groups of the first match of the pattern `(\d{4})(\d{2})(\d{2})`
/// in `description`, or `None` when the pattern does not occur.
pub uninterp spec fn date_captures(description: Seq<char>) -> Option<(Seq<char>, Seq<char>, Seq<char>)>;

/// `regex::Regex::captures` with the pattern `(\d{4})(\d{2})(\d{2})`, groups extracted by `Captures::extract`.
/// The contract names the result as a function of the description and states that the groups
/// hold 4, 2 and 2 characters; which characters are Unicode decimal digits is left unsaid.
#[verifier::external_body]
fn capture_date(description: &str) -> (r: Option<(String, String, String)>)
    ensures
        match r {
            Some((y, m, d)) => date_captures(description@) == Some((y@, m@, d@)) && y@.len() == 4
                && m@.len() == 2 && d@.len() == 2,
            None => date_captures(description@) is None,
        },
{
    let re = regex::Regex::new(r"(\d{4})(\d{2})(\d{2})").expect("Failed to create regexp for dates");
    match re.captures(description) {
        Some(caps) => {
            let (_full, [year, month, day]) = caps.extract();
            Some((year.to_string(), month.to_string(), day.to_string()))
        },
        None => None,
    }
}

/// `d` without its first character when that character is '0'.
pub open spec fn strip_leading_zero(d: Seq<char>) -> Seq<char> {
    if d.len() > 0 && d[0] == '0' {
        d.drop_first()
    } else {
        d
    }
}

/// The label of the column with index `idx` whose description has date groups `caps`:
/// "Month day" (day without a leading zero, after a space) when a date was found, else the index.
pub open spec fn label_of(caps: Option<(Seq<char>, Seq<char>, Seq<char>)>, idx: nat) -> Seq<char> {
    match caps {
        Some((_y, m, d)) => month_name(m) + seq![' '] + strip_leading_zero(d),
        None => decimal(idx),
    }
}

/// Whether the date groups `caps` (if any) hold a valid month.
pub open spec fn caps_ok(caps: Option<(Seq<char>, Seq<char>, Seq<char>)>) -> bool {
    match caps {
        Some((_y, m, _d)) => valid_month(m),
        None => true,
    }
}

/// The label of the column with index `idx`, given the date groups found in its description.
pub fn label_from_captures(caps: &Option<(String, String, String)>, idx: usize) -> (r: String)
    requires
        match caps {
            Some((_y, m, _d)) => valid_month(m@),
            None => true,
        },
    ensures
        r@ == label_of(
            match caps {
                Some((y, m, d)) => Some((y@, m@, d@)),
                None => None,
            },
            idx as nat,
        ),
{
    match caps {
        Some((_year, month, day)) => {
            let mut r = get_month_description(month.as_str()).to_owned();
            crate::text::push_char(&mut r, ' ');
            let dv = chars_of(day.as_str());
            let mut stripped: Vec<char> = Vec::new();
            let mut i: usize = if dv.len() > 0 && dv[0] == '0' { 1 } else { 0 };
            let start = i;
            while i < dv.len()
                invariant
                    start <= i <= dv.len(),
                    stripped@ == dv@.subrange(start as int, i as int),
                decreases dv.len() - i,
            {
                stripped.push(dv[i]);
                i = i + 1;
            }
            assert(dv@.subrange(start as int, dv.len() as int) =~= strip_leading_zero(day@));
            let ds = string_of(&stripped);
            r.append(ds.as_str());
            r
        },
        None => crate::text::usize_to_string(idx),
    }
}

/// The descriptions of the numbered sources, in order.
pub open spec fn column_descriptions(items: Seq<(Option<u32>, Seq<char>)>) -> Seq<Seq<char>>
    decreases items.len(),
{
    if items.len() == 0 {
        seq![]
    } else {
        let prev = column_descriptions(items.drop_last());
        if items.last().0 is Some {
            prev.push(items.last().1)
        } else {
            prev
        }
    }
}

/// Every date found in a column description holds a valid month.
pub open spec fn dates_ok(descs: Seq<Seq<char>>) -> bool {
    forall|i: int| 0 <= i < descs.len() ==> caps_ok(#[trigger] date_captures(descs[i]))
}

/// The labels of the graphs, one per numbered source.
pub open spec fn label_list(descs: Seq<Seq<char>>) -> Seq<Seq<char>> {
    Seq::new(descs.len(), |i: int| label_of(date_captures(descs[i]), i as nat))
}

/// Find the list of labels for the graphs from the source descriptions: a description holding a
/// date yyyymmdd (say "20231008") gives "Sept 8"; otherwise the label is the column's index.
pub fn get_label_list(data: &Stitched) -> (r: Vec<String>)
    requires
        dates_ok(column_descriptions(data.sources.view_items())),
    ensures
        views(r@) == label_list(column_descriptions(data.sources.view_items())),
{
    let ghost items = data.sources.view_items();
    let mut r: Vec<String> = Vec::new();
    let mut idx: usize = 0;
    let mut i: usize = 0;
    while i < data.sources.0.len()
        invariant
            i <= data.sources.0.len(),
            items == data.sources.view_items(),
            dates_ok(column_descriptions(items)),
            idx == column_descriptions(items.take(i as int)).len(),
            idx <= i,
            views(r@) == label_list(column_descriptions(items.take(i as int))),
        decreases data.sources.0.len() - i,
    {
        let src: &StitchSourceItem = &data.sources.0[i];
        let ghost before = column_descriptions(items.take(i as int));
        assert(items.take(i + 1).drop_last() =~= items.take(i as int));
        if src.column.is_some() {
            proof {
                lemma_column_descriptions_prefix(items, i as int);
                assert(column_descriptions(items.take(i + 1)) == before.push(src.description@));
                assert(column_descriptions(items)[idx as int] == src.description@);
            }
            let caps = capture_date(src.description.as_str());
            let label = label_from_captures(&caps, idx);
            let ghost old_r = r@;
            r.push(label);
            assert(views(r@) =~= views(old_r).push(label_of(date_captures(src.description@), idx as nat)));
            assert(label_list(before.push(src.description@)) =~= label_list(before).push(
                label_of(date_captures(src.description@), idx as nat),
            ));
            idx = idx + 1;
        }
        i = i + 1;
    }
    assert(items.take(data.sources.0.len() as int) =~= items);
    r
}

/// The descriptions of a prefix are a prefix of the descriptions.
pub proof fn lemma_column_descriptions_prefix(items: Seq<(Option<u32>, Seq<char>)>, i: int)
    requires
        0 <= i < items.len(),
        items[i].0 is Some,
    ensures
        column_descriptions(items.take(i)).len() < column_descriptions(items).len(),
        column_descriptions(items)[column_descriptions(items.take(i)).len() as int] == items[i].1,
    decreases items.len(),
{
    if i == items.len() - 1 {
        assert(items.drop_last() =~= items.take(i));
    } else {
        lemma_column_descriptions_prefix(items.drop_last(), i);
        assert(items.drop_last().take(i) =~= items.take(i));
    }
}

/// The labels of the graphs, or `None` when a description holds a date with an invalid month
/// (on which `get_label_list` would not be defined).
pub fn try_get_label_list(data: &Stitched) -> (r: Option<Vec<String>>)
    ensures
        r is Some <==> dates_ok(column_descriptions(data.sources.view_items())),
        r matches Some(v) ==> views(v@) == label_list(column_descriptions(data.sources.view_items())),
{
    let ghost items = data.sources.view_items();
    let mut i: usize = 0;
    while i < data.sources.0.len()
        invariant
            i <= data.sources.0.len(),
            items == data.sources.view_items(),
            dates_ok(column_descriptions(items.take(i as int))),
        decreases data.sources.0.len() - i,
    {
        let src: &StitchSourceItem = &data.sources.0[i];
        assert(items.take(i + 1).drop_last() =~= items.take(i as int));
        if src.column.is_some() {
            let caps = capture_date(src.description.as_str());
            let ok = match &caps {
                Some((_y, m, _d)) => {
                    let mut ok = false;
                    let months = ["01", "02", "03", "04", "05", "06", "07", "08", "09", "10", "11", "12"];
                    let mut k: usize = 0;
                    while k < 12
                        invariant
                            k <= 12,
                            ok == (exists|j: int| 0 <= j < k && m@ == (#[trigger] months@[j])@),
                        decreases 12 - k,
                    {
                        if str_eq(m.as_str(), months[k]) {
                            ok = true;
                        }
                        k = k + 1;
                    }
                    proof {
                        if valid_month(m@) {
                            assert(m@ == months@[0]@ || m@ == months@[1]@ || m@ == months@[2]@
                                || m@ == months@[3]@ || m@ == months@[4]@ || m@ == months@[5]@
                                || m@ == months@[6]@ || m@ == months@[7]@ || m@ == months@[8]@
                                || m@ == months@[9]@ || m@ == months@[10]@ || m@ == months@[11]@);
                        }
                    }
                    ok
                },
                None => true,
            };
            if !ok {
                proof {
                    lemma_column_descriptions_prefix(items, i as int);
                    let k = column_descriptions(items.take(i as int)).len() as int;
                    assert(!caps_ok(date_captures(column_descriptions(items)[k])));
                }
                return None;
            }
            proof {
                let before = column_descriptions(items.take(i as int));
                assert(column_descriptions(items.take(i + 1)) == before.push(src.description@));
                assert forall|j: int|
                    0 <= j < before.len() + 1 implies caps_ok(
                    #[trigger] date_captures(before.push(src.description@)[j]),
                ) by {
                    if j < before.len() {
                        assert(before.push(src.description@)[j] == before[j]);
                    }
                }
            }
        }
        i = i + 1;
    }
    assert(items.take(data.sources.0.len() as int) =~= items);
    Some(get_label_list(data))
}

/// The lines of the basic statistics as (label, values) pairs.
pub open spec fn basic_lines(lines: Seq<super::stitched_line::StitchedLine>) -> Seq<(Seq<char>, Seq<Option<u64>>)> {
    lines.map_values(|l: super::stitched_line::StitchedLine| (l.label@, l.data@))
}

/// The chart lines as (label, values) pairs.
pub open spec fn chart_lines(lines: Seq<types::ChartLine>) -> Seq<(Seq<char>, Seq<Option<u64>>)> {
    lines.map_values(|l: types::ChartLine| (l.label@, l.data@))
}

/// The statistics per input file: the basic statistics of `data` as a table whose
/// columns carry the labels of the input files.
pub fn get_file_stats(data: &Stitched) -> (r: types::Table)
    requires
        dates_ok(column_descriptions(data.sources.view_items())),
    ensures
        views(r.column_labels@) == label_list(column_descriptions(data.sources.view_items())),
        chart_lines(r.data@) == basic_lines(data.basic.0@),
{
    let mut values: Vec<types::ChartLine> = Vec::new();
    let mut i: usize = 0;
    while i < data.basic.0.len()
        invariant
            i <= data.basic.0@.len(),
            chart_lines(values@) == basic_lines(data.basic.0@).take(i as int),
        decreases data.basic.0.len() - i,
    {
        let sl = &data.basic.0[i];
        let mut line_data: Vec<Option<u64>> = Vec::new();
        let mut j: usize = 0;
        while j < sl.data.len()
            invariant
                j <= sl.data@.len(),
                line_data@ == sl.data@.take(j as int),
            decreases sl.data.len() - j,
        {
            line_data.push(sl.data[j]);
            j = j + 1;
            assert(line_data@ =~= sl.data@.take(j as int));
        }
        assert(sl.data@.take(j as int) =~= sl.data@);
        let ghost before = chart_lines(values@);
        values.push(types::ChartLine { label: sl.label.clone(), data: line_data });
        assert(chart_lines(values@) =~= before.push((sl.label@, sl.data@)));
        assert(basic_lines(data.basic.0@).take(i + 1) =~= basic_lines(data.basic.0@).take(i as int).push(
            (sl.label@, sl.data@),
        ));
        i = i + 1;
    }
    assert(basic_lines(data.basic.0@).take(i as int) =~= basic_lines(data.basic.0@));
    types::Table { column_labels: get_label_list(data), data: values }
}

/// The statistics per input file, or `None` when a source description holds a date
/// with an invalid month.
pub fn try_get_file_stats(data: &Stitched) -> (r: Option<types::Table>)
    ensures
        r is Some <==> dates_ok(column_descriptions(data.sources.view_items())),
        r matches Some(t) ==> views(t.column_labels@) == label_list(column_descriptions(data.sources.view_items()))
            && chart_lines(t.data@) == basic_lines(data.basic.0@),
{
    if try_get_label_list(data).is_some() {
        Some(get_file_stats(data))
    } else {
        None
    }
}

} // verus!
