//! What holds of every dataset, stated over the same models as the contracts.

use crate::cohort::{cohort, cohort_fits};
use crate::contract::well_formed;
use crate::models::weights_of;
use crate::record::{name_of, name_prefix, DataformView};
use crate::report::{
    exists_text, find_name_text, has_name, max_name_text, names_of, none_text, outcome_of, wired,
    OutcomeView,
};
use crate::stats::{
    is_rounded_root, lemma_deviation_squares_expanded, lemma_max_of, lemma_rounded_root_exists,
    lemma_spread, max_of, mean_of, spread, stdev_of, total, total_squares, variance_of,
};
use crate::text::{
    all_digits, count_of, decimal, greatest, lemma_count_of_negative, lemma_decimal,
    lemma_greatest, lemma_lex_le_antisymmetric, lex_le,
};
use vstd::arithmetic::div_mod::{lemma_fundamental_div_mod, lemma_mod_bound};
use vstd::prelude::*;

verus! {

/// The greatest identifier stored; zero where nothing is stored.
pub open spec fn last_index(records: Seq<DataformView>) -> nat {
    if records.len() == 0 {
        0
    } else {
        records.last().index
    }
}

/// A count of at most `i32::MAX`, written in decimal, is read back as itself.
pub proof fn law_written_count_is_read(n: nat)
    requires
        n <= i32::MAX,
    ensures
        count_of(decimal(n)) == n,
{
    lemma_decimal(n);
    assert(decimal(n)[0] != '+');
}

/// A count of zero or one always fits and adds no observation.
pub proof fn law_small_count_adds_nothing(records: Seq<DataformView>, count: nat)
    requires
        count <= 1,
    ensures
        cohort_fits(records.len() + 1, count),
        cohort(records.len() + 1, count).len() == 0,
        records + cohort(records.len() + 1, count) == records,
{
    assert(records + cohort(records.len() + 1, count) =~= records);
}

/// A text that starts with a minus sign adds no observation.
pub proof fn law_negative_count_adds_nothing(records: Seq<DataformView>, data: Seq<char>)
    requires
        data.len() > 0,
        data[0] == '-',
    ensures
        cohort_fits(records.len() + 1, count_of(data)),
        records + cohort(records.len() + 1, count_of(data)) == records,
{
    lemma_count_of_negative(data);
    law_small_count_adds_nothing(records, 0);
}

/// A count `n` of two or more adds `20 * (n - 1)` observations, and their
/// identifiers run on without a gap from the greatest identifier stored.
pub proof fn law_cohort_continues(records: Seq<DataformView>, count: nat)
    requires
        well_formed(records),
        count >= 2,
    ensures
        cohort(records.len() + 1, count).len() == 20 * (count - 1),
        forall|k: int|
            0 <= k < 20 * (count - 1) ==> (#[trigger] cohort(records.len() + 1, count)[k]).index
                == last_index(records) + 1 + k,
{
    if records.len() > 0 {
        assert(records[records.len() - 1].index == records.len());
    }
}

/// In a dataset the identifiers grow strictly in storage order, so that no
/// two observations share one.
pub proof fn law_identifiers_increase(records: Seq<DataformView>, i: int, j: int)
    requires
        well_formed(records),
        0 <= i < j < records.len(),
    ensures
        records[i].index < records[j].index,
{
}

/// In a dataset no two observations share a label.
pub proof fn law_labels_distinct(records: Seq<DataformView>, i: int, j: int)
    requires
        well_formed(records),
        0 <= i < records.len(),
        0 <= j < records.len(),
        i != j,
    ensures
        records[i].name != records[j].name,
{
    lemma_decimal((i + 1) as nat);
    lemma_decimal((j + 1) as nat);
    if records[i].name == records[j].name {
        assert(records[i].name.skip(4) =~= decimal((i + 1) as nat));
        assert(records[j].name.skip(4) =~= decimal((j + 1) as nat));
    }
}

/// The mean is the integer nearest to the sum divided by the size: it is off
/// by at most a half.
pub proof fn law_mean_is_nearest(ws: Seq<nat>)
    requires
        ws.len() > 0,
    ensures
        2 * mean_of(ws) * ws.len() - ws.len() <= 2 * total(ws) < 2 * mean_of(ws) * ws.len()
            + ws.len(),
{
    let n = ws.len() as int;
    lemma_nearest(total(ws), n);
}

/// The spread, which is the squared deviations from the mean scaled by the
/// square of the size, is the size times the sum of squares less the square
/// of the sum, scaled by the size.
pub proof fn law_spread_by_sums(ws: Seq<nat>)
    ensures
        spread(ws) == ws.len() * (ws.len() * total_squares(ws) - total(ws) * total(ws)),
        spread(ws) >= 0,
{
    lemma_spread(ws);
}

/// The variance is the integer nearest to the mean squared deviation from
/// the mean: it is off by at most a half.
pub proof fn law_variance_is_nearest(ws: Seq<nat>)
    requires
        ws.len() > 0,
    ensures
        ({
            let cube = ws.len() * ws.len() * ws.len();
            2 * variance_of(ws) * cube - cube <= 2 * spread(ws) < 2 * variance_of(ws) * cube
                + cube
        }),
{
    let n = ws.len() as int;
    assert(n * n * n > 0) by (nonlinear_arith)
        requires
            n > 0,
    ;
    lemma_nearest(spread(ws), n * n * n);
}

/// The standard deviation of two or more values is the integer nearest to
/// the square root of the sum of the squared deviations from the mean divided
/// by one less than the size: it is off by at most a half.
pub proof fn law_stdev_is_nearest(ws: Seq<nat>)
    requires
        ws.len() >= 2,
    ensures
        is_rounded_root(stdev_of(ws), spread(ws), ws.len() * ws.len() * (ws.len() - 1)),
{
    let n = ws.len() as int;
    lemma_deviation_squares_expanded(ws, n, total(ws));
    assert(n * n * (n - 1) > 0) by (nonlinear_arith)
        requires
            n >= 2,
    ;
    lemma_rounded_root_exists(spread(ws), n * n * (n - 1));
}

/// The largest weight is the weight of one of the observations and no
/// observation weighs more; where nothing is stored it is zero.
pub proof fn law_max_weight(records: Seq<DataformView>)
    ensures
        records.len() == 0 ==> max_of(weights_of(records)) == 0,
        forall|i: int|
            0 <= i < records.len() ==> (#[trigger] records[i]).weight <= max_of(
                weights_of(records),
            ),
        records.len() > 0 ==> exists|i: int|
            0 <= i < records.len() && (#[trigger] records[i]).weight == max_of(
                weights_of(records),
            ),
{
    let ws = weights_of(records);
    lemma_max_of(ws);
    assert forall|i: int| 0 <= i < records.len() implies (#[trigger] records[i]).weight
        <= max_of(ws) by {
        assert(ws[i] == records[i].weight);
    }
    if records.len() > 0 {
        let at = choose|i: int| 0 <= i < ws.len() && #[trigger] ws[i] == max_of(ws);
        assert(records[at].weight == max_of(ws));
    }
}

/// Every label of a dataset is the prefix followed by a decimal numeral, so a
/// text of another shape is never found.
pub proof fn law_label_shape(records: Seq<DataformView>, name: Seq<char>)
    requires
        well_formed(records),
        has_name(records, name),
    ensures
        name.len() > 4,
        name.take(4) == name_prefix(),
        all_digits(name.skip(4)),
{
    let i = choose|i: int| 0 <= i < records.len() && (#[trigger] records[i]).name == name;
    lemma_decimal((i + 1) as nat);
    assert(name.take(4) =~= name_prefix());
    assert(name.skip(4) =~= decimal((i + 1) as nat));
}

/// A dataset holds a label exactly if it is the label of one of the
/// identifiers from 1 to the number of observations stored.
pub proof fn law_find_name(records: Seq<DataformView>, name: Seq<char>)
    requires
        well_formed(records),
    ensures
        has_name(records, name) <==> exists|index: nat|
            1 <= index <= records.len() && #[trigger] name_of(index) == name,
{
    if has_name(records, name) {
        let i = choose|i: int| 0 <= i < records.len() && (#[trigger] records[i]).name == name;
        assert(name_of((i + 1) as nat) == name);
    }
    if exists|index: nat| 1 <= index <= records.len() && #[trigger] name_of(index) == name {
        let index = choose|index: nat|
            1 <= index <= records.len() && #[trigger] name_of(index) == name;
        assert(records[index - 1].name == name);
    }
}

/// As soon as anything is stored, the label of the first identifier is found.
pub proof fn law_first_label_found(records: Seq<DataformView>)
    requires
        well_formed(records),
        records.len() > 0,
    ensures
        find_name_text(records, seq!['N', 'A', 'M', 'E', '1']) == exists_text(),
{
    assert(decimal(1) =~= seq!['1']);
    assert(name_of(1) =~= seq!['N', 'A', 'M', 'E', '1']);
    assert(records[0].name == name_of(1));
}

/// While nothing is stored the greatest label is the text for nothing;
/// otherwise it is the label of one of the observations, and no label comes
/// after it in lexicographic order.
pub proof fn law_max_name(records: Seq<DataformView>)
    ensures
        records.len() == 0 ==> max_name_text(records) == none_text(),
        records.len() > 0 ==> has_name(records, max_name_text(records)),
        records.len() > 0 ==> forall|i: int|
            0 <= i < records.len() ==> lex_le(
                (#[trigger] records[i]).name,
                max_name_text(records),
            ),
{
    if records.len() > 0 {
        let names = names_of(records);
        lemma_greatest(names);
        let at = choose|i: int| 0 <= i < names.len() && #[trigger] names[i] == greatest(names);
        assert(records[at].name == max_name_text(records));
        assert forall|i: int| 0 <= i < records.len() implies lex_le(
            (#[trigger] records[i]).name,
            max_name_text(records),
        ) by {
            assert(names[i] == records[i].name);
        }
    }
}

/// A label of the dataset that no label comes after is the greatest label:
/// there is one such label only.
pub proof fn law_max_name_unique(records: Seq<DataformView>, name: Seq<char>)
    requires
        has_name(records, name),
        forall|i: int| 0 <= i < records.len() ==> lex_le((#[trigger] records[i]).name, name),
    ensures
        name == max_name_text(records),
{
    law_max_name(records);
    let top = max_name_text(records);
    let at = choose|i: int| 0 <= i < records.len() && (#[trigger] records[i]).name == top;
    let here = choose|i: int| 0 <= i < records.len() && (#[trigger] records[i]).name == name;
    assert(lex_le(records[at].name, name));
    assert(lex_le(records[here].name, top));
    lemma_lex_le_antisymmetric(name, top);
}

/// Two reports on the same observations are the same report.
pub proof fn law_report_repeats(
    records: Seq<DataformView>,
    first: OutcomeView,
    second: OutcomeView,
)
    requires
        first == outcome_of(records, wired()),
        second == outcome_of(records, wired()),
    ensures
        first == second,
{
}

/// The rounded ratio is within a half of the ratio.
proof fn lemma_nearest(num: int, den: int)
    requires
        den > 0,
    ensures
        ({
            let r = crate::stats::round_ratio(num, den);
            2 * r * den - den <= 2 * num < 2 * r * den + den
        }),
{
    let r = (2 * num + den) / (2 * den);
    let m = (2 * num + den) % (2 * den);
    lemma_fundamental_div_mod(2 * num + den, 2 * den);
    lemma_mod_bound(2 * num + den, 2 * den);
    assert(2 * r * den - den <= 2 * num < 2 * r * den + den) by (nonlinear_arith)
        requires
            2 * num + den == (2 * den) * r + m,
            0 <= m < 2 * den,
    ;
}

} // verus!
