//! Following an inscribed satoshi through a transaction: where each input's
//! value starts among the outputs, and which output a given offset falls in.
use vstd::prelude::*;
use vstd::string::StringExecFns;
use crate::text::{decimal, u64_to_decimal};

verus! {

/// Sum of a sequence of amounts.
pub open spec fn sum(s: Seq<u64>) -> int
    decreases s.len(),
{
    if s.len() == 0 {
        0
    } else {
        sum(s.drop_last()) + s.last()
    }
}

/// Every input's value is known.
pub open spec fn all_known(s: Seq<Option<u64>>) -> bool {
    forall|i: int| 0 <= i < s.len() ==> #[trigger] s[i] is Some
}

/// The known values of the inputs.
pub open spec fn known_values(s: Seq<Option<u64>>) -> Seq<u64> {
    s.map_values(|o: Option<u64>| o.unwrap())
}

/// The input values once the fee is taken from the last inputs: inputs are
/// dropped from the end while the fee left covers them, and the last one
/// kept is reduced by the rest of the fee.
pub open spec fn pay_fee(vals: Seq<u64>, fee: int) -> Seq<u64>
    decreases vals.len(),
{
    if vals.len() == 0 {
        vals
    } else if vals.last() > fee {
        vals.drop_last().push((vals.last() - fee) as u64)
    } else {
        pay_fee(vals.drop_last(), fee - vals.last())
    }
}

/// The running totals before each value: the offset at which each input
/// starts.
pub open spec fn start_offsets(vals: Seq<u64>) -> Seq<u64> {
    Seq::new(vals.len(), |i: int| sum(vals.take(i)) as u64)
}

/// Why an inscription is considered leaked (it lands in no output).
#[derive(Debug, Clone, Copy, PartialEq, Eq)]
pub enum LeakError {
    /// `leaked: offset is None`
    NoOffset,
    /// `leaked: offset is too large for total_output`
    OffsetTooLarge { offset: u64, total_output: u64 },
    /// `leaked: offset exhausted`
    Exhausted,
}

/// The text of a leak error.
pub open spec fn leak_error_text(e: LeakError) -> Seq<char> {
    match e {
        LeakError::NoOffset => "leaked: offset is None"@,
        LeakError::OffsetTooLarge { offset, total_output } => "leaked: offset="@ + decimal(offset as nat)
            + " is too large for total_output="@ + decimal(total_output as nat),
        LeakError::Exhausted => "leaked: offset exhausted"@,
    }
}

impl LeakError {
    /// The error's text.
    pub fn message(&self) -> (r: String)
        ensures
            r@ == leak_error_text(*self),
    {
        match *self {
            LeakError::NoOffset => String::from_str("leaked: offset is None"),
            LeakError::OffsetTooLarge { offset, total_output } => {
                let mut out = String::from_str("leaked: offset=");
                let o = u64_to_decimal(offset);
                out.append(o.as_str());
                out.append(" is too large for total_output=");
                let t = u64_to_decimal(total_output);
                out.append(t.as_str());
                out
            },
            LeakError::Exhausted => String::from_str("leaked: offset exhausted"),
        }
    }
}

proof fn lemma_sum_take_step(s: Seq<u64>, i: int)
    requires
        0 <= i < s.len(),
    ensures
        sum(s.take(i + 1)) == sum(s.take(i)) + s[i],
{
    assert(s.take(i + 1).drop_last() =~= s.take(i));
}

proof fn lemma_sum_nonneg(s: Seq<u64>)
    ensures
        sum(s) >= 0,
    decreases s.len(),
{
    if s.len() > 0 {
        lemma_sum_nonneg(s.drop_last());
    }
}

proof fn lemma_sum_nonneg_mono(s: Seq<u64>, i: int, j: int)
    requires
        0 <= i <= j <= s.len(),
    ensures
        0 <= sum(s.take(i)) <= sum(s.take(j)),
    decreases j - i,
{
    lemma_sum_nonneg(s.take(i));
    if i < j {
        lemma_sum_nonneg_mono(s, i, j - 1);
        lemma_sum_take_step(s, j - 1);
    }
}

proof fn lemma_sum_all(s: Seq<u64>)
    ensures
        sum(s.take(s.len() as int)) == sum(s),
{
    assert(s.take(s.len() as int) =~= s);
}

/// The start offsets are running totals: the first input starts at 0, each
/// next one where the one before it ends, and the last ends at the total.
pub proof fn law_offsets_are_running_totals(vals: Seq<u64>)
    requires
        sum(vals) <= u64::MAX,
    ensures
        start_offsets(vals).len() == vals.len(),
        vals.len() > 0 ==> start_offsets(vals)[0] == 0,
        forall|i: int|
            0 <= i < vals.len() - 1 ==> #[trigger] start_offsets(vals)[i + 1] == start_offsets(vals)[i] + vals[i],
        vals.len() > 0 ==> start_offsets(vals)[vals.len() - 1] + vals[vals.len() - 1] == sum(vals),
{
    assert forall|i: int| 0 <= i < vals.len() implies start_offsets(vals)[i] == sum(vals.take(i))
        && sum(vals.take(i + 1)) == sum(vals.take(i)) + vals[i] && sum(vals.take(i + 1)) <= sum(vals) by {
        lemma_sum_nonneg_mono(vals, i, i + 1);
        lemma_sum_nonneg_mono(vals, i + 1, vals.len() as int);
        lemma_sum_take_step(vals, i);
        lemma_sum_all(vals);
    }
    if vals.len() > 0 {
        assert(vals.take(0) =~= Seq::<u64>::empty());
        lemma_sum_all(vals);
    }
    assert forall|i: int|
        0 <= i < vals.len() - 1 implies #[trigger] start_offsets(vals)[i + 1] == start_offsets(vals)[i] + vals[i] by {
        assert(start_offsets(vals)[i + 1] == sum(vals.take(i + 1)));
        assert(start_offsets(vals)[i] == sum(vals.take(i)));
    }
}

/// Taking the fee from the inputs leaves exactly the value of the outputs:
/// the values left add up to the inputs' total less the fee.
pub proof fn law_fee_taken_from_inputs(vals: Seq<u64>, fee: int)
    requires
        0 <= fee <= sum(vals),
    ensures
        sum(pay_fee(vals, fee)) == sum(vals) - fee,
        pay_fee(vals, fee).len() <= vals.len(),
    decreases vals.len(),
{
    if vals.len() > 0 {
        let init = vals.drop_last();
        if vals.last() > fee {
            let r = init.push((vals.last() - fee) as u64);
            assert(r.drop_last() =~= init);
        } else {
            law_fee_taken_from_inputs(init, fee - vals.last());
        }
    }
}

proof fn lemma_pay_fee_prefix(vals: Seq<u64>, fee: int)
    requires
        0 <= fee,
    ensures
        forall|i: int| 0 <= i < pay_fee(vals, fee).len() ==> #[trigger] pay_fee(vals, fee)[i] <= vals[i],
        pay_fee(vals, fee).len() <= vals.len(),
    decreases vals.len(),
{
    if vals.len() > 0 {
        let init = vals.drop_last();
        if vals.last() <= fee {
            lemma_pay_fee_prefix(init, fee - vals.last());
            assert forall|i: int| 0 <= i < pay_fee(vals, fee).len() implies #[trigger] pay_fee(vals, fee)[i] <= vals[i] by {
                assert(pay_fee(init, fee - vals.last())[i] <= init[i]);
            }
        }
    }
}

/// Sums of prefixes of a sequence stay within the sum of the whole.
proof fn lemma_prefix_sums_bounded(s: Seq<u64>)
    ensures
        forall|i: int| 0 <= i <= s.len() ==> 0 <= #[trigger] sum(s.take(i)) <= sum(s),
{
    assert forall|i: int| 0 <= i <= s.len() implies 0 <= #[trigger] sum(s.take(i)) <= sum(s) by {
        lemma_sum_nonneg_mono(s, i, s.len() as int);
        lemma_sum_all(s);
    }
}

proof fn lemma_pay_fee_sum_bounded(vals: Seq<u64>, fee: int)
    requires
        0 <= fee,
    ensures
        sum(pay_fee(vals, fee)) <= sum(vals),
    decreases vals.len(),
{
    if vals.len() > 0 {
        let init = vals.drop_last();
        if vals.last() > fee {
            let r = init.push((vals.last() - fee) as u64);
            assert(r.drop_last() =~= init);
        } else {
            lemma_pay_fee_sum_bounded(init, fee - vals.last());
            lemma_prefix_sums_bounded(vals);
            lemma_sum_all(init);
        }
    }
}

/// The position of a satoshi: the first output whose running total passes
/// `offset`, and the offset within it.
pub open spec fn output_of_offset(outs: Seq<u64>, offset: int) -> (int, int)
    decreases outs.len(),
{
    if outs.len() == 0 || offset < outs[0] {
        (0, offset)
    } else {
        let (i, o) = output_of_offset(outs.drop_first(), offset - outs[0]);
        (i + 1, o)
    }
}

proof fn lemma_sum_first(s: Seq<u64>)
    requires
        s.len() > 0,
    ensures
        sum(s) == s[0] + sum(s.drop_first()),
    decreases s.len(),
{
    let t = s.drop_first();
    if s.len() > 1 {
        lemma_sum_first(s.drop_last());
        assert(s.drop_last().drop_first() =~= t.drop_last());
        assert(t.last() == s.last());
        assert(sum(t) == sum(t.drop_last()) + t.last());
        assert(sum(s) == sum(s.drop_last()) + s.last());
        assert(s.drop_last()[0] == s[0]);
    } else {
        assert(t.len() == 0);
        assert(s.drop_last().len() == 0);
        assert(sum(s.drop_last()) == 0);
        assert(sum(t) == 0);
        assert(sum(s) == sum(s.drop_last()) + s.last());
    }
}

proof fn lemma_output_of_offset(outs: Seq<u64>, offset: int)
    requires
        0 <= offset < sum(outs),
    ensures
        ({
            let (i, o) = output_of_offset(outs, offset);
            &&& 0 <= i < outs.len()
            &&& 0 <= o < outs[i]
            &&& sum(outs.take(i)) + o == offset
        }),
    decreases outs.len(),
{
    if outs.len() == 0 {
    } else {
        lemma_sum_first(outs);
        if offset >= outs[0] {
            let rest = outs.drop_first();
            lemma_output_of_offset(rest, offset - outs[0]);
            let (i, o) = output_of_offset(rest, offset - outs[0]);
            assert(outs.take(i + 1).drop_first() =~= rest.take(i));
            lemma_sum_first(outs.take(i + 1));
        } else {
            assert(outs.take(0).len() == 0);
        }
    }
}

/// Tracks where inscribed satoshis go in a transaction.
pub struct InscriptionSearcher {}

impl InscriptionSearcher {
    /// The offset, among the outputs, at which each input's value starts.
    ///
    /// `inputs` holds the value of each input's previous output, `None`
    /// where it is unknown; then there is no answer. Otherwise the fee
    /// (inputs less outputs) is taken from the last inputs and the running
    /// totals of what is left are returned. `requires` leaves out amounts
    /// whose totals overflow and outputs worth more than the inputs, on which
    /// the subtraction would fail.
    pub fn calc_offsets(inputs: &Vec<Option<u64>>, outputs: &Vec<u64>) -> (res: Option<Vec<u64>>)
        requires
            all_known(inputs@) ==> sum(known_values(inputs@)) <= u64::MAX,
            all_known(inputs@) ==> sum(outputs@) <= sum(known_values(inputs@)),
        ensures
            !all_known(inputs@) ==> res is None,
            all_known(inputs@) ==> (res matches Some(v) && v@ == start_offsets(
                pay_fee(known_values(inputs@), sum(known_values(inputs@)) - sum(outputs@)),
            )),
            all_known(inputs@) ==> ({
                let paid = pay_fee(known_values(inputs@), sum(known_values(inputs@)) - sum(outputs@));
                res matches Some(v) && v@.len() == paid.len() && (v@.len() > 0 ==> v@[0] == 0) && forall|i: int|
                    0 <= i < v@.len() - 1 ==> #[trigger] v@[i + 1] == v@[i] + paid[i]
            }),
    {
        let mut vals: Vec<u64> = Vec::new();
        let mut i: usize = 0;
        while i < inputs.len()
            invariant
                0 <= i <= inputs@.len(),
                vals@.len() == i,
                forall|k: int| 0 <= k < i ==> #[trigger] inputs@[k] == Some(vals@[k]),
            decreases inputs@.len() - i,
        {
            match inputs[i] {
                Some(v) => vals.push(v),
                None => return None,
            }
            i = i + 1;
        }
        let ghost vs = vals@;
        assert(vs =~= known_values(inputs@));
        proof {
            lemma_prefix_sums_bounded(vs);
            lemma_prefix_sums_bounded(outputs@);
            lemma_sum_all(vs);
            lemma_sum_all(outputs@);
        }
        let mut spend: u64 = 0;
        let mut k: usize = 0;
        while k < vals.len()
            invariant
                vs == vals@,
                0 <= k <= vs.len(),
                spend == sum(vs.take(k as int)),
                forall|j: int| 0 <= j <= vs.len() ==> 0 <= #[trigger] sum(vs.take(j)) <= sum(vs),
                sum(vs) <= u64::MAX,
            decreases vs.len() - k,
        {
            proof {
                lemma_sum_take_step(vs, k as int);
            }
            spend = spend + vals[k];
            k = k + 1;
        }
        let mut out_total: u64 = 0;
        let mut k: usize = 0;
        while k < outputs.len()
            invariant
                0 <= k <= outputs@.len(),
                out_total == sum(outputs@.take(k as int)),
                forall|j: int| 0 <= j <= outputs@.len() ==> 0 <= #[trigger] sum(outputs@.take(j)) <= sum(outputs@),
                sum(outputs@) <= sum(vs),
                sum(vs) <= u64::MAX,
            decreases outputs@.len() - k,
        {
            proof {
                lemma_sum_take_step(outputs@, k as int);
            }
            out_total = out_total + outputs[k];
            k = k + 1;
        }
        let mut fee: u64 = spend - out_total;
        let ghost fee0 = fee as int;
        // Take the fee from the last inputs.
        loop
            invariant_except_break
                pay_fee(vs, fee0) == pay_fee(vals@, fee as int),
            ensures
                pay_fee(vs, fee0) == vals@,
            decreases vals@.len(),
        {
            let ghost before = vals@;
            match vals.pop() {
                None => {
                    break;
                },
                Some(input) => {
                    assert(before.drop_last() =~= vals@);
                    if input > fee {
                        vals.push(input - fee);
                        break;
                    }
                    fee = fee - input;
                },
            }
        }
        proof {
            law_fee_taken_from_inputs(vs, fee0);
            lemma_pay_fee_prefix(vs, fee0);
        }
        let ghost paid = vals@;
        assert(paid == pay_fee(vs, fee0));
        proof {
            lemma_prefix_sums_bounded(paid);
        }
        let mut offsets: Vec<u64> = Vec::new();
        let mut acc: u64 = 0;
        let mut k: usize = 0;
        while k < vals.len()
            invariant
                paid == vals@,
                0 <= k <= paid.len(),
                offsets@.len() == k,
                acc == sum(paid.take(k as int)),
                forall|j: int| 0 <= j < k ==> #[trigger] offsets@[j] == sum(paid.take(j)) as u64,
                forall|j: int| 0 <= j <= paid.len() ==> 0 <= #[trigger] sum(paid.take(j)) <= sum(paid),
                sum(paid) <= u64::MAX,
            decreases paid.len() - k,
        {
            offsets.push(acc);
            proof {
                lemma_sum_take_step(paid, k as int);
            }
            acc = acc + vals[k];
            k = k + 1;
        }
        assert(offsets@ =~= start_offsets(paid));
        proof {
            law_offsets_are_running_totals(paid);
        }
        Some(offsets)
    }

    /// The output that holds the satoshi at `offset`, and its offset within
    /// that output; an error when there is no offset or it is past all the
    /// outputs. `requires` bounds the outputs' total and count to what the
    /// integer types hold.
    pub fn get_output_index_by_input(offset: Option<u64>, outputs: &Vec<u64>) -> (res: Result<
        (u32, u64),
        LeakError,
    >)
        requires
            sum(outputs@) <= u64::MAX,
            outputs@.len() <= u32::MAX,
        ensures
            match offset {
                None => res == Err::<(u32, u64), LeakError>(LeakError::NoOffset),
                Some(o) => if o >= sum(outputs@) {
                    res == Err::<(u32, u64), LeakError>(
                        LeakError::OffsetTooLarge { offset: o, total_output: sum(outputs@) as u64 },
                    )
                } else {
                        (res matches Ok((i, within)) && (i as int, within as int) == output_of_offset(
                        outputs@,
                        o as int,
                    ))
                },
            },
            res matches Ok((i, within)) ==> (i < outputs@.len() && within < outputs@[i as int]
                && sum(outputs@.take(i as int)) + within == offset.unwrap()),
    {
        let mut off = match offset {
            None => return Err(LeakError::NoOffset),
            Some(o) => o,
        };
        let ghost o0 = off;
        proof {
            lemma_prefix_sums_bounded(outputs@);
            lemma_sum_all(outputs@);
        }
        let mut total: u64 = 0;
        let mut k: usize = 0;
        while k < outputs.len()
            invariant
                0 <= k <= outputs@.len(),
                total == sum(outputs@.take(k as int)),
                forall|j: int| 0 <= j <= outputs@.len() ==> 0 <= #[trigger] sum(outputs@.take(j)) <= sum(outputs@),
                sum(outputs@) <= u64::MAX,
            decreases outputs@.len() - k,
        {
            proof {
                lemma_sum_take_step(outputs@, k as int);
            }
            total = total + outputs[k];
            k = k + 1;
        }
        if off >= total {
            return Err(LeakError::OffsetTooLarge { offset: off, total_output: total });
        }
        proof {
            lemma_output_of_offset(outputs@, o0 as int);
        }
        let mut idx: usize = 0;
        assert(outputs@.skip(0) =~= outputs@);
        assert(outputs@.take(0).len() == 0);
        while idx < outputs.len()
            invariant
                0 <= idx <= outputs@.len(),
                outputs@.len() <= u32::MAX,
                offset == Some(o0),
                o0 < sum(outputs@),
                sum(outputs@.take(idx as int)) + off == o0,
                output_of_offset(outputs@.skip(idx as int), off as int) == ({
                    let (i, o) = output_of_offset(outputs@, o0 as int);
                    (i - idx, o)
                }),
                ({
                    let (i, o) = output_of_offset(outputs@, o0 as int);
                    idx <= i < outputs@.len() && 0 <= o < outputs@[i] && sum(outputs@.take(i)) + o == o0
                }),
            decreases outputs@.len() - idx,
        {
            let ghost rest = outputs@.skip(idx as int);
            assert(rest[0] == outputs@[idx as int]);
            if off < outputs[idx] {
                assert(output_of_offset(rest, off as int) == (0int, off as int));
                return Ok((idx as u32, off));
            }
            proof {
                assert(rest.drop_first() =~= outputs@.skip(idx + 1));
                lemma_sum_take_step(outputs@, idx as int);
            }
            off = off - outputs[idx];
            idx = idx + 1;
        }
        Err(LeakError::Exhausted)
    }
}

} // verus!
