use vstd::prelude::*;

use crate::functions::FunctionDefinition;
use crate::types::{lemma_values_view, type_of, value_view, values_view, Array, LhsValue, LhsValueView, Type};

verus! {

/// The contents of the arguments that carry a value, in their order.
pub open spec fn present_values(args: Seq<Result<LhsValue, Type>>) -> Seq<LhsValueView>
    decreases args.len(),
{
    if args.len() == 0 {
        Seq::empty()
    } else {
        let prev = present_values(args.drop_last());
        match args.last() {
            Ok(v) => prev.push(value_view(v)),
            Err(_) => prev,
        }
    }
}

/// What a lookup gives back: for each position of `keys` that holds one of
/// `needles`, in order, the value at the same position of `values`, where
/// `values` has one.
pub open spec fn lookup_values(
    needles: Seq<LhsValueView>,
    keys: Seq<LhsValueView>,
    values: Seq<LhsValueView>,
) -> Seq<LhsValueView>
    decreases keys.len(),
{
    if keys.len() == 0 {
        Seq::empty()
    } else {
        let prev = lookup_values(needles, keys.drop_last(), values);
        let i = keys.len() - 1;
        if needles.contains(keys[i]) && i < values.len() {
            prev.push(values[i])
        } else {
            prev
        }
    }
}

/// A lookup gives back at most one value per position of the array searched
/// in, and nothing where no searched value occurs in it.
pub proof fn law_lookup_bounded(needles: Seq<LhsValueView>, keys: Seq<LhsValueView>, values: Seq<LhsValueView>)
    ensures
        lookup_values(needles, keys, values).len() <= keys.len(),
        (forall|i: int| 0 <= i < keys.len() ==> !needles.contains(#[trigger] keys[i])) ==> lookup_values(
            needles,
            keys,
            values,
        ).len() == 0,
    decreases keys.len(),
{
    if keys.len() > 0 {
        law_lookup_bounded(needles, keys.drop_last(), values);
        if forall|i: int| 0 <= i < keys.len() ==> !needles.contains(#[trigger] keys[i]) {
            assert forall|i: int| 0 <= i < keys.drop_last().len() implies !needles.contains(
                #[trigger] keys.drop_last()[i],
            ) by {
                assert(keys.drop_last()[i] == keys[i]);
            }
            assert(!needles.contains(keys[keys.len() - 1]));
        }
    }
}

/// Whether position `i` of the array searched in holds a searched value,
/// and the array of values to give back has a value at that position.
pub open spec fn lookup_hit(needles: Seq<LhsValueView>, keys: Seq<LhsValueView>, values: Seq<LhsValueView>, i: int) -> bool {
    0 <= i < keys.len() && needles.contains(keys[i]) && i < values.len()
}

/// How many of the first `m` positions of the array searched in are hits.
pub open spec fn hits_before(
    needles: Seq<LhsValueView>,
    keys: Seq<LhsValueView>,
    values: Seq<LhsValueView>,
    m: int,
) -> nat
    decreases m,
{
    if m <= 0 {
        0
    } else {
        hits_before(needles, keys, values, m - 1) + if lookup_hit(needles, keys, values, m - 1) {
            1nat
        } else {
            0nat
        }
    }
}

/// Counting hits among the first `m` positions does not look past them.
proof fn lemma_hits_prefix(needles: Seq<LhsValueView>, keys: Seq<LhsValueView>, values: Seq<LhsValueView>, m: int)
    requires
        0 <= m < keys.len(),
    ensures
        hits_before(needles, keys.drop_last(), values, m) == hits_before(needles, keys, values, m),
    decreases m,
{
    if m > 0 {
        lemma_hits_prefix(needles, keys, values, m - 1);
        assert(keys.drop_last()[m - 1] == keys[m - 1]);
    }
}

/// More positions hold at least as many hits, and a hit adds one.
proof fn lemma_hits_monotonic(
    needles: Seq<LhsValueView>,
    keys: Seq<LhsValueView>,
    values: Seq<LhsValueView>,
    i: int,
    j: int,
)
    requires
        0 <= i <= j,
    ensures
        hits_before(needles, keys, values, i) <= hits_before(needles, keys, values, j),
        i < j && lookup_hit(needles, keys, values, i) ==> hits_before(needles, keys, values, i)
            < hits_before(needles, keys, values, j),
    decreases j - i,
{
    if i < j {
        lemma_hits_monotonic(needles, keys, values, i, j - 1);
    }
}

/// A lookup gives back one value per hit, in the order of the array
/// searched in: as many values as there are positions that hold a searched
/// value and have a value to give back, the value at the `n`-th such
/// position coming `n`-th. Repeated values are all given back.
pub proof fn law_lookup_one_value_per_hit(needles: Seq<LhsValueView>, keys: Seq<LhsValueView>, values: Seq<LhsValueView>)
    ensures
        lookup_values(needles, keys, values).len() == hits_before(needles, keys, values, keys.len() as int),
        forall|i: int|
            #[trigger] lookup_hit(needles, keys, values, i) ==> lookup_values(needles, keys, values)[hits_before(
                needles,
                keys,
                values,
                i,
            ) as int] == values[i],
    decreases keys.len(),
{
    if keys.len() > 0 {
        let prev_keys = keys.drop_last();
        let last = keys.len() - 1;
        law_lookup_one_value_per_hit(needles, prev_keys, values);
        lemma_hits_prefix(needles, keys, values, last);
        let prev = lookup_values(needles, prev_keys, values);
        let res = lookup_values(needles, keys, values);
        assert forall|i: int| #[trigger] lookup_hit(needles, keys, values, i) implies res[hits_before(
            needles,
            keys,
            values,
            i,
        ) as int] == values[i] by {
            if i < last {
                assert(prev_keys[i] == keys[i]);
                assert(lookup_hit(needles, prev_keys, values, i));
                lemma_hits_prefix(needles, keys, values, i);
                lemma_hits_monotonic(needles, keys, values, i, last);
            }
        }
    }
}

/// Whether an argument is an array, or the absence of a value of an array type.
pub open spec fn is_array_arg(arg: Result<LhsValue, Type>) -> bool {
    match arg {
        Ok(LhsValue::Array(_)) => true,
        Err(Type::Array(_)) => true,
        _ => false,
    }
}

/// Whether the value of `key` is that of one of the first `upto` arguments
/// that carry a value.
fn is_searched(args: &Vec<Result<LhsValue, Type>>, upto: usize, key: &LhsValue) -> (r: bool)
    requires
        upto <= args@.len(),
    ensures
        r == present_values(args@.subrange(0, upto as int)).contains(value_view(*key)),
{
    let ghost needle = value_view(*key);
    let mut found = false;
    let mut j: usize = 0;
    while j < upto
        invariant
            j <= upto <= args@.len(),
            needle == value_view(*key),
            found == present_values(args@.subrange(0, j as int)).contains(needle),
        decreases upto - j,
    {
        let ghost prev = present_values(args@.subrange(0, j as int));
        proof {
            assert(args@.subrange(0, j + 1).drop_last() =~= args@.subrange(0, j as int));
        }
        match &args[j] {
            Ok(v) => {
                let same = v.same_value(key);
                proof {
                    let now = present_values(args@.subrange(0, j + 1));
                    assert(now == prev.push(value_view(*v)));
                    if same {
                        assert(now[prev.len() as int] == needle);
                    }
                    if found {
                        let k = choose|k: int| 0 <= k < prev.len() && prev[k] == needle;
                        assert(now[k] == needle);
                    }
                    if now.contains(needle) && !same {
                        let k = choose|k: int| 0 <= k < now.len() && now[k] == needle;
                        assert(prev[k] == needle);
                    }
                }
                found = found || same;
            },
            Err(_) => {},
        }
        j = j + 1;
    }
    found
}

/// Looks up values between arrays.
///
/// The last two arguments are the array to search in and the array to take
/// values from; the others are the values to search for. For each position
/// of the first array, in order, that holds one of the searched values, the
/// value at the same position of the second array, if it has one, goes into
/// the result, an array of the second array's element type. Where either
/// array is absent, the result is absent. Arguments before the last two that
/// carry no value are not searched for.
pub fn lookup_impl(args: Vec<Result<LhsValue, Type>>) -> (r: Option<LhsValue>)
    requires
        args@.len() >= 3,
        is_array_arg(args@[args@.len() - 2]),
        args@[args@.len() - 2] is Ok ==> is_array_arg(args@[args@.len() - 1]),
    ensures
        match (args@[args@.len() - 2], args@[args@.len() - 1]) {
            (Ok(LhsValue::Array(keys)), Ok(LhsValue::Array(values))) => r matches Some(LhsValue::Array(res))
                && res.spec_value_type() == values.spec_value_type()
                && values_view(res.spec_data()) == lookup_values(
                    present_values(args@.subrange(0, args@.len() - 2)),
                    values_view(keys.spec_data()),
                    values_view(values.spec_data()),
                ),
            _ => r is None,
        },
{
    let n = args.len();
    let search_end = n - 2;
    let keys: &Array = match &args[n - 2] {
        Ok(LhsValue::Array(a)) => a,
        _ => {
            return None;
        },
    };
    let values: &Array = match &args[n - 1] {
        Ok(LhsValue::Array(a)) => a,
        _ => {
            return None;
        },
    };
    let return_type = values.value_type();
    let values_len = values.len();
    let keys_len = keys.len();
    let ghost needles = present_values(args@.subrange(0, search_end as int));
    let ghost kv = values_view(keys.spec_data());
    let ghost vv = values_view(values.spec_data());
    proof {
        lemma_values_view(keys.spec_data());
        lemma_values_view(values.spec_data());
    }
    let mut data: Vec<LhsValue> = Vec::new();
    proof {
        lemma_values_view(data@);
        assert(values_view(data@) =~= Seq::<LhsValueView>::empty());
    }
    let mut k: usize = 0;
    while k < keys_len
        invariant
            k <= keys_len == keys.spec_data().len() == kv.len(),
            values_len == values.spec_data().len() == vv.len(),
            search_end <= args@.len(),
            needles == present_values(args@.subrange(0, search_end as int)),
            kv == values_view(keys.spec_data()),
            vv == values_view(values.spec_data()),
            forall|i: int| 0 <= i < kv.len() ==> #[trigger] kv[i] == value_view(keys.spec_data()[i]),
            forall|i: int| 0 <= i < vv.len() ==> #[trigger] vv[i] == value_view(values.spec_data()[i]),
            values.well_typed(),
            forall|i: int| 0 <= i < data@.len() ==> type_of(#[trigger] data@[i]) == values.spec_value_type(),
            values_view(data@) == lookup_values(needles, kv.subrange(0, k as int), vv),
        decreases keys_len - k,
    {
        proof {
            assert(kv.subrange(0, k + 1).drop_last() =~= kv.subrange(0, k as int));
            lemma_values_view(data@);
        }
        if let Some(key) = keys.get(k) {
            if is_searched(&args, search_end, key) && k < values_len {
                if let Some(value) = values.get(k) {
                    let item = value.duplicate();
                    let ghost prev = data@;
                    data.push(item);
                    proof {
                        lemma_values_view(data@);
                        assert(values_view(data@) =~= values_view(prev).push(vv[k as int]));
                    }
                }
            }
        }
        k = k + 1;
    }
    proof {
        assert(kv.subrange(0, keys_len as int) =~= kv);
    }
    match Array::try_from_vec(return_type, data) {
        Ok(res) => Some(LhsValue::Array(res)),
        Err(_) => None,
    }
}

/// A function which performs a lookup between arrays: see `lookup_impl`.
///
/// It takes at least three arguments: one or more values to search for, an
/// array to search in and an array to return values from.
#[derive(Debug, Default)]
pub struct LookupFunction;

impl LookupFunction {
    /// Creates a new `LookupFunction`.
    pub fn new() -> (r: Self)
        ensures
            r == LookupFunction,
    {
        LookupFunction
    }
}

impl FunctionDefinition for LookupFunction {
    /// At least three arguments, with no upper bound.
    fn arg_count(&self) -> (r: (usize, Option<usize>))
        ensures
            r == (3usize, None::<usize>),
    {
        (3, None)
    }

    /// The type of the last argument, or an array of byte strings where
    /// there is none.
    fn return_type(&self, param_types: &[Type]) -> (r: Type)
        ensures
            param_types@.len() == 0 ==> r == Type::Array(Box::new(Type::Bytes)),
            param_types@.len() > 0 ==> r == param_types@.last(),
    {
        if param_types.len() == 0 {
            Type::Array(Box::new(Type::Bytes))
        } else {
            param_types[param_types.len() - 1].duplicate()
        }
    }
}

} // verus!
