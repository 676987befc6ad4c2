//! Routing: which hosts take mail for a domain, in which order, and how long
//! an answer may be used.

use vstd::prelude::*;

verus! {

/// A mail exchanger of a domain.
#[derive(Debug, PartialEq, Eq)]
pub struct MxRecord {
    pub exchange: String,
    pub preference: u16,
}

pub struct MxRecordView {
    pub exchange: Seq<char>,
    pub preference: u16,
}

impl View for MxRecord {
    type V = MxRecordView;

    open spec fn view(&self) -> MxRecordView {
        MxRecordView { exchange: self.exchange@, preference: self.preference }
    }
}

/// The records of a list as the contracts see them.
pub open spec fn record_views(records: Seq<MxRecord>) -> Seq<MxRecordView> {
    Seq::new(records.len(), |i: int| records[i]@)
}

/// Whether a record with the first preference and place in the answer goes
/// before one with the second: the lower preference first, and among equal
/// preferences the one that the answer listed first.
pub open spec fn goes_before(preference: u16, place: int, other: u16, other_place: int) -> bool {
    preference < other || (preference == other && place < other_place)
}

/// Whether `output` lists the records of `input` in delivery order, where
/// `origin` gives each record's place in `input`.
pub open spec fn ordered_by(
    input: Seq<MxRecordView>,
    output: Seq<MxRecordView>,
    origin: Seq<int>,
) -> bool {
    &&& output.len() == input.len()
    &&& origin.len() == input.len()
    &&& forall|i: int|
        0 <= i < output.len() ==> 0 <= #[trigger] origin[i] < input.len() && output[i]
            == input[origin[i]]
    &&& forall|i: int, j: int|
        0 <= i < j < output.len() ==> goes_before(
            output[i].preference,
            #[trigger] origin[i],
            output[j].preference,
            #[trigger] origin[j],
        )
}

/// Whether `output` lists the records of `input` in delivery order.
pub open spec fn in_delivery_order(input: Seq<MxRecordView>, output: Seq<MxRecordView>) -> bool {
    exists|origin: Seq<int>| ordered_by(input, output, origin)
}

/// The records of an answer in delivery order.
pub open spec fn delivery_order(input: Seq<MxRecordView>) -> Seq<MxRecordView> {
    choose|output: Seq<MxRecordView>| in_delivery_order(input, output)
}

/// Puts the records of an answer in delivery order: by preference, lowest
/// first, records of equal preference in the order of the answer.
pub fn order_records(records: Vec<MxRecord>) -> (r: Vec<MxRecord>)
    ensures
        in_delivery_order(record_views(records@), record_views(r@)),
        record_views(r@) == delivery_order(record_views(records@)),
{
    let ghost input = records@;
    let mut rest = records;
    let mut out: Vec<MxRecord> = Vec::new();
    let ghost mut origin: Seq<int> = Seq::empty();
    while rest.len() > 0
        invariant
            rest@.len() <= input.len(),
            forall|i: int| 0 <= i < rest@.len() ==> rest@[i] == input[i],
            out@.len() + rest@.len() == input.len(),
            origin.len() == out@.len(),
            forall|i: int|
                0 <= i < out@.len() ==> rest@.len() <= #[trigger] origin[i] < input.len()
                    && out@[i] == input[origin[i]],
            forall|i: int, j: int|
                0 <= i < j < out@.len() ==> goes_before(
                    out@[i].preference,
                    #[trigger] origin[i],
                    out@[j].preference,
                    #[trigger] origin[j],
                ),
        decreases rest@.len(),
    {
        let ghost place = rest@.len() - 1;
        let record = rest.pop().unwrap();
        let mut at: usize = 0;
        while at < out.len() && out[at].preference < record.preference
            invariant
                at <= out@.len(),
                forall|i: int| 0 <= i < at ==> out@[i].preference < record.preference,
            decreases out@.len() - at,
        {
            at += 1;
        }
        let ghost before = out@;
        let ghost before_origin = origin;
        out.insert(at, record);
        proof {
            origin = origin.insert(at as int, place);
            assert forall|i: int| 0 <= i < out@.len() implies rest@.len() <= #[trigger] origin[i]
                < input.len() && out@[i] == input[origin[i]] by {
                if i < at {
                    assert(origin[i] == before_origin[i]);
                } else if i > at {
                    assert(origin[i] == before_origin[i - 1]);
                    assert(out@[i] == before[i - 1]);
                }
            }
            assert forall|i: int, j: int| 0 <= i < j < out@.len() implies goes_before(
                out@[i].preference,
                #[trigger] origin[i],
                out@[j].preference,
                #[trigger] origin[j],
            ) by {
                let i0 = if i < at { i } else { i - 1 };
                let j0 = if j < at { j } else { j - 1 };
                if i != at {
                    assert(origin[i] == before_origin[i0] && out@[i] == before[i0]);
                }
                if j != at {
                    assert(origin[j] == before_origin[j0] && out@[j] == before[j0]);
                }
                if i == at {
                    if at < j0 {
                        assert(goes_before(
                            before[at as int].preference,
                            before_origin[at as int],
                            before[j0].preference,
                            before_origin[j0],
                        ));
                    }
                } else if j == at {
                } else {
                    assert(goes_before(
                        before[i0].preference,
                        before_origin[i0],
                        before[j0].preference,
                        before_origin[j0],
                    ));
                }
            }
        }
    }
    proof {
        let given = record_views(input);
        let made = record_views(out@);
        assert forall|i: int| 0 <= i < made.len() implies 0 <= #[trigger] origin[i] < given.len()
            && made[i] == given[origin[i]] by {
            assert(out@[i] == input[origin[i]]);
        }
        assert forall|i: int, j: int| 0 <= i < j < made.len() implies goes_before(
            made[i].preference,
            #[trigger] origin[i],
            made[j].preference,
            #[trigger] origin[j],
        ) by {
            assert(goes_before(out@[i].preference, origin[i], out@[j].preference, origin[j]));
        }
        assert(ordered_by(given, made, origin));
        lemma_delivery_order_unique(given, made, delivery_order(given));
    }
    out
}

/// An answer without records has one ordering, the empty one.
pub proof fn lemma_delivery_order_empty()
    ensures
        delivery_order(Seq::<MxRecordView>::empty()) == Seq::<MxRecordView>::empty(),
{
    let none = Seq::<MxRecordView>::empty();
    assert(ordered_by(none, none, Seq::<int>::empty()));
    lemma_delivery_order_unique(none, none, delivery_order(none));
}

/// Delivery order is by rising preference.
pub proof fn lemma_delivery_order_sorted(input: Seq<MxRecordView>, output: Seq<MxRecordView>)
    requires
        in_delivery_order(input, output),
    ensures
        forall|i: int, j: int|
            0 <= i < j < output.len() ==> (#[trigger] output[i]).preference <= (
            #[trigger] output[j]).preference,
{
    let origin = choose|origin: Seq<int>| ordered_by(input, output, origin);
    assert forall|i: int, j: int| 0 <= i < j < output.len() implies (
    #[trigger] output[i]).preference <= (#[trigger] output[j]).preference by {
        assert(goes_before(output[i].preference, origin[i], output[j].preference, origin[j]));
    }
}

/// Delivery order is settled by the answer alone: two orderings of the same
/// answer are the same list.
pub proof fn lemma_delivery_order_unique(
    input: Seq<MxRecordView>,
    first: Seq<MxRecordView>,
    second: Seq<MxRecordView>,
)
    requires
        in_delivery_order(input, first),
        in_delivery_order(input, second),
    ensures
        first == second,
{
    let a = choose|origin: Seq<int>| ordered_by(input, first, origin);
    let b = choose|origin: Seq<int>| ordered_by(input, second, origin);
    lemma_origins_agree(input, first, a, second, b, input.len() as int);
    assert(first =~= second);
}

/// How many places of `input` go before the place `p` in delivery order.
spec fn rank(input: Seq<MxRecordView>, p: int, upto: int) -> int
    decreases upto,
{
    if upto <= 0 {
        0
    } else {
        rank(input, p, upto - 1) + if goes_before(
            input[upto - 1].preference,
            upto - 1,
            input[p].preference,
            p,
        ) {
            1int
        } else {
            0int
        }
    }
}

/// How many of the first `upto` entries of `origin` lie below `limit`
/// places, counted by whether they go before place `p`.
spec fn hits(input: Seq<MxRecordView>, origin: Seq<int>, p: int, upto: int, limit: int) -> int
    decreases upto,
{
    if upto <= 0 {
        0
    } else {
        hits(input, origin, p, upto - 1, limit) + if origin[upto - 1] < limit && goes_before(
            input[origin[upto - 1]].preference,
            origin[upto - 1],
            input[p].preference,
            p,
        ) {
            1int
        } else {
            0int
        }
    }
}

proof fn lemma_origins_agree(
    input: Seq<MxRecordView>,
    first: Seq<MxRecordView>,
    a: Seq<int>,
    second: Seq<MxRecordView>,
    b: Seq<int>,
    n: int,
)
    requires
        ordered_by(input, first, a),
        ordered_by(input, second, b),
        n == input.len(),
    ensures
        forall|i: int| 0 <= i < n ==> first[i] == second[i],
{
    assert forall|i: int| 0 <= i < n implies first[i] == second[i] by {
        lemma_place_is_rank(input, first, a, i);
        lemma_place_is_rank(input, second, b, i);
        // Both orderings put at position i the place with rank i.
        let pa = a[i];
        let pb = b[i];
        if pa != pb {
            lemma_rank_strict(input, pa, pb, n);
        }
    }
}

/// Of two different places, the one that goes first has the lower rank.
proof fn lemma_rank_strict(input: Seq<MxRecordView>, p: int, q: int, n: int)
    requires
        0 <= p < input.len(),
        0 <= q < input.len(),
        p != q,
        n == input.len(),
    ensures
        rank(input, p, n) != rank(input, q, n),
{
    if goes_before(input[p].preference, p, input[q].preference, q) {
        lemma_rank_less(input, p, q, n);
    } else {
        lemma_rank_less(input, q, p, n);
    }
}

proof fn lemma_rank_less(input: Seq<MxRecordView>, p: int, q: int, upto: int)
    requires
        0 <= p < input.len(),
        0 <= q < input.len(),
        0 <= upto <= input.len(),
        goes_before(input[p].preference, p, input[q].preference, q),
    ensures
        rank(input, p, upto) <= rank(input, q, upto),
        p < upto ==> rank(input, p, upto) < rank(input, q, upto),
    decreases upto,
{
    if upto > 0 {
        lemma_rank_less(input, p, q, upto - 1);
    }
}

/// In an ordering, the record at position `i` comes from the place whose
/// rank is `i`.
proof fn lemma_place_is_rank(
    input: Seq<MxRecordView>,
    output: Seq<MxRecordView>,
    origin: Seq<int>,
    i: int,
)
    requires
        ordered_by(input, output, origin),
        0 <= i < input.len(),
    ensures
        rank(input, origin[i], input.len() as int) == i,
{
    let n = input.len() as int;
    let p = origin[i];
    lemma_hits_count(input, output, origin, i, n);
    lemma_hits_is_rank(input, output, origin, p, n, n);
}

/// Among the first `upto` positions of an ordering, those that go before
/// position `i` are the positions below `i`.
proof fn lemma_hits_count(
    input: Seq<MxRecordView>,
    output: Seq<MxRecordView>,
    origin: Seq<int>,
    i: int,
    upto: int,
)
    requires
        ordered_by(input, output, origin),
        0 <= i < input.len(),
        0 <= upto <= input.len(),
    ensures
        hits(input, origin, origin[i], upto, input.len() as int) == if upto <= i {
            upto
        } else {
            i
        },
    decreases upto,
{
    if upto > 0 {
        lemma_hits_count(input, output, origin, i, upto - 1);
        let k = upto - 1;
        assert(output[k] == input[origin[k]]);
        assert(output[i] == input[origin[i]]);
        if k < i {
            assert(goes_before(output[k].preference, origin[k], output[i].preference, origin[i]));
        } else if k > i {
            assert(goes_before(output[i].preference, origin[i], output[k].preference, origin[k]));
        }
    }
}

/// The entries of `origin` are the places of the answer, each once: no entry
/// occurs at two positions.
proof fn lemma_origin_injective(
    input: Seq<MxRecordView>,
    output: Seq<MxRecordView>,
    origin: Seq<int>,
    i: int,
    j: int,
)
    requires
        ordered_by(input, output, origin),
        0 <= i < j < input.len(),
    ensures
        origin[i] != origin[j],
{
    assert(goes_before(output[i].preference, origin[i], output[j].preference, origin[j]));
    assert(output[i] == input[origin[i]]);
    assert(output[j] == input[origin[j]]);
}

/// Counting over positions and counting over places agree, because every
/// place occurs at exactly one position.
proof fn lemma_hits_is_rank(
    input: Seq<MxRecordView>,
    output: Seq<MxRecordView>,
    origin: Seq<int>,
    p: int,
    limit: int,
    n: int,
)
    requires
        ordered_by(input, output, origin),
        0 <= p < input.len(),
        0 <= limit <= input.len(),
        n == input.len(),
    ensures
        hits(input, origin, p, n, limit) == rank(input, p, limit),
    decreases limit,
{
    if limit == 0 {
        lemma_hits_zero(input, origin, p, n);
    } else {
        lemma_hits_is_rank(input, output, origin, p, limit - 1, n);
        lemma_every_place_occurs(input, output, origin, limit - 1);
        let k = choose|k: int| 0 <= k < n && origin[k] == limit - 1;
        lemma_hits_step(input, output, origin, p, limit, n, k, n);
    }
}

proof fn lemma_hits_zero(input: Seq<MxRecordView>, origin: Seq<int>, p: int, upto: int)
    requires
        forall|i: int| 0 <= i < origin.len() ==> 0 <= #[trigger] origin[i],
        upto <= origin.len(),
    ensures
        hits(input, origin, p, upto, 0) == 0,
    decreases upto,
{
    if upto > 0 {
        lemma_hits_zero(input, origin, p, upto - 1);
        assert(0 <= origin[upto - 1]);
    }
}

/// Raising the limit by one place adds that place's hit at the one position
/// that holds it.
proof fn lemma_hits_step(
    input: Seq<MxRecordView>,
    output: Seq<MxRecordView>,
    origin: Seq<int>,
    p: int,
    limit: int,
    n: int,
    k: int,
    upto: int,
)
    requires
        ordered_by(input, output, origin),
        0 <= p < input.len(),
        0 < limit <= input.len(),
        n == input.len(),
        0 <= k < n,
        origin[k] == limit - 1,
        0 <= upto <= n,
    ensures
        hits(input, origin, p, upto, limit) == hits(input, origin, p, upto, limit - 1) + if k
            < upto && goes_before(input[limit - 1].preference, limit - 1, input[p].preference, p) {
            1int
        } else {
            0int
        },
    decreases upto,
{
    if upto > 0 {
        lemma_hits_step(input, output, origin, p, limit, n, k, upto - 1);
        let m = upto - 1;
        if m != k {
            if m < k {
                lemma_origin_injective(input, output, origin, m, k);
            } else {
                lemma_origin_injective(input, output, origin, k, m);
            }
        }
    }
}

/// Every place of the answer occurs at some position of an ordering.
proof fn lemma_every_place_occurs(
    input: Seq<MxRecordView>,
    output: Seq<MxRecordView>,
    origin: Seq<int>,
    place: int,
)
    requires
        ordered_by(input, output, origin),
        0 <= place < input.len(),
    ensures
        exists|k: int| 0 <= k < input.len() && origin[k] == place,
{
    let n = input.len() as int;
    let s: Set<int> = Set::new(|v: int| 0 <= v < n);
    let image: Set<int> = Set::new(|v: int| exists|k: int| 0 <= k < n && origin[k] == v);
    if !image.contains(place) {
        lemma_image_size(input, output, origin, n);
        let img = image_upto(origin, n);
        assert(img.len() == n);
        assert forall|v: int| img.contains(v) implies 0 <= v < n && v != place by {
            let k = choose|k: int| 0 <= k < n && origin[k] == v;
            assert(0 <= origin[k] < n);
            if v == place {
                assert(image.contains(place));
            }
        }
        let small: Set<int> = Set::new(|v: int| 0 <= v < n && v != place);
        lemma_range_size(n);
        assert(s.remove(place) =~= small);
        assert(img.subset_of(small));
        vstd::set_lib::lemma_len_subset(img, small);
        assert(false);
    }
    let k = choose|k: int| 0 <= k < n && origin[k] == place;
    assert(0 <= k < input.len() && origin[k] == place);
}

/// The places that the first `upto` positions hold.
spec fn image_upto(origin: Seq<int>, upto: int) -> Set<int> {
    Set::new(|v: int| exists|k: int| 0 <= k < upto && origin[k] == v)
}

proof fn lemma_image_size(
    input: Seq<MxRecordView>,
    output: Seq<MxRecordView>,
    origin: Seq<int>,
    upto: int,
)
    requires
        ordered_by(input, output, origin),
        0 <= upto <= input.len(),
    ensures
        image_upto(origin, upto).finite(),
        image_upto(origin, upto).len() == upto,
    decreases upto,
{
    if upto == 0 {
        assert(image_upto(origin, 0) =~= Set::<int>::empty());
    } else {
        lemma_image_size(input, output, origin, upto - 1);
        let prev = image_upto(origin, upto - 1);
        let v = origin[upto - 1];
        if prev.contains(v) {
            let k = choose|k: int| 0 <= k < upto - 1 && origin[k] == v;
            lemma_origin_injective(input, output, origin, k, upto - 1);
        }
        assert(image_upto(origin, upto) =~= prev.insert(v));
    }
}

proof fn lemma_range_size(n: int)
    requires
        0 <= n,
    ensures
        Set::new(|v: int| 0 <= v < n).finite(),
        Set::new(|v: int| 0 <= v < n).len() == n,
    decreases n,
{
    if n == 0 {
        assert(Set::new(|v: int| 0 <= v < 0) =~= Set::<int>::empty());
    } else {
        lemma_range_size(n - 1);
        assert(Set::new(|v: int| 0 <= v < n) =~= Set::new(|v: int| 0 <= v < n - 1).insert(n - 1));
    }
}

} // verus!
