//! Ordering of the catalog: string comparison, the three-tier rank
//! (up-ranked identifiers first, down-ranked last, names breaking
//! ties), and a verified, fully deterministic insertion sort used both
//! for catalog entries and for fixed denomination lists.

use vstd::prelude::*;
use vstd::multiset::Multiset;
use vstd::seq_lib::lemma_multiset_commutative;
use vstd::utf8::encode_utf8;
use crate::money::Money;
use crate::types::{MethodModel, PayoutMethod, method_models};

verus! {

/// True iff two strings hold the same characters.
pub fn str_eq(a: &str, b: &str) -> (r: bool)
    ensures
        r == (a@ == b@),
{
    let x = a.to_owned();
    let y = b.to_owned();
    x == y
}

/// Lexicographic order on byte sequences: the order in which the
/// upstream names compare, since UTF-8 encoding preserves it.
pub open spec fn lex_leq(x: Seq<u8>, y: Seq<u8>) -> bool
    decreases x.len(),
{
    if x.len() == 0 {
        true
    } else if y.len() == 0 {
        false
    } else if x[0] < y[0] {
        true
    } else if x[0] > y[0] {
        false
    } else {
        lex_leq(x.drop_first(), y.drop_first())
    }
}

pub proof fn lemma_lex_leq_total(x: Seq<u8>, y: Seq<u8>)
    ensures
        lex_leq(x, y) || lex_leq(y, x),
    decreases x.len(),
{
    if x.len() > 0 && y.len() > 0 && x[0] == y[0] {
        lemma_lex_leq_total(x.drop_first(), y.drop_first());
    }
}

pub proof fn lemma_lex_leq_trans(x: Seq<u8>, y: Seq<u8>, z: Seq<u8>)
    requires
        lex_leq(x, y),
        lex_leq(y, z),
    ensures
        lex_leq(x, z),
    decreases x.len(),
{
    if x.len() == 0 {
    } else {
        if x[0] == y[0] && y[0] == z[0] {
            lemma_lex_leq_trans(x.drop_first(), y.drop_first(), z.drop_first());
        }
    }
}

/// Compares two byte slices in lexicographic order.
pub fn bytes_lex_leq(x: &[u8], y: &[u8]) -> (r: bool)
    ensures
        r == lex_leq(x@, y@),
{
    let mut i: usize = 0;
    proof {
        assert(x@.skip(0) =~= x@);
        assert(y@.skip(0) =~= y@);
    }
    loop
        invariant
            i <= x@.len(),
            i <= y@.len(),
            lex_leq(x@, y@) == lex_leq(x@.skip(i as int), y@.skip(i as int)),
        decreases x@.len() - i,
    {
        if i == x.len() {
            return true;
        }
        if i == y.len() {
            return false;
        }
        let xv = x[i];
        let yv = y[i];
        if xv < yv {
            return true;
        }
        if xv > yv {
            return false;
        }
        proof {
            assert(x@.skip(i as int).drop_first() =~= x@.skip(i as int + 1));
            assert(y@.skip(i as int).drop_first() =~= y@.skip(i as int + 1));
        }
        i = i + 1;
    }
}

/// Identifiers ranked above everything else.
pub open spec fn upranked(id: Seq<char>) -> bool {
    id == "ET0ZVETV5ILN"@ || id == "Q24BD9EZ332JT"@ || id == "UIL1ZYJU5MKN"@
}

/// Identifiers ranked below everything else.
pub open spec fn downranked(id: Seq<char>) -> bool {
    id == "EIPF8Q00EMM1"@ || id == "OU2MWXYWPNWQ"@
}

/// The priority tier of a catalog entry: up-ranked identifiers sort
/// before everything, down-ranked after everything, the rest between.
pub open spec fn rank_of(m: MethodModel) -> int {
    if upranked(m.id) {
        0
    } else if downranked(m.id) {
        2
    } else {
        1
    }
}

/// The tie-breaking key: the entry's name, as the bytes it encodes to.
pub open spec fn name_key(m: MethodModel) -> Seq<u8> {
    encode_utf8(m.name)
}

/// The catalog order: by tier, then alphabetically by name.
pub open spec fn method_leq(a: MethodModel, b: MethodModel) -> bool {
    rank_of(a) < rank_of(b) || (rank_of(a) == rank_of(b) && lex_leq(name_key(a), name_key(b)))
}

/// The catalog order as a value, for the sort.
pub open spec fn method_order() -> spec_fn(MethodModel, MethodModel) -> bool {
    |a: MethodModel, b: MethodModel| method_leq(a, b)
}

/// Ascending order on amounts, for fixed denomination lists.
pub open spec fn money_order() -> spec_fn(Money, Money) -> bool {
    |a: Money, b: Money| a.units <= b.units
}

fn is_upranked(id: &str) -> (r: bool)
    ensures
        r == upranked(id@),
{
    str_eq(id, "ET0ZVETV5ILN") || str_eq(id, "Q24BD9EZ332JT") || str_eq(id, "UIL1ZYJU5MKN")
}

fn is_downranked(id: &str) -> (r: bool)
    ensures
        r == downranked(id@),
{
    str_eq(id, "EIPF8Q00EMM1") || str_eq(id, "OU2MWXYWPNWQ")
}

fn method_rank(m: &PayoutMethod) -> (r: u8)
    ensures
        r as int == rank_of(m@),
{
    if is_upranked(m.id.as_str()) {
        0
    } else if is_downranked(m.id.as_str()) {
        2
    } else {
        1
    }
}

/// Decides the catalog order between two entries.
pub fn method_leq_exec(a: &PayoutMethod, b: &PayoutMethod) -> (r: bool)
    ensures
        r == method_leq(a@, b@),
{
    let ra = method_rank(a);
    let rb = method_rank(b);
    if ra < rb {
        true
    } else if ra > rb {
        false
    } else {
        bytes_lex_leq(a.name.as_str().as_bytes(), b.name.as_str().as_bytes())
    }
}

/// The order `leq` relates every pair.
pub open spec fn leq_total<A>(leq: spec_fn(A, A) -> bool) -> bool {
    forall|a: A, b: A| #![trigger leq(a, b)] leq(a, b) || leq(b, a)
}

/// The order `leq` is transitive.
pub open spec fn leq_trans<A>(leq: spec_fn(A, A) -> bool) -> bool {
    forall|a: A, b: A, c: A| #![trigger leq(a, b), leq(b, c)] leq(a, b) && leq(b, c) ==> leq(a, c)
}

/// The sequence is ordered by `leq`.
pub open spec fn sorted_by_leq<A>(leq: spec_fn(A, A) -> bool, s: Seq<A>) -> bool {
    forall|i: int, j: int| 0 <= i < j < s.len() ==> #[trigger] leq(s[i], s[j])
}

/// Inserts `x` into the ordered sequence `s`, after every element
/// that compares at or before it — the placement a stable sort makes.
pub open spec fn insert_by<A>(leq: spec_fn(A, A) -> bool, x: A, s: Seq<A>) -> Seq<A>
    decreases s.len(),
{
    if s.len() == 0 {
        seq![x]
    } else if !leq(s[0], x) {
        seq![x] + s
    } else {
        seq![s[0]] + insert_by(leq, x, s.drop_first())
    }
}

/// Stable insertion sort: the unique output a stable sort by `leq`
/// produces, pinned element by element.
pub open spec fn isort_by<A>(leq: spec_fn(A, A) -> bool, s: Seq<A>) -> Seq<A>
    decreases s.len(),
{
    if s.len() == 0 {
        s
    } else {
        insert_by(leq, s.last(), isort_by(leq, s.drop_last()))
    }
}

/// In sequences of equal contents, the elements of the one are
/// elements of the other.
pub proof fn lemma_same_elems<A>(s: Seq<A>, t: Seq<A>, y: A)
    requires
        s.to_multiset() == t.to_multiset(),
        s.contains(y),
    ensures
        t.contains(y),
{
    broadcast use vstd::seq_lib::group_to_multiset_ensures;

    assert(s.to_multiset().count(y) > 0);
    assert(t.to_multiset().count(y) > 0);
}

/// An element of a sequence whose contents are `t`'s plus `x` is `x`
/// or an element of `t`.
proof fn lemma_elem_of_insert<A>(s: Seq<A>, t: Seq<A>, x: A, y: A)
    requires
        s.to_multiset() == t.to_multiset().insert(x),
        s.contains(y),
    ensures
        y == x || t.contains(y),
{
    broadcast use vstd::seq_lib::group_to_multiset_ensures;
    broadcast use vstd::multiset::group_multiset_axioms;

    if y != x {
        assert(s.to_multiset().count(y) > 0);
        assert(t.to_multiset().count(y) == s.to_multiset().count(y));
    }
}

pub proof fn lemma_insert_by_ensures<A>(leq: spec_fn(A, A) -> bool, x: A, s: Seq<A>)
    requires
        leq_total(leq),
        leq_trans(leq),
        sorted_by_leq(leq, s),
    ensures
        insert_by(leq, x, s).len() == s.len() + 1,
        sorted_by_leq(leq, insert_by(leq, x, s)),
        insert_by(leq, x, s).to_multiset() == s.to_multiset().insert(x),
    decreases s.len(),
{
    broadcast use vstd::seq_lib::group_to_multiset_ensures;

    let r = insert_by(leq, x, s);
    if s.len() == 0 {
        assert(r =~= s.push(x));
        assert(r.to_multiset() =~= s.to_multiset().insert(x));
    } else if !leq(s[0], x) {
        assert(r =~= seq![x] + s);
        lemma_multiset_commutative(seq![x], s);
        assert(seq![x].to_multiset() =~= Seq::<A>::empty().push(x).to_multiset());
        assert(r.to_multiset() =~= s.to_multiset().insert(x));
        // x goes first and stands at or before everything in s.
        assert(leq(x, s[0]));
        assert forall|i: int, j: int| 0 <= i < j < r.len() implies #[trigger] leq(r[i], r[j]) by {
            if i == 0 {
                assert(r[j] == s[j - 1]);
                if j == 1 {
                    assert(leq(x, s[0]));
                } else {
                    assert(leq(s[0], s[j - 1]));
                    assert(leq(x, s[j - 1]));
                }
            } else {
                assert(r[i] == s[i - 1] && r[j] == s[j - 1]);
            }
        }
    } else {
        let tail = s.drop_first();
        assert(sorted_by_leq(leq, tail)) by {
            assert forall|i: int, j: int|
                0 <= i < j < tail.len() implies #[trigger] leq(tail[i], tail[j]) by {
                assert(tail[i] == s[i + 1] && tail[j] == s[j + 1]);
            }
        }
        lemma_insert_by_ensures(leq, x, tail);
        let rt = insert_by(leq, x, tail);
        assert(r =~= seq![s[0]] + rt);
        // Multiset bookkeeping: r = [s0] + rt, s = [s0] + tail.
        lemma_multiset_commutative(seq![s[0]], rt);
        lemma_multiset_commutative(seq![s[0]], tail);
        assert(s =~= seq![s[0]] + tail);
        assert(seq![s[0]].to_multiset() =~= Seq::<A>::empty().push(s[0]).to_multiset());
        assert(r.to_multiset() =~= s.to_multiset().insert(x));
        // s0 stands at or before x and every element of the tail.
        assert forall|i: int, j: int| 0 <= i < j < r.len() implies #[trigger] leq(r[i], r[j]) by {
            if i == 0 {
                assert(r[j] == rt[j - 1]);
                assert(rt.contains(rt[j - 1]));
                lemma_elem_of_insert(rt, tail, x, rt[j - 1]);
                if rt[j - 1] == x {
                    assert(leq(s[0], x));
                } else {
                    let k = choose|k: int| 0 <= k < tail.len() && tail[k] == rt[j - 1];
                    assert(tail[k] == s[k + 1]);
                    assert(leq(s[0], s[k + 1]));
                }
            } else {
                assert(r[i] == rt[i - 1] && r[j] == rt[j - 1]);
            }
        }
    }
}

pub proof fn lemma_isort_by_ensures<A>(leq: spec_fn(A, A) -> bool, s: Seq<A>)
    requires
        leq_total(leq),
        leq_trans(leq),
    ensures
        isort_by(leq, s).len() == s.len(),
        sorted_by_leq(leq, isort_by(leq, s)),
        isort_by(leq, s).to_multiset() == s.to_multiset(),
    decreases s.len(),
{
    broadcast use vstd::seq_lib::group_to_multiset_ensures;

    if s.len() == 0 {
    } else {
        let prefix = s.drop_last();
        lemma_isort_by_ensures(leq, prefix);
        lemma_insert_by_ensures(leq, s.last(), isort_by(leq, prefix));
        assert(s =~= prefix.push(s.last()));
        assert(isort_by(leq, s).to_multiset() =~= s.to_multiset());
    }
}

/// Where a scan stopped is where the stable insertion lands.
pub proof fn lemma_insert_by_position<A>(leq: spec_fn(A, A) -> bool, x: A, s: Seq<A>, j: int)
    requires
        sorted_by_leq(leq, s),
        0 <= j <= s.len(),
        forall|k: int| 0 <= k < j ==> #[trigger] leq(s[k], x),
        j < s.len() ==> !leq(s[j], x),
    ensures
        insert_by(leq, x, s) == s.insert(j, x),
    decreases s.len(),
{
    if s.len() == 0 {
        assert(insert_by(leq, x, s) =~= s.insert(0, x));
    } else if j == 0 {
        assert(!leq(s[0], x));
        assert(insert_by(leq, x, s) =~= s.insert(0, x));
    } else {
        assert(leq(s[0], x));
        let tail = s.drop_first();
        assert(sorted_by_leq(leq, tail)) by {
            assert forall|i: int, k: int|
                0 <= i < k < tail.len() implies #[trigger] leq(tail[i], tail[k]) by {
                assert(tail[i] == s[i + 1] && tail[k] == s[k + 1]);
            }
        }
        assert forall|k: int| 0 <= k < j - 1 implies #[trigger] leq(tail[k], x) by {
            assert(tail[k] == s[k + 1]);
        }
        assert(j - 1 < tail.len() ==> !leq(tail[j - 1], x));
        lemma_insert_by_position(leq, x, tail, j - 1);
        assert(insert_by(leq, x, s) =~= s.insert(j, x)) by {
            assert(insert_by(leq, x, s) == seq![s[0]] + tail.insert(j - 1, x));
        }
    }
}

/// Sorts a list of amounts ascending; the result is the one stable
/// sort of the input.
pub fn sorted_moneys(v: &Vec<Money>) -> (r: Vec<Money>)
    ensures
        r@ == isort_by(money_order(), v@),
{
    proof {
        lemma_money_order_valid();
    }
    let mut out: Vec<Money> = Vec::new();
    let n = v.len();
    for i in 0..n
        invariant
            n == v@.len(),
            out@ == isort_by(money_order(), v@.take(i as int)),
            leq_total(money_order()),
            leq_trans(money_order()),
    {
        proof {
            lemma_isort_by_ensures(money_order(), v@.take(i as int));
        }
        let x = v[i];
        let mut j: usize = 0;
        while j < out.len() && out[j].units <= x.units
            invariant
                j <= out@.len(),
                forall|k: int| 0 <= k < j ==> #[trigger] (money_order())(out@[k], x),
            decreases out@.len() - j,
        {
            j = j + 1;
        }
        proof {
            lemma_insert_by_position(money_order(), x, out@, j as int);
            assert(v@.take(i as int + 1).drop_last() =~= v@.take(i as int));
            assert(v@.take(i as int + 1).last() == v@[i as int]);
        }
        out.insert(j, x);
    }
    proof {
        assert(v@.take(n as int) =~= v@);
    }
    out
}

proof fn lemma_money_order_valid()
    ensures
        leq_total(money_order()),
        leq_trans(money_order()),
{
}

/// The catalog order relates every pair of entries and is transitive,
/// so sorting by it is meaningful.
pub proof fn lemma_method_order_valid()
    ensures
        leq_total(method_order()),
        leq_trans(method_order()),
{
    assert(leq_total(method_order())) by {
        assert forall|a: MethodModel, b: MethodModel| #![trigger (method_order())(a, b)]
            (method_order())(a, b) || (method_order())(b, a) by {
            if rank_of(a) == rank_of(b) {
                lemma_lex_leq_total(name_key(a), name_key(b));
            }
        }
    }
    assert(leq_trans(method_order())) by {
        assert forall|a: MethodModel, b: MethodModel, c: MethodModel|
            #![trigger (method_order())(a, b), (method_order())(b, c)]
            (method_order())(a, b) && (method_order())(b, c) implies (method_order())(a, c) by {
            if rank_of(a) == rank_of(b) && rank_of(b) == rank_of(c) {
                lemma_lex_leq_trans(name_key(a), name_key(b), name_key(c));
            }
        }
    }
}

/// Sorts catalog entries by the catalog order; the result is the one
/// stable sort of the input, pinned at the model level.
pub fn sort_methods(v: Vec<PayoutMethod>) -> (r: Vec<PayoutMethod>)
    ensures
        method_models(r@) == isort_by(method_order(), method_models(v@)),
{
    proof {
        lemma_method_order_valid();
    }
    let ghost whole: Seq<PayoutMethod> = v@;
    let mut out: Vec<PayoutMethod> = Vec::new();
    let mut rest = v;
    while rest.len() > 0
        invariant
            leq_total(method_order()),
            leq_trans(method_order()),
            rest@.len() <= whole.len(),
            rest@ == whole.subrange(
                whole.len() - rest@.len(),
                whole.len() as int,
            ),
            method_models(out@) == isort_by(
                method_order(),
                method_models(whole.take(whole.len() - rest@.len())),
            ),
        decreases rest@.len(),
    {
        let ghost done: int = whole.len() - rest@.len();
        proof {
            lemma_isort_by_ensures(method_order(), method_models(whole.take(done)));
        }
        let x = rest.remove(0);
        proof {
            assert(x == whole[done]);
        }
        let mut j: usize = 0;
        while j < out.len() && method_leq_exec(&out[j], &x)
            invariant
                j <= out@.len(),
                forall|k: int|
                    0 <= k < j ==> #[trigger] (method_order())(method_models(out@)[k], x@),
            decreases out@.len() - j,
        {
            j = j + 1;
        }
        proof {
            if (j as int) < out@.len() {
                assert(!(method_order())(method_models(out@)[j as int], x@));
            }
            lemma_insert_by_position(method_order(), x@, method_models(out@), j as int);
            assert(method_models(whole.take(done + 1)).drop_last() =~= method_models(
                whole.take(done),
            ));
            assert(method_models(whole.take(done + 1)).last() == x@);
            assert(method_models(out@.insert(j as int, x)) =~= method_models(out@).insert(
                j as int,
                x@,
            ));
            assert(whole.subrange(done, whole.len() as int).drop_first() =~= whole.subrange(
                done + 1,
                whole.len() as int,
            ));
        }
        out.insert(j, x);
    }
    proof {
        assert(whole.take(whole.len() as int) =~= whole);
    }
    out
}

} // verus!
