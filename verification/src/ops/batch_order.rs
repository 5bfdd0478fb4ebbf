//! The order in which a batch is applied: by encoded key, writes to the same
//! key in the order in which they were derived.

use crate::changelog;
use crate::changelog::{BatchOp, BatchOpView};
use vstd::prelude::*;

verus! {

/// A write together with its encoded key.
#[derive(Debug, PartialEq, Eq)]
pub struct KeyedOp {
    pub key: Vec<u8>,
    pub op: BatchOp,
}

/// Whether `a` comes before `b` in the lexicographic order of byte strings.
pub open spec fn bytes_before(a: Seq<u8>, b: Seq<u8>) -> bool
    decreases a.len(),
{
    if b.len() == 0 {
        false
    } else if a.len() == 0 {
        true
    } else if a[0] != b[0] {
        a[0] < b[0]
    } else {
        bytes_before(a.skip(1), b.skip(1))
    }
}

/// Whether no later write has a smaller key than an earlier one.
pub open spec fn in_key_order(ops: Seq<KeyedOp>) -> bool {
    forall|i: int, j: int|
        #![trigger ops[i], ops[j]]
        0 <= i < j < ops.len() ==> !bytes_before(ops[j].key@, ops[i].key@)
}

/// Whether a write is to `key`.
pub open spec fn is_to(key: Seq<u8>) -> spec_fn(KeyedOp) -> bool {
    |op: KeyedOp| op.key@ == key
}

/// The writes to one key, in order.
pub open spec fn with_key(ops: Seq<KeyedOp>, key: Seq<u8>) -> Seq<KeyedOp> {
    ops.filter(is_to(key))
}

proof fn lemma_before_transitive(a: Seq<u8>, b: Seq<u8>, c: Seq<u8>)
    ensures
        !bytes_before(b, a) && !bytes_before(c, b) ==> !bytes_before(c, a),
        bytes_before(a, b) && !bytes_before(c, b) ==> bytes_before(a, c),
    decreases a.len() + b.len() + c.len(),
{
    if a.len() > 0 && b.len() > 0 && c.len() > 0 {
        lemma_before_transitive(a.skip(1), b.skip(1), c.skip(1));
    }
}

proof fn lemma_before_irreflexive(a: Seq<u8>)
    ensures
        !bytes_before(a, a),
    decreases a.len(),
{
    if a.len() > 0 {
        lemma_before_irreflexive(a.skip(1));
    }
}

proof fn lemma_before_asymmetric(a: Seq<u8>, b: Seq<u8>)
    ensures
        bytes_before(a, b) ==> !bytes_before(b, a),
    decreases a.len(),
{
    if a.len() > 0 && b.len() > 0 {
        lemma_before_asymmetric(a.skip(1), b.skip(1));
    }
}

/// Whether `a` comes before `b`.
pub fn is_before(a: &[u8], b: &[u8]) -> (r: bool)
    ensures
        r == bytes_before(a@, b@),
{
    let mut i: usize = 0;
    proof {
        assert(a@.skip(0) =~= a@);
        assert(b@.skip(0) =~= b@);
    }
    while i < a.len() && i < b.len()
        invariant
            i <= a@.len(),
            i <= b@.len(),
            bytes_before(a@, b@) == bytes_before(a@.skip(i as int), b@.skip(i as int)),
        decreases a@.len() - i,
    {
        assert(a@.skip(i as int).skip(1) =~= a@.skip(i + 1));
        assert(b@.skip(i as int).skip(1) =~= b@.skip(i + 1));
        if a[i] != b[i] {
            return a[i] < b[i];
        }
        i = i + 1;
    }
    i < b.len()
}

/// Placing `op` after all smaller keys, and before equal ones, puts it in front
/// of the writes to its key.
proof fn lemma_insert_front_of_key(ops: Seq<KeyedOp>, at: int, op: KeyedOp, key: Seq<u8>)
    requires
        0 <= at <= ops.len(),
        forall|i: int| 0 <= i < at ==> bytes_before((#[trigger] ops[i]).key@, op.key@),
    ensures
        with_key(ops.insert(at, op), key) == with_key(seq![op], key) + with_key(ops, key),
{
    let pred = is_to(key);
    let left = ops.take(at);
    let right = ops.skip(at);
    assert(ops.insert(at, op) =~= left + (seq![op] + right));
    assert(ops =~= left + right);
    Seq::filter_distributes_over_add(left, seq![op] + right, pred);
    Seq::filter_distributes_over_add(seq![op], right, pred);
    Seq::filter_distributes_over_add(left, right, pred);
    if op.key@ == key {
        assert forall|i: int| 0 <= i < left.len() implies !pred(#[trigger] left[i]) by {
            lemma_before_irreflexive(key);
        }
        assert(left.all(|o: KeyedOp| !pred(o)));
        left.lemma_all_neg_filter_empty(pred);
        assert(left.filter(pred) =~= Seq::<KeyedOp>::empty());
    } else {
        let single = seq![op];
        assert(single.all(|o: KeyedOp| !pred(o)));
        single.lemma_all_neg_filter_empty(pred);
        assert(single.filter(pred) =~= Seq::<KeyedOp>::empty());
    }
    let (l, o, r) = (left.filter(pred), seq![op].filter(pred), right.filter(pred));
    assert(l + (o + r) =~= o + (l + r));
}

proof fn lemma_insert_in_order(ops: Seq<KeyedOp>, at: int, op: KeyedOp)
    requires
        in_key_order(ops),
        0 <= at <= ops.len(),
        forall|i: int| 0 <= i < at ==> bytes_before((#[trigger] ops[i]).key@, op.key@),
        at < ops.len() ==> !bytes_before(ops[at].key@, op.key@),
    ensures
        in_key_order(ops.insert(at, op)),
{
    let out = ops.insert(at, op);
    assert forall|i: int, j: int|
        #![trigger out[i], out[j]]
        0 <= i < j < out.len() implies !bytes_before(out[j].key@, out[i].key@) by {
        if j == at {
            assert(out[i] == ops[i]);
            lemma_before_asymmetric(ops[i].key@, op.key@);
        } else if i == at {
            assert(out[j] == ops[j - 1]);
            if j - 1 > at {
                assert(!bytes_before(ops[j - 1].key@, ops[at].key@));
                lemma_before_transitive(op.key@, ops[at].key@, ops[j - 1].key@);
            }
        } else {
            let a = if i < at {
                i
            } else {
                i - 1
            };
            let b = if j < at {
                j
            } else {
                j - 1
            };
            assert(out[i] == ops[a]);
            assert(out[j] == ops[b]);
        }
    }
}

/// Puts a batch in key order. Writes to the same key keep their order.
pub fn sort_batch(ops: Vec<KeyedOp>) -> (r: Vec<KeyedOp>)
    ensures
        in_key_order(r@),
        forall|key: Seq<u8>| #[trigger] with_key(r@, key) == with_key(ops@, key),
{
    let ghost all = ops@;
    let mut rest = ops;
    let mut out: Vec<KeyedOp> = Vec::new();
    proof {
        assert(all.skip(all.len() as int) =~= out@);
    }
    while rest.len() > 0
        invariant
            rest@.len() <= all.len(),
            rest@ == all.take(rest@.len() as int),
            in_key_order(out@),
            forall|key: Seq<u8>| #[trigger]
                with_key(out@, key) == with_key(all.skip(rest@.len() as int), key),
        decreases rest@.len(),
    {
        let ghost n = rest@.len() - 1;
        if let Some(op) = rest.pop() {
            let mut at: usize = 0;
            while at < out.len() && is_before(out[at].key.as_slice(), op.key.as_slice())
                invariant
                    at <= out@.len(),
                    forall|i: int|
                        0 <= i < at ==> bytes_before((#[trigger] out@[i]).key@, op.key@),
                decreases out@.len() - at,
            {
                at = at + 1;
            }
            proof {
                lemma_insert_in_order(out@, at as int, op);
                assert(all.skip(n) =~= seq![op] + all.skip(n + 1));
                assert(rest@ =~= all.take(n));
                assert forall|key: Seq<u8>| #[trigger]
                    with_key(out@.insert(at as int, op), key) == with_key(all.skip(n), key) by {
                    lemma_insert_front_of_key(out@, at as int, op, key);
                    Seq::filter_distributes_over_add(seq![op], all.skip(n + 1), is_to(key));
                    assert(with_key(out@, key) == with_key(all.skip(n + 1), key));
                }
            }
            out.insert(at, op);
        }
    }
    assert(all.skip(0) =~= all);
    out
}

/// The writes of a batch, without their keys.
pub open spec fn op_views(ops: Seq<KeyedOp>) -> Seq<BatchOpView> {
    ops.map_values(|keyed: KeyedOp| keyed.op@)
}

/// Whether `pairs` are the writes `ops`, each with the key that `key_of` gives
/// it.
pub open spec fn is_keyed<F: Fn(&BatchOp) -> Vec<u8>>(
    key_of: F,
    ops: Seq<BatchOpView>,
    pairs: Seq<KeyedOp>,
) -> bool {
    &&& op_views(pairs) == ops
    &&& forall|i: int|
        0 <= i < pairs.len() ==> call_ensures(key_of, (&(#[trigger] pairs[i]).op,), pairs[i].key)
}

/// Whether `step` holds the writes `ops`, each with the key that `key_of` gives
/// it, in key order, writes to the same key in the order in which they stand in
/// `ops`.
pub open spec fn is_write_step<F: Fn(&BatchOp) -> Vec<u8>>(
    key_of: F,
    ops: Seq<BatchOpView>,
    step: Seq<KeyedOp>,
) -> bool {
    &&& in_key_order(step)
    &&& exists|pairs: Seq<KeyedOp>| #[trigger]
        is_keyed(key_of, ops, pairs) && same_by_key(step, pairs)
}

/// Whether two batches hold the same writes to each key, in the same order.
pub open spec fn same_by_key(a: Seq<KeyedOp>, b: Seq<KeyedOp>) -> bool {
    forall|key: Seq<u8>| #[trigger] with_key(a, key) == with_key(b, key)
}

proof fn lemma_count_with_key(ops: Seq<KeyedOp>, op: KeyedOp)
    ensures
        ops.to_multiset().count(op) == with_key(ops, op.key@).to_multiset().count(op),
    decreases ops.len(),
{
    broadcast use vstd::seq_lib::group_to_multiset_ensures;

    reveal(Seq::filter);
    if ops.len() > 0 {
        let rest = ops.drop_last();
        lemma_count_with_key(rest, op);
        assert(ops =~= rest.push(ops.last()));
        let kept = with_key(rest, op.key@);
        if ops.last().key@ == op.key@ {
            assert(with_key(ops, op.key@) == kept.push(ops.last()));
        } else {
            assert(with_key(ops, op.key@) == kept);
        }
    } else {
        assert(with_key(ops, op.key@) =~= ops);
    }
}

/// Ordering neither loses nor adds nor repeats a write: batches that hold the
/// same writes to each key hold the same writes.
pub proof fn law_order_keeps_writes(a: Seq<KeyedOp>, b: Seq<KeyedOp>)
    requires
        same_by_key(a, b),
    ensures
        a.to_multiset() == b.to_multiset(),
{
    assert forall|op: KeyedOp| #[trigger] a.to_multiset().count(op) == b.to_multiset().count(
        op,
    ) by {
        lemma_count_with_key(a, op);
        lemma_count_with_key(b, op);
        assert(with_key(a, op.key@) == with_key(b, op.key@));
    }
    assert(a.to_multiset() =~= b.to_multiset());
}

/// Puts the writes of an accepted entry in the order in which they are applied.
pub fn order_batch<F: Fn(&BatchOp) -> Vec<u8>>(ops: Vec<BatchOp>, key_of: F) -> (r: Vec<KeyedOp>)
    requires
        forall|op: &BatchOp| #[trigger] call_requires(key_of, (op,)),
    ensures
        is_write_step(key_of, changelog::batch_views(ops@), r@),
{
    let ghost views = changelog::batch_views(ops@);
    let mut keyed: Vec<KeyedOp> = Vec::new();
    assert(op_views(keyed@) =~= views.take(0));
    for op in it: ops
        invariant
            it.seq() == ops@,
            views == changelog::batch_views(ops@),
            forall|op: &BatchOp| #[trigger] call_requires(key_of, (op,)),
            keyed@.len() == it.index(),
            is_keyed(key_of, views.take(it.index() as int), keyed@),
    {
        let ghost before = keyed@;
        let key = key_of(&op);
        keyed.push(KeyedOp { key, op });
        proof {
            let n = before.len() as int;
            assert(views[n] == op@);
            assert(op_views(keyed@) =~= op_views(before).push(op@));
            assert(views.take(n + 1) =~= views.take(n).push(views[n]));
            assert forall|i: int| 0 <= i < keyed@.len() implies call_ensures(
                key_of,
                (&(#[trigger] keyed@[i]).op,),
                keyed@[i].key,
            ) by {
                if i < n {
                    assert(keyed@[i] == before[i]);
                }
            }
        }
    }
    assert(views.take(views.len() as int) =~= views);
    sort_batch(keyed)
}

/// One key comes before another exactly where it is a proper beginning of it, or
/// where, after a common beginning, its next byte is the smaller one.
pub proof fn law_keys_are_ordered_by_first_difference(a: Seq<u8>, b: Seq<u8>)
    ensures
        bytes_before(a, b) <==> exists|k: int|
            {
                &&& 0 <= k <= a.len()
                &&& k < b.len()
                &&& #[trigger] a.take(k) == b.take(k)
                &&& k == a.len() || a[k] < b[k]
            },
    decreases a.len(),
{
    if a.len() == 0 {
        assert(a.take(0) =~= b.take(0));
    } else if b.len() > 0 {
        let (x, y) = (a.skip(1), b.skip(1));
        law_keys_are_ordered_by_first_difference(x, y);
        if bytes_before(a, b) {
            if a[0] != b[0] {
                assert(a.take(0) =~= b.take(0));
            } else {
                let k = choose|k: int|
                    {
                        &&& 0 <= k <= x.len()
                        &&& k < y.len()
                        &&& #[trigger] x.take(k) == y.take(k)
                        &&& k == x.len() || x[k] < y[k]
                    };
                assert(a.take(k + 1) =~= seq![a[0]] + x.take(k));
                assert(b.take(k + 1) =~= seq![b[0]] + y.take(k));
                assert(a.take(k + 1) == b.take(k + 1));
            }
        }
        if exists|k: int|
            {
                &&& 0 <= k <= a.len()
                &&& k < b.len()
                &&& #[trigger] a.take(k) == b.take(k)
                &&& k == a.len() || a[k] < b[k]
            } {
            let k = choose|k: int|
                {
                    &&& 0 <= k <= a.len()
                    &&& k < b.len()
                    &&& #[trigger] a.take(k) == b.take(k)
                    &&& k == a.len() || a[k] < b[k]
                };
            if k > 0 {
                assert(a.take(k)[0] == b.take(k)[0]);
                assert(x.take(k - 1) =~= a.take(k).skip(1));
                assert(y.take(k - 1) =~= b.take(k).skip(1));
                assert(x.take(k - 1) == y.take(k - 1));
            }
        }
    }
}

/// A write step holds exactly the writes that it is made of, none lost, added or
/// repeated, each with the key that the encoding gives it. No write stands
/// before one with a smaller key, and writes to one key stay in order.
pub proof fn law_write_step_sorts_the_writes<F: Fn(&BatchOp) -> Vec<u8>>(
    key_of: F,
    ops: Seq<BatchOpView>,
    step: Seq<KeyedOp>,
)
    requires
        is_write_step(key_of, ops, step),
    ensures
        exists|pairs: Seq<KeyedOp>|
            {
                &&& pairs.len() == ops.len()
                &&& forall|i: int|
                    0 <= i < ops.len() ==> {
                        &&& (#[trigger] pairs[i]).op@ == ops[i]
                        &&& call_ensures(key_of, (&pairs[i].op,), pairs[i].key)
                    }
                &&& #[trigger] pairs.to_multiset() == step.to_multiset()
                &&& forall|key: Seq<u8>|
                    pairs.filter(|keyed: KeyedOp| keyed.key@ == key) == #[trigger] with_key(
                        step,
                        key,
                    )
            },
        forall|key: Seq<u8>| #[trigger]
            with_key(step, key) == step.filter(|keyed: KeyedOp| keyed.key@ == key),
        forall|i: int, j: int|
            #![trigger step[i], step[j]]
            0 <= i < j < step.len() ==> !exists|k: int|
                {
                    &&& 0 <= k <= step[j].key@.len()
                    &&& k < step[i].key@.len()
                    &&& #[trigger] step[j].key@.take(k) == step[i].key@.take(k)
                    &&& k == step[j].key@.len() || step[j].key@[k] < step[i].key@[k]
                },
{
    let pairs = choose|pairs: Seq<KeyedOp>| #[trigger]
        is_keyed(key_of, ops, pairs) && same_by_key(step, pairs);
    law_order_keeps_writes(step, pairs);
    assert(op_views(pairs).len() == pairs.len());
    assert forall|i: int| 0 <= i < ops.len() implies {
        &&& (#[trigger] pairs[i]).op@ == ops[i]
        &&& call_ensures(key_of, (&pairs[i].op,), pairs[i].key)
    } by {
        assert(op_views(pairs)[i] == pairs[i].op@);
    }
    assert forall|key: Seq<u8>| #[trigger]
        with_key(step, key) == step.filter(|keyed: KeyedOp| keyed.key@ == key) by {
        assert(is_to(key) =~= |keyed: KeyedOp| keyed.key@ == key);
    }
    assert forall|key: Seq<u8>|
        pairs.filter(|keyed: KeyedOp| keyed.key@ == key) == #[trigger] with_key(step, key) by {
        assert(is_to(key) =~= |keyed: KeyedOp| keyed.key@ == key);
        assert(with_key(step, key) == with_key(pairs, key));
    }
    assert(pairs.to_multiset() == step.to_multiset());
    assert forall|i: int, j: int|
        #![trigger step[i], step[j]]
        0 <= i < j < step.len() implies !exists|k: int|
        {
            &&& 0 <= k <= step[j].key@.len()
            &&& k < step[i].key@.len()
            &&& #[trigger] step[j].key@.take(k) == step[i].key@.take(k)
            &&& k == step[j].key@.len() || step[j].key@[k] < step[i].key@[k]
        } by {
        law_keys_are_ordered_by_first_difference(step[j].key@, step[i].key@);
    }
}

} // verus!
