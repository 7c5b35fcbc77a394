//! Which relay pairs are probed: the pair grid, the share of the randomly
//! chosen relays that each worker takes, and the attempts a worker makes.

use vstd::prelude::*;

verus! {

/// How many randomly chosen relays are tested in one run.
pub const NO_OF_RELAYS_TO_TEST: usize = 400;

/// The number of rows (and of columns) in the pair grid of `n` relays: every
/// relay but the first.
pub open spec fn grid_side(n: nat) -> nat {
    if n >= 1 { (n - 1) as nat } else { 0 }
}

/// A grid over a non-empty list has one row (and one column) for every relay
/// but the first; over an empty list it has none.
pub proof fn lemma_grid_side(n: nat)
    ensures
        n >= 1 ==> grid_side(n) + 1 == n,
        n == 0 ==> grid_side(n) == 0,
{
}

/// Every ordered pair of relays, the first relay of the list left out on both
/// sides: row `i` pairs relay `i + 1` with relays `1, 2, ...` in turn (a relay
/// is paired with itself too).
pub fn generate_all_relay_two_hop_circuit_combinations<T: Copy>(relays: Vec<T>) -> (r: Vec<Vec<(T, T)>>)
    ensures
        r@.len() == grid_side(relays@.len()),
        relays@.len() >= 1 ==> r@.len() + 1 == relays@.len(),
        relays@.len() == 0 ==> r@.len() == 0,
        forall|i: int| 0 <= i < r@.len() ==> (#[trigger] r@[i])@.len() == grid_side(relays@.len()),
        forall|i: int| 0 <= i < r@.len() ==> (#[trigger] r@[i])@.len() + 1 == relays@.len(),
        forall|i: int, j: int|
            0 <= i < r@.len() && 0 <= j < r@[i]@.len() ==> (#[trigger] r@[i]@[j]) == (
            relays@[i + 1],
            relays@[j + 1],
        ),
{
    let n = relays.len();
    let mut total_two_hops: Vec<Vec<(T, T)>> = Vec::new();
    let mut i: usize = 1;
    while i < n
        invariant
            n == relays@.len(),
            1 <= i,
            n >= 1 ==> i <= n,
            n == 0 ==> total_two_hops@.len() == 0,
            n >= 1 ==> total_two_hops@.len() == i - 1,
            forall|a: int| 0 <= a < total_two_hops@.len() ==> (#[trigger] total_two_hops@[a])@.len() == grid_side(n as nat),
            forall|a: int, b: int|
                0 <= a < total_two_hops@.len() && 0 <= b < total_two_hops@[a]@.len() ==> (#[trigger] total_two_hops@[a]@[b]) == (
                relays@[a + 1],
                relays@[b + 1],
            ),
        decreases n - i,
    {
        let mut two_hops: Vec<(T, T)> = Vec::new();
        let mut j: usize = 1;
        while j < n
            invariant
                n == relays@.len(),
                1 <= i < n,
                1 <= j <= n,
                two_hops@.len() == j - 1,
                forall|b: int| 0 <= b < two_hops@.len() ==> (#[trigger] two_hops@[b]) == (
                    relays@[i as int],
                    relays@[b + 1],
                ),
            decreases n - j,
        {
            two_hops.push((relays[i], relays[j]));
            j += 1;
        }
        total_two_hops.push(two_hops);
        i += 1;
    }
    total_two_hops
}


/// How many of the chosen relays each of `total_sub_nodes` workers takes as sources.
pub open spec fn batch_len(total_sub_nodes: nat) -> nat
    recommends
        total_sub_nodes > 0,
{
    NO_OF_RELAYS_TO_TEST as nat / total_sub_nodes
}

/// Where the share of worker `i` starts among the chosen relays.
pub open spec fn batch_start(i: nat, total_sub_nodes: nat) -> nat {
    i * batch_len(total_sub_nodes)
}

/// Whether worker `i` of `total_sub_nodes` has a whole share among `len` chosen relays.
pub fn batch_fits(i: usize, len: usize, total_sub_nodes: usize) -> (r: bool)
    ensures
        r == (total_sub_nodes > 0 && batch_start(i as nat, total_sub_nodes as nat) + batch_len(
            total_sub_nodes as nat,
        ) <= len),
{
    if total_sub_nodes == 0 {
        return false;
    }
    let no_of_relays_to_test = NO_OF_RELAYS_TO_TEST / total_sub_nodes;
    assert(no_of_relays_to_test == batch_len(total_sub_nodes as nat));
    match i.checked_mul(no_of_relays_to_test) {
        None => false,
        Some(from) => match from.checked_add(no_of_relays_to_test) {
            None => false,
            Some(to) => to <= len,
        },
    }
}

/// The chosen relays that worker `i` of `total_sub_nodes` probes from: the
/// `i`-th block of `400 / total_sub_nodes` consecutive entries.
pub fn thread_batch(i: usize, index_of_random_relays: &Vec<u32>, total_sub_nodes: usize) -> (r: Vec<u32>)
    requires
        total_sub_nodes > 0,
        batch_start(i as nat, total_sub_nodes as nat) + batch_len(total_sub_nodes as nat)
            <= index_of_random_relays@.len(),
    ensures
        r@ == index_of_random_relays@.subrange(
            batch_start(i as nat, total_sub_nodes as nat) as int,
            (batch_start(i as nat, total_sub_nodes as nat) + batch_len(total_sub_nodes as nat)) as int,
        ),
{
    let no_of_relays_to_test = NO_OF_RELAYS_TO_TEST / total_sub_nodes;
    assert(no_of_relays_to_test == batch_len(total_sub_nodes as nat));
    assert(i * no_of_relays_to_test == batch_start(i as nat, total_sub_nodes as nat));
    let len = index_of_random_relays.len();
    assert(i * no_of_relays_to_test + no_of_relays_to_test <= len);
    let from = i * no_of_relays_to_test;
    let to = from + no_of_relays_to_test;
    let mut batch: Vec<u32> = Vec::new();
    let mut k = from;
    while k < to
        invariant
            from <= k <= to,
            to <= index_of_random_relays@.len(),
            batch@ == index_of_random_relays@.subrange(from as int, k as int),
        decreases to - k,
    {
        batch.push(index_of_random_relays[k]);
        k += 1;
    }
    batch
}

/// The attempts a source relay makes: towards every relay of `all` in order,
/// itself left out.
pub open spec fn attempts_from(source: u32, all: Seq<u32>) -> Seq<(u32, u32)>
    decreases all.len(),
{
    if all.len() == 0 {
        seq![]
    } else if source == all.last() {
        attempts_from(source, all.drop_last())
    } else {
        attempts_from(source, all.drop_last()).push((source, all.last()))
    }
}

/// The attempts of a worker: for each relay of its batch in order, its
/// attempts towards all the chosen relays.
pub open spec fn attempts(batch: Seq<u32>, all: Seq<u32>) -> Seq<(u32, u32)>
    decreases batch.len(),
{
    if batch.len() == 0 {
        seq![]
    } else {
        attempts(batch.drop_last(), all) + attempts_from(batch.last(), all)
    }
}

/// The (source, destination) pairs a worker builds circuits for, in the order
/// it builds them: each relay of `batch` with each relay of `all`, never a relay
/// with itself.
pub fn circuit_attempts(batch: &Vec<u32>, all: &Vec<u32>) -> (r: Vec<(u32, u32)>)
    ensures
        r@ == attempts(batch@, all@),
{
    let mut pairs: Vec<(u32, u32)> = Vec::new();
    let mut k: usize = 0;
    while k < batch.len()
        invariant
            k <= batch@.len(),
            pairs@ == attempts(batch@.take(k as int), all@),
        decreases batch@.len() - k,
    {
        let index = batch[k];
        let ghost before = pairs@;
        let mut m: usize = 0;
        while m < all.len()
            invariant
                k < batch@.len(),
                index == batch@[k as int],
                m <= all@.len(),
                pairs@ == before + attempts_from(index, all@.take(m as int)),
            decreases all@.len() - m,
        {
            let j = all[m];
            assert(all@.take(m + 1).drop_last() == all@.take(m as int));
            if index != j {
                pairs.push((index, j));
            }
            m += 1;
        }
        assert(all@.take(all@.len() as int) == all@);
        assert(batch@.take(k + 1).drop_last() == batch@.take(k as int));
        k += 1;
    }
    assert(batch@.take(batch@.len() as int) == batch@);
    pairs
}


pub(crate) proof fn lemma_push_contains<A>(s: Seq<A>, x: A, y: A)
    ensures
        s.push(x).contains(y) <==> (s.contains(y) || x == y),
{
    if s.push(x).contains(y) {
        let i = choose|i: int| 0 <= i < s.push(x).len() && s.push(x)[i] == y;
        if i < s.len() {
            assert(s[i] == y);
        }
    }
    if s.contains(y) {
        let i = choose|i: int| 0 <= i < s.len() && s[i] == y;
        assert(s.push(x)[i] == y);
    }
    if x == y {
        assert(s.push(x)[s.len() as int] == y);
    }
}

proof fn lemma_add_contains<A>(s: Seq<A>, t: Seq<A>, y: A)
    ensures
        (s + t).contains(y) <==> (s.contains(y) || t.contains(y)),
{
    if (s + t).contains(y) {
        let i = choose|i: int| 0 <= i < (s + t).len() && (s + t)[i] == y;
        if i < s.len() {
            assert(s[i] == y);
        } else {
            assert(t[i - s.len()] == y);
        }
    }
    if s.contains(y) {
        let i = choose|i: int| 0 <= i < s.len() && s[i] == y;
        assert((s + t)[i] == y);
    }
    if t.contains(y) {
        let i = choose|i: int| 0 <= i < t.len() && t[i] == y;
        assert((s + t)[s.len() + i] == y);
    }
}

proof fn lemma_attempts_from_contains(source: u32, all: Seq<u32>, p: (u32, u32))
    ensures
        attempts_from(source, all).contains(p) <==> (p.0 == source && p.1 != source && all.contains(p.1)),
    decreases all.len(),
{
    if all.len() > 0 {
        let prev = all.drop_last();
        lemma_attempts_from_contains(source, prev, p);
        assert(all == prev.push(all.last()));
        lemma_push_contains(prev, all.last(), p.1);
        if source != all.last() {
            lemma_push_contains(attempts_from(source, prev), (source, all.last()), p);
        }
    }
}

/// A worker attempts the pair `(a, b)` exactly when `a` is one of its sources,
/// `b` one of the chosen relays, and the two differ: no relay is ever asked to
/// build a circuit to itself, and no other pair is missed.
pub proof fn lemma_attempts_are_distinct_pairs(batch: Seq<u32>, all: Seq<u32>, a: u32, b: u32)
    ensures
        attempts(batch, all).contains((a, b)) <==> (batch.contains(a) && all.contains(b) && a != b),
    decreases batch.len(),
{
    if batch.len() > 0 {
        let prev = batch.drop_last();
        lemma_attempts_are_distinct_pairs(prev, all, a, b);
        assert(batch == prev.push(batch.last()));
        lemma_push_contains(prev, batch.last(), a);
        lemma_add_contains(attempts(prev, all), attempts_from(batch.last(), all), (a, b));
        lemma_attempts_from_contains(batch.last(), all, (a, b));
    }
}

/// The share of worker `i + 1` starts where the share of worker `i` ends, so
/// the shares of different workers never overlap.
pub proof fn lemma_batches_adjacent(i: nat, total_sub_nodes: nat)
    requires
        total_sub_nodes > 0,
    ensures
        batch_start(i + 1, total_sub_nodes) == batch_start(i, total_sub_nodes) + batch_len(total_sub_nodes),
{
    let n = batch_len(total_sub_nodes);
    assert((i + 1) * n == i * n + n) by (nonlinear_arith);
}

/// When the number of workers divides the number of relays to test, every one
/// of those relays falls in the share of some worker.
pub proof fn lemma_batches_cover(r: nat, total_sub_nodes: nat)
    requires
        0 < total_sub_nodes <= NO_OF_RELAYS_TO_TEST,
        NO_OF_RELAYS_TO_TEST as nat % total_sub_nodes == 0,
        r < NO_OF_RELAYS_TO_TEST,
    ensures
        ({
            let i = r / batch_len(total_sub_nodes);
            &&& i < total_sub_nodes
            &&& batch_start(i, total_sub_nodes) <= r < batch_start(i, total_sub_nodes) + batch_len(total_sub_nodes)
        }),
{
    let n = batch_len(total_sub_nodes);
    let t = total_sub_nodes;
    assert(n * t == 400nat) by (nonlinear_arith)
        requires
            n == 400nat / t,
            400nat % t == 0,
            t > 0;
    assert(n > 0) by (nonlinear_arith)
        requires
            n * t == 400nat;
    let i = r / n;
    assert(i * n <= r < i * n + n) by (nonlinear_arith)
        requires
            i == r / n,
            n > 0;
    assert(i < t) by (nonlinear_arith)
        requires
            i * n <= r,
            r < 400nat,
            n * t == 400nat,
            n > 0;
}


/// The share of worker `i` of `total_sub_nodes` among the chosen relays `v`.
pub open spec fn share(v: Seq<u32>, total_sub_nodes: nat, i: nat) -> Seq<u32> {
    v.subrange(
        batch_start(i, total_sub_nodes) as int,
        (batch_start(i, total_sub_nodes) + batch_len(total_sub_nodes)) as int,
    )
}

/// The shares of workers `0 .. count`, one after another.
pub open spec fn shares_upto(v: Seq<u32>, total_sub_nodes: nat, count: nat) -> Seq<u32>
    decreases count,
{
    if count == 0 {
        seq![]
    } else {
        shares_upto(v, total_sub_nodes, (count - 1) as nat) + share(v, total_sub_nodes, (count - 1) as nat)
    }
}

/// The attempts of workers `0 .. count`, one worker after another.
pub open spec fn workers_attempts(v: Seq<u32>, total_sub_nodes: nat, count: nat) -> Seq<(u32, u32)>
    decreases count,
{
    if count == 0 {
        seq![]
    } else {
        workers_attempts(v, total_sub_nodes, (count - 1) as nat) + attempts(
            share(v, total_sub_nodes, (count - 1) as nat),
            v,
        )
    }
}

proof fn lemma_shares_upto(v: Seq<u32>, t: nat, count: nat)
    requires
        t > 0,
        count * batch_len(t) <= v.len(),
    ensures
        shares_upto(v, t, count) == v.subrange(0, (count * batch_len(t)) as int),
    decreases count,
{
    let n = batch_len(t);
    if count > 0 {
        let c1 = (count - 1) as nat;
        assert(c1 * n + n == count * n) by (nonlinear_arith)
            requires
                c1 + 1 == count;
        assert(c1 * n <= count * n) by (nonlinear_arith)
            requires
                c1 + 1 == count;
        lemma_shares_upto(v, t, c1);
        assert(batch_start(c1, t) == c1 * n);
        assert(share(v, t, c1) == v.subrange((c1 * n) as int, (count * n) as int));
        assert(shares_upto(v, t, count) == shares_upto(v, t, c1) + share(v, t, c1));
        assert(v.subrange(0, (c1 * n) as int) + v.subrange((c1 * n) as int, (count * n) as int)
            == v.subrange(0, (count * n) as int));
    } else {
        assert(count * n == 0) by (nonlinear_arith)
            requires
                count == 0;
        assert(v.subrange(0, 0) == Seq::<u32>::empty());
    }
}

proof fn lemma_attempts_concat(a: Seq<u32>, b: Seq<u32>, all: Seq<u32>)
    ensures
        attempts(a + b, all) == attempts(a, all) + attempts(b, all),
    decreases b.len(),
{
    if b.len() == 0 {
        assert(a + b == a);
        assert(attempts(a, all) + attempts(b, all) == attempts(a, all));
    } else {
        let b1 = b.drop_last();
        lemma_attempts_concat(a, b1, all);
        assert((a + b).drop_last() == a + b1);
        assert((a + b).last() == b.last());
        assert(attempts(a + b, all) == attempts(a + b1, all) + attempts_from(b.last(), all));
        assert(attempts(b, all) == attempts(b1, all) + attempts_from(b.last(), all));
        assert(attempts(a, all) + attempts(b1, all) + attempts_from(b.last(), all) == attempts(a, all)
            + (attempts(b1, all) + attempts_from(b.last(), all)));
    }
}

proof fn lemma_workers_attempts(v: Seq<u32>, t: nat, count: nat)
    ensures
        workers_attempts(v, t, count) == attempts(shares_upto(v, t, count), v),
    decreases count,
{
    if count > 0 {
        let c1 = (count - 1) as nat;
        lemma_workers_attempts(v, t, c1);
        lemma_attempts_concat(shares_upto(v, t, c1), share(v, t, c1), v);
    } else {
        assert(attempts(Seq::<u32>::empty(), v) == Seq::<(u32, u32)>::empty());
    }
}

proof fn lemma_push_no_duplicates<A>(s: Seq<A>, x: A)
    requires
        s.no_duplicates(),
        !s.contains(x),
    ensures
        s.push(x).no_duplicates(),
{
    assert forall|i: int, j: int| 0 <= i < s.len() + 1 && 0 <= j < s.len() + 1 && i != j implies s.push(x)[i]
        != s.push(x)[j] by {
        if i == s.len() {
            assert(s[j] == s.push(x)[j]);
        } else if j == s.len() {
            assert(s[i] == s.push(x)[i]);
        }
    }
}

proof fn lemma_concat_no_duplicates<A>(a: Seq<A>, b: Seq<A>)
    requires
        a.no_duplicates(),
        b.no_duplicates(),
        forall|x: A| a.contains(x) ==> !b.contains(x),
    ensures
        (a + b).no_duplicates(),
{
    assert forall|i: int, j: int| 0 <= i < (a + b).len() && 0 <= j < (a + b).len() && i != j implies (a
        + b)[i] != (a + b)[j] by {
        if i < a.len() && j >= a.len() {
            assert(a.contains(a[i]));
            assert(b[j - a.len()] == (a + b)[j]);
        } else if j < a.len() && i >= a.len() {
            assert(a.contains(a[j]));
            assert(b[i - a.len()] == (a + b)[i]);
        }
    }
}

proof fn lemma_attempts_from_no_duplicates(source: u32, all: Seq<u32>)
    requires
        all.no_duplicates(),
    ensures
        attempts_from(source, all).no_duplicates(),
    decreases all.len(),
{
    if all.len() > 0 {
        let prev = all.drop_last();
        assert(prev.no_duplicates());
        lemma_attempts_from_no_duplicates(source, prev);
        if source != all.last() {
            lemma_attempts_from_contains(source, prev, (source, all.last()));
            assert(!prev.contains(all.last()));
            lemma_push_no_duplicates(attempts_from(source, prev), (source, all.last()));
        }
    }
}

/// When the relays of a batch are distinct and so are all the chosen relays,
/// no pair is attempted twice.
pub proof fn lemma_attempts_no_duplicates(batch: Seq<u32>, all: Seq<u32>)
    requires
        batch.no_duplicates(),
        all.no_duplicates(),
    ensures
        attempts(batch, all).no_duplicates(),
    decreases batch.len(),
{
    if batch.len() > 0 {
        let prev = batch.drop_last();
        let last = batch.last();
        assert(prev.no_duplicates());
        assert(!prev.contains(last));
        lemma_attempts_no_duplicates(prev, all);
        lemma_attempts_from_no_duplicates(last, all);
        assert forall|p: (u32, u32)| attempts(prev, all).contains(p) implies !attempts_from(last, all).contains(p) by {
            lemma_attempts_are_distinct_pairs(prev, all, p.0, p.1);
            lemma_attempts_from_contains(last, all, p);
        }
        lemma_concat_no_duplicates(attempts(prev, all), attempts_from(last, all));
    }
}

/// When the number of workers divides the number of relays to test and the
/// list holds at least that many relays, the shares of all workers, one after
/// another, are exactly the first 400 chosen relays, and the attempts of all
/// workers, one after another, are exactly the attempts of a single worker
/// whose share is those 400 relays. When the chosen relays are distinct, no
/// pair is attempted twice over all the workers.
pub proof fn lemma_workers_split_the_relays(v: Seq<u32>, total_sub_nodes: nat)
    requires
        0 < total_sub_nodes <= NO_OF_RELAYS_TO_TEST,
        NO_OF_RELAYS_TO_TEST as nat % total_sub_nodes == 0,
        v.len() >= NO_OF_RELAYS_TO_TEST,
    ensures
        shares_upto(v, total_sub_nodes, total_sub_nodes) == v.subrange(0, NO_OF_RELAYS_TO_TEST as int),
        workers_attempts(v, total_sub_nodes, total_sub_nodes) == attempts(
            v.subrange(0, NO_OF_RELAYS_TO_TEST as int),
            v,
        ),
        v.no_duplicates() ==> workers_attempts(v, total_sub_nodes, total_sub_nodes).no_duplicates(),
{
    let t = total_sub_nodes;
    let n = batch_len(t);
    assert(t * n == 400nat) by (nonlinear_arith)
        requires
            n == 400nat / t,
            400nat % t == 0,
            t > 0;
    lemma_shares_upto(v, t, t);
    lemma_workers_attempts(v, t, t);
    if v.no_duplicates() {
        let first = v.subrange(0, 400);
        assert forall|i: int, j: int| 0 <= i < first.len() && 0 <= j < first.len() && i != j implies first[i]
            != first[j] by {
            assert(first[i] == v[i] && first[j] == v[j]);
        }
        lemma_attempts_no_duplicates(first, v);
    }
}

} // verus!
