//! The entry collection: the entries of all pages, gathered by appending one
//! page's batch at a time.
use vstd::prelude::*;

verus! {

/// The batches laid end to end, in the order given.
pub open spec fn concat_batches(batches: Seq<Seq<Seq<char>>>) -> Seq<Seq<char>>
    decreases batches.len(),
{
    if batches.len() == 0 {
        Seq::empty()
    } else {
        concat_batches(batches.drop_last()) + batches.last()
    }
}

/// The sum of the batches' lengths.
pub open spec fn total_len(batches: Seq<Seq<Seq<char>>>) -> nat
    decreases batches.len(),
{
    if batches.len() == 0 {
        0
    } else {
        total_len(batches.drop_last()) + batches.last().len()
    }
}

/// The view of each batch of entries.
pub open spec fn batch_views(batches: Seq<Vec<String>>) -> Seq<Seq<Seq<char>>> {
    batches.map_values(|b: Vec<String>| b.deep_view())
}

/// All entries gathered so far, in the order in which their batches came.
pub struct EntryCollection {
    entries: Vec<String>,
}

impl View for EntryCollection {
    type V = Seq<Seq<char>>;

    closed spec fn view(&self) -> Seq<Seq<char>> {
        self.entries.deep_view()
    }
}

impl EntryCollection {
    /// An empty collection.
    pub fn new() -> (r: EntryCollection)
        ensures
            r@ == Seq::<Seq<char>>::empty(),
    {
        let r = EntryCollection { entries: Vec::new() };
        assert(r@ =~= Seq::<Seq<char>>::empty());
        r
    }

    /// Adds the entries of one page at the end, in their order.
    pub fn append(&mut self, batch: &Vec<String>)
        requires
            old(self)@.len() + batch@.len() <= usize::MAX,
        ensures
            final(self)@ == old(self)@ + batch.deep_view(),
    {
        let ghost start = self.entries.deep_view();
        let mut i: usize = 0;
        let n = batch.len();
        while i < n
            invariant
                n == batch@.len(),
                i <= n,
                start.len() + n <= usize::MAX,
                self.entries.deep_view() == start + batch.deep_view().take(i as int),
            decreases n - i,
        {
            let entry = batch[i].clone();
            let ghost before = self.entries@;
            let ghost before_view = self.entries.deep_view();
            self.entries.push(entry);
            proof {
                assert(self.entries@ == before.push(entry));
                assert(entry@ == batch.deep_view()[i as int]);
                let goal = start + batch.deep_view().take(i as int + 1);
                assert(before_view.len() == before.len());
                assert forall|k: int| 0 <= k < goal.len() implies #[trigger] self.entries.deep_view()[k] == goal[k] by {
                    if k < before.len() {
                        assert(self.entries@[k] == before[k]);
                        assert(before_view[k] == goal[k]);
                    } else {
                        assert(self.entries@[k] == entry);
                    }
                }
            }
            i = i + 1;
            assert(self.entries.deep_view() =~= start + batch.deep_view().take(i as int));
        }
        assert(batch.deep_view().take(n as int) =~= batch.deep_view());
    }

    /// The number of entries gathered.
    pub fn len(&self) -> (r: usize)
        ensures
            r == self@.len(),
    {
        self.entries.len()
    }

    /// A copy of the entries, in collection order.
    pub fn snapshot(&self) -> (r: Vec<String>)
        ensures
            r.deep_view() == self@,
    {
        let r = self.entries.clone();
        assert(r.deep_view() =~= self@);
        r
    }
}

/// Gathers the batches, in the order given, into a new collection.
pub fn collect_batches(batches: &Vec<Vec<String>>) -> (r: EntryCollection)
    requires
        total_len(batch_views(batches@)) <= usize::MAX,
    ensures
        r@ == concat_batches(batch_views(batches@)),
        r@.len() == total_len(batch_views(batches@)),
{
    let mut r = EntryCollection::new();
    let mut i: usize = 0;
    proof {
        lemma_total_len_prefix(batch_views(batches@), batches@.len() as int);
    }
    while i < batches.len()
        invariant
            i <= batches@.len(),
            total_len(batch_views(batches@)) <= usize::MAX,
            r@ == concat_batches(batch_views(batches@).take(i as int)),
            forall|k: int| 0 <= k <= batches@.len() ==> #[trigger] total_len(batch_views(batches@).take(k)) <= total_len(batch_views(batches@)),
        decreases batches@.len() - i,
    {
        let ghost views = batch_views(batches@);
        proof {
            lemma_concat_len(views.take(i as int));
            assert(views.take(i as int + 1).drop_last() =~= views.take(i as int));
            assert(views.take(i as int + 1).last() == batches@[i as int].deep_view());
        }
        proof {
            lemma_concat_len(views.take(i as int + 1));
            assert(total_len(views.take(i as int + 1)) <= total_len(views));
        }
        r.append(&batches[i]);
        i = i + 1;
    }
    proof {
        assert(batch_views(batches@).take(batches@.len() as int) =~= batch_views(batches@));
        lemma_concat_len(batch_views(batches@));
    }
    r
}

/// The batches of every prefix of `batches` add up to at most the whole.
proof fn lemma_total_len_prefix(batches: Seq<Seq<Seq<char>>>, n: int)
    requires
        0 <= n <= batches.len(),
    ensures
        forall|k: int| 0 <= k <= n ==> #[trigger] total_len(batches.take(k)) <= total_len(batches),
    decreases batches.len(),
{
    if batches.len() > 0 {
        let init = batches.drop_last();
        lemma_total_len_prefix(init, init.len() as int);
        assert forall|k: int| 0 <= k <= n implies #[trigger] total_len(batches.take(k)) <= total_len(batches) by {
            if k == batches.len() {
                assert(batches.take(k) =~= batches);
            } else {
                assert(batches.take(k) =~= init.take(k));
            }
        }
    }
}

/// Laying the batches end to end gives as many entries as their lengths add
/// up to.
pub proof fn lemma_concat_len(batches: Seq<Seq<Seq<char>>>)
    ensures
        concat_batches(batches).len() == total_len(batches),
    decreases batches.len(),
{
    if batches.len() > 0 {
        lemma_concat_len(batches.drop_last());
    }
}

/// Taking one batch out of the sequence takes its length off the total.
proof fn lemma_total_len_remove(batches: Seq<Seq<Seq<char>>>, i: int)
    requires
        0 <= i < batches.len(),
    ensures
        total_len(batches) == total_len(batches.remove(i)) + batches[i].len(),
    decreases batches.len(),
{
    if i < batches.len() - 1 {
        let init = batches.drop_last();
        lemma_total_len_remove(init, i);
        assert(batches.remove(i).drop_last() =~= init.remove(i));
        assert(batches.remove(i).last() == batches.last());
    } else {
        assert(batches.remove(i) =~= batches.drop_last());
    }
}

/// The number of entries gathered does not depend on the order in which the
/// batches arrive: any two arrival orders of the same batches give
/// collections of the same size.
pub proof fn lemma_count_order_independent(
    first: Seq<Seq<Seq<char>>>,
    second: Seq<Seq<Seq<char>>>,
)
    requires
        first.to_multiset() == second.to_multiset(),
    ensures
        concat_batches(first).len() == concat_batches(second).len(),
        concat_batches(first).len() == total_len(first),
{
    lemma_concat_len(first);
    lemma_concat_len(second);
    lemma_total_len_order_independent(first, second);
}

/// Taking one batch out of the sequence takes its entries out of the
/// concatenation's multiset.
proof fn lemma_concat_multiset_remove(batches: Seq<Seq<Seq<char>>>, i: int)
    requires
        0 <= i < batches.len(),
    ensures
        concat_batches(batches).to_multiset() == concat_batches(batches.remove(i)).to_multiset().add(
            batches[i].to_multiset(),
        ),
    decreases batches.len(),
{
    broadcast use vstd::seq_lib::lemma_multiset_commutative;

    let init = batches.drop_last();
    if i < batches.len() - 1 {
        lemma_concat_multiset_remove(init, i);
        assert(batches.remove(i).drop_last() =~= init.remove(i));
        assert(batches.remove(i).last() == batches.last());
        assert(concat_batches(batches.remove(i)) == concat_batches(init.remove(i)) + batches.last());
        assert(concat_batches(batches).to_multiset() =~= concat_batches(batches.remove(i)).to_multiset().add(
            batches[i].to_multiset(),
        ));
    } else {
        assert(batches.remove(i) =~= init);
    }
}

/// The entries gathered do not depend on the order in which the batches
/// arrive: any two arrival orders of the same batches give collections that
/// hold the same entries, each as many times, and so the same number.
pub proof fn lemma_entries_order_independent(
    first: Seq<Seq<Seq<char>>>,
    second: Seq<Seq<Seq<char>>>,
)
    requires
        first.to_multiset() == second.to_multiset(),
    ensures
        concat_batches(first).to_multiset() == concat_batches(second).to_multiset(),
    decreases first.len(),
{
    broadcast use vstd::seq_lib::group_to_multiset_ensures;
    broadcast use vstd::seq_lib::lemma_multiset_commutative;

    if first.len() == 0 {
        assert(second.to_multiset().len() == 0);
        assert(second.len() == 0);
    } else {
        let x = first.last();
        let init = first.drop_last();
        assert(first =~= init.push(x));
        assert(first.to_multiset().count(x) > 0);
        assert(second.contains(x));
        let i = choose|i: int| 0 <= i < second.len() && second[i] == x;
        let rest = second.remove(i);
        assert(second =~= rest.insert(i, x));
        assert(init.to_multiset() =~= rest.to_multiset());
        lemma_entries_order_independent(init, rest);
        lemma_concat_multiset_remove(second, i);
        assert(concat_batches(first) == concat_batches(init) + x);
    }
}

/// Two orders of the same batches have the same total length.
proof fn lemma_total_len_order_independent(first: Seq<Seq<Seq<char>>>, second: Seq<Seq<Seq<char>>>)
    requires
        first.to_multiset() == second.to_multiset(),
    ensures
        total_len(first) == total_len(second),
    decreases first.len(),
{
    broadcast use vstd::seq_lib::group_to_multiset_ensures;

    if first.len() == 0 {
        assert(second.to_multiset().len() == 0);
        assert(second.len() == 0);
    } else {
        let x = first.last();
        let init = first.drop_last();
        assert(first =~= init.push(x));
        assert(first.to_multiset().count(x) > 0);
        assert(second.contains(x));
        let i = choose|i: int| 0 <= i < second.len() && second[i] == x;
        let rest = second.remove(i);
        assert(second =~= rest.insert(i, x));
        assert(init.to_multiset() =~= rest.to_multiset());
        lemma_total_len_order_independent(init, rest);
        lemma_total_len_remove(second, i);
    }
}

} // verus!
