//! Loot tables: weighted lists of item archetypes that a defeated entity drops.
use vstd::prelude::*;
use rand::Rng;

verus! {

/// One line of a loot table: an item archetype, or nothing, with its weight.
#[derive(Debug, Clone)]
pub struct LootTableEntry {
    pub item: Option<String>,
    pub weight: usize,
}

/// A weighted list of entries. A draw picks a number below the total weight
/// of all entries; the entries that name an item are then walked in order,
/// adding up their weights, and the first one whose running sum exceeds the
/// number is the item dropped. Entries without an item count towards the
/// total but are skipped by the walk, so a draw may drop nothing.
#[derive(Debug, Clone)]
pub struct LootTable {
    entries: Vec<LootTableEntry>,
}

/// The sum of the weights of `entries`.
pub open spec fn total_weight(entries: Seq<LootTableEntry>) -> nat
    decreases entries.len(),
{
    if entries.len() == 0 {
        0
    } else {
        total_weight(entries.drop_last()) + entries.last().weight as nat
    }
}

/// The item that the draw `num` gives when the walk starts at entry `i`
/// with the running sum `acc`.
pub open spec fn pick_from(entries: Seq<LootTableEntry>, num: int, acc: int, i: int) -> Option<String>
    decreases entries.len() - i,
{
    if i < 0 || i >= entries.len() {
        None
    } else {
        match entries[i].item {
            Some(s) => if num < acc + entries[i].weight {
                Some(s)
            } else {
                pick_from(entries, num, acc + entries[i].weight, i + 1)
            },
            None => pick_from(entries, num, acc, i + 1),
        }
    }
}

/// The items that the draws `draws` give, in order, leaving out the draws that give nothing.
pub open spec fn picks(entries: Seq<LootTableEntry>, draws: Seq<usize>) -> Seq<String>
    decreases draws.len(),
{
    if draws.len() == 0 {
        Seq::empty()
    } else {
        let rest = picks(entries, draws.drop_last());
        match pick_from(entries, draws.last() as int, 0, 0) {
            Some(s) => rest.push(s),
            None => rest,
        }
    }
}

proof fn lemma_total_weight_prefix(entries: Seq<LootTableEntry>, i: int)
    requires
        0 <= i < entries.len(),
    ensures
        total_weight(entries.take(i + 1)) == total_weight(entries.take(i)) + entries[i].weight,
{
    assert(entries.take(i + 1).drop_last() =~= entries.take(i));
}

proof fn lemma_total_weight_monotone(entries: Seq<LootTableEntry>, i: int, j: int)
    requires
        0 <= i <= j <= entries.len(),
    ensures
        total_weight(entries.take(i)) <= total_weight(entries.take(j)),
    decreases j - i,
{
    if i < j {
        lemma_total_weight_prefix(entries, j - 1);
        lemma_total_weight_monotone(entries, i, j - 1);
    }
}

/// What a walk gives is named by an entry at or after the one it starts at.
proof fn lemma_walk_bounded(entries: Seq<LootTableEntry>, num: int, acc: int, i: int)
    requires
        0 <= i <= entries.len(),
    ensures
        pick_from(entries, num, acc, i) matches Some(s) ==> exists|k: int| i <= k < entries.len() && entries[k].item == Some(s),
    decreases entries.len() - i,
{
    if i < entries.len() {
        match entries[i].item {
            Some(s) => {
                if num >= acc + entries[i].weight {
                    lemma_walk_bounded(entries, num, acc + entries[i].weight, i + 1);
                }
            },
            None => {
                lemma_walk_bounded(entries, num, acc, i + 1);
            },
        }
    }
}

/// The sum of the weights of the entries before position `k` that name an item.
pub open spec fn named_prefix(entries: Seq<LootTableEntry>, k: int) -> int
    decreases k,
{
    if k <= 0 {
        0
    } else {
        named_prefix(entries, k - 1) + if entries[k - 1].item is Some { entries[k - 1].weight as int } else { 0 }
    }
}

proof fn lemma_named_prefix_monotone(entries: Seq<LootTableEntry>, i: int, k: int)
    requires
        0 <= i <= k,
    ensures
        named_prefix(entries, i) <= named_prefix(entries, k),
    decreases k - i,
{
    if i < k {
        lemma_named_prefix_monotone(entries, i, k - 1);
    }
}

/// A walk from entry `i`, with the weights of the named entries before it
/// summed, reaches entry `k` when the draw lies in `k`'s share.
proof fn lemma_walk_reaches(entries: Seq<LootTableEntry>, num: int, i: int, k: int)
    requires
        0 <= i <= k < entries.len(),
        entries[k].item is Some,
        named_prefix(entries, k) <= num < named_prefix(entries, k) + entries[k].weight,
    ensures
        pick_from(entries, num, named_prefix(entries, i), i) == entries[k].item,
    decreases k - i,
{
    if i < k {
        lemma_named_prefix_monotone(entries, i + 1, k);
        lemma_walk_reaches(entries, num, i + 1, k);
    }
}

/// A walk from entry `i`, with the named weights before it summed, gives
/// nothing for a draw at or past the total of all named weights.
proof fn lemma_walk_past_named(entries: Seq<LootTableEntry>, num: int, i: int)
    requires
        0 <= i <= entries.len(),
        num >= named_prefix(entries, entries.len() as int),
    ensures
        pick_from(entries, num, named_prefix(entries, i), i) is None,
    decreases entries.len() - i,
{
    if i < entries.len() {
        lemma_named_prefix_monotone(entries, i + 1, entries.len() as int);
        lemma_walk_past_named(entries, num, i + 1);
    }
}

/// Each entry that names an item owns a run of draws as long as its weight:
/// the draws from the summed weights of the named entries before it, up to
/// that sum plus its own weight, give its item, and the draws at or past the
/// sum of all named weights give nothing. So an item of weight `w` drops for
/// exactly `w` of the draws below the named total, and the entries without an
/// item own none.
pub proof fn lemma_pick_shares(entries: Seq<LootTableEntry>, num: int, k: int)
    ensures
        0 <= k < entries.len() && entries[k].item is Some
            && named_prefix(entries, k) <= num < named_prefix(entries, k) + entries[k].weight
            ==> pick_from(entries, num, 0, 0) == entries[k].item,
        num >= named_prefix(entries, entries.len() as int) ==> pick_from(entries, num, 0, 0) is None,
        0 <= k < entries.len() ==> named_prefix(entries, k + 1) == named_prefix(entries, k)
            + if entries[k].item is Some { entries[k].weight as int } else { 0 },
{
    if 0 <= k < entries.len() && entries[k].item is Some && named_prefix(entries, k) <= num < named_prefix(entries, k)
        + entries[k].weight {
        lemma_walk_reaches(entries, num, 0, k);
    }
    if num >= named_prefix(entries, entries.len() as int) {
        lemma_walk_past_named(entries, num, 0);
    }
}

impl LootTable {
    /// The entries, in order.
    pub closed spec fn entries_view(&self) -> Seq<LootTableEntry> {
        self.entries@
    }

    /// The sum of the weights of all entries.
    pub open spec fn total(&self) -> nat {
        total_weight(self.entries_view())
    }

    /// A table with the given entries.
    pub fn new(entries: Vec<LootTableEntry>) -> (r: Self)
        ensures
            r.entries_view() == entries@,
    {
        Self { entries }
    }

    /// The sum of the weights of all entries.
    pub fn total_weight(&self) -> (r: usize)
        requires
            self.total() <= usize::MAX,
        ensures
            r == self.total(),
    {
        let mut total: usize = 0;
        let n = self.entries.len();
        for i in 0..n
            invariant
                n == self.entries@.len(),
                self.total() <= usize::MAX,
                total == total_weight(self.entries@.take(i as int)),
        {
            proof {
                lemma_total_weight_prefix(self.entries@, i as int);
                lemma_total_weight_monotone(self.entries@, i + 1, n as int);
                assert(self.entries@.take(n as int) =~= self.entries@);
            }
            total = total + self.entries[i].weight;
        }
        assert(self.entries@.take(n as int) =~= self.entries@);
        total
    }

    /// The item that the draw `num` gives: the first entry naming an item at
    /// which the running sum of the weights of the entries naming items
    /// exceeds `num`, or nothing when there is none.
    pub fn pick(&self, num: usize) -> (r: Option<String>)
        requires
            self.total() <= usize::MAX,
        ensures
            r == pick_from(self.entries_view(), num as int, 0, 0),
    {
        let n = self.entries.len();
        let mut current: usize = 0;
        for i in 0..n
            invariant
                n == self.entries@.len(),
                self.total() <= usize::MAX,
                current <= total_weight(self.entries@.take(i as int)),
                pick_from(self.entries@, num as int, 0, 0) == pick_from(self.entries@, num as int, current as int, i as int),
        {
            proof {
                lemma_total_weight_prefix(self.entries@, i as int);
                lemma_total_weight_monotone(self.entries@, i + 1, n as int);
                assert(self.entries@.take(n as int) =~= self.entries@);
            }
            match &self.entries[i].item {
                Some(item) => {
                    current = current + self.entries[i].weight;
                    if num < current {
                        return Some(item.clone());
                    }
                },
                None => {},
            }
        }
        None
    }

    /// The items that the draws `draws` give, in order of the draws; draws
    /// that give nothing add nothing.
    pub fn roll_with(&self, draws: &Vec<usize>) -> (r: Vec<String>)
        requires
            self.total() <= usize::MAX,
        ensures
            r@ == picks(self.entries_view(), draws@),
    {
        let mut items: Vec<String> = Vec::new();
        let n = draws.len();
        for k in 0..n
            invariant
                n == draws@.len(),
                self.total() <= usize::MAX,
                items@ == picks(self.entries_view(), draws@.take(k as int)),
        {
            let got = self.pick(draws[k]);
            proof {
                assert(draws@.take(k + 1).drop_last() =~= draws@.take(k as int));
            }
            match got {
                Some(s) => items.push(s),
                None => {},
            }
        }
        assert(draws@.take(n as int) =~= draws@);
        items
    }

    /// Makes `rolls` draws, each a number below the total weight chosen at
    /// random, and returns the items they give (see [`Self::roll_with`]).
    /// Every item returned is named by an entry of the table, and there are
    /// at most `rolls` of them.
    pub fn roll(&self, rolls: usize) -> (r: Vec<String>)
        requires
            self.total() <= usize::MAX,
            rolls > 0 ==> 0 < self.total(),
        ensures
            exists|draws: Seq<usize>| #[trigger] draws_below(draws, self.total()) && draws.len() == rolls
                && r@ == picks(self.entries_view(), draws),
            r@.len() <= rolls,
            forall|j: int| 0 <= j < r@.len() ==> exists|k: int|
                0 <= k < self.entries_view().len() && self.entries_view()[k].item == Some(#[trigger] r@[j]),
    {
        let total = self.total_weight();
        let mut draws: Vec<usize> = Vec::new();
        for k in 0..rolls
            invariant
                draws@.len() == k,
                total == self.total(),
                rolls > 0 ==> total > 0,
                forall|j: int| 0 <= j < k ==> #[trigger] draws@[j] < total,
        {
            let d = random_below(total);
            draws.push(d);
        }
        let r = self.roll_with(&draws);
        proof {
            lemma_picks_from_entries(self.entries_view(), draws@);
            assert(draws_below(draws@, self.total()));
        }
        r
    }
}

/// Whether every draw in `draws` is below `total`.
pub open spec fn draws_below(draws: Seq<usize>, total: nat) -> bool {
    forall|j: int| 0 <= j < draws.len() ==> #[trigger] draws[j] < total
}

/// Every item that draws give is named by an entry, and there are no more
/// items than draws.
proof fn lemma_picks_from_entries(entries: Seq<LootTableEntry>, draws: Seq<usize>)
    ensures
        picks(entries, draws).len() <= draws.len(),
        forall|j: int| 0 <= j < picks(entries, draws).len() ==> exists|k: int|
            0 <= k < entries.len() && entries[k].item == Some(#[trigger] picks(entries, draws)[j]),
    decreases draws.len(),
{
    if draws.len() > 0 {
        lemma_picks_from_entries(entries, draws.drop_last());
        lemma_walk_bounded(entries, draws.last() as int, 0, 0);
    }
}

/// `rand::thread_rng().gen_range(0..bound)`: a number below `bound`, drawn
/// at random; which one is left open.
#[verifier::external_body]
pub(crate) fn random_below(bound: usize) -> (r: usize)
    requires
        bound > 0,
    ensures
        r < bound,
{
    rand::thread_rng().gen_range(0..bound)
}

} // verus!
