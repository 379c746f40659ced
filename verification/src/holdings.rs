use vstd::prelude::*;

verus! {

/// The prices already looked up while building the portfolio page, keyed by
/// symbol: each symbol's latest price is fetched once and then reused.
pub struct PriceCache<P> {
    keys: Vec<String>,
    vals: Vec<Option<P>>,
}

/// The map held by parallel key and value sequences; a later key wins.
pub open spec fn pairs_map<P>(keys: Seq<String>, vals: Seq<Option<P>>) -> Map<
    Seq<char>,
    Option<P>,
>
    decreases keys.len(),
{
    if keys.len() == 0 || vals.len() == 0 {
        Map::empty()
    } else {
        pairs_map(keys.drop_last(), vals.drop_last()).insert(keys.last()@, vals.last())
    }
}

/// No two keys have the same text.
pub open spec fn distinct_keys(keys: Seq<String>) -> bool {
    forall|i: int, j: int| 0 <= i < j < keys.len() ==> (#[trigger] keys[i])@ != (#[trigger] keys[j])@
}

proof fn lemma_pairs_map_dom<P>(keys: Seq<String>, vals: Seq<Option<P>>, k: Seq<char>)
    requires
        keys.len() == vals.len(),
    ensures
        pairs_map(keys, vals).contains_key(k) <==> exists|i: int| 0 <= i < keys.len() && (
        #[trigger] keys[i])@ == k,
    decreases keys.len(),
{
    if keys.len() > 0 {
        lemma_pairs_map_dom(keys.drop_last(), vals.drop_last(), k);
        if pairs_map(keys, vals).contains_key(k) && keys.last()@ != k {
            let i = choose|i: int| 0 <= i < keys.len() - 1 && (#[trigger] keys.drop_last()[i])@ == k;
            assert(keys[i]@ == k);
        }
        if exists|i: int| 0 <= i < keys.len() && (#[trigger] keys[i])@ == k {
            let i = choose|i: int| 0 <= i < keys.len() && (#[trigger] keys[i])@ == k;
            if i < keys.len() - 1 {
                assert(keys.drop_last()[i]@ == k);
            }
        }
    }
}

proof fn lemma_pairs_map_at<P>(keys: Seq<String>, vals: Seq<Option<P>>, i: int)
    requires
        keys.len() == vals.len(),
        distinct_keys(keys),
        0 <= i < keys.len(),
    ensures
        pairs_map(keys, vals).contains_key(keys[i]@),
        pairs_map(keys, vals)[keys[i]@] == vals[i],
    decreases keys.len(),
{
    if i < keys.len() - 1 {
        lemma_pairs_map_at(keys.drop_last(), vals.drop_last(), i);
        assert(keys.drop_last()[i] == keys[i]);
        assert(keys[i]@ != keys.last()@);
    }
}

proof fn lemma_pairs_map_update<P>(keys: Seq<String>, vals: Seq<Option<P>>, i: int, p: Option<P>)
    requires
        keys.len() == vals.len(),
        distinct_keys(keys),
        0 <= i < keys.len(),
    ensures
        pairs_map(keys, vals.update(i, p)) == pairs_map(keys, vals).insert(keys[i]@, p),
    decreases keys.len(),
{
    let n = keys.len() - 1;
    if i == n {
        assert(vals.update(i, p).drop_last() =~= vals.drop_last());
        lemma_pairs_map_dom(keys.drop_last(), vals.drop_last(), keys[i]@);
        assert(pairs_map(keys, vals.update(i, p)) =~= pairs_map(keys, vals).insert(keys[i]@, p));
    } else {
        assert(vals.update(i, p).drop_last() =~= vals.drop_last().update(i, p));
        lemma_pairs_map_update(keys.drop_last(), vals.drop_last(), i, p);
        assert(keys.drop_last()[i] == keys[i]);
        assert(keys[i]@ != keys.last()@);
        assert(pairs_map(keys, vals.update(i, p)) =~= pairs_map(keys, vals).insert(keys[i]@, p));
    }
}

impl<P: Copy> PriceCache<P> {
    /// The cached prices, by symbol text.
    pub closed spec fn view(&self) -> Map<Seq<char>, Option<P>> {
        pairs_map(self.keys@, self.vals@)
    }

    /// The cache's internal shape: one value per key, no key twice.
    pub closed spec fn wf(&self) -> bool {
        &&& self.keys.len() == self.vals.len()
        &&& distinct_keys(self.keys@)
    }

    /// An empty cache.
    pub fn new() -> (r: Self)
        ensures
            r.wf(),
            r.view() == Map::<Seq<char>, Option<P>>::empty(),
    {
        PriceCache { keys: Vec::new(), vals: Vec::new() }
    }

    fn position(&self, symbol: &String) -> (r: Option<usize>)
        requires
            self.wf(),
        ensures
            match r {
                Some(i) => i < self.keys.len() && self.keys@[i as int]@ == symbol@,
                None => forall|i: int| 0 <= i < self.keys.len() ==> (#[trigger] self.keys@[i])@ != symbol@,
            },
    {
        let mut i: usize = 0;
        while i < self.keys.len()
            invariant
                i <= self.keys.len(),
                forall|k: int| 0 <= k < i ==> (#[trigger] self.keys@[k])@ != symbol@,
            decreases self.keys.len() - i,
        {
            if self.keys[i] == *symbol {
                return Some(i);
            }
            i = i + 1;
        }
        None
    }

    /// The cached price of `symbol`: `None` when the symbol was never looked
    /// up, `Some(price)` otherwise (the price itself may be missing).
    pub fn get(&self, symbol: &String) -> (r: Option<Option<P>>)
        requires
            self.wf(),
        ensures
            r == (if self.view().contains_key(symbol@) {
                Some(self.view()[symbol@])
            } else {
                None
            }),
    {
        proof {
            lemma_pairs_map_dom(self.keys@, self.vals@, symbol@);
        }
        match self.position(symbol) {
            Some(i) => {
                proof {
                    lemma_pairs_map_at(self.keys@, self.vals@, i as int);
                }
                Some(self.vals[i])
            },
            None => None,
        }
    }

    /// Records the price looked up for `symbol`, replacing any earlier one.
    pub fn insert(&mut self, symbol: String, price: Option<P>)
        requires
            old(self).wf(),
        ensures
            final(self).wf(),
            final(self).view() == old(self).view().insert(symbol@, price),
    {
        match self.position(&symbol) {
            Some(i) => {
                proof {
                    lemma_pairs_map_update(self.keys@, self.vals@, i as int, price);
                }
                self.vals.set(i, price);
            },
            None => {
                let ghost k = self.keys@;
                let ghost v = self.vals@;
                self.keys.push(symbol);
                self.vals.push(price);
                proof {
                    assert(self.keys@.drop_last() =~= k);
                    assert(self.vals@.drop_last() =~= v);
                }
            },
        }
    }
}

/// Reading a symbol right after recording its price gives that price, and
/// recording one symbol leaves every other symbol's entry as it was: `after`
/// is `before` once [`PriceCache::insert`] has recorded `price` for `symbol`.
pub proof fn cache_read_after_write<P: Copy>(
    before: PriceCache<P>,
    after: PriceCache<P>,
    symbol: Seq<char>,
    price: Option<P>,
    other: Seq<char>,
)
    requires
        after.view() == before.view().insert(symbol, price),
        other != symbol,
    ensures
        after.view().contains_key(symbol),
        after.view()[symbol] == price,
        after.view().contains_key(other) == before.view().contains_key(other),
        before.view().contains_key(other) ==> after.view()[other] == before.view()[other],
{
}

/// Whether any entry has a price: the portfolio shows totals only then.
pub open spec fn some_priced<P>(prices: Seq<Option<P>>) -> bool {
    exists|i: int| 0 <= i < prices.len() && (#[trigger] prices[i]) is Some
}

/// Whether any of the given current prices is known.
pub fn any_priced<P: Copy>(prices: &Vec<Option<P>>) -> (r: bool)
    ensures
        r == some_priced(prices@),
{
    let mut i: usize = 0;
    while i < prices.len()
        invariant
            i <= prices.len(),
            forall|k: int| 0 <= k < i ==> (#[trigger] prices@[k]) is None,
        decreases prices.len() - i,
    {
        if prices[i].is_some() {
            return true;
        }
        i = i + 1;
    }
    false
}

} // verus!
