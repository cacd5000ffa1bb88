use vstd::prelude::*;

verus! {

/// The map that a sequence of (code, rate) entries denotes: a later entry
/// for a code overrides an earlier one.
pub open spec fn entries_map(s: Seq<(String, u64)>) -> Map<Seq<char>, u64>
    decreases s.len(),
{
    if s.len() == 0 {
        Map::empty()
    } else {
        entries_map(s.drop_last()).insert(s.last().0@, s.last().1)
    }
}

/// Exchange rates against the reference currency, keyed by currency code.
/// Rates are in millionths and always positive.
pub struct RateTable {
    entries: Vec<(String, u64)>,
}

impl RateTable {
    pub closed spec fn view(&self) -> Map<Seq<char>, u64> {
        entries_map(self.entries@)
    }

    pub closed spec fn wf(&self) -> bool {
        forall|i: int| 0 <= i < self.entries@.len() ==> #[trigger] self.entries@[i].1 > 0
    }

    pub fn new() -> (r: RateTable)
        ensures
            r.wf(),
            r@ == Map::<Seq<char>, u64>::empty(),
    {
        RateTable { entries: Vec::new() }
    }

    /// Sets the rate of `code`, replacing any earlier one.
    pub fn insert(&mut self, code: String, rate: u64)
        requires
            old(self).wf(),
            rate > 0,
        ensures
            final(self).wf(),
            final(self)@ == old(self)@.insert(code@, rate),
    {
        self.entries.push((code, rate));
        assert(self.entries@.drop_last() =~= old(self).entries@);
    }

    /// The rate of `code`, if the table has one.
    pub fn get(&self, code: &String) -> (r: Option<u64>)
        requires
            self.wf(),
        ensures
            r == (if self@.contains_key(code@) { Some(self@[code@]) } else { None::<u64> }),
            r matches Some(v) ==> v > 0,
    {
        let mut i: usize = self.entries.len();
        assert(self.entries@.subrange(0, i as int) =~= self.entries@);
        while i > 0
            invariant
                self.wf(),
                i <= self.entries@.len(),
                entries_map(self.entries@.subrange(0, i as int)).contains_key(code@)
                    == self@.contains_key(code@),
                self@.contains_key(code@) ==> entries_map(self.entries@.subrange(0, i as int))[code@]
                    == self@[code@],
            decreases i,
        {
            let ghost pre = self.entries@.subrange(0, i as int);
            assert(pre.drop_last() =~= self.entries@.subrange(0, i - 1));
            if self.entries[i - 1].0 == *code {
                let ghost k = (i - 1) as int;
                assert(self.entries@[k].1 > 0);
                return Some(self.entries[i - 1].1);
            }
            i = i - 1;
        }
        assert(self.entries@.subrange(0, 0) =~= Seq::<(String, u64)>::empty());
        None
    }
}

} // verus!
