//! The live filtered view of the catalog: which achievements are visible for
//! a given search string and only-incomplete setting.
//!
//! An entry is visible when the search string is empty or occurs
//! case-insensitively in its name, and, with only-incomplete engaged, when it
//! is neither completed nor disabled. The view keeps catalog order. The
//! result is a function of the store and the two inputs alone, so re-applying
//! the same pair to the same catalog state always yields the same sequence.

use vstd::prelude::*;

use crate::seqs::{lemma_filter_idempotent, lemma_filter_push};
use crate::store::AchievementStore;
use crate::text::{contains_str, is_substring, lower_of, lowercase};

verus! {

impl AchievementStore {
    /// The entry at position `i` passes the filter.
    pub open spec fn spec_passes(self, i: int, search: Seq<char>, only_incomplete: bool) -> bool {
        (search.len() == 0 || is_substring(lower_of(self.names@[i]@), lower_of(search))) && !(
        only_incomplete && (self.state@[i].completed || self.state@[i].disabled))
    }

    /// The filter predicate over ids; positions are resolved through the
    /// index.
    pub open spec fn filter_pred(self, search: Seq<char>, only_incomplete: bool) -> spec_fn(i64)
        -> bool {
        |id: i64| self.spec_passes(self.idx_of(id), search, only_incomplete)
    }

    /// The visible sequence: the ids whose entries pass, in catalog order.
    pub open spec fn spec_filtered(self, search: Seq<char>, only_incomplete: bool) -> Seq<i64> {
        self.ids@.filter(self.filter_pred(search, only_incomplete))
    }

    /// Computes the visible ids for the given search string and
    /// only-incomplete setting, in catalog order.
    pub fn filtered_ids(&self, search: &String, only_incomplete: bool) -> (r: Vec<i64>)
        requires
            self.wf(),
        ensures
            r@ == self.spec_filtered(search@, only_incomplete),
    {
        let ghost pred = self.filter_pred(search@, only_incomplete);
        let search_lower = lowercase(search.as_str());
        let mut r: Vec<i64> = Vec::new();
        let mut i: usize = 0;
        proof {
            assert(self.ids@.take(0) =~= Seq::<i64>::empty());
            assert(Seq::<i64>::empty().filter(pred) =~= Seq::<i64>::empty()) by {
                reveal(Seq::filter);
            }
        }
        while i < self.ids.len()
            invariant
                self.wf(),
                i <= self.n(),
                pred == self.filter_pred(search@, only_incomplete),
                search_lower@ == lower_of(search@),
                r@ == self.ids@.take(i as int).filter(pred),
            decreases self.n() - i,
        {
            let passes_search = if search.as_str().is_empty() {
                true
            } else {
                let name_lower = lowercase(self.names[i].as_str());
                contains_str(name_lower.as_str(), search_lower.as_str())
            };
            let st = self.state[i];
            let passes = passes_search && !(only_incomplete && (st.completed || st.disabled));
            proof {
                assert(self.idx_of(self.ids@[i as int]) == i as int) by {
                    assert(self.index@.contains_key(self.ids@[i as int]));
                }
                assert(passes == pred(self.ids@[i as int]));
                assert(self.ids@.take(i as int + 1) =~= self.ids@.take(i as int).push(
                    self.ids@[i as int],
                ));
                lemma_filter_push(self.ids@.take(i as int), pred, self.ids@[i as int]);
            }
            if passes {
                r.push(self.ids[i]);
            }
            i += 1;
        }
        proof {
            assert(self.ids@.take(self.n()) =~= self.ids@);
        }
        r
    }
}

/// Idempotence of the filter: every id of the visible sequence passes the
/// predicate that produced it, so filtering the visible sequence again with
/// the same `(search, only_incomplete)` pair against the same catalog state
/// leaves it unchanged.
pub proof fn lemma_filtered_idempotent(
    s: AchievementStore,
    search: Seq<char>,
    only_incomplete: bool,
)
    ensures
        s.spec_filtered(search, only_incomplete).filter(s.filter_pred(search, only_incomplete))
            == s.spec_filtered(search, only_incomplete),
{
    lemma_filter_idempotent(s.ids@, s.filter_pred(search, only_incomplete));
}

} // verus!
