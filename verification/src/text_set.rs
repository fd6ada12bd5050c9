//! A set of texts.
use crate::text::holds;
use vstd::prelude::*;

verus! {

/// A set of texts, kept in the order in which they came.
pub struct TextSet {
    items: Vec<String>,
}

impl View for TextSet {
    type V = Set<Seq<char>>;

    closed spec fn view(&self) -> Set<Seq<char>> {
        Set::new(|t: Seq<char>| self.items.deep_view().contains(t))
    }
}

impl TextSet {
    /// Nothing is kept twice.
    #[verifier::type_invariant]
    spec fn well_formed(self) -> bool {
        self.items.deep_view().no_duplicates()
    }

    /// The set with no text in it.
    pub fn new() -> (r: TextSet)
        ensures
            r@ == Set::<Seq<char>>::empty(),
    {
        let items: Vec<String> = Vec::new();
        let r = TextSet { items };
        assert(r@ =~= Set::<Seq<char>>::empty());
        r
    }

    /// Whether `text` is in the set.
    pub fn contains(&self, text: &str) -> (r: bool)
        ensures
            r == self@.contains(text@),
    {
        holds(&self.items, text)
    }

    /// Puts `text` into the set, where it is not in it.
    pub fn insert(&mut self, text: String)
        ensures
            final(self)@ == old(self)@.insert(text@),
    {
        proof {
            use_type_invariant(&*self);
        }
        if self.contains(text.as_str()) {
            assert(self@ =~= old(self)@.insert(text@));
            return;
        }
        let mut items: Vec<String> = Vec::new();
        std::mem::swap(&mut items, &mut self.items);
        let ghost before = items.deep_view();
        items.push(text);
        proof {
            assert(items.deep_view() =~= before.push(text@));
            assert(!before.contains(text@));
        }
        self.items = items;
        proof {
            assert forall|t: Seq<char>| self@.contains(t) <==> old(self)@.insert(text@).contains(
                t,
            ) by {
                let now = self.items.deep_view();
                if before.contains(t) {
                    let k = before.index_of(t);
                    assert(now[k] == t);
                }
                if now.contains(t) && t != text@ {
                    let k = now.index_of(t);
                    assert(before[k] == t);
                }
                assert(now[before.len() as int] == text@);
            }
            assert(self@ =~= old(self)@.insert(text@));
        }
    }
}

} // verus!
