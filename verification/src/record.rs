//! The pipeline's data: catalog records, query failures, and the name cache
//! through which role tokens resolve to display names.

use vstd::prelude::*;

verus! {

/// A catalog entry: a record keyed by a role token, carrying the free-text
/// tag it is grouped under.
#[derive(Debug, Clone, PartialEq, Eq)]
pub struct ClassRecord {
    /// The role token that keys this record and names the platform entity.
    pub id: u64,
    /// The grouping key; the empty string is a valid tag.
    pub tag: String,
}

/// A structured catalog failure; the detail text is rendered verbatim into
/// the error report.
#[derive(Debug, Clone, PartialEq, Eq)]
pub struct QueryFailure {
    /// Diagnostic text describing what went wrong in the catalog.
    pub detail: String,
}

impl View for QueryFailure {
    type V = Seq<char>;

    open spec fn view(&self) -> Seq<char> {
        self.detail@
    }
}

/// The abstract contents of a sequence of cache entries: a map from token to
/// display name, later entries winning over earlier ones.
pub open spec fn pairs_map(s: Seq<(u64, String)>) -> Map<u64, Seq<char>>
    decreases s.len(),
{
    if s.len() == 0 {
        Map::empty()
    } else {
        pairs_map(s.drop_last()).insert(s.last().0, s.last().1@)
    }
}

/// A read-only cache of display names for role tokens, filled once by the
/// host from platform metadata before the pipeline runs. A miss is an
/// expected outcome: the token may reference an entity that no longer exists.
pub struct NameResolver {
    entries: Vec<(u64, String)>,
}

impl View for NameResolver {
    type V = Map<u64, Seq<char>>;

    closed spec fn view(&self) -> Map<u64, Seq<char>> {
        pairs_map(self.entries@)
    }
}

/// Entries at positions `i` and beyond never mention `t`, so the abstract map
/// agrees with the map of the first `i` entries on `t`.
proof fn lemma_pairs_map_agree(s: Seq<(u64, String)>, i: int, t: u64)
    requires
        0 <= i <= s.len(),
        forall|k: int| i <= k < s.len() ==> (#[trigger] s[k]).0 != t,
    ensures
        pairs_map(s).contains_key(t) == pairs_map(s.take(i)).contains_key(t),
        pairs_map(s).contains_key(t) ==> pairs_map(s)[t] == pairs_map(s.take(i))[t],
    decreases s.len() - i,
{
    if i == s.len() {
        assert(s.take(i) =~= s);
    } else {
        let shorter = s.drop_last();
        assert(shorter =~= s.take(s.len() - 1));
        assert(s.last().0 != t);
        lemma_pairs_map_agree(shorter, i, t);
        assert(shorter.take(i) =~= s.take(i));
    }
}

impl NameResolver {
    /// A cache with no entries: every lookup misses.
    pub fn new() -> (r: NameResolver)
        ensures
            r@ == Map::<u64, Seq<char>>::empty(),
    {
        NameResolver { entries: Vec::new() }
    }

    /// Records a display name for a token, replacing any earlier entry.
    pub fn insert(&mut self, token: u64, name: String)
        ensures
            final(self)@ == old(self)@.insert(token, name@),
    {
        self.entries.push((token, name));
        proof {
            assert(self.entries@.drop_last() =~= old(self).entries@);
        }
    }

    /// Looks the token up: `Some` exactly when the cache holds a name for it,
    /// and then the cached name itself.
    pub fn resolve(&self, token: u64) -> (r: Option<String>)
        ensures
            match r {
                Some(name) => self@.contains_key(token) && name@ == self@[token],
                None => !self@.contains_key(token),
            },
    {
        let n = self.entries.len();
        let mut i: usize = n;
        while i > 0
            invariant
                i <= n,
                n == self.entries@.len(),
                forall|k: int| i <= k < n ==> (#[trigger] self.entries@[k]).0 != token,
            decreases i,
        {
            i = i - 1;
            if self.entries[i].0 == token {
                proof {
                    lemma_pairs_map_agree(self.entries@, i + 1, token);
                    let prefix = self.entries@.take(i + 1);
                    assert(prefix.drop_last() =~= self.entries@.take(i as int));
                    assert(prefix.last() == self.entries@[i as int]);
                }
                return Some(self.entries[i].1.clone());
            }
        }
        proof {
            lemma_pairs_map_agree(self.entries@, 0, token);
            assert(self.entries@.take(0) =~= Seq::<(u64, String)>::empty());
        }
        None
    }
}

} // verus!
