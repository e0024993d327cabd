//! The optional filter stage: keep a record when its tag, or its resolved
//! display name, contains the caller's fragment, all compared after
//! lowercase folding. A record whose name resolution misses can only be kept
//! through its tag.

use vstd::prelude::*;
use crate::record::ClassRecord;
use crate::record::NameResolver;
use crate::text::is_substr;
use crate::text::lower_of;
use crate::text::lowercase;
use crate::text::contains_frag;

verus! {

broadcast use vstd::seq_lib::group_filter_ensures;

/// A record survives the filter with (already lowercased) fragment `lfrag`
/// when its lowercased tag contains the fragment, or a display name is cached
/// for its token and that name, lowercased, contains the fragment.
pub open spec fn keeps(r: ClassRecord, lfrag: Seq<char>, names: Map<u64, Seq<char>>) -> bool {
    is_substr(lower_of(r.tag@), lfrag) || (names.contains_key(r.id) && is_substr(
        lower_of(names[r.id]),
        lfrag,
    ))
}

/// The subsequence of records that survive filtering by `frag`, in their
/// original order.
pub open spec fn spec_filtered(
    rs: Seq<ClassRecord>,
    frag: Seq<char>,
    names: Map<u64, Seq<char>>,
) -> Seq<ClassRecord> {
    rs.filter(|r: ClassRecord| keeps(r, lower_of(frag), names))
}

/// Retains exactly the records whose tag or resolved display name contains
/// `fragment`, case-insensitively, preserving order. This stage never fails.
pub fn class_filter(records: Vec<ClassRecord>, fragment: &str, resolver: &NameResolver) -> (kept:
    Vec<ClassRecord>)
    ensures
        kept@ == spec_filtered(records@, fragment@, resolver@),
{
    let ghost orig = records@;
    let ghost pred = |r: ClassRecord| keeps(r, lower_of(fragment@), resolver@);
    let lfrag = lowercase(fragment);
    let mut rest = records;
    let mut kept: Vec<ClassRecord> = Vec::new();
    let ghost done: int = 0;
    while rest.len() > 0
        invariant
            0 <= done <= orig.len(),
            rest@ == orig.skip(done),
            kept@ == orig.take(done).filter(pred),
            pred == (|r: ClassRecord| keeps(r, lower_of(fragment@), resolver@)),
            lfrag@ == lower_of(fragment@),
        decreases rest@.len(),
    {
        let r = rest.remove(0);
        proof {
            assert(r == orig[done]);
            assert(rest@ =~= orig.skip(done + 1));
        }
        let ltag = lowercase(r.tag.as_str());
        let tag_hit = contains_frag(ltag.as_str(), lfrag.as_str());
        proof {
            assert(tag_hit == is_substr(lower_of(r.tag@), lower_of(fragment@)));
        }
        let hit: bool = if tag_hit {
            true
        } else {
            match resolver.resolve(r.id) {
                Some(name) => {
                    let lname = lowercase(name.as_str());
                    let name_hit = contains_frag(lname.as_str(), lfrag.as_str());
                    proof {
                        assert(resolver@.contains_key(r.id));
                        assert(name_hit == is_substr(
                            lower_of(resolver@[r.id]),
                            lower_of(fragment@),
                        ));
                    }
                    name_hit
                },
                None => false,
            }
        };
        proof {
            assert(hit == keeps(r, lower_of(fragment@), resolver@));
            assert(hit == pred(r));
            assert(orig.take(done + 1) =~= orig.take(done) + seq![r]);
            Seq::<ClassRecord>::filter_distributes_over_add(orig.take(done), seq![r], pred);
            assert(seq![r].filter(pred) =~= if pred(r) {
                seq![r]
            } else {
                Seq::<ClassRecord>::empty()
            }) by {
                reveal_with_fuel(Seq::filter, 2);
                assert(seq![r].drop_last() =~= Seq::<ClassRecord>::empty());
            }
        }
        if hit {
            kept.push(r);
        }
        proof {
            done = done + 1;
        }
    }
    proof {
        assert(orig.take(done) =~= orig);
    }
    kept
}

/// The filter can only narrow: it keeps at most as many records as it was
/// given, and every record it keeps matches the fragment through its tag or
/// its resolved display name.
pub proof fn lemma_filter_narrows(rs: Seq<ClassRecord>, frag: Seq<char>, names: Map<u64, Seq<char>>)
    ensures
        spec_filtered(rs, frag, names).len() <= rs.len(),
        forall|i: int|
            0 <= i < spec_filtered(rs, frag, names).len() ==> keeps(
                #[trigger] spec_filtered(rs, frag, names)[i],
                lower_of(frag),
                names,
            ),
{
}

} // verus!
