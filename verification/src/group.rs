//! The grouping stage: partition records by tag into groups held in
//! ascending lexicographic tag order, each group keeping its records in the
//! order they arrived. The empty tag is displayed under the reserved label
//! `"None"` but still sorts by its true (empty) key.

use vstd::prelude::*;
use vstd::multiset::Multiset;
use crate::record::ClassRecord;
use crate::text::lex_lt;
use crate::text::lemma_lex_irrefl;
use crate::text::lemma_lex_trans;
use crate::text::lemma_lex_trichotomy;
use crate::text::str_lt;

verus! {

/// One group of the partition: the raw tag and the records that carry it.
#[derive(Debug, PartialEq, Eq)]
pub struct TagGroup {
    /// The raw tag shared by every record in this group.
    pub tag: String,
    /// The group's records, in the order they were encountered.
    pub records: Vec<ClassRecord>,
}

/// The abstract value of a group: its tag and records.
#[verifier::ext_equal]
pub ghost struct GroupV {
    /// The group's tag as a character sequence.
    pub tag: Seq<char>,
    /// The group's records.
    pub records: Seq<ClassRecord>,
}

impl View for TagGroup {
    type V = GroupV;

    open spec fn view(&self) -> GroupV {
        GroupV { tag: self.tag@, records: self.records@ }
    }
}

/// The abstract value of a whole partition.
pub open spec fn gview(s: Seq<TagGroup>) -> Seq<GroupV> {
    s.map_values(|g: TagGroup| g@)
}

/// Files one record into a partition whose groups stand in ascending tag
/// order: into the group carrying its tag if one exists, else as a fresh
/// group at the position its tag sorts to.
pub open spec fn spec_group_one(gs: Seq<GroupV>, r: ClassRecord) -> Seq<GroupV>
    decreases gs.len(),
{
    if gs.len() == 0 {
        seq![GroupV { tag: r.tag@, records: seq![r] }]
    } else if lex_lt(r.tag@, gs[0].tag) {
        seq![GroupV { tag: r.tag@, records: seq![r] }] + gs
    } else if r.tag@ == gs[0].tag {
        seq![GroupV { tag: gs[0].tag, records: gs[0].records.push(r) }] + gs.drop_first()
    } else {
        seq![gs[0]] + spec_group_one(gs.drop_first(), r)
    }
}

/// The partition of a record sequence: every record filed in turn, starting
/// from the empty partition.
pub open spec fn spec_groups(rs: Seq<ClassRecord>) -> Seq<GroupV>
    decreases rs.len(),
{
    if rs.len() == 0 {
        Seq::empty()
    } else {
        spec_group_one(spec_groups(rs.drop_last()), rs.last())
    }
}

/// The subsequence of `rs` whose records carry tag `t`, in input order.
pub open spec fn tag_filter(rs: Seq<ClassRecord>, t: Seq<char>) -> Seq<ClassRecord> {
    rs.filter(|r: ClassRecord| r.tag@ == t)
}

/// Groups stand in strictly ascending lexicographic tag order.
pub open spec fn sorted_groups(gs: Seq<GroupV>) -> bool {
    forall|i: int, j: int|
        0 <= i < j < gs.len() ==> #[trigger] lex_lt(gs[i].tag, gs[j].tag)
}

/// Some group carries tag `t`.
pub open spec fn tag_in(gs: Seq<GroupV>, t: Seq<char>) -> bool {
    exists|i: int| 0 <= i < gs.len() && (#[trigger] gs[i]).tag == t
}

/// Each group holds exactly the records of `rs` that carry its tag, in the
/// order they stand in `rs`.
pub open spec fn groups_partition(gs: Seq<GroupV>, rs: Seq<ClassRecord>) -> bool {
    forall|i: int| 0 <= i < gs.len() ==> (#[trigger] gs[i]).records == tag_filter(rs, gs[i].tag)
}

/// Every record of `rs` finds its tag among the groups.
pub open spec fn groups_cover(gs: Seq<GroupV>, rs: Seq<ClassRecord>) -> bool {
    forall|k: int| 0 <= k < rs.len() ==> tag_in(gs, (#[trigger] rs[k]).tag@)
}

proof fn lemma_tag_filter_push(rs: Seq<ClassRecord>, t: Seq<char>, r: ClassRecord)
    ensures
        tag_filter(rs.push(r), t) == (if r.tag@ == t {
            tag_filter(rs, t).push(r)
        } else {
            tag_filter(rs, t)
        }),
{
    let s = rs.push(r);
    reveal(Seq::filter);
    assert(s.drop_last() =~= rs);
    assert(s.last() == r);
}

proof fn lemma_tag_filter_none(rs: Seq<ClassRecord>, t: Seq<char>)
    requires
        forall|k: int| 0 <= k < rs.len() ==> (#[trigger] rs[k]).tag@ != t,
    ensures
        tag_filter(rs, t) == Seq::<ClassRecord>::empty(),
    decreases rs.len(),
{
    reveal(Seq::filter);
    if rs.len() > 0 {
        lemma_tag_filter_none(rs.drop_last(), t);
        assert(rs.last().tag@ != t);
    }
}

/// Filing one record into a sorted partition of `rs` yields a sorted
/// partition of `rs` extended by that record, and adds exactly the record's
/// tag to the tags on display.
proof fn lemma_group_one_props(gs: Seq<GroupV>, r: ClassRecord, rs: Seq<ClassRecord>)
    requires
        sorted_groups(gs),
        groups_partition(gs, rs),
        !tag_in(gs, r.tag@) ==> tag_filter(rs, r.tag@).len() == 0,
    ensures
        sorted_groups(spec_group_one(gs, r)),
        groups_partition(spec_group_one(gs, r), rs.push(r)),
        forall|t: Seq<char>|
            #[trigger] tag_in(spec_group_one(gs, r), t) <==> (tag_in(gs, t) || t == r.tag@),
    decreases gs.len(),
{
    let out = spec_group_one(gs, r);
    let t0 = r.tag@;
    if gs.len() == 0 {
        assert(tag_filter(rs, t0).len() == 0);
        assert(tag_filter(rs, t0) =~= Seq::<ClassRecord>::empty());
        lemma_tag_filter_push(rs, t0, r);
        assert(out[0].records =~= tag_filter(rs.push(r), t0));
        assert forall|t: Seq<char>| #[trigger]
            tag_in(out, t) <==> (tag_in(gs, t) || t == t0) by {
            if t == t0 {
                assert(out[0].tag == t);
            }
        }
    } else if lex_lt(t0, gs[0].tag) {
        // The record's tag is new and smallest: a fresh group opens in front.
        assert forall|j: int| 0 <= j < gs.len() implies lex_lt(t0, gs[j].tag) by {
            if j > 0 {
                lemma_lex_trans(t0, gs[0].tag, gs[j].tag);
            }
        }
        assert forall|i: int| 0 <= i < gs.len() implies gs[i].tag != t0 by {
            lemma_lex_irrefl(gs[i].tag);
        }
        assert(!tag_in(gs, t0));
        lemma_tag_filter_push(rs, t0, r);
        assert(tag_filter(rs, t0) =~= Seq::<ClassRecord>::empty());
        assert(out[0].records =~= tag_filter(rs.push(r), t0));
        assert forall|i: int| 0 <= i < out.len() implies (#[trigger] out[i]).records
            == tag_filter(rs.push(r), out[i].tag) by {
            if i > 0 {
                lemma_tag_filter_push(rs, gs[i - 1].tag, r);
                assert(gs[i - 1].tag != t0);
                assert(out[i].records =~= tag_filter(rs.push(r), out[i].tag));
            }
        }
        assert forall|t: Seq<char>| #[trigger]
            tag_in(out, t) <==> (tag_in(gs, t) || t == t0) by {
            if tag_in(out, t) {
                let i = choose|i: int| 0 <= i < out.len() && (#[trigger] out[i]).tag == t;
                if i > 0 {
                    assert(gs[i - 1].tag == t);
                }
            }
            if tag_in(gs, t) {
                let i = choose|i: int| 0 <= i < gs.len() && (#[trigger] gs[i]).tag == t;
                assert(out[i + 1].tag == t);
            }
            if t == t0 {
                assert(out[0].tag == t);
            }
        }
    } else if t0 == gs[0].tag {
        // The record joins the existing front group.
        assert forall|j: int| 1 <= j < gs.len() implies gs[j].tag != t0 by {
            lemma_lex_irrefl(gs[j].tag);
        }
        lemma_tag_filter_push(rs, t0, r);
        assert(out[0].records =~= tag_filter(rs.push(r), t0));
        assert forall|i: int| 0 <= i < out.len() implies (#[trigger] out[i]).records
            == tag_filter(rs.push(r), out[i].tag) by {
            if i > 0 {
                assert(out[i] == gs[i]);
                lemma_tag_filter_push(rs, gs[i].tag, r);
                assert(out[i].records =~= tag_filter(rs.push(r), out[i].tag));
            }
        }
        assert forall|i: int, j: int| 0 <= i < j < out.len() implies #[trigger] lex_lt(
            out[i].tag,
            out[j].tag,
        ) by {
            assert(out[i].tag == gs[i].tag);
            assert(out[j].tag == gs[j].tag);
        }
        assert forall|t: Seq<char>| #[trigger]
            tag_in(out, t) <==> (tag_in(gs, t) || t == t0) by {
            if tag_in(out, t) {
                let i = choose|i: int| 0 <= i < out.len() && (#[trigger] out[i]).tag == t;
                assert(gs[i].tag == t);
            }
            if tag_in(gs, t) {
                let i = choose|i: int| 0 <= i < gs.len() && (#[trigger] gs[i]).tag == t;
                assert(out[i].tag == t);
            }
        }
    } else {
        // The record's tag sorts after the front group: it files into the rest.
        lemma_lex_trichotomy(t0, gs[0].tag);
        assert(lex_lt(gs[0].tag, t0));
        let rest = gs.drop_first();
        let sub = spec_group_one(rest, r);
        assert forall|i: int, j: int| 0 <= i < j < rest.len() implies #[trigger] lex_lt(
            rest[i].tag,
            rest[j].tag,
        ) by {
            assert(rest[i] == gs[i + 1]);
            assert(rest[j] == gs[j + 1]);
        }
        assert forall|i: int| 0 <= i < rest.len() implies (#[trigger] rest[i]).records
            == tag_filter(rs, rest[i].tag) by {
            assert(rest[i] == gs[i + 1]);
        }
        if !tag_in(rest, t0) {
            if tag_in(gs, t0) {
                let i = choose|i: int| 0 <= i < gs.len() && (#[trigger] gs[i]).tag == t0;
                lemma_lex_irrefl(t0);
                assert(i > 0);
                assert(rest[i - 1].tag == t0);
            }
            assert(!tag_in(gs, t0));
        }
        lemma_group_one_props(rest, r, rs);
        // Sortedness of the whole: the front tag precedes every tag of `sub`.
        assert forall|j: int| 0 <= j < sub.len() implies lex_lt(gs[0].tag, sub[j].tag) by {
            assert(tag_in(sub, sub[j].tag));
            if tag_in(rest, sub[j].tag) {
                let i = choose|i: int| 0 <= i < rest.len() && (#[trigger] rest[i]).tag
                    == sub[j].tag;
                assert(gs[i + 1] == rest[i]);
                assert(lex_lt(gs[0].tag, gs[i + 1].tag));
            }
        }
        assert forall|i: int, j: int| 0 <= i < j < out.len() implies #[trigger] lex_lt(
            out[i].tag,
            out[j].tag,
        ) by {
            if i > 0 {
                assert(out[i] == sub[i - 1]);
                assert(out[j] == sub[j - 1]);
            } else {
                assert(out[j] == sub[j - 1]);
                assert(lex_lt(gs[0].tag, sub[j - 1].tag));
            }
        }
        // Partition: the front group is untouched by a record of another tag.
        lemma_tag_filter_push(rs, gs[0].tag, r);
        assert forall|i: int| 0 <= i < out.len() implies (#[trigger] out[i]).records
            == tag_filter(rs.push(r), out[i].tag) by {
            if i == 0 {
                assert(out[0] == gs[0]);
                assert(out[0].records =~= tag_filter(rs.push(r), out[0].tag));
            } else {
                assert(out[i] == sub[i - 1]);
            }
        }
        assert forall|t: Seq<char>| #[trigger]
            tag_in(out, t) <==> (tag_in(gs, t) || t == t0) by {
            if tag_in(out, t) {
                let i = choose|i: int| 0 <= i < out.len() && (#[trigger] out[i]).tag == t;
                if i == 0 {
                    assert(gs[0].tag == t);
                } else {
                    assert(tag_in(sub, t));
                    if tag_in(rest, t) {
                        let k = choose|k: int| 0 <= k < rest.len() && (#[trigger] rest[k]).tag
                            == t;
                        assert(gs[k + 1].tag == t);
                    }
                }
            }
            if tag_in(gs, t) {
                let i = choose|i: int| 0 <= i < gs.len() && (#[trigger] gs[i]).tag == t;
                if i == 0 {
                    assert(out[0].tag == t);
                } else {
                    assert(rest[i - 1].tag == t);
                    assert(tag_in(sub, t));
                    let k = choose|k: int| 0 <= k < sub.len() && (#[trigger] sub[k]).tag == t;
                    assert(out[k + 1].tag == t);
                }
            }
            if t == t0 {
                assert(tag_in(sub, t));
                let k = choose|k: int| 0 <= k < sub.len() && (#[trigger] sub[k]).tag == t;
                assert(out[k + 1].tag == t);
            }
        }
    }
}

/// All the groups' records, concatenated in group order.
pub open spec fn concat_groups(gs: Seq<GroupV>) -> Seq<ClassRecord>
    decreases gs.len(),
{
    if gs.len() == 0 {
        Seq::empty()
    } else {
        gs[0].records + concat_groups(gs.drop_first())
    }
}

/// Filing one record adds exactly that record to the concatenation's
/// contents.
proof fn lemma_group_one_concat(gs: Seq<GroupV>, r: ClassRecord)
    ensures
        concat_groups(spec_group_one(gs, r)).to_multiset() == concat_groups(
            gs,
        ).to_multiset().insert(r),
    decreases gs.len(),
{
    broadcast use vstd::seq_lib::group_to_multiset_ensures;
    broadcast use vstd::multiset::group_multiset_axioms;

    let out = spec_group_one(gs, r);
    if gs.len() == 0 {
        assert(out.drop_first() =~= Seq::<GroupV>::empty());
        assert(seq![r] =~= Seq::<ClassRecord>::empty().push(r));
        assert(concat_groups(Seq::<GroupV>::empty()) =~= Seq::<ClassRecord>::empty());
        assert(concat_groups(out) =~= seq![r] + Seq::<ClassRecord>::empty());
        assert(concat_groups(out) =~= seq![r]);
        vstd::seq_lib::lemma_multiset_commutative(Seq::<ClassRecord>::empty(), seq![r]);
        assert(Seq::<ClassRecord>::empty().to_multiset().len() == 0);
        assert(Seq::<ClassRecord>::empty().to_multiset() =~= Multiset::<ClassRecord>::empty());
        assert(concat_groups(out).to_multiset() =~= concat_groups(gs).to_multiset().insert(r));
    } else if lex_lt(r.tag@, gs[0].tag) {
        assert(out.drop_first() =~= gs);
        assert(out[0].records =~= Seq::<ClassRecord>::empty().push(r));
        vstd::seq_lib::lemma_multiset_commutative(out[0].records, concat_groups(gs));
        assert(concat_groups(out).to_multiset() =~= concat_groups(gs).to_multiset().insert(r));
    } else if r.tag@ == gs[0].tag {
        assert(out.drop_first() =~= gs.drop_first());
        let tail = concat_groups(gs.drop_first());
        vstd::seq_lib::lemma_multiset_commutative(gs[0].records.push(r), tail);
        vstd::seq_lib::lemma_multiset_commutative(gs[0].records, tail);
        assert(concat_groups(out).to_multiset() =~= concat_groups(gs).to_multiset().insert(r));
    } else {
        lemma_group_one_concat(gs.drop_first(), r);
        assert(out.drop_first() =~= spec_group_one(gs.drop_first(), r));
        vstd::seq_lib::lemma_multiset_commutative(
            gs[0].records,
            concat_groups(spec_group_one(gs.drop_first(), r)),
        );
        vstd::seq_lib::lemma_multiset_commutative(gs[0].records, concat_groups(gs.drop_first()));
        assert(concat_groups(out).to_multiset() =~= concat_groups(gs).to_multiset().insert(r));
    }
}

/// The partition law: the groups of a record sequence stand in strictly
/// ascending tag order; each group holds exactly the records that carry its
/// tag, in input order; no record's tag is missing; and concatenating the
/// groups' records reproduces the input's records exactly, as a stable
/// partition — regrouped, never reordered within a group, with nothing lost
/// or invented.
pub proof fn lemma_grouper_sorted_partition(rs: Seq<ClassRecord>)
    ensures
        sorted_groups(spec_groups(rs)),
        groups_partition(spec_groups(rs), rs),
        groups_cover(spec_groups(rs), rs),
        concat_groups(spec_groups(rs)).to_multiset() == rs.to_multiset(),
    decreases rs.len(),
{
    broadcast use vstd::seq_lib::group_to_multiset_ensures;
    broadcast use vstd::multiset::group_multiset_axioms;

    if rs.len() == 0 {
        assert(rs.to_multiset().len() == 0);
        assert(concat_groups(spec_groups(rs)).to_multiset().len() == 0);
        assert(concat_groups(spec_groups(rs)).to_multiset() =~= rs.to_multiset());
    }
    if rs.len() > 0 {
        let prev = rs.drop_last();
        let r = rs.last();
        let gsp = spec_groups(prev);
        lemma_grouper_sorted_partition(prev);
        if !tag_in(gsp, r.tag@) {
            assert forall|k: int| 0 <= k < prev.len() implies (#[trigger] prev[k]).tag@
                != r.tag@ by {
                assert(tag_in(gsp, prev[k].tag@));
            }
            lemma_tag_filter_none(prev, r.tag@);
        }
        lemma_group_one_props(gsp, r, prev);
        lemma_group_one_concat(gsp, r);
        let out = spec_groups(rs);
        assert(prev.push(r) =~= rs);
        assert(concat_groups(out).to_multiset() =~= rs.to_multiset());
        assert forall|k: int| 0 <= k < rs.len() implies tag_in(out, (#[trigger] rs[k]).tag@) by {
            if k < prev.len() {
                assert(tag_in(gsp, prev[k].tag@));
            }
        }
    }
}

/// Builds the one-record group a fresh tag opens with.
fn singleton_group(r: ClassRecord) -> (g: TagGroup)
    ensures
        g@ == (GroupV { tag: r.tag@, records: seq![r] }),
{
    let tag_copy = r.tag.clone();
    let mut rv: Vec<ClassRecord> = Vec::new();
    rv.push(r);
    proof {
        assert(rv@ =~= seq![r]);
    }
    TagGroup { tag: tag_copy, records: rv }
}

/// Files one record into the sorted partition, as `spec_group_one` says.
fn insert_group(groups: Vec<TagGroup>, r: ClassRecord) -> (out: Vec<TagGroup>)
    ensures
        gview(out@) == spec_group_one(gview(groups@), r),
    decreases groups@.len(),
{
    let ghost gs = gview(groups@);
    let mut groups = groups;
    if groups.len() == 0 {
        let g = singleton_group(r);
        groups.push(g);
        proof {
            assert(gview(groups@) =~~= spec_group_one(gs, r));
        }
        groups
    } else if str_lt(r.tag.as_str(), groups[0].tag.as_str()) {
        let g = singleton_group(r);
        groups.insert(0, g);
        proof {
            assert(gview(groups@) =~~= spec_group_one(gs, r));
        }
        groups
    } else if r.tag == groups[0].tag {
        let mut g = groups.remove(0);
        g.records.push(r);
        groups.insert(0, g);
        proof {
            assert(gview(groups@) =~~= spec_group_one(gs, r));
        }
        groups
    } else {
        let g0 = groups.remove(0);
        proof {
            assert(gview(groups@) =~~= gs.drop_first());
        }
        let mut rest = insert_group(groups, r);
        rest.insert(0, g0);
        proof {
            assert(gview(rest@) =~~= seq![gs[0]] + spec_group_one(gs.drop_first(), r));
        }
        rest
    }
}

/// Partitions the records by tag. Groups come out in ascending lexicographic
/// tag order; within a group, records keep their input order. An empty input
/// yields zero groups; this stage never fails.
pub fn tag_grouper(records: Vec<ClassRecord>) -> (groups: Vec<TagGroup>)
    ensures
        gview(groups@) == spec_groups(records@),
{
    let ghost orig = records@;
    let mut rest = records;
    let mut groups: Vec<TagGroup> = Vec::new();
    let ghost done: int = 0;
    proof {
        assert(gview(groups@) =~= spec_groups(orig.take(0)));
    }
    while rest.len() > 0
        invariant
            0 <= done <= orig.len(),
            rest@ == orig.skip(done),
            gview(groups@) == spec_groups(orig.take(done)),
        decreases rest@.len(),
    {
        let r = rest.remove(0);
        proof {
            assert(r == orig[done]);
            assert(rest@ =~= orig.skip(done + 1));
        }
        groups = insert_group(groups, r);
        proof {
            assert(orig.take(done + 1).drop_last() =~= orig.take(done));
            assert(orig.take(done + 1).last() == orig[done]);
            done = done + 1;
        }
    }
    proof {
        assert(orig.take(done) =~= orig);
    }
    groups
}

} // verus!
