//! The rendering stage and the pipeline entry point. A report is a pure
//! value: title, optional footer, color code, optional description, and one
//! field per tag group. Rendering is a total function of the query outcome,
//! the filter, the caller identity and the name cache.

use vstd::prelude::*;
use vstd::string::StrSliceExecFns;
use vstd::string::StringExecFns;
use crate::filter::class_filter;
use crate::filter::spec_filtered;
use crate::group::gview;
use crate::group::spec_groups;
use crate::group::tag_grouper;
use crate::group::GroupV;
use crate::group::TagGroup;
use crate::record::ClassRecord;
use crate::record::NameResolver;
use crate::record::QueryFailure;
use crate::text::blank_str;
use crate::text::dec_of;
use crate::text::is_blank;
use crate::text::u64_dec;

verus! {

/// The color code of a report: `Error` when the catalog query failed,
/// `Empty` when it succeeded but no record is rendered, `Populated`
/// otherwise.
#[derive(Debug, Clone, Copy, PartialEq, Eq, Structural)]
pub enum Color {
    /// The catalog query failed.
    Error,
    /// The query succeeded and zero records are rendered.
    Empty,
    /// The query succeeded and at least one record is rendered.
    Populated,
}

/// One field of a report: the group label and the group's rendered records.
#[derive(Debug, PartialEq, Eq)]
pub struct ReportField {
    /// The group label: the raw tag, or `"None"` for the empty tag.
    pub label: String,
    /// One line triple per record: display name, mention, raw id.
    pub body: String,
}

/// The abstract value of a report field.
#[verifier::ext_equal]
pub ghost struct FieldV {
    /// The label text.
    pub label: Seq<char>,
    /// The body text.
    pub body: Seq<char>,
}

impl View for ReportField {
    type V = FieldV;

    open spec fn view(&self) -> FieldV {
        FieldV { label: self.label@, body: self.body@ }
    }
}

/// The rendered report: an immutable value handed to the transport
/// collaborator once the pipeline finishes.
#[derive(Debug, PartialEq, Eq)]
pub struct Report {
    /// The headline: a record count, or the error headline.
    pub title: String,
    /// Caller and filter identification; absent on the error path.
    pub footer: Option<String>,
    /// The failure detail dump; present only on the error path.
    pub description: Option<String>,
    /// The report's color code.
    pub color: Color,
    /// One field per tag group, in ascending tag order.
    pub fields: Vec<ReportField>,
}

/// The abstract value of a report.
#[verifier::ext_equal]
pub ghost struct ReportV {
    /// The headline text.
    pub title: Seq<char>,
    /// The footer text, when present.
    pub footer: Option<Seq<char>>,
    /// The failure detail dump, when present.
    pub description: Option<Seq<char>>,
    /// The color code.
    pub color: Color,
    /// The fields in render order.
    pub fields: Seq<FieldV>,
}

/// The abstract value of a field sequence.
pub open spec fn fields_view(s: Seq<ReportField>) -> Seq<FieldV> {
    s.map_values(|f: ReportField| f@)
}

impl View for Report {
    type V = ReportV;

    open spec fn view(&self) -> ReportV {
        ReportV {
            title: self.title@,
            footer: match self.footer {
                Some(s) => Some(s@),
                None => None,
            },
            description: match self.description {
                Some(s) => Some(s@),
                None => None,
            },
            color: self.color,
            fields: fields_view(self.fields@),
        }
    }
}

/// The abstract value of a query outcome.
pub open spec fn outcome_view(o: Result<Vec<ClassRecord>, QueryFailure>) -> Result<
    Seq<ClassRecord>,
    Seq<char>,
> {
    match o {
        Ok(v) => Ok(v@),
        Err(e) => Err(e@),
    }
}

/// The abstract value of an optional filter argument.
pub open spec fn frag_view(f: Option<String>) -> Option<Seq<char>> {
    match f {
        Some(s) => Some(s@),
        None => None,
    }
}

/// A blank filter argument counts as no filter at all.
pub open spec fn spec_effective(frag: Option<Seq<char>>) -> Option<Seq<char>> {
    match frag {
        Some(f) => if is_blank(f) {
            None
        } else {
            Some(f)
        },
        None => None,
    }
}

/// The records that survive the (possibly absent) filter stage.
pub open spec fn spec_kept(
    rs: Seq<ClassRecord>,
    eff: Option<Seq<char>>,
    names: Map<u64, Seq<char>>,
) -> Seq<ClassRecord> {
    match eff {
        Some(f) => spec_filtered(rs, f, names),
        None => rs,
    }
}

/// The group label: the raw tag, except that the empty tag is displayed
/// under the reserved label. A non-empty tag that happens to spell `"None"`
/// is left as it is.
pub open spec fn spec_label(t: Seq<char>) -> Seq<char> {
    if t.len() == 0 {
        "None"@
    } else {
        t
    }
}

/// The display name for a token: the cached name, or the sentinel on a miss.
pub open spec fn spec_name(names: Map<u64, Seq<char>>, id: u64) -> Seq<char> {
    if names.contains_key(id) {
        names[id]
    } else {
        "NONEXISTANT"@
    }
}

/// The platform mention string for a role token.
pub open spec fn spec_mention(id: u64) -> Seq<char> {
    "<@&"@ + dec_of(id as nat) + ">"@
}

/// One record's rendered lines: bold display name, mention, raw id.
pub open spec fn spec_line(r: ClassRecord, names: Map<u64, Seq<char>>) -> Seq<char> {
    "**"@ + spec_name(names, r.id) + "**\nRole: "@ + spec_mention(r.id) + "\nId: `"@ + dec_of(
        r.id as nat,
    ) + "`"@
}

/// A group's body: the records' lines joined by newlines.
pub open spec fn spec_body(rs: Seq<ClassRecord>, names: Map<u64, Seq<char>>) -> Seq<char>
    decreases rs.len(),
{
    if rs.len() == 0 {
        Seq::empty()
    } else if rs.len() == 1 {
        spec_line(rs[0], names)
    } else {
        spec_body(rs.drop_last(), names) + "\n"@ + spec_line(rs.last(), names)
    }
}

/// The fields of a report: one per group, in group order.
pub open spec fn spec_fields(gs: Seq<GroupV>, names: Map<u64, Seq<char>>) -> Seq<FieldV> {
    gs.map_values(
        |g: GroupV| FieldV { label: spec_label(g.tag), body: spec_body(g.records, names) },
    )
}

/// What the renderer produces for every pipeline outcome.
pub open spec fn spec_render(
    outcome: Result<Seq<ClassRecord>, Seq<char>>,
    frag: Option<Seq<char>>,
    caller: Seq<char>,
    names: Map<u64, Seq<char>>,
) -> ReportV {
    match outcome {
        Err(detail) => ReportV {
            title: "Error Loading Classes"@,
            footer: None,
            description: Some("```"@ + detail + "```"@),
            color: Color::Error,
            fields: Seq::empty(),
        },
        Ok(rs) => {
            let eff = spec_effective(frag);
            let kept = spec_kept(rs, eff, names);
            ReportV {
                title: match eff {
                    Some(_) => "Displaying "@ + dec_of(kept.len()) + " of "@ + dec_of(rs.len()),
                    None => "Displaying "@ + dec_of(kept.len()) + " classes"@,
                },
                footer: Some(
                    match eff {
                        Some(f) => "Filter: `"@ + f + "`, User: `"@ + caller + "`"@,
                        None => "User: `"@ + caller + "`"@,
                    },
                ),
                description: None,
                color: if kept.len() == 0 {
                    Color::Empty
                } else {
                    Color::Populated
                },
                fields: spec_fields(spec_groups(kept), names),
            }
        },
    }
}

/// The roster outcome: an empty token set yields the empty roster without
/// consulting the catalog; otherwise the catalog's answer stands.
pub open spec fn spec_roster(tokens: Seq<u64>, fetched: Result<Seq<ClassRecord>, Seq<char>>)
    -> Result<Seq<ClassRecord>, Seq<char>> {
    if tokens.len() == 0 {
        Ok(Seq::empty())
    } else {
        fetched
    }
}

/// The whole pipeline as one function of its inputs.
pub open spec fn spec_mine(
    tokens: Seq<u64>,
    fetched: Result<Seq<ClassRecord>, Seq<char>>,
    frag: Option<Seq<char>>,
    caller: Seq<char>,
    names: Map<u64, Seq<char>>,
) -> ReportV {
    spec_render(spec_roster(tokens, fetched), frag, caller, names)
}

/// Resolves the roster for a token set: an empty set legally yields the
/// empty roster and never a failure; a non-empty set stands or falls with
/// the catalog's answer.
pub fn roster_query(tokens: &Vec<u64>, fetched: Result<Vec<ClassRecord>, QueryFailure>) -> (out:
    Result<Vec<ClassRecord>, QueryFailure>)
    ensures
        outcome_view(out) == spec_roster(tokens@, outcome_view(fetched)),
{
    if tokens.len() == 0 {
        Ok(Vec::new())
    } else {
        fetched
    }
}

/// Renders one record's lines.
fn record_line(r: &ClassRecord, resolver: &NameResolver) -> (s: String)
    ensures
        s@ == spec_line(*r, resolver@),
{
    let mut s = String::from_str("**");
    match resolver.resolve(r.id) {
        Some(name) => s.append(name.as_str()),
        None => s.append("NONEXISTANT"),
    }
    s.append("**\nRole: ");
    s.append("<@&");
    let digits = u64_dec(r.id);
    s.append(digits.as_str());
    s.append(">");
    s.append("\nId: `");
    s.append(digits.as_str());
    s.append("`");
    proof {
        assert(s@ =~= spec_line(*r, resolver@));
    }
    s
}

/// Renders a group's body: the records' lines joined by newlines.
fn group_body(records: Vec<ClassRecord>, resolver: &NameResolver) -> (s: String)
    ensures
        s@ == spec_body(records@, resolver@),
{
    let ghost orig = records@;
    let mut rest = records;
    let mut s = String::new();
    let mut first = true;
    let ghost i: int = 0;
    while rest.len() > 0
        invariant
            0 <= i <= orig.len(),
            rest@ == orig.skip(i),
            s@ == spec_body(orig.take(i), resolver@),
            first <==> i == 0,
        decreases rest@.len(),
    {
        let r = rest.remove(0);
        proof {
            assert(r == orig[i]);
            assert(rest@ =~= orig.skip(i + 1));
        }
        if !first {
            s.append("\n");
        }
        first = false;
        let line = record_line(&r, resolver);
        s.append(line.as_str());
        proof {
            let upto = orig.take(i + 1);
            assert(upto.drop_last() =~= orig.take(i));
            assert(upto.last() == orig[i]);
            assert(s@ =~= spec_body(upto, resolver@));
            i = i + 1;
        }
    }
    proof {
        assert(orig.take(i) =~= orig);
    }
    s
}

/// Renders a group's label.
fn group_label(tag: String) -> (s: String)
    ensures
        s@ == spec_label(tag@),
{
    if tag.as_str().unicode_len() == 0 {
        String::from_str("None")
    } else {
        tag
    }
}

/// Renders the fields: one per group, in group order.
fn build_fields(groups: Vec<TagGroup>, resolver: &NameResolver) -> (fields: Vec<ReportField>)
    ensures
        fields_view(fields@) == spec_fields(gview(groups@), resolver@),
{
    let ghost gs = gview(groups@);
    let mut rest = groups;
    let mut fields: Vec<ReportField> = Vec::new();
    let ghost i: int = 0;
    proof {
        assert(fields_view(fields@) =~= spec_fields(gs.take(0), resolver@));
    }
    while rest.len() > 0
        invariant
            0 <= i <= gs.len(),
            gview(rest@) == gs.skip(i),
            fields_view(fields@) == spec_fields(gs.take(i), resolver@),
        decreases rest@.len(),
    {
        let ghost prev = rest@;
        let g = rest.remove(0);
        proof {
            assert(gview(prev).len() == prev.len());
            assert(g == prev[0]);
            assert(gview(prev)[0] == prev[0]@);
            assert(g@ == gs.skip(i)[0]);
            assert(g@ == gs[i]);
            assert(rest@ =~= prev.skip(1));
            assert forall|k: int| 0 <= k < rest@.len() implies gview(rest@)[k] == gs.skip(i + 1)[k]
                by {
                assert(gview(rest@)[k] == rest@[k]@);
                assert(rest@[k] == prev[k + 1]);
                assert(gview(prev)[k + 1] == prev[k + 1]@);
                assert(gs.skip(i)[k + 1] == gs[i + 1 + k]);
                assert(gs.skip(i + 1)[k] == gs[i + 1 + k]);
            }
            assert(gview(rest@) =~= gs.skip(i + 1));
        }
        let TagGroup { tag, records } = g;
        let label = group_label(tag);
        let body = group_body(records, resolver);
        let ghost before = fields@;
        fields.push(ReportField { label, body });
        proof {
            assert(fields_view(before).len() == before.len());
            assert(spec_fields(gs.take(i), resolver@).len() == i);
            assert(before.len() == i);
            assert forall|k: int| 0 <= k < fields@.len() implies fields_view(fields@)[k]
                == spec_fields(gs.take(i + 1), resolver@)[k] by {
                assert(before.len() == i);
                assert(k < i + 1);
                assert(fields_view(fields@)[k] == fields@[k]@);
                assert(gs.take(i + 1)[k] == gs[k]);
                if k < i {
                    assert(fields@[k] == before[k]);
                    assert(fields_view(before)[k] == before[k]@);
                    assert(spec_fields(gs.take(i), resolver@)[k] == spec_fields(
                        gs.take(i + 1),
                        resolver@,
                    )[k]);
                } else {
                    assert(fields@[k]@ == (FieldV { label: label@, body: body@ }));
                    assert(g@.tag == tag@ && g@.records == records@);
                }
            }
            assert(fields_view(fields@) =~~= spec_fields(gs.take(i + 1), resolver@));
            i = i + 1;
        }
    }
    proof {
        assert(gs.take(i) =~= gs);
    }
    fields
}

/// Assembles a success report from the surviving records and the prepared
/// title and footer.
fn render_success(kept: Vec<ClassRecord>, title: String, footer: String, resolver: &NameResolver)
    -> (rep: Report)
    ensures
        rep@ == (ReportV {
            title: title@,
            footer: Some(footer@),
            description: None,
            color: if kept@.len() == 0 {
                Color::Empty
            } else {
                Color::Populated
            },
            fields: spec_fields(spec_groups(kept@), resolver@),
        }),
{
    let no_records = kept.len() == 0;
    let groups = tag_grouper(kept);
    let fields = build_fields(groups, resolver);
    let rep = Report {
        title,
        footer: Some(footer),
        description: None,
        color: if no_records {
            Color::Empty
        } else {
            Color::Populated
        },
        fields,
    };
    proof {
        assert(rep@ =~~= (ReportV {
            title: title@,
            footer: Some(footer@),
            description: None,
            color: if kept@.len() == 0 {
                Color::Empty
            } else {
                Color::Populated
            },
            fields: spec_fields(spec_groups(kept@), resolver@),
        }));
    }
    rep
}

/// Renders the no-filter success report.
fn render_unfiltered(records: Vec<ClassRecord>, caller_tag: &str, resolver: &NameResolver) -> (rep:
    Report)
    ensures
        rep@ == spec_render(Ok(records@), None, caller_tag@, resolver@),
{
    let count = records.len();
    let mut title = String::from_str("Displaying ");
    let digits = u64_dec(count as u64);
    title.append(digits.as_str());
    title.append(" classes");
    let mut footer = String::from_str("User: `");
    footer.append(caller_tag);
    footer.append("`");
    proof {
        assert(count as u64 as nat == records@.len());
        assert(title@ =~= "Displaying "@ + dec_of(records@.len()) + " classes"@);
        assert(footer@ =~= "User: `"@ + caller_tag@ + "`"@);
    }
    render_success(records, title, footer, resolver)
}

/// Renders the filtered success report.
fn render_filtered(
    records: Vec<ClassRecord>,
    fragment: &str,
    caller_tag: &str,
    resolver: &NameResolver,
) -> (rep: Report)
    requires
        !is_blank(fragment@),
    ensures
        rep@ == spec_render(Ok(records@), Some(fragment@), caller_tag@, resolver@),
{
    let original_count = records.len();
    let kept = class_filter(records, fragment, resolver);
    let retained_count = kept.len();
    let mut title = String::from_str("Displaying ");
    let retained_digits = u64_dec(retained_count as u64);
    title.append(retained_digits.as_str());
    title.append(" of ");
    let original_digits = u64_dec(original_count as u64);
    title.append(original_digits.as_str());
    let mut footer = String::from_str("Filter: `");
    footer.append(fragment);
    footer.append("`, User: `");
    footer.append(caller_tag);
    footer.append("`");
    proof {
        assert(retained_count as u64 as nat == kept@.len());
        assert(original_count as u64 as nat == records@.len());
        assert(title@ =~= "Displaying "@ + dec_of(kept@.len()) + " of "@ + dec_of(records@.len()));
        assert(footer@ =~= "Filter: `"@ + fragment@ + "`, User: `"@ + caller_tag@ + "`"@);
    }
    render_success(kept, title, footer, resolver)
}

/// Renders the error report for a failed catalog query.
fn render_failure(failure: QueryFailure) -> (rep: Report)
    ensures
        forall|frag: Option<Seq<char>>, caller: Seq<char>, names: Map<u64, Seq<char>>|
            rep@ == #[trigger] spec_render(Err(failure@), frag, caller, names),
{
    let mut d = String::from_str("```");
    d.append(failure.detail.as_str());
    d.append("```");
    let rep = Report {
        title: String::from_str("Error Loading Classes"),
        footer: None,
        description: Some(d),
        color: Color::Error,
        fields: Vec::new(),
    };
    proof {
        assert(d@ =~= "```"@ + failure@ + "```"@);
        assert forall|frag: Option<Seq<char>>, caller: Seq<char>, names: Map<u64, Seq<char>>|
            rep@ == #[trigger] spec_render(Err(failure@), frag, caller, names) by {
            assert(rep@ =~~= spec_render(Err(failure@), frag, caller, names));
        }
    }
    rep
}

/// Composes the report for a query outcome: the error report on failure,
/// else the filtered or plain success report, grouped by tag.
pub fn render_report(
    outcome: Result<Vec<ClassRecord>, QueryFailure>,
    fragment: Option<String>,
    caller_tag: &str,
    resolver: &NameResolver,
) -> (rep: Report)
    ensures
        rep@ == spec_render(outcome_view(outcome), frag_view(fragment), caller_tag@, resolver@),
{
    match outcome {
        Err(failure) => render_failure(failure),
        Ok(records) => match fragment {
            Some(f) => {
                if !blank_str(f.as_str()) {
                    render_filtered(records, f.as_str(), caller_tag, resolver)
                } else {
                    let rep = render_unfiltered(records, caller_tag, resolver);
                    proof {
                        assert(spec_effective(Some(f@)) is None);
                        assert(rep@ =~~= spec_render(
                            Ok(records@),
                            Some(f@),
                            caller_tag@,
                            resolver@,
                        ));
                    }
                    rep
                }
            },
            None => render_unfiltered(records, caller_tag, resolver),
        },
    }
}

/// The pipeline entry point: resolve the roster for the caller's tokens,
/// filter, group, and render, exactly as `spec_mine` lays it out.
pub fn mine(
    tokens: &Vec<u64>,
    fetched: Result<Vec<ClassRecord>, QueryFailure>,
    fragment: Option<String>,
    caller_tag: &str,
    resolver: &NameResolver,
) -> (rep: Report)
    ensures
        rep@ == spec_mine(
            tokens@,
            outcome_view(fetched),
            frag_view(fragment),
            caller_tag@,
            resolver@,
        ),
{
    let outcome = roster_query(tokens, fetched);
    render_report(outcome, fragment, caller_tag, resolver)
}

/// An empty role-token set always yields the empty roster, never a failure,
/// whatever the catalog would have answered.
pub proof fn lemma_roster_empty_never_fails(fetched: Result<Seq<ClassRecord>, Seq<char>>)
    ensures
        spec_roster(Seq::<u64>::empty(), fetched) == Ok::<Seq<ClassRecord>, Seq<char>>(
            Seq::<ClassRecord>::empty(),
        ),
{
}

/// The number of records a success report renders.
pub open spec fn spec_rendered_count(
    outcome: Result<Seq<ClassRecord>, Seq<char>>,
    frag: Option<Seq<char>>,
    names: Map<u64, Seq<char>>,
) -> nat {
    match outcome {
        Ok(rs) => spec_kept(rs, spec_effective(frag), names).len(),
        Err(_) => 0,
    }
}

/// The color cases are mutually exclusive and exhaustive: `Error` exactly on
/// a failed query, `Empty` exactly on a successful query rendering zero
/// records, `Populated` exactly otherwise.
pub proof fn lemma_color_partition(
    outcome: Result<Seq<ClassRecord>, Seq<char>>,
    frag: Option<Seq<char>>,
    caller: Seq<char>,
    names: Map<u64, Seq<char>>,
)
    ensures
        (spec_render(outcome, frag, caller, names).color == Color::Error) <==> (outcome is Err),
        (spec_render(outcome, frag, caller, names).color == Color::Empty) <==> (outcome is Ok
            && spec_rendered_count(outcome, frag, names) == 0),
        (spec_render(outcome, frag, caller, names).color == Color::Populated) <==> (outcome is Ok
            && spec_rendered_count(outcome, frag, names) > 0),
{
}

/// Rendering is deterministic: two reports rendered from the same query
/// outcome, filter, caller and name cache are identical.
pub proof fn lemma_render_deterministic(
    r1: Report,
    r2: Report,
    outcome: Result<Seq<ClassRecord>, Seq<char>>,
    frag: Option<Seq<char>>,
    caller: Seq<char>,
    names: Map<u64, Seq<char>>,
)
    requires
        r1@ == spec_render(outcome, frag, caller, names),
        r2@ == spec_render(outcome, frag, caller, names),
    ensures
        r1@ == r2@,
{
}

} // verus!
