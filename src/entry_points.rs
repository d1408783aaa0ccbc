//! Entry points and their grouping by entry-point type.
use vstd::prelude::*;
use crate::error::DecodeError;
use crate::felt::{felt_of_text, FieldElement};

verus! {

/// The category of an entry point.
#[derive(Clone, Copy, Debug, PartialEq, Eq, Hash, Structural)]
pub enum EntryPointType {
    Constructor,
    External,
    L1Handler,
}

/// An entry point of a legacy class: selector and program offset.
#[derive(Clone, Debug, PartialEq, Eq)]
pub struct LegacyEntryPoint {
    pub selector: FieldElement,
    pub offset: FieldElement,
}

/// An entry point of a new-IR class: selector and function index.
#[derive(Clone, Debug, PartialEq, Eq)]
pub struct SierraEntryPoint {
    pub selector: FieldElement,
    pub function_idx: u64,
}

impl View for LegacyEntryPoint {
    type V = (Seq<u8>, Seq<u8>);

    open spec fn view(&self) -> (Seq<u8>, Seq<u8>) {
        (self.selector@, self.offset@)
    }
}

impl View for SierraEntryPoint {
    type V = (Seq<u8>, u64);

    open spec fn view(&self) -> (Seq<u8>, u64) {
        (self.selector@, self.function_idx)
    }
}

/// An entry point of the compiled new-IR form: selector as hex text.
#[derive(Clone, Debug)]
pub struct SierraEntryPointSource {
    pub selector: String,
    pub function_idx: u64,
}

/// The compiled new-IR form's entry points, one list per category.
#[derive(Clone, Debug)]
pub struct SierraEntryPointsSource {
    pub constructor: Vec<SierraEntryPointSource>,
    pub external: Vec<SierraEntryPointSource>,
    pub l1_handler: Vec<SierraEntryPointSource>,
}

/// Entry points grouped by type; keys are unique.
pub type EntryPointGroups<E> = Vec<(EntryPointType, Vec<E>)>;

pub open spec fn groups_view<E: View>(g: Seq<(EntryPointType, Vec<E>)>) -> Seq<(EntryPointType, Seq<E::V>)> {
    g.map_values(|p: (EntryPointType, Vec<E>)| (p.0, p.1@.map_values(|e: E| e@)))
}

/// One group for a category, or none when its list is empty.
pub open spec fn group_of<T>(t: EntryPointType, es: Seq<T>) -> Seq<(EntryPointType, Seq<T>)> {
    if es.len() == 0 {
        Seq::empty()
    } else {
        seq![(t, es)]
    }
}

/// The grouping of three category lists: constructor, external, then L1 handler,
/// each under its own key, the empty ones left out.
pub open spec fn grouped<T>(c: Seq<T>, e: Seq<T>, l: Seq<T>) -> Seq<(EntryPointType, Seq<T>)> {
    group_of(EntryPointType::Constructor, c).add(group_of(EntryPointType::External, e)).add(
        group_of(EntryPointType::L1Handler, l),
    )
}

/// The decoded form of a list of compiled entry points, if every selector decodes.
pub open spec fn sierra_sources_decoded(raw: Seq<SierraEntryPointSource>) -> Option<Seq<(Seq<u8>, u64)>>
    decreases raw.len(),
{
    if raw.len() == 0 {
        Some(Seq::empty())
    } else {
        match (sierra_sources_decoded(raw.drop_last()), felt_of_text(raw.last().selector@)) {
            (Some(p), Some(d)) => Some(p.push((d, raw.last().function_idx))),
            _ => None,
        }
    }
}

/// Appends a group for `t` when `es` is not empty.
pub fn push_group<E: View>(groups: &mut EntryPointGroups<E>, t: EntryPointType, es: Vec<E>)
    ensures
        groups_view(final(groups)@) == groups_view(old(groups)@).add(group_of(t, es@.map_values(|e: E| e@))),
{
    let ghost before = groups@;
    if es.len() > 0 {
        groups.push((t, es));
        assert(groups_view(groups@) =~= groups_view(before).add(group_of(t, es@.map_values(|e: E| e@))));
    } else {
        assert(groups_view(groups@) =~= groups_view(before).add(group_of(t, es@.map_values(|e: E| e@))));
    }
}

/// Decodes the selectors of one category, keeping the order.
pub fn decode_sierra_entry_points(raw: &Vec<SierraEntryPointSource>) -> (r: Result<Vec<SierraEntryPoint>, DecodeError>)
    ensures
        match sierra_sources_decoded(raw@) {
            Some(d) => r matches Ok(v) && v@.map_values(|e: SierraEntryPoint| e@) == d,
            None => r == Err::<Vec<SierraEntryPoint>, DecodeError>(DecodeError::MalformedFieldElement),
        },
{
    let mut out: Vec<SierraEntryPoint> = Vec::new();
    let mut i: usize = 0;
    assert(raw@.take(0) =~= Seq::<SierraEntryPointSource>::empty());
    while i < raw.len()
        invariant
            i <= raw@.len(),
            sierra_sources_decoded(raw@.take(i as int)) == Some(out@.map_values(|e: SierraEntryPoint| e@)),
        decreases raw@.len() - i,
    {
        let ghost t = raw@.take(i + 1);
        assert(t.drop_last() =~= raw@.take(i as int));
        match FieldElement::decode(raw[i].selector.as_str()) {
            Ok(selector) => {
                let ghost before = out@;
                out.push(SierraEntryPoint { selector, function_idx: raw[i].function_idx });
                assert(out@.map_values(|e: SierraEntryPoint| e@) =~= before.map_values(|e: SierraEntryPoint| e@).push(out@.last()@));
            },
            Err(_) => {
                proof {
                    lemma_sierra_decode_fails(raw@, i as int);
                }
                return Err(DecodeError::MalformedFieldElement);
            },
        }
        i = i + 1;
    }
    assert(raw@.take(i as int) =~= raw@);
    Ok(out)
}

proof fn lemma_sierra_decode_fails(raw: Seq<SierraEntryPointSource>, i: int)
    requires
        0 <= i < raw.len(),
        sierra_sources_decoded(raw.take(i + 1)) is None,
    ensures
        sierra_sources_decoded(raw) is None,
    decreases raw.len(),
{
    if raw.len() > i + 1 {
        assert(raw.drop_last().take(i + 1) =~= raw.take(i + 1));
        lemma_sierra_decode_fails(raw.drop_last(), i);
    } else {
        assert(raw.take(i + 1) =~= raw);
    }
}

/// Groups the compiled form's entry points by type, decoding each selector:
/// constructor, external, then L1 handler, each in input order, empty
/// categories left out. Fails if a selector is malformed.
pub fn group_sierra_entry_points(src: &SierraEntryPointsSource) -> (r: Result<EntryPointGroups<SierraEntryPoint>, DecodeError>)
    ensures
        match (
            sierra_sources_decoded(src.constructor@),
            sierra_sources_decoded(src.external@),
            sierra_sources_decoded(src.l1_handler@),
        ) {
            (Some(c), Some(e), Some(l)) => r matches Ok(g) && groups_view(g@) == grouped(c, e, l),
            _ => r == Err::<EntryPointGroups<SierraEntryPoint>, DecodeError>(DecodeError::MalformedFieldElement),
        },
        r matches Ok(g) ==> groups_wf(groups_view(g@)),
{
    let c = decode_sierra_entry_points(&src.constructor)?;
    let e = decode_sierra_entry_points(&src.external)?;
    let l = decode_sierra_entry_points(&src.l1_handler)?;
    let mut groups: EntryPointGroups<SierraEntryPoint> = Vec::new();
    assert(groups_view(groups@) =~= Seq::empty());
    push_group(&mut groups, EntryPointType::Constructor, c);
    push_group(&mut groups, EntryPointType::External, e);
    push_group(&mut groups, EntryPointType::L1Handler, l);
    proof {
        lemma_grouped_wf(c@.map_values(|x: SierraEntryPoint| x@), e@.map_values(|x: SierraEntryPoint| x@), l@.map_values(|x: SierraEntryPoint| x@));
    }
    Ok(groups)
}

pub open spec fn type_rank(t: EntryPointType) -> int {
    match t {
        EntryPointType::Constructor => 0,
        EntryPointType::External => 1,
        EntryPointType::L1Handler => 2,
    }
}

pub open spec fn list_of<T>(t: EntryPointType, c: Seq<T>, e: Seq<T>, l: Seq<T>) -> Seq<T> {
    match t {
        EntryPointType::Constructor => c,
        EntryPointType::External => e,
        EntryPointType::L1Handler => l,
    }
}

/// Grouping keeps the scan order of categories: keys come in constructor,
/// external, L1-handler order, each at most once, exactly the categories with
/// entries, and each key holds its category's entries in input order.
pub proof fn lemma_grouping_order<T>(c: Seq<T>, e: Seq<T>, l: Seq<T>)
    ensures
        forall|i: int, j: int|
            0 <= i < j < grouped(c, e, l).len() ==> type_rank(#[trigger] grouped(c, e, l)[i].0) < type_rank(
                #[trigger] grouped(c, e, l)[j].0,
            ),
        forall|i: int|
            0 <= i < grouped(c, e, l).len() ==> #[trigger] grouped(c, e, l)[i].1 == list_of(
                grouped(c, e, l)[i].0,
                c,
                e,
                l,
            ) && grouped(c, e, l)[i].1.len() > 0,
        forall|t: EntryPointType|
            list_of(t, c, e, l).len() > 0 ==> exists|i: int|
                0 <= i < grouped(c, e, l).len() && #[trigger] grouped(c, e, l)[i].0 == t,
{
    let g = grouped(c, e, l);
    assert forall|t: EntryPointType| list_of(t, c, e, l).len() > 0 implies exists|i: int|
        0 <= i < g.len() && #[trigger] g[i].0 == t by {
        let nc: int = if c.len() > 0 { 1 } else { 0 };
        let ne: int = if e.len() > 0 { 1 } else { 0 };
        match t {
            EntryPointType::Constructor => { assert(g[0].0 == t); },
            EntryPointType::External => { assert(g[nc].0 == t); },
            EntryPointType::L1Handler => { assert(g[nc + ne].0 == t); },
        }
    }
}

/// Keys in scan order (constructor, external, L1 handler), each at most once,
/// and no empty list.
pub open spec fn groups_wf<T>(g: Seq<(EntryPointType, Seq<T>)>) -> bool {
    &&& forall|i: int, j: int| 0 <= i < j < g.len() ==> type_rank(#[trigger] g[i].0) < type_rank(#[trigger] g[j].0)
    &&& forall|i: int| 0 <= i < g.len() ==> (#[trigger] g[i]).1.len() > 0
}

/// Grouping always gives well-formed groups.
pub proof fn lemma_grouped_wf<T>(c: Seq<T>, e: Seq<T>, l: Seq<T>)
    ensures
        groups_wf(grouped(c, e, l)),
{
    lemma_grouping_order(c, e, l);
    let g = grouped(c, e, l);
    assert forall|i: int| 0 <= i < g.len() implies (#[trigger] g[i]).1.len() > 0 by {
        assert(g[i].1.len() > 0);
    }
}

} // verus!
