use vstd::prelude::*;

use crate::key::{CacheKey, KeyView};

verus! {

/// A named directional link from one accessible to zero or more others.
#[derive(Clone, Copy, Debug, PartialEq, Eq, Structural, Hash)]
pub enum RelationType {
    Null,
    LabelFor,
    LabelledBy,
    ControllerFor,
    ControlledBy,
    MemberOf,
    TooltipFor,
    NodeChildOf,
    NodeParentOf,
    Extended,
    FlowsTo,
    FlowsFrom,
    SubwindowOf,
    Embeds,
    EmbeddedBy,
    PopupFor,
    ParentWindowOf,
    DescriptionFor,
    DescribedBy,
    Details,
    DetailsFor,
    ErrorMessage,
    ErrorFor,
}

/// A compile-time relation kind: a marker type naming one [`RelationType`],
/// so that a relation query can be requested by type.
pub trait ConstRelationType {
    /// The relation kind this marker denotes.
    spec fn spec_relation_type() -> RelationType;

    /// The relation kind this marker denotes.
    fn relation_type() -> (r: RelationType)
        ensures
            r == Self::spec_relation_type(),
    ;
}

/// Marker for [`RelationType::LabelledBy`].
pub struct LabelledBy;

impl ConstRelationType for LabelledBy {
    open spec fn spec_relation_type() -> RelationType {
        RelationType::LabelledBy
    }

    fn relation_type() -> (r: RelationType) {
        RelationType::LabelledBy
    }
}

/// Marker for [`RelationType::LabelFor`].
pub struct LabelFor;

impl ConstRelationType for LabelFor {
    open spec fn spec_relation_type() -> RelationType {
        RelationType::LabelFor
    }

    fn relation_type() -> (r: RelationType) {
        RelationType::LabelFor
    }
}

/// Marker for [`RelationType::ControlledBy`].
pub struct ControlledBy;

impl ConstRelationType for ControlledBy {
    open spec fn spec_relation_type() -> RelationType {
        RelationType::ControlledBy
    }

    fn relation_type() -> (r: RelationType) {
        RelationType::ControlledBy
    }
}

/// Marker for [`RelationType::ControllerFor`].
pub struct ControllerFor;

impl ConstRelationType for ControllerFor {
    open spec fn spec_relation_type() -> RelationType {
        RelationType::ControllerFor
    }

    fn relation_type() -> (r: RelationType) {
        RelationType::ControllerFor
    }
}

/// Marker for [`RelationType::DescribedBy`].
pub struct DescribedBy;

impl ConstRelationType for DescribedBy {
    open spec fn spec_relation_type() -> RelationType {
        RelationType::DescribedBy
    }

    fn relation_type() -> (r: RelationType) {
        RelationType::DescribedBy
    }
}

/// Marker for [`RelationType::DescriptionFor`].
pub struct DescriptionFor;

impl ConstRelationType for DescriptionFor {
    open spec fn spec_relation_type() -> RelationType {
        RelationType::DescriptionFor
    }

    fn relation_type() -> (r: RelationType) {
        RelationType::DescriptionFor
    }
}

/// Marker for [`RelationType::Details`].
pub struct Details;

impl ConstRelationType for Details {
    open spec fn spec_relation_type() -> RelationType {
        RelationType::Details
    }

    fn relation_type() -> (r: RelationType) {
        RelationType::Details
    }
}

/// Marker for [`RelationType::DetailsFor`].
pub struct DetailsFor;

impl ConstRelationType for DetailsFor {
    open spec fn spec_relation_type() -> RelationType {
        RelationType::DetailsFor
    }

    fn relation_type() -> (r: RelationType) {
        RelationType::DetailsFor
    }
}

/// Marker for [`RelationType::Embeds`].
pub struct Embeds;

impl ConstRelationType for Embeds {
    open spec fn spec_relation_type() -> RelationType {
        RelationType::Embeds
    }

    fn relation_type() -> (r: RelationType) {
        RelationType::Embeds
    }
}

/// Marker for [`RelationType::EmbeddedBy`].
pub struct EmbeddedBy;

impl ConstRelationType for EmbeddedBy {
    open spec fn spec_relation_type() -> RelationType {
        RelationType::EmbeddedBy
    }

    fn relation_type() -> (r: RelationType) {
        RelationType::EmbeddedBy
    }
}

/// Marker for [`RelationType::ErrorFor`].
pub struct ErrorFor;

impl ConstRelationType for ErrorFor {
    open spec fn spec_relation_type() -> RelationType {
        RelationType::ErrorFor
    }

    fn relation_type() -> (r: RelationType) {
        RelationType::ErrorFor
    }
}

/// Marker for [`RelationType::ErrorMessage`].
pub struct ErrorMessage;

impl ConstRelationType for ErrorMessage {
    open spec fn spec_relation_type() -> RelationType {
        RelationType::ErrorMessage
    }

    fn relation_type() -> (r: RelationType) {
        RelationType::ErrorMessage
    }
}

/// Marker for [`RelationType::FlowsFrom`].
pub struct FlowsFrom;

impl ConstRelationType for FlowsFrom {
    open spec fn spec_relation_type() -> RelationType {
        RelationType::FlowsFrom
    }

    fn relation_type() -> (r: RelationType) {
        RelationType::FlowsFrom
    }
}

/// Marker for [`RelationType::FlowsTo`].
pub struct FlowsTo;

impl ConstRelationType for FlowsTo {
    open spec fn spec_relation_type() -> RelationType {
        RelationType::FlowsTo
    }

    fn relation_type() -> (r: RelationType) {
        RelationType::FlowsTo
    }
}

/// Marker for [`RelationType::MemberOf`].
pub struct MemberOf;

impl ConstRelationType for MemberOf {
    open spec fn spec_relation_type() -> RelationType {
        RelationType::MemberOf
    }

    fn relation_type() -> (r: RelationType) {
        RelationType::MemberOf
    }
}

/// Marker for [`RelationType::NodeChildOf`].
pub struct NodeChildOf;

impl ConstRelationType for NodeChildOf {
    open spec fn spec_relation_type() -> RelationType {
        RelationType::NodeChildOf
    }

    fn relation_type() -> (r: RelationType) {
        RelationType::NodeChildOf
    }
}

/// Marker for [`RelationType::NodeParentOf`].
pub struct NodeParentOf;

impl ConstRelationType for NodeParentOf {
    open spec fn spec_relation_type() -> RelationType {
        RelationType::NodeParentOf
    }

    fn relation_type() -> (r: RelationType) {
        RelationType::NodeParentOf
    }
}

/// Marker for [`RelationType::ParentWindowOf`].
pub struct ParentWindowOf;

impl ConstRelationType for ParentWindowOf {
    open spec fn spec_relation_type() -> RelationType {
        RelationType::ParentWindowOf
    }

    fn relation_type() -> (r: RelationType) {
        RelationType::ParentWindowOf
    }
}

/// Marker for [`RelationType::PopupFor`].
pub struct PopupFor;

impl ConstRelationType for PopupFor {
    open spec fn spec_relation_type() -> RelationType {
        RelationType::PopupFor
    }

    fn relation_type() -> (r: RelationType) {
        RelationType::PopupFor
    }
}

/// Marker for [`RelationType::SubwindowOf`].
pub struct SubwindowOf;

impl ConstRelationType for SubwindowOf {
    open spec fn spec_relation_type() -> RelationType {
        RelationType::SubwindowOf
    }

    fn relation_type() -> (r: RelationType) {
        RelationType::SubwindowOf
    }
}


/// The targets of the first relation group of the wanted kind, as a
/// relation-set reply lists them; the empty list when no group matches.
pub open spec fn spec_relations_of_kind(
    pairs: Seq<(RelationType, Vec<CacheKey>)>,
    ty: RelationType,
) -> Seq<KeyView>
    decreases pairs.len(),
{
    if pairs.len() == 0 {
        Seq::empty()
    } else if pairs[0].0 == ty {
        pairs[0].1.deep_view()
    } else {
        spec_relations_of_kind(pairs.drop_first(), ty)
    }
}

/// `spec_relations_of_kind` takes the first matching group.
proof fn lemma_relations_of_kind_at(
    pairs: Seq<(RelationType, Vec<CacheKey>)>,
    ty: RelationType,
    j: int,
)
    requires
        0 <= j < pairs.len(),
        pairs[j].0 == ty,
        forall|k: int| 0 <= k < j ==> (#[trigger] pairs[k]).0 != ty,
    ensures
        spec_relations_of_kind(pairs, ty) == pairs[j].1.deep_view(),
    decreases j,
{
    if j > 0 {
        let tail = pairs.drop_first();
        assert(tail[j - 1] == pairs[j]);
        assert forall|k: int| 0 <= k < j - 1 implies (#[trigger] tail[k]).0 != ty by {
            assert(tail[k] == pairs[k + 1]);
        }
        lemma_relations_of_kind_at(tail, ty, j - 1);
    }
}

/// Without a matching group, `spec_relations_of_kind` is empty.
proof fn lemma_relations_of_kind_absent(pairs: Seq<(RelationType, Vec<CacheKey>)>, ty: RelationType)
    requires
        forall|k: int| 0 <= k < pairs.len() ==> (#[trigger] pairs[k]).0 != ty,
    ensures
        spec_relations_of_kind(pairs, ty) == Seq::<KeyView>::empty(),
    decreases pairs.len(),
{
    if pairs.len() > 0 {
        let tail = pairs.drop_first();
        assert forall|k: int| 0 <= k < tail.len() implies (#[trigger] tail[k]).0 != ty by {
            assert(tail[k] == pairs[k + 1]);
        }
        lemma_relations_of_kind_absent(tail, ty);
    }
}

/// Select the targets of the wanted relation kind from a relation-set
/// reply: the first group of that kind, or nothing. A driver fetches the
/// raw groups; this picks what the cache resolves.
pub fn relations_of_kind(pairs: &Vec<(RelationType, Vec<CacheKey>)>, ty: RelationType) -> (r: Vec<
    CacheKey,
>)
    ensures
        r.deep_view() == spec_relations_of_kind(pairs@, ty),
{
    let mut j: usize = 0;
    while j < pairs.len()
        invariant
            j <= pairs@.len(),
            forall|k: int| 0 <= k < j ==> (#[trigger] pairs@[k]).0 != ty,
        decreases pairs@.len() - j,
    {
        if pairs[j].0 == ty {
            let out = crate::item::clone_keys(&pairs[j].1);
            proof {
                lemma_relations_of_kind_at(pairs@, ty, j as int);
            }
            return out;
        }
        j = j + 1;
    }
    let out: Vec<CacheKey> = Vec::new();
    proof {
        lemma_relations_of_kind_absent(pairs@, ty);
        assert(out.deep_view() =~= Seq::<KeyView>::empty());
    }
    out
}

} // verus!
