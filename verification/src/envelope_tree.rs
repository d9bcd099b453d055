//! A spatial tree of axis-aligned envelopes in integer coordinates, held by the
//! `rstar` crate.
use rstar::primitives::{GeomWithData, Rectangle};
use rstar::{RTree, AABB};
use vstd::multiset::Multiset;
use vstd::prelude::*;

verus! {

/// West, south, east and north edge of an envelope, and the number that the
/// envelope is found by.
pub type Item = (i64, i64, i64, i64, usize);

/// Whether an item's envelope shares a point with the envelope that two opposite
/// corners span.
pub open spec fn overlaps(item: Item, ax: i64, ay: i64, bx: i64, by: i64) -> bool {
    &&& ax <= item.2 || bx <= item.2
    &&& ax >= item.0 || bx >= item.0
    &&& ay <= item.3 || by <= item.3
    &&& ay >= item.1 || by >= item.1
}

/// A bulk-loaded tree of envelopes. Its representation is that of
/// `rstar::RTree`, which no contract looks into: see `items_of`.
#[verifier::external_body]
pub struct EnvelopeTree {
    tree: RTree<GeomWithData<Rectangle<[i64; 2]>, usize>>,
}

/// The items that a tree holds.
pub uninterp spec fn items_of(tree: EnvelopeTree) -> Multiset<Item>;

impl EnvelopeTree {
    /// Calls `rstar::RTree::bulk_load`: the new tree holds exactly the given
    /// items. The rectangles are normalised by `Rectangle::from_corners`, which
    /// leaves a rectangle as it is when its edges are in order.
    #[verifier::external_body]
    pub(crate) fn bulk_load(items: &Vec<Item>) -> (r: EnvelopeTree)
        requires
            forall|i: int|
                0 <= i < items.len() ==> (#[trigger] items[i]).0 <= items[i].2 && items[i].1
                    <= items[i].3,
        ensures
            items_of(r) == items@.to_multiset(),
    {
        let convert = |i: &Item| {
            GeomWithData::new(Rectangle::from_corners([i.0, i.1], [i.2, i.3]), i.4)
        };
        EnvelopeTree { tree: RTree::bulk_load(items.iter().map(convert).collect()) }
    }

    /// Calls `rstar::RTree::locate_in_envelope_intersecting`: every held item
    /// whose envelope shares a point with the envelope spanned by the two corners,
    /// as often as it is held. The order of the items is left open.
    #[verifier::external_body]
    pub(crate) fn locate_in_envelope_intersecting(
        &self,
        ax: i64,
        ay: i64,
        bx: i64,
        by: i64,
    ) -> (r: Vec<Item>)
        ensures
            r@.to_multiset() == items_of(*self).filter(|item: Item| overlaps(item, ax, ay, bx, by)),
    {
        let envelope = AABB::from_corners([ax, ay], [bx, by]);
        self.tree
            .locate_in_envelope_intersecting(&envelope)
            .map(|found| {
                let (low, high) = (found.geom().lower(), found.geom().upper());
                (low[0], low[1], high[0], high[1], found.data)
            })
            .collect()
    }
}

} // verus!
