//! Views of contents: the same container and its items can be shown more than once, so views
//! are kept apart from the contents and kept in step with them.

use vstd::prelude::*;

use crate::contents::Entity;

verus! {

/// What keeping an item's views in step with its section's views asks of the world.
#[derive(Clone, Copy, Debug, PartialEq, Eq, Structural)]
pub enum ViewAction {
    /// Move item view `view` under section view `section`.
    Reparent { view: Entity, section: Entity },
    /// Create a view of the item under section view `section`.
    Spawn { section: Entity },
    /// Remove the item view `view`.
    Despawn { view: Entity },
}

/// The action for the `k`th step of pairing `item_views` with `section_views`.
pub open spec fn view_step(item_views: Seq<Entity>, section_views: Seq<Entity>, k: int) -> ViewAction {
    if k < section_views.len() {
        if k < item_views.len() {
            ViewAction::Reparent { view: item_views[k], section: section_views[k] }
        } else {
            ViewAction::Spawn { section: section_views[k] }
        }
    } else {
        ViewAction::Despawn { view: item_views[k] }
    }
}

/// When an item changes sections, pair its views with the views of its new section in order:
/// each section view gets the next item view, or a new one when they run out, and item views
/// left over are removed.
pub fn item_moved(item_views: &[Entity], section_views: &[Entity]) -> (r: Vec<ViewAction>)
    ensures
        r.len() == if item_views.len() > section_views.len() {
            item_views.len()
        } else {
            section_views.len()
        },
        forall|k: int| 0 <= k < r.len() ==> #[trigger] r[k] == view_step(item_views@, section_views@, k),
{
    let mut r: Vec<ViewAction> = Vec::new();
    let mut k: usize = 0;
    while k < section_views.len()
        invariant
            k <= section_views.len(),
            r.len() == k,
            forall|j: int| 0 <= j < k ==> #[trigger] r[j] == view_step(item_views@, section_views@, j),
        decreases section_views.len() - k,
    {
        if k < item_views.len() {
            r.push(ViewAction::Reparent { view: item_views[k], section: section_views[k] });
        } else {
            r.push(ViewAction::Spawn { section: section_views[k] });
        }
        k = k + 1;
    }
    while k < item_views.len()
        invariant
            section_views.len() <= k <= item_views.len() || (k == section_views.len() && item_views.len()
                <= section_views.len()),
            r.len() == k,
            forall|j: int| 0 <= j < k ==> #[trigger] r[j] == view_step(item_views@, section_views@, j),
        decreases item_views.len() - k,
    {
        r.push(ViewAction::Despawn { view: item_views[k] });
        k = k + 1;
    }
    r
}

/// Some action of `r` is `a`.
pub open spec fn has_action(r: Seq<ViewAction>, a: ViewAction) -> bool {
    exists|j: int| 0 <= j < r.len() && r[j] == a
}

/// What the actions of `item_moved` (given as `r`) do: each section view gets the item view of
/// the same position under it, or a new view when the item views have run out; every item view
/// past the number of section views is removed; and an action that removes a view removes one
/// of those.
pub proof fn law_item_moved_pairs_views(item_views: Seq<Entity>, section_views: Seq<Entity>, r: Seq<ViewAction>)
    requires
        r.len() == if item_views.len() > section_views.len() {
            item_views.len()
        } else {
            section_views.len()
        },
        forall|k: int| 0 <= k < r.len() ==> #[trigger] r[k] == view_step(item_views, section_views, k),
    ensures
        forall|k: int|
            0 <= k < section_views.len() && k < item_views.len() ==> #[trigger] has_action(
                r,
                ViewAction::Reparent { view: item_views[k], section: section_views[k] },
            ),
        forall|k: int|
            item_views.len() <= k < section_views.len() ==> #[trigger] has_action(
                r,
                ViewAction::Spawn { section: section_views[k] },
            ),
        forall|k: int|
            section_views.len() <= k < item_views.len() ==> #[trigger] has_action(
                r,
                ViewAction::Despawn { view: item_views[k] },
            ),
        forall|j: int|
            0 <= j < r.len() ==> (#[trigger] r[j] matches ViewAction::Despawn { view } ==> exists|k: int|
                section_views.len() <= k < item_views.len() && #[trigger] item_views[k] == view),
{
    assert forall|k: int|
        0 <= k < section_views.len() && k < item_views.len() implies #[trigger] has_action(
            r,
            ViewAction::Reparent { view: item_views[k], section: section_views[k] },
        ) by {
        assert(r[k] == view_step(item_views, section_views, k));
    }
    assert forall|k: int|
        item_views.len() <= k < section_views.len() implies #[trigger] has_action(
            r,
            ViewAction::Spawn { section: section_views[k] },
        ) by {
        assert(r[k] == view_step(item_views, section_views, k));
    }
    assert forall|k: int|
        section_views.len() <= k < item_views.len() implies #[trigger] has_action(
            r,
            ViewAction::Despawn { view: item_views[k] },
        ) by {
        assert(r[k] == view_step(item_views, section_views, k));
    }
    assert forall|j: int| 0 <= j < r.len() implies (#[trigger] r[j] matches ViewAction::Despawn { view }
        ==> exists|k: int| section_views.len() <= k < item_views.len() && #[trigger] item_views[k] == view) by {
        assert(r[j] == view_step(item_views, section_views, j));
    }
}

} // verus!
