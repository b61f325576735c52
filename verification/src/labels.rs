//! Screen labels of satellites, kept from frame to frame.

use crate::geometry::Position;
use crate::visibility::{
    is_visible, project_to_screen, projected, visible, ScreenPoint, ViewProjection,
};
use std::collections::HashMap;
use vstd::prelude::*;

verus! {

broadcast use vstd::std_specs::hash::group_hash_axioms;

/// The label of one satellite: where it stands on the screen, or stood when
/// last shown, and whether it is hidden.
#[derive(Clone, Copy, Debug, PartialEq, Eq, Structural)]
pub struct LabelState {
    pub position: ScreenPoint,
    pub hidden: bool,
}

/// What one frame says of one tracked satellite: where it appears on the
/// screen, or `None` where it cannot be seen.
#[derive(Clone, Copy, Debug, PartialEq, Eq, Structural)]
pub struct Observation {
    pub satellite: u64,
    pub screen: Option<ScreenPoint>,
}

/// What is to be done to a satellite's label.
#[derive(Clone, Copy, Debug, PartialEq, Eq, Structural)]
pub enum LabelAction {
    /// Make a label at this place: the satellite had none.
    Create(ScreenPoint),
    /// Show the satellite's label at this place.
    Show(ScreenPoint),
    /// Hide the satellite's label and leave it where it stands.
    Hide,
    /// The satellite has no label and gets none.
    Nothing,
}

/// Where a satellite's label belongs: where the satellite appears on the
/// screen, if the camera sees it past the planet.
pub open spec fn placement(
    satellite: crate::geometry::Vector,
    camera: crate::geometry::Vector,
    planet_centre: crate::geometry::Vector,
    planet_radius: int,
    view_projection: ViewProjection,
    width: int,
    height: int,
) -> Option<(int, int)> {
    if visible(satellite, camera, planet_centre, planet_radius) {
        projected(view_projection, satellite, width, height)
    } else {
        None
    }
}

/// What a frame says of one satellite.
pub fn observe(
    satellite: u64,
    position: &Position,
    camera: &Position,
    planet_centre: &Position,
    planet_radius: u32,
    view_projection: &ViewProjection,
    viewport_width: u32,
    viewport_height: u32,
) -> (r: Observation)
    ensures
        r.satellite == satellite,
        r.screen is Some == placement(
            position@,
            camera@,
            planet_centre@,
            planet_radius as int,
            *view_projection,
            viewport_width as int,
            viewport_height as int,
        ) is Some,
        r.screen matches Some(p) ==> placement(
            position@,
            camera@,
            planet_centre@,
            planet_radius as int,
            *view_projection,
            viewport_width as int,
            viewport_height as int,
        ) == Some((p.x as int, p.y as int)),
{
    let screen = if is_visible(position, camera, planet_centre, planet_radius) {
        project_to_screen(position, view_projection, viewport_width, viewport_height)
    } else {
        None
    };
    Observation { satellite, screen }
}

/// The labels after one observation. A satellite that is seen has its label
/// shown at the new place, made if need be. One that is not seen has its
/// label, if it has one, hidden where it stands.
pub open spec fn labels_after_one(labels: Map<u64, LabelState>, seen: Observation) -> Map<
    u64,
    LabelState,
> {
    match seen.screen {
        Some(at) => labels.insert(seen.satellite, LabelState { position: at, hidden: false }),
        None => if labels.contains_key(seen.satellite) {
            labels.insert(
                seen.satellite,
                LabelState { position: labels[seen.satellite].position, hidden: true },
            )
        } else {
            labels
        },
    }
}

/// What one observation asks to be done, given the labels before it.
pub open spec fn action_for(labels: Map<u64, LabelState>, seen: Observation) -> LabelAction {
    match seen.screen {
        Some(at) => if labels.contains_key(seen.satellite) {
            LabelAction::Show(at)
        } else {
            LabelAction::Create(at)
        },
        None => if labels.contains_key(seen.satellite) {
            LabelAction::Hide
        } else {
            LabelAction::Nothing
        },
    }
}

/// The labels after the observations of a frame, taken in order.
pub open spec fn labels_after(labels: Map<u64, LabelState>, frame: Seq<Observation>) -> Map<
    u64,
    LabelState,
>
    decreases frame.len(),
{
    if frame.len() == 0 {
        labels
    } else {
        labels_after_one(labels_after(labels, frame.drop_last()), frame.last())
    }
}

/// The satellites that a frame speaks of.
pub open spec fn observed(frame: Seq<Observation>) -> Set<u64> {
    Set::new(|id: u64| exists|i: int| 0 <= i < frame.len() && #[trigger] frame[i].satellite == id)
}

/// The labels at the end of a frame: those after its observations, without
/// the labels of satellites that the frame does not speak of.
pub open spec fn reconciled(labels: Map<u64, LabelState>, frame: Seq<Observation>) -> Map<
    u64,
    LabelState,
> {
    labels_after(labels, frame).restrict(observed(frame))
}

/// Observations never take a satellite's label away, and leave it alone if
/// they do not speak of the satellite.
pub proof fn lemma_labels_after_keeps(
    labels: Map<u64, LabelState>,
    frame: Seq<Observation>,
    id: u64,
)
    ensures
        labels.contains_key(id) ==> labels_after(labels, frame).contains_key(id),
        !observed(frame).contains(id) ==> labels_after(labels, frame).contains_key(id)
            == labels.contains_key(id),
        !observed(frame).contains(id) && labels.contains_key(id) ==> labels_after(
            labels,
            frame,
        )[id] == labels[id],
    decreases frame.len(),
{
    if frame.len() > 0 {
        let earlier = frame.drop_last();
        lemma_labels_after_keeps(labels, earlier, id);
        if !observed(frame).contains(id) {
            if observed(earlier).contains(id) {
                let i = choose|i: int|
                    0 <= i < earlier.len() && #[trigger] earlier[i].satellite == id;
                assert(frame[i].satellite == id);
            }
            if frame.last().satellite == id {
                assert(frame[frame.len() - 1].satellite == id);
            }
        }
    }
}

/// The satellites that a frame with one more observation speaks of.
pub proof fn lemma_observed_grows(frame: Seq<Observation>, i: int)
    requires
        0 <= i < frame.len(),
    ensures
        observed(frame.take(i + 1)) == observed(frame.take(i)).insert(frame[i].satellite),
{
    let shorter = frame.take(i);
    let longer = frame.take(i + 1);
    assert forall|id: u64|
        observed(longer).contains(id) == observed(shorter).insert(frame[i].satellite).contains(
            id,
        ) by {
        if observed(longer).contains(id) {
            let k = choose|k: int| 0 <= k < longer.len() && #[trigger] longer[k].satellite == id;
            if k < i {
                assert(shorter[k].satellite == id);
            }
        }
        if observed(shorter).contains(id) {
            let k = choose|k: int| 0 <= k < shorter.len() && #[trigger] shorter[k].satellite == id;
            assert(longer[k].satellite == id);
        }
        if frame[i].satellite == id {
            assert(longer[i].satellite == id);
        }
    }
    assert(observed(longer) =~= observed(shorter).insert(frame[i].satellite));
}

/// In a frame that speaks of each satellite once, a label is made exactly for
/// the satellites that are seen and had none before the frame; no label that
/// was there is made anew.
pub proof fn lemma_create_only_when_new(
    labels: Map<u64, LabelState>,
    frame: Seq<Observation>,
    i: int,
)
    requires
        0 <= i < frame.len(),
        forall|a: int, b: int|
            0 <= a < b < frame.len() ==> (#[trigger] frame[a]).satellite != (
            #[trigger] frame[b]).satellite,
    ensures
        action_for(labels_after(labels, frame.take(i)), frame[i]) == action_for(labels, frame[i]),
{
    let id = frame[i].satellite;
    let earlier = frame.take(i);
    lemma_labels_after_keeps(labels, earlier, id);
    if observed(earlier).contains(id) {
        let k = choose|k: int| 0 <= k < earlier.len() && #[trigger] earlier[k].satellite == id;
        assert(frame[k].satellite == id);
    }
}

/// Observations that do not speak of a satellite leave its label as the
/// observations before them left it.
pub proof fn lemma_later_observations_keep(
    labels: Map<u64, LabelState>,
    frame: Seq<Observation>,
    from: int,
    id: u64,
)
    requires
        0 <= from <= frame.len(),
        forall|j: int| from <= j < frame.len() ==> (#[trigger] frame[j]).satellite != id,
    ensures
        labels_after(labels, frame).contains_key(id) == labels_after(
            labels,
            frame.take(from),
        ).contains_key(id),
        labels_after(labels, frame).contains_key(id) ==> labels_after(labels, frame)[id]
            == labels_after(labels, frame.take(from))[id],
    decreases frame.len() - from,
{
    if from == frame.len() {
        assert(frame.take(from) =~= frame);
    } else {
        let earlier = frame.drop_last();
        assert(frame[frame.len() - 1].satellite != id);
        assert forall|j: int| from <= j < earlier.len() implies (#[trigger] earlier[j]).satellite
            != id by {
            assert(earlier[j] == frame[j]);
        }
        lemma_later_observations_keep(labels, earlier, from, id);
        assert(earlier.take(from) =~= frame.take(from));
    }
}

/// In a frame that speaks of each satellite once, what becomes of a
/// satellite's label follows from the label it had before the frame and from
/// its own observation: seen, the label is shown at the new place; not seen,
/// a label that was there is hidden where it stood, and none is made.
pub proof fn lemma_reconciled_one_by_one(
    labels: Map<u64, LabelState>,
    frame: Seq<Observation>,
    i: int,
)
    requires
        0 <= i < frame.len(),
        forall|a: int, b: int|
            0 <= a < b < frame.len() ==> (#[trigger] frame[a]).satellite != (
            #[trigger] frame[b]).satellite,
    ensures
        reconciled(labels, frame).contains_key(frame[i].satellite) == labels_after_one(
            labels,
            frame[i],
        ).contains_key(frame[i].satellite),
        reconciled(labels, frame).contains_key(frame[i].satellite) ==> reconciled(
            labels,
            frame,
        )[frame[i].satellite] == labels_after_one(labels, frame[i])[frame[i].satellite],
{
    let id = frame[i].satellite;
    let before = frame.take(i);
    let upto = frame.take(i + 1);
    // the observations before it do not speak of the satellite
    lemma_labels_after_keeps(labels, before, id);
    if observed(before).contains(id) {
        let k = choose|k: int| 0 <= k < before.len() && #[trigger] before[k].satellite == id;
        assert(frame[k].satellite == id);
    }
    assert(upto.drop_last() =~= before);
    assert(upto.last() == frame[i]);
    // nor do those after it
    assert forall|j: int| i + 1 <= j < frame.len() implies (#[trigger] frame[j]).satellite
        != id by {
        assert(frame[i].satellite != frame[j].satellite);
    }
    lemma_later_observations_keep(labels, frame, i + 1, id);
    assert(observed(frame).contains(id));
}

/// A label is kept exactly for the satellites that the frame speaks of.
pub proof fn lemma_reconciled_only_observed(
    labels: Map<u64, LabelState>,
    frame: Seq<Observation>,
    id: u64,
)
    ensures
        reconciled(labels, frame).contains_key(id) ==> observed(frame).contains(id),
        !observed(frame).contains(id) ==> !reconciled(labels, frame).contains_key(id),
{
}

/// One observation more: what the labels of the satellites seen so far become.
proof fn lemma_reconcile_step(
    so_far: Map<u64, LabelState>,
    ids: Set<u64>,
    seen: Observation,
    next: Map<u64, LabelState>,
)
    requires
        next == (match seen.screen {
            Some(at) => so_far.restrict(ids).insert(
                seen.satellite,
                LabelState { position: at, hidden: false },
            ),
            None => if so_far.contains_key(seen.satellite) {
                so_far.restrict(ids).insert(
                    seen.satellite,
                    LabelState { position: so_far[seen.satellite].position, hidden: true },
                )
            } else {
                so_far.restrict(ids)
            },
        }),
    ensures
        next == labels_after_one(so_far, seen).restrict(ids.insert(seen.satellite)),
{
    assert(next =~= labels_after_one(so_far, seen).restrict(ids.insert(seen.satellite)));
}

/// The labels on the screen, by satellite.
pub struct LabelBoard {
    labels: HashMap<u64, LabelState>,
}

impl View for LabelBoard {
    type V = Map<u64, LabelState>;

    closed spec fn view(&self) -> Map<u64, LabelState> {
        self.labels@
    }
}

/// The label of a satellite in `first`, or else in `second`.
fn lookup(
    first: &HashMap<u64, LabelState>,
    second: &HashMap<u64, LabelState>,
    satellite: u64,
) -> (r: Option<LabelState>)
    ensures
        r == (if first@.contains_key(satellite) {
            Some(first@[satellite])
        } else if second@.contains_key(satellite) {
            Some(second@[satellite])
        } else {
            None
        }),
{
    match first.get(&satellite) {
        Some(state) => Some(*state),
        None => match second.get(&satellite) {
            Some(state) => Some(*state),
            None => None,
        },
    }
}

impl LabelBoard {
    /// A board without labels.
    pub fn new() -> (r: LabelBoard)
        ensures
            r@ == Map::<u64, LabelState>::empty(),
    {
        LabelBoard { labels: HashMap::new() }
    }

    /// The label of a satellite, if it has one.
    pub fn label(&self, satellite: u64) -> (r: Option<LabelState>)
        ensures
            r is Some == self@.contains_key(satellite),
            r matches Some(state) ==> state == self@[satellite],
    {
        match self.labels.get(&satellite) {
            Some(state) => Some(*state),
            None => None,
        }
    }

    /// The number of labels.
    pub fn len(&self) -> (r: usize)
        ensures
            r == self@.len(),
    {
        self.labels.len()
    }

    /// Brings the labels up to date with a frame and says, observation by
    /// observation, what is to be done on the screen. Afterwards the board
    /// holds labels only for satellites of the frame: a label whose satellite
    /// the frame does not speak of is gone.
    pub fn reconcile(&mut self, frame: &Vec<Observation>) -> (actions: Vec<LabelAction>)
        ensures
            final(self)@ == reconciled(old(self)@, frame@),
            actions@.len() == frame@.len(),
            forall|i: int|
                0 <= i < frame@.len() ==> actions@[i] == action_for(
                    labels_after(old(self)@, frame@.take(i)),
                    #[trigger] frame@[i],
                ),
    {
        let ghost before = self.labels@;
        let mut next: HashMap<u64, LabelState> = HashMap::new();
        let mut actions: Vec<LabelAction> = Vec::new();
        let mut i: usize = 0;
        proof {
            assert(frame@.take(0) =~= Seq::<Observation>::empty());
            assert(next@ =~= labels_after(before, frame@.take(0)).restrict(
                observed(frame@.take(0)),
            ));
        }
        while i < frame.len()
            invariant
                i <= frame@.len(),
                before == self.labels@,
                next@ == labels_after(before, frame@.take(i as int)).restrict(
                    observed(frame@.take(i as int)),
                ),
                actions@.len() == i,
                forall|k: int|
                    0 <= k < i ==> actions@[k] == action_for(
                        labels_after(before, frame@.take(k)),
                        #[trigger] frame@[k],
                    ),
            decreases frame@.len() - i,
        {
            let seen = frame[i];
            let ghost so_far = labels_after(before, frame@.take(i as int));
            let ghost ids = observed(frame@.take(i as int));
            let ghost next_before = next@;
            proof {
                lemma_labels_after_keeps(before, frame@.take(i as int), seen.satellite);
                lemma_observed_grows(frame@, i as int);
                assert(frame@.take(i + 1).drop_last() =~= frame@.take(i as int));
                assert(frame@.take(i + 1).last() == seen);
            }
            let current = lookup(&next, &self.labels, seen.satellite);
            let action = match (seen.screen, current) {
                (Some(at), Some(_)) => {
                    next.insert(seen.satellite, LabelState { position: at, hidden: false });
                    LabelAction::Show(at)
                },
                (Some(at), None) => {
                    next.insert(seen.satellite, LabelState { position: at, hidden: false });
                    LabelAction::Create(at)
                },
                (None, Some(state)) => {
                    next.insert(
                        seen.satellite,
                        LabelState { position: state.position, hidden: true },
                    );
                    LabelAction::Hide
                },
                (None, None) => LabelAction::Nothing,
            };
            actions.push(action);
            proof {
                lemma_reconcile_step(so_far, ids, seen, next@);
            }
            i = i + 1;
        }
        proof {
            assert(frame@.take(frame@.len() as int) =~= frame@);
        }
        self.labels = next;
        actions
    }
}

} // verus!
