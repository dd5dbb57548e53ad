//! Freight routes laid out in the logistics manager: a ship and its ordered
//! waypoints, with one route open in the editor at a time.
use crate::item::ItemType;
use crate::text::{decimal, owned, push_decimal, push_str};
use vstd::prelude::*;

verus! {

/// What a ship does at a waypoint.
#[derive(Clone, Copy, Debug, PartialEq, Eq, Structural)]
pub enum WaypointAction {
    Load,
    Unload,
    Visit,
}

impl WaypointAction {
    /// Every action, in order.
    pub fn all() -> (v: Vec<WaypointAction>)
        ensures
            v@ == seq![WaypointAction::Load, WaypointAction::Unload, WaypointAction::Visit],
    {
        let mut v = Vec::new();
        v.push(WaypointAction::Load);
        v.push(WaypointAction::Unload);
        v.push(WaypointAction::Visit);
        v
    }

    pub fn label(self) -> (s: &'static str)
        ensures
            s@ == match self {
                WaypointAction::Load => "Load"@,
                WaypointAction::Unload => "Unload"@,
                WaypointAction::Visit => "Visit"@,
            },
    {
        match self {
            WaypointAction::Load => "Load",
            WaypointAction::Unload => "Unload",
            WaypointAction::Visit => "Visit",
        }
    }
}

/// One stop of a route; locations are free text.
#[derive(Clone, Debug)]
pub struct Waypoint {
    pub system: String,
    pub body: String,
    pub station: String,
    pub action: WaypointAction,
    pub item: ItemType,
    pub quantity: u32,
}

impl Default for Waypoint {
    fn default() -> (w: Waypoint)
        ensures
            w.system@ == "Sol"@,
            w.body@ == "Mercurius"@,
            w.station@ == Seq::<char>::empty(),
            w.action == WaypointAction::Visit,
            w.item == ItemType::CopperOre,
            w.quantity == 10,
    {
        Waypoint {
            system: owned("Sol"),
            body: owned("Mercurius"),
            station: String::new(),
            action: WaypointAction::Visit,
            item: ItemType::CopperOre,
            quantity: 10,
        }
    }
}

/// A ship (by name; empty when unassigned) and its waypoints, with an on/off
/// switch.
#[derive(Clone, Debug)]
pub struct FreightRouteUi {
    pub name: String,
    pub ship: String,
    pub waypoints: Vec<Waypoint>,
    pub active: bool,
}

impl FreightRouteUi {
    pub fn new(name: &str) -> (r: FreightRouteUi)
        ensures
            r.name@ == name@,
            r.ship@ == Seq::<char>::empty(),
            r.waypoints@.len() == 0,
            !r.active,
    {
        FreightRouteUi { name: owned(name), ship: String::new(), waypoints: Vec::new(), active: false }
    }
}

/// Default name of the `n`-th route: `"Route n"`.
pub open spec fn route_name(n: nat) -> Seq<char> {
    seq!['R', 'o', 'u', 't', 'e', ' '] + decimal(n)
}

/// The logistics panel: whether it is open, the routes, and which route (by
/// position) is open in the editor.
#[derive(Debug)]
pub struct LogisticsUiState {
    pub open: bool,
    pub routes: Vec<FreightRouteUi>,
    pub editing_route: Option<usize>,
}

impl Default for LogisticsUiState {
    fn default() -> (s: LogisticsUiState)
        ensures
            !s.open,
            s.routes@.len() == 0,
            s.editing_route.is_none(),
    {
        LogisticsUiState { open: false, routes: Vec::new(), editing_route: None }
    }
}

impl LogisticsUiState {
    /// Adds an empty route named after its number and opens it in the
    /// editor; returns its position.
    pub fn new_route(&mut self) -> (idx: usize)
        requires
            old(self).routes@.len() < u64::MAX,
        ensures
            idx == old(self).routes@.len(),
            final(self).open == old(self).open,
            final(self).routes@.len() == idx + 1,
            final(self).routes@.subrange(0, idx as int) == old(self).routes@,
            final(self).routes@[idx as int].name@ == route_name((idx + 1) as nat),
            final(self).routes@[idx as int].ship@ == Seq::<char>::empty(),
            final(self).routes@[idx as int].waypoints@.len() == 0,
            !final(self).routes@[idx as int].active,
            final(self).editing_route == Some(idx),
    {
        let idx = self.routes.len();
        let mut name = String::new();
        push_str(&mut name, "Route ");
        push_decimal(&mut name, idx as u64 + 1);
        proof {
            reveal_strlit("Route ");
            assert(name@ =~= route_name((idx + 1) as nat));
        }
        self.routes.push(FreightRouteUi { name, ship: String::new(), waypoints: Vec::new(), active: false });
        proof {
            assert(self.routes@.subrange(0, idx as int) =~= old(self).routes@);
        }
        self.editing_route = Some(idx);
        idx
    }

    /// Closes the editor if its route no longer exists.
    pub fn clamp_editor(&mut self)
        ensures
            final(self).open == old(self).open,
            final(self).routes@ == old(self).routes@,
            final(self).editing_route == match old(self).editing_route {
                Some(i) => if i >= old(self).routes@.len() { None } else { Some(i) },
                None => None,
            },
    {
        if let Some(idx) = self.editing_route {
            if idx >= self.routes.len() {
                self.editing_route = None;
            }
        }
    }

    /// Deletes the route at `idx`; the editor closes if it showed that route
    /// and otherwise keeps showing the same route. Returns false, changing
    /// nothing, when there is no such route.
    pub fn delete_route(&mut self, idx: usize) -> (deleted: bool)
        ensures
            deleted == (idx < old(self).routes@.len()),
            final(self).open == old(self).open,
            !deleted ==> final(self).routes@ == old(self).routes@ && final(self).editing_route
                == old(self).editing_route,
            deleted ==> final(self).routes@ == old(self).routes@.remove(idx as int),
            deleted ==> final(self).editing_route == match old(self).editing_route {
                Some(e) => if e == idx {
                    None
                } else if e > idx {
                    Some((e - 1) as usize)
                } else {
                    Some(e)
                },
                None => None,
            },
    {
        if idx >= self.routes.len() {
            return false;
        }
        self.routes.remove(idx);
        match self.editing_route {
            Some(e) => {
                if e == idx {
                    self.editing_route = None;
                } else if e > idx {
                    self.editing_route = Some(e - 1);
                }
            },
            None => {},
        }
        true
    }
}

impl LogisticsUiState {
    /// Opens route `idx` in the editor (a position past the end is closed
    /// again by `clamp_editor`).
    pub fn open_editor(&mut self, idx: usize)
        ensures
            final(self).open == old(self).open,
            final(self).routes@ == old(self).routes@,
            final(self).editing_route == Some(idx),
    {
        self.editing_route = Some(idx);
    }

    /// Closes the route editor.
    pub fn close_editor(&mut self)
        ensures
            final(self).open == old(self).open,
            final(self).routes@ == old(self).routes@,
            final(self).editing_route is None,
    {
        self.editing_route = None;
    }

    /// Switches route `idx` between active and paused; returns false,
    /// changing nothing, when there is no such route.
    pub fn toggle_active(&mut self, idx: usize) -> (toggled: bool)
        ensures
            toggled == (idx < old(self).routes@.len()),
            final(self).open == old(self).open,
            final(self).editing_route == old(self).editing_route,
            final(self).routes@.len() == old(self).routes@.len(),
            forall|k: int| 0 <= k < old(self).routes@.len() && k != idx ==> #[trigger] final(self).routes@[k]
                == old(self).routes@[k],
            toggled ==> {
                let (a, b) = (final(self).routes@[idx as int], old(self).routes@[idx as int]);
                &&& a.active == !b.active
                &&& a.name@ == b.name@
                &&& a.ship@ == b.ship@
                &&& a.waypoints@ == b.waypoints@
            },
    {
        if idx >= self.routes.len() {
            return false;
        }
        let mut route = self.routes.remove(idx);
        route.active = !route.active;
        self.routes.insert(idx, route);
        proof {
            assert forall|k: int| 0 <= k < old(self).routes@.len() && k != idx implies #[trigger] self.routes@[k]
                == old(self).routes@[k] by {
                if k > idx {
                    assert(self.routes@[k] == old(self).routes@.remove(idx as int)[k - 1]);
                }
            }
        }
        true
    }

    /// Closes the panel, and with it the route editor.
    pub fn close_panel(&mut self)
        ensures
            !final(self).open,
            final(self).routes@ == old(self).routes@,
            final(self).editing_route is None,
    {
        self.open = false;
        self.editing_route = None;
    }
}

impl Waypoint {
    /// Sets the quantity from its entry field, clamped to `0..=10_000`.
    pub fn enter_quantity(&mut self, quantity: i64)
        ensures
            final(self).quantity == if quantity < 0 {
                0
            } else if quantity > 10_000 {
                10_000
            } else {
                quantity as int
            },
            final(self).system@ == old(self).system@,
            final(self).body@ == old(self).body@,
            final(self).station@ == old(self).station@,
            final(self).action == old(self).action,
            final(self).item == old(self).item,
    {
        let q: u32 = if quantity < 0 { 0 } else if quantity > 10_000 { 10_000 } else { quantity as u32 };
        self.quantity = q;
    }
}

impl FreightRouteUi {
    /// Appends a default waypoint (visit Mercurius in Sol, 10 copper ore).
    pub fn add_waypoint(&mut self)
        ensures
            final(self).waypoints@.len() == old(self).waypoints@.len() + 1,
            final(self).waypoints@.drop_last() == old(self).waypoints@,
            ({
                let w = final(self).waypoints@.last();
                &&& w.system@ == "Sol"@
                &&& w.body@ == "Mercurius"@
                &&& w.station@ == Seq::<char>::empty()
                &&& w.action == WaypointAction::Visit
                &&& w.item == ItemType::CopperOre
                &&& w.quantity == 10
            }),
            final(self).name@ == old(self).name@,
            final(self).ship@ == old(self).ship@,
            final(self).active == old(self).active,
    {
        self.waypoints.push(Waypoint::default());
        proof {
            assert(self.waypoints@.drop_last() =~= old(self).waypoints@);
        }
    }

    /// Removes waypoint `wi`.
    pub fn remove_waypoint(&mut self, wi: usize)
        requires
            wi < old(self).waypoints@.len(),
        ensures
            final(self).waypoints@ == old(self).waypoints@.remove(wi as int),
            final(self).name@ == old(self).name@,
            final(self).ship@ == old(self).ship@,
            final(self).active == old(self).active,
    {
        self.waypoints.remove(wi);
    }

    /// Moves waypoint `wi` one place earlier, swapping it with its
    /// predecessor.
    pub fn move_waypoint_up(&mut self, wi: usize)
        requires
            0 < wi < old(self).waypoints@.len(),
        ensures
            final(self).waypoints@ == old(self).waypoints@.update(wi as int, old(self).waypoints@[wi - 1]).update(
                wi - 1,
                old(self).waypoints@[wi as int],
            ),
            final(self).name@ == old(self).name@,
            final(self).ship@ == old(self).ship@,
            final(self).active == old(self).active,
    {
        let w = self.waypoints.remove(wi);
        self.waypoints.insert(wi - 1, w);
        proof {
            let o = old(self).waypoints@;
            assert(self.waypoints@ =~= o.update(wi as int, o[wi - 1]).update(wi - 1, o[wi as int]));
        }
    }

    /// Moves waypoint `wi` one place later, swapping it with its successor.
    pub fn move_waypoint_down(&mut self, wi: usize)
        requires
            wi + 1 < old(self).waypoints@.len(),
        ensures
            final(self).waypoints@ == old(self).waypoints@.update(wi as int, old(self).waypoints@[wi + 1]).update(
                wi + 1,
                old(self).waypoints@[wi as int],
            ),
            final(self).name@ == old(self).name@,
            final(self).ship@ == old(self).ship@,
            final(self).active == old(self).active,
    {
        let n = self.waypoints.len();
        assert(wi + 1 < n);
        let next = wi + 1;
        let w = self.waypoints.remove(wi);
        self.waypoints.insert(next, w);
        proof {
            let o = old(self).waypoints@;
            assert(self.waypoints@ =~= o.update(wi as int, o[wi + 1]).update(wi + 1, o[wi as int]));
        }
    }
}

/// Moving a waypoint down and then back up restores the route.
pub proof fn lemma_move_down_up_restores(w: Seq<Waypoint>, wi: int)
    requires
        0 <= wi,
        wi + 1 < w.len(),
    ensures
        ({
            let down = w.update(wi, w[wi + 1]).update(wi + 1, w[wi]);
            down.update(wi + 1, down[wi]).update(wi, down[wi + 1]) == w
        }),
{
    let down = w.update(wi, w[wi + 1]).update(wi + 1, w[wi]);
    assert(down.update(wi + 1, down[wi]).update(wi, down[wi + 1]) =~= w);
}

/// Deleting another route leaves the editor on the route it showed.
pub proof fn lemma_delete_keeps_edited_route(routes: Seq<FreightRouteUi>, idx: int, e: int)
    requires
        0 <= idx < routes.len(),
        0 <= e < routes.len(),
        e != idx,
    ensures
        ({
            let e2 = if e > idx { e - 1 } else { e };
            routes.remove(idx)[e2] == routes[e]
        }),
{
}

} // verus!
