//! Client-side state that the interface shows: the view mode, the player's
//! fleet roster, and the chat log fed by server messages.
use crate::building::{building_name, BuildingType};
use crate::item::item_name;
use crate::messages::{ClientMessage, ServerMessage};
use crate::mining::ResourceNode;
use crate::text::{decimal, owned, push_decimal, push_str, push_string, trim, trimmed};
use vstd::prelude::*;

verus! {

/// Which view the client shows.
#[derive(Clone, Copy, Debug, PartialEq, Eq, Structural)]
pub enum ViewMode {
    Surface,
    System,
    Galaxy,
}

impl Default for ViewMode {
    fn default() -> (m: ViewMode)
        ensures
            m == ViewMode::Surface,
    {
        ViewMode::Surface
    }
}

impl ViewMode {
    /// The next view: surface, system, galaxy, then surface again.
    pub fn toggle(self) -> (m: ViewMode)
        ensures
            m == match self {
                ViewMode::Surface => ViewMode::System,
                ViewMode::System => ViewMode::Galaxy,
                ViewMode::Galaxy => ViewMode::Surface,
            },
    {
        match self {
            ViewMode::Surface => ViewMode::System,
            ViewMode::System => ViewMode::Galaxy,
            ViewMode::Galaxy => ViewMode::Surface,
        }
    }
}

/// Toggling three times comes back to the same view, and no fewer toggles
/// do.
pub proof fn lemma_toggle_cycle(m: ViewMode)
    ensures
        ({
            let t = |v: ViewMode| match v {
                ViewMode::Surface => ViewMode::System,
                ViewMode::System => ViewMode::Galaxy,
                ViewMode::Galaxy => ViewMode::Surface,
            };
            &&& t(t(t(m))) == m
            &&& t(m) != m
            &&& t(t(m)) != m
        }),
{
}

/// The fleet roster shown in the fleet-command panel: ship names, each at
/// most once, in the order they joined.
#[derive(Clone, Debug)]
pub struct FleetUi {
    pub id: u32,
    pub name: String,
    pub members: Vec<String>,
    pub engaged_target: Option<String>,
}

impl Default for FleetUi {
    fn default() -> (f: FleetUi)
        ensures
            f.id == 0,
            f.name@ == Seq::<char>::empty(),
            f.members@.len() == 0,
            f.engaged_target.is_none(),
    {
        FleetUi { id: 0, name: String::new(), members: Vec::new(), engaged_target: None }
    }
}

/// The names of a list of ships.
pub open spec fn names(s: Seq<String>) -> Seq<Seq<char>> {
    s.map_values(|n: String| n@)
}

/// The ship names other than `name`, in order.
pub open spec fn names_without(s: Seq<Seq<char>>, name: Seq<char>) -> Seq<Seq<char>>
    decreases s.len(),
{
    if s.len() == 0 {
        s
    } else {
        let rest = names_without(s.drop_last(), name);
        if s.last() == name {
            rest
        } else {
            rest.push(s.last())
        }
    }
}

impl FleetUi {
    /// Adds a ship unless one of that name is already a member; returns
    /// whether it was added.
    pub fn add_ship(&mut self, name: &str) -> (added: bool)
        ensures
            added == !names(old(self).members@).contains(name@),
            names(final(self).members@) == if added {
                names(old(self).members@).push(name@)
            } else {
                names(old(self).members@)
            },
            final(self).id == old(self).id,
            final(self).name == old(self).name,
            final(self).engaged_target == old(self).engaged_target,
    {
        let candidate = owned(name);
        let mut i: usize = 0;
        while i < self.members.len()
            invariant
                i <= self.members@.len(),
                self.members@ == old(self).members@,
                forall|k: int| 0 <= k < i ==> self.members@[k]@ != name@,
                candidate@ == name@,
                self.id == old(self).id,
                self.name == old(self).name,
                self.engaged_target == old(self).engaged_target,
            decreases self.members@.len() - i,
        {
            if self.members[i] == candidate {
                proof {
                    assert(names(self.members@)[i as int] == name@);
                    assert(names(self.members@).contains(name@));
                }
                return false;
            }
            i = i + 1;
        }
        proof {
            if names(self.members@).contains(name@) {
                let k = choose|k: int| 0 <= k < names(self.members@).len() && names(self.members@)[k] == name@;
                assert(self.members@[k]@ == name@);
            }
        }
        let ghost before = self.members@;
        self.members.push(candidate);
        proof {
            assert(names(self.members@) =~= names(before).push(candidate@));
        }
        true
    }

    /// Removes every ship of that name; returns whether there was one.
    pub fn remove_ship(&mut self, name: &str) -> (removed: bool)
        ensures
            removed == names(old(self).members@).contains(name@),
            names(final(self).members@) == names_without(names(old(self).members@), name@),
            final(self).id == old(self).id,
            final(self).name == old(self).name,
            final(self).engaged_target == old(self).engaged_target,
    {
        let target = owned(name);
        let mut kept: Vec<String> = Vec::new();
        let mut found = false;
        let mut i: usize = 0;
        while i < self.members.len()
            invariant
                i <= self.members@.len(),
                self.members@ == old(self).members@,
                target@ == name@,
                names(kept@) == names_without(names(self.members@).take(i as int), name@),
                found == names(self.members@).take(i as int).contains(name@),
            decreases self.members@.len() - i,
        {
            let ghost all = names(self.members@);
            let ghost prefix = all.take(i as int);
            let ghost next = all.take(i + 1);
            proof {
                assert(next.drop_last() =~= prefix);
                assert(next[i as int] == self.members@[i as int]@);
                assert(next.contains(name@) <==> (prefix.contains(name@) || next[i as int] == name@)) by {
                    if next.contains(name@) {
                        let k = choose|k: int| 0 <= k < next.len() && #[trigger] next[k] == name@;
                        if k < i {
                            assert(prefix[k] == name@);
                        }
                    }
                    if prefix.contains(name@) {
                        let k = choose|k: int| 0 <= k < prefix.len() && #[trigger] prefix[k] == name@;
                        assert(next[k] == name@);
                    }
                }
            }
            if self.members[i] == target {
                found = true;
            } else {
                let ghost k0 = kept@;
                kept.push(self.members[i].clone());
                proof {
                    assert(names(kept@) =~= names(k0).push(self.members@[i as int]@));
                }
            }
            i = i + 1;
        }
        proof {
            assert(names(self.members@).take(self.members@.len() as int) =~= names(self.members@));
        }
        self.members = kept;
        found
    }

    /// Number of ships in the fleet.
    pub fn member_count(&self) -> (n: usize)
        ensures
            n == self.members@.len(),
    {
        self.members.len()
    }
}

/// How prominently a notification is shown.
#[derive(Clone, Copy, Debug, PartialEq, Eq, Structural)]
pub enum NotificationKind {
    Info,
    Warning,
    Alert,
}

/// A notification to show: its text and kind.
#[derive(Clone, Debug)]
pub struct Notice {
    pub text: String,
    pub kind: NotificationKind,
}

/// The orders of the fleet command panel.
#[derive(Clone, Copy, Debug, PartialEq, Eq, Structural)]
pub enum FleetOrder {
    Assemble,
    Engage,
    Disengage,
    Warp,
}

/// The text announcing an order to fleet `fleet` whose engaged target (if
/// any) is `target`.
pub open spec fn order_text(order: FleetOrder, fleet: Seq<char>, target: Option<Seq<char>>) -> Seq<char> {
    match order {
        FleetOrder::Assemble => fleet + ": Assemble!"@,
        FleetOrder::Engage => fleet + ": Engage "@ + match target {
            Some(t) => t,
            None => "primary"@,
        },
        FleetOrder::Disengage => fleet + ": Disengage"@,
        FleetOrder::Warp => "Warp initiated"@,
    }
}

/// The kind of notification an order raises: engaging warns, the rest
/// inform.
pub open spec fn order_kind(order: FleetOrder) -> NotificationKind {
    if order == FleetOrder::Engage {
        NotificationKind::Warning
    } else {
        NotificationKind::Info
    }
}

/// The name of an optional target.
pub open spec fn target_name(t: Option<String>) -> Option<Seq<char>> {
    match t {
        Some(s) => Some(s@),
        None => None,
    }
}

/// (name, whether hostile) of each ship, by name only.
pub open spec fn ship_names(ships: Seq<(String, bool)>) -> Seq<(Seq<char>, bool)> {
    ships.map_values(|s: (String, bool)| (s.0@, s.1))
}

/// The names, in order, of the friendly ships not yet in a fleet whose
/// members are `members`.
pub open spec fn candidates(ships: Seq<(Seq<char>, bool)>, members: Seq<Seq<char>>) -> Seq<Seq<char>>
    decreases ships.len(),
{
    if ships.len() == 0 {
        Seq::empty()
    } else {
        let prev = candidates(ships.drop_last(), members);
        let s = ships.last();
        if !s.1 && !members.contains(s.0) {
            prev.push(s.0)
        } else {
            prev
        }
    }
}

impl FleetUi {
    /// Whether a ship of this name is a member.
    pub fn has_member(&self, name: &String) -> (r: bool)
        ensures
            r == names(self.members@).contains(name@),
    {
        let mut i: usize = 0;
        while i < self.members.len()
            invariant
                i <= self.members@.len(),
                forall|k: int| 0 <= k < i ==> self.members@[k]@ != name@,
            decreases self.members@.len() - i,
        {
            if self.members[i] == *name {
                proof {
                    assert(names(self.members@)[i as int] == name@);
                }
                return true;
            }
            i = i + 1;
        }
        proof {
            if names(self.members@).contains(name@) {
                let k = choose|k: int| 0 <= k < names(self.members@).len() && names(self.members@)[k] == name@;
                assert(self.members@[k]@ == name@);
            }
        }
        false
    }

    /// Carries out a fleet command order and returns the notification it
    /// raises; disengaging also drops the engaged target.
    pub fn order(&mut self, order: FleetOrder) -> (n: Notice)
        ensures
            n.text@ == order_text(order, old(self).name@, target_name(old(self).engaged_target)),
            n.kind == order_kind(order),
            final(self).id == old(self).id,
            final(self).name == old(self).name,
            final(self).members@ == old(self).members@,
            final(self).engaged_target == if order == FleetOrder::Disengage {
                None
            } else {
                old(self).engaged_target
            },
    {
        let mut text = String::new();
        match order {
            FleetOrder::Assemble => {
                push_string(&mut text, &self.name);
                push_str(&mut text, ": Assemble!");
                Notice { text, kind: NotificationKind::Info }
            },
            FleetOrder::Engage => {
                push_string(&mut text, &self.name);
                push_str(&mut text, ": Engage ");
                match &self.engaged_target {
                    Some(t) => push_string(&mut text, t),
                    None => push_str(&mut text, "primary"),
                }
                Notice { text, kind: NotificationKind::Warning }
            },
            FleetOrder::Disengage => {
                self.engaged_target = None;
                push_string(&mut text, &self.name);
                push_str(&mut text, ": Disengage");
                Notice { text, kind: NotificationKind::Info }
            },
            FleetOrder::Warp => {
                push_str(&mut text, "Warp initiated");
                Notice { text, kind: NotificationKind::Info }
            },
        }
    }

    /// The ships that could still join: friendly ones (`false` = not
    /// hostile) that are not members yet, in the order given.
    pub fn join_candidates(&self, ships: &[(String, bool)]) -> (v: Vec<String>)
        ensures
            names(v@) == candidates(ship_names(ships@), names(self.members@)),
    {
        let mut v: Vec<String> = Vec::new();
        let mut j: usize = 0;
        while j < ships.len()
            invariant
                j <= ships@.len(),
                names(v@) == candidates(ship_names(ships@.take(j as int)), names(self.members@)),
            decreases ships@.len() - j,
        {
            proof {
                assert(ship_names(ships@.take(j + 1)).drop_last() =~= ship_names(ships@.take(j as int)));
            }
            let (name, hostile) = (&ships[j].0, ships[j].1);
            if !hostile && !self.has_member(name) {
                let ghost before = v@;
                v.push(name.clone());
                proof {
                    assert(names(v@) =~= names(before).push(name@));
                }
            }
            j = j + 1;
        }
        proof {
            assert(ships@.take(ships@.len() as int) =~= ships@);
        }
        v
    }
}

/// The notice for a newly placed building: `"Building placed: <kind>"`.
pub fn building_placed_notice(building_type: BuildingType) -> (n: Notice)
    ensures
        n.text@ == "Building placed: "@ + building_name(building_type),
        n.kind == NotificationKind::Info,
{
    let mut text = String::new();
    push_str(&mut text, "Building placed: ");
    push_str(&mut text, building_type.name());
    Notice { text, kind: NotificationKind::Info }
}

/// The alert for a resource node that has run out, or `None` while it still
/// has ore: `"Resource depleted! (<item> node exhausted)"`.
pub fn resource_depleted_notice(node: &ResourceNode) -> (n: Option<Notice>)
    ensures
        node.remaining > 0 ==> n is None,
        node.remaining == 0 ==> (n matches Some(x) && x.text@ == "Resource depleted! ("@ + item_name(node.resource)
            + " node exhausted)"@ && x.kind == NotificationKind::Alert),
{
    if !node.is_depleted() {
        return None;
    }
    let mut text = String::new();
    push_str(&mut text, "Resource depleted! (");
    push_str(&mut text, node.resource.name());
    push_str(&mut text, " node exhausted)");
    Some(Notice { text, kind: NotificationKind::Alert })
}

/// Sends the chat draft. The draft is trimmed of white space at both ends;
/// if nothing is left, nothing happens. Otherwise the draft is cleared and,
/// when connected, the trimmed text goes out as a chat message.
pub fn chat_send(draft: &mut String, connected: bool) -> (out: Option<ClientMessage>)
    ensures
        trimmed(old(draft)@).len() == 0 ==> out is None && final(draft)@ == old(draft)@,
        trimmed(old(draft)@).len() > 0 ==> final(draft)@ == Seq::<char>::empty(),
        trimmed(old(draft)@).len() > 0 && connected ==> (out matches Some(ClientMessage::Chat { text })
            && text@ == trimmed(old(draft)@)),
        !connected ==> out is None,
{
    let text = trim(draft.as_str());
    if text.as_str().is_empty() {
        return None;
    }
    *draft = String::new();
    if connected {
        Some(ClientMessage::Chat { text })
    } else {
        None
    }
}

/// Most chat lines kept; older ones are dropped first.
pub const CHAT_HISTORY_MAX: usize = 64;

/// One chat line.
#[derive(Clone, Debug)]
pub struct ChatEntry {
    pub from: String,
    pub text: String,
}

/// The recent chat lines, oldest first.
#[derive(Debug)]
pub struct ChatMessages {
    pub entries: Vec<ChatEntry>,
}

impl Default for ChatMessages {
    fn default() -> (c: ChatMessages)
        ensures
            c.entries@.len() == 0,
    {
        ChatMessages { entries: Vec::new() }
    }
}

/// The last `n` elements of a sequence (all of it when shorter).
pub open spec fn last_n<A>(s: Seq<A>, n: nat) -> Seq<A> {
    if s.len() > n {
        s.subrange(s.len() - n, s.len() as int)
    } else {
        s
    }
}

/// (sender, text) of each chat line.
pub open spec fn chat_lines(s: Seq<ChatEntry>) -> Seq<(Seq<char>, Seq<char>)> {
    s.map_values(|e: ChatEntry| (e.from@, e.text@))
}

impl ChatMessages {
    /// Appends a line, then keeps only the newest `CHAT_HISTORY_MAX`.
    pub fn push(&mut self, from: String, text: String)
        ensures
            chat_lines(final(self).entries@) == last_n(
                chat_lines(old(self).entries@).push((from@, text@)),
                CHAT_HISTORY_MAX as nat,
            ),
    {
        let ghost f = from@;
        let ghost t = text@;
        self.entries.push(ChatEntry { from, text });
        let ghost pushed = self.entries@;
        proof {
            assert(chat_lines(pushed) =~= chat_lines(old(self).entries@).push((f, t)));
        }
        if self.entries.len() > CHAT_HISTORY_MAX {
            let drop_n = self.entries.len() - CHAT_HISTORY_MAX;
            let tail = self.entries.split_off(drop_n);
            self.entries = tail;
            proof {
                assert(chat_lines(self.entries@) =~= chat_lines(pushed).subrange(
                    drop_n as int,
                    pushed.len() as int,
                ));
            }
        }
    }
}

/// `"welcome! you are player <id>"`.
pub open spec fn welcome_line(player_id: u64) -> Seq<char> {
    "welcome! you are player "@ + decimal(player_id as nat)
}

/// What the client does with a message from the server: a welcome records
/// the player's id and greets in the chat; chat lines and errors go to the
/// chat; updates and pongs change nothing shown.
pub fn handle_server_message(player_id: &mut Option<u64>, chat: &mut ChatMessages, msg: ServerMessage)
    ensures
        match msg {
            ServerMessage::Welcome { player_id: id, .. } => {
                &&& *final(player_id) == Some(id)
                &&& chat_lines(final(chat).entries@) == last_n(
                    chat_lines(old(chat).entries@).push(("system"@, welcome_line(id))),
                    CHAT_HISTORY_MAX as nat,
                )
            },
            ServerMessage::Chat { from, text } => {
                &&& *final(player_id) == *old(player_id)
                &&& chat_lines(final(chat).entries@) == last_n(
                    chat_lines(old(chat).entries@).push((from@, text@)),
                    CHAT_HISTORY_MAX as nat,
                )
            },
            ServerMessage::Error { reason } => {
                &&& *final(player_id) == *old(player_id)
                &&& chat_lines(final(chat).entries@) == last_n(
                    chat_lines(old(chat).entries@).push(("server"@, "error: "@ + reason@)),
                    CHAT_HISTORY_MAX as nat,
                )
            },
            _ => *final(player_id) == *old(player_id) && chat_lines(final(chat).entries@) == chat_lines(
                old(chat).entries@,
            ),
        },
{
    match msg {
        ServerMessage::Welcome { player_id: id, .. } => {
            *player_id = Some(id);
            let mut line = String::new();
            push_str(&mut line, "welcome! you are player ");
            push_decimal(&mut line, id);
            chat.push(owned("system"), line);
        },
        ServerMessage::Chat { from, text } => {
            chat.push(from, text);
        },
        ServerMessage::Error { reason } => {
            let mut line = String::new();
            push_str(&mut line, "error: ");
            push_string(&mut line, &reason);
            chat.push(owned("server"), line);
        },
        _ => {},
    }
}

} // verus!
