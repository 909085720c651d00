//! What the app-lifetime platform services decide: which clipboard level a pasteboard read must
//! satisfy, which live sessions hear about a local copy (every syncing session after a real
//! change; otherwise only those not seeded yet), and which commands a reconnect trigger sends.
//! Polling the pasteboard, the timer and sending the commands stay with the caller.
use vstd::prelude::*;

use crate::text::views;

verus! {

broadcast use vstd::string::group_string_axioms;

/// A profile's clipboard preference.
#[derive(Debug, Clone, Copy, PartialEq, Eq, Hash, Structural)]
pub enum ClipboardPrefs {
    /// No clipboard sharing.
    Off,
    /// Text only.
    Text,
    /// Text and images.
    TextAndImages,
}

/// How permissive a clipboard level is.
pub open spec fn rank_of(level: ClipboardPrefs) -> nat {
    match level {
        ClipboardPrefs::Off => 0,
        ClipboardPrefs::Text => 1,
        ClipboardPrefs::TextAndImages => 2,
    }
}

/// How permissive a clipboard level is.
pub fn rank(level: ClipboardPrefs) -> (r: u8)
    ensures
        r == rank_of(level),
{
    match level {
        ClipboardPrefs::Off => 0,
        ClipboardPrefs::Text => 1,
        ClipboardPrefs::TextAndImages => 2,
    }
}

/// The most permissive of `levels` (a later one wins a tie), `Off` when there are none.
pub open spec fn most_permissive_of(levels: Seq<ClipboardPrefs>) -> ClipboardPrefs
    decreases levels.len(),
{
    if levels.len() == 0 {
        ClipboardPrefs::Off
    } else {
        let m = most_permissive_of(levels.drop_last());
        if rank_of(levels.last()) >= rank_of(m) {
            levels.last()
        } else {
            m
        }
    }
}

/// The level a single pasteboard read must satisfy for every live session: the most permissive
/// preference among them, so images are read only when at least one session wants them.
pub fn most_permissive(levels: &[ClipboardPrefs]) -> (r: ClipboardPrefs)
    ensures
        r == most_permissive_of(levels@),
{
    let mut best = ClipboardPrefs::Off;
    let mut i: usize = 0;
    while i < levels.len()
        invariant
            i <= levels@.len(),
            best == most_permissive_of(levels@.subrange(0, i as int)),
        decreases levels@.len() - i,
    {
        proof {
            assert(levels@.subrange(0, i + 1).drop_last() =~= levels@.subrange(0, i as int));
        }
        if rank(levels[i]) >= rank(best) {
            best = levels[i];
        }
        i = i + 1;
    }
    proof {
        assert(levels@.subrange(0, levels@.len() as int) =~= levels@);
    }
    best
}

/// No level of `levels` is more permissive than the one a read is made at, and that level is
/// one of them (`Off` when there are none).
pub proof fn lemma_most_permissive(levels: Seq<ClipboardPrefs>)
    ensures
        forall|i: int| 0 <= i < levels.len() ==> rank_of(#[trigger] levels[i]) <= rank_of(
            most_permissive_of(levels),
        ),
        levels.len() == 0 ==> most_permissive_of(levels) == ClipboardPrefs::Off,
        levels.len() > 0 ==> levels.contains(most_permissive_of(levels)),
    decreases levels.len(),
{
    if levels.len() > 0 {
        let rest = levels.drop_last();
        lemma_most_permissive(rest);
        assert forall|i: int| 0 <= i < levels.len() implies rank_of(#[trigger] levels[i])
            <= rank_of(most_permissive_of(levels)) by {
            if i < levels.len() - 1 {
                assert(levels[i] == rest[i]);
            }
        }
        if rank_of(levels.last()) < rank_of(most_permissive_of(rest)) {
            let j = choose|j: int| 0 <= j < rest.len() && rest[j] == most_permissive_of(rest);
            assert(levels[j] == rest[j]);
        } else {
            assert(levels[levels.len() - 1] == levels.last());
        }
    }
}

/// One live session, as the platform services see it.
#[derive(Debug, Clone, PartialEq, Eq)]
pub struct LiveSession {
    /// The session window's label.
    pub window: String,
    /// That session's profile clipboard preference.
    pub clipboard: ClipboardPrefs,
    /// The session is waiting out a reconnect backoff that a trigger may cut short.
    pub reconnecting: bool,
    /// Identifies the actor, not the window: reconnecting a window gives a new generation, so
    /// the clipboard pump knows the replacement has to be seeded again.
    pub generation: u64,
}

impl LiveSession {
    /// A session that is not reconnecting, in generation 0.
    pub fn new(window: &str, clipboard: ClipboardPrefs) -> (r: Self)
        ensures
            r.window@ == window@,
            r.clipboard == clipboard,
            !r.reconnecting,
            r.generation == 0,
    {
        LiveSession { window: String::from_str(window), clipboard, reconnecting: false, generation: 0 }
    }

    /// Sets [`Self::reconnecting`].
    pub fn reconnecting(self, reconnecting: bool) -> (r: Self)
        ensures
            r == (LiveSession { reconnecting, ..self }),
    {
        LiveSession { reconnecting, ..self }
    }

    /// Sets [`Self::generation`].
    pub fn generation(self, generation: u64) -> (r: Self)
        ensures
            r == (LiveSession { generation, ..self }),
    {
        LiveSession { generation, ..self }
    }
}

/// The key the clipboard pump remembers a seeded session by: its window and generation.
pub open spec fn key_of(s: LiveSession) -> (Seq<char>, u64) {
    (s.window@, s.generation)
}

/// The keys of the sessions in `live`.
pub open spec fn keys_of(live: Seq<LiveSession>) -> Set<(Seq<char>, u64)> {
    Set::new(|k: (Seq<char>, u64)| exists|i: int| 0 <= i < live.len() && key_of(live[i]) == k)
}

/// The windows of the sessions in `live` whose clipboard is not `Off`, in order.
pub open spec fn syncing_windows(live: Seq<LiveSession>) -> Seq<Seq<char>>
    decreases live.len(),
{
    if live.len() == 0 {
        Seq::empty()
    } else if live.last().clipboard != ClipboardPrefs::Off {
        syncing_windows(live.drop_last()).push(live.last().window@)
    } else {
        syncing_windows(live.drop_last())
    }
}

/// The windows of the syncing sessions in `live` whose key is not in `seeded`, in order.
pub open spec fn fresh_windows(live: Seq<LiveSession>, seeded: Set<(Seq<char>, u64)>) -> Seq<
    Seq<char>,
>
    decreases live.len(),
{
    if live.len() == 0 {
        Seq::empty()
    } else if live.last().clipboard != ClipboardPrefs::Off && !seeded.contains(
        key_of(live.last()),
    ) {
        fresh_windows(live.drop_last(), seeded).push(live.last().window@)
    } else {
        fresh_windows(live.drop_last(), seeded)
    }
}

/// What the clipboard pump remembers between ticks: which sessions already know the current
/// pasteboard.
pub struct ClipboardPump {
    seeded: Vec<(String, u64)>,
}

impl ClipboardPump {
    /// The sessions (by key) that already know the current pasteboard.
    pub closed spec fn seeded(&self) -> Set<(Seq<char>, u64)> {
        Set::new(
            |k: (Seq<char>, u64)|
                exists|i: int|
                    0 <= i < self.seeded@.len() && (self.seeded@[i].0@, self.seeded@[i].1) == k,
        )
    }

    /// A pump that has told nobody yet: the pasteboard's state at start-up is not a change, and
    /// the sessions that open afterwards are seeded with it.
    pub fn new() -> (r: Self)
        ensures
            r.seeded() == Set::<(Seq<char>, u64)>::empty(),
    {
        let r = ClipboardPump { seeded: Vec::new() };
        assert(r.seeded() =~= Set::<(Seq<char>, u64)>::empty());
        r
    }

    /// Remembers exactly the sessions of `live`: sessions that ended, and actors that were
    /// replaced, are forgotten.
    fn remember(&mut self, live: &[LiveSession])
        ensures
            final(self).seeded() == keys_of(live@),
    {
        let mut keys: Vec<(String, u64)> = Vec::new();
        let mut i: usize = 0;
        while i < live.len()
            invariant
                i <= live@.len(),
                keys@.len() == i,
                forall|j: int| 0 <= j < i ==> (#[trigger] keys@[j]).0@ == live@[j].window@ && keys@[j].1
                    == live@[j].generation,
            decreases live@.len() - i,
        {
            keys.push((live[i].window.clone(), live[i].generation));
            i = i + 1;
        }
        self.seeded = keys;
        assert forall|k: (Seq<char>, u64)| self.seeded().contains(k) <==> keys_of(live@).contains(
            k,
        ) by {
            if self.seeded().contains(k) {
                let j = choose|j: int|
                    0 <= j < self.seeded@.len() && (self.seeded@[j].0@, self.seeded@[j].1) == k;
                assert(key_of(live@[j]) == k);
            }
            if keys_of(live@).contains(k) {
                let j = choose|j: int| 0 <= j < live@.len() && key_of(live@[j]) == k;
                assert((self.seeded@[j].0@, self.seeded@[j].1) == k);
            }
        }
        assert(self.seeded() =~= keys_of(live@));
    }

    /// Whether the session with `window` and `generation` already knows the pasteboard.
    fn knows(&self, window: &String, generation: u64) -> (r: bool)
        ensures
            r == self.seeded().contains((window@, generation)),
    {
        let mut i: usize = 0;
        while i < self.seeded.len()
            invariant
                i <= self.seeded@.len(),
                forall|j: int|
                    0 <= j < i ==> (#[trigger] self.seeded@[j].0@, self.seeded@[j].1) != (
                        window@,
                        generation,
                    ),
            decreases self.seeded@.len() - i,
        {
            if self.seeded[i].1 == generation && self.seeded[i].0 == *window {
                assert((self.seeded@[i as int].0@, self.seeded@[i as int].1) == (window@, generation));
                return true;
            }
            i = i + 1;
        }
        false
    }

    /// A real local change was read: every syncing session of `live` is told (the windows
    /// returned, in order), so nobody needs seeding afterwards.
    pub fn changed(&mut self, live: &[LiveSession]) -> (r: Vec<String>)
        ensures
            views(r@) == syncing_windows(live@),
            final(self).seeded() == keys_of(live@),
    {
        let mut out: Vec<String> = Vec::new();
        let mut i: usize = 0;
        while i < live.len()
            invariant
                i <= live@.len(),
                views(out@) == syncing_windows(live@.subrange(0, i as int)),
            decreases live@.len() - i,
        {
            let ghost pre = live@.subrange(0, i as int);
            proof {
                assert(live@.subrange(0, i + 1).drop_last() =~= pre);
            }
            if live[i].clipboard != ClipboardPrefs::Off {
                let w = live[i].window.clone();
                let ghost before = out@;
                out.push(w);
                proof {
                    assert(views(out@) =~= views(before).push(w@));
                }
            }
            i = i + 1;
        }
        proof {
            assert(live@.subrange(0, live@.len() as int) =~= live@);
        }
        self.remember(live);
        out
    }

    /// No change this tick: the syncing sessions of `live` that do not know the pasteboard yet
    /// (the windows returned, in order), which the caller seeds with a snapshot. Afterwards the
    /// pump remembers exactly the sessions of `live`.
    pub fn unseeded(&mut self, live: &[LiveSession]) -> (r: Vec<String>)
        ensures
            views(r@) == fresh_windows(live@, old(self).seeded()),
            final(self).seeded() == keys_of(live@),
    {
        let mut out: Vec<String> = Vec::new();
        let mut i: usize = 0;
        while i < live.len()
            invariant
                i <= live@.len(),
                views(out@) == fresh_windows(live@.subrange(0, i as int), self.seeded()),
            decreases live@.len() - i,
        {
            let ghost pre = live@.subrange(0, i as int);
            proof {
                assert(live@.subrange(0, i + 1).drop_last() =~= pre);
            }
            if live[i].clipboard != ClipboardPrefs::Off && !self.knows(
                &live[i].window,
                live[i].generation,
            ) {
                let w = live[i].window.clone();
                let ghost before = out@;
                out.push(w);
                proof {
                    assert(views(out@) =~= views(before).push(w@));
                }
            }
            i = i + 1;
        }
        proof {
            assert(live@.subrange(0, live@.len() as int) =~= live@);
        }
        self.remember(live);
        out
    }
}

proof fn lemma_fresh_subset(live: Seq<LiveSession>, all: Seq<LiveSession>)
    requires
        forall|i: int| 0 <= i < live.len() ==> keys_of(all).contains(#[trigger] key_of(live[i])),
    ensures
        fresh_windows(live, keys_of(all)) == Seq::<Seq<char>>::empty(),
    decreases live.len(),
{
    if live.len() > 0 {
        let rest = live.drop_last();
        assert forall|i: int| 0 <= i < rest.len() implies keys_of(all).contains(
            #[trigger] key_of(rest[i]),
        ) by {
            assert(rest[i] == live[i]);
        }
        lemma_fresh_subset(rest, all);
        assert(keys_of(all).contains(key_of(live[live.len() - 1])));
    }
}

/// Seeding happens once per session: once the pump has dealt with the sessions `live` (told
/// them of a change or seeded them), a tick with no change and the same sessions seeds nobody.
pub proof fn lemma_seeded_once(live: Seq<LiveSession>)
    ensures
        fresh_windows(live, keys_of(live)) == Seq::<Seq<char>>::empty(),
{
    assert forall|i: int| 0 <= i < live.len() implies keys_of(live).contains(
        #[trigger] key_of(live[i]),
    ) by {}
    lemma_fresh_subset(live, live);
}

/// A merged network or wake trigger.
#[derive(Debug, Clone, Copy, PartialEq, Eq, Hash, Structural)]
pub enum TriggerAction {
    /// The network went away: hold reconnect attempts.
    PauseReconnect,
    /// The network came back or the Mac woke: retry now.
    RetryNow,
}

/// A command a reconnect trigger sends to a session.
#[derive(Debug, Clone, Copy, PartialEq, Eq, Hash, Structural)]
pub enum SessionCommand {
    /// Whether the network is reachable.
    NetworkReachable(bool),
    /// Skip the rest of the reconnect backoff.
    ReconnectNow,
}

/// The commands one trigger action turns into for a session that is (or is not) waiting out a
/// reconnect backoff.
pub open spec fn trigger_commands_of(action: TriggerAction, reconnecting: bool) -> Seq<
    SessionCommand,
> {
    match action {
        TriggerAction::PauseReconnect => seq![SessionCommand::NetworkReachable(false)],
        TriggerAction::RetryNow => if reconnecting {
            seq![SessionCommand::NetworkReachable(true), SessionCommand::ReconnectNow]
        } else {
            seq![SessionCommand::NetworkReachable(true)]
        },
    }
}

/// The commands one merged trigger action turns into for a session that is (or is not)
/// waiting out a reconnect backoff. `RetryNow` restores reachability before asking for the
/// reconnect; only a reconnecting session is told to skip its delay.
pub fn trigger_commands(action: TriggerAction, reconnecting: bool) -> (r: Vec<SessionCommand>)
    ensures
        r@ == trigger_commands_of(action, reconnecting),
{
    match action {
        TriggerAction::PauseReconnect => vec![SessionCommand::NetworkReachable(false)],
        TriggerAction::RetryNow => if reconnecting {
            vec![SessionCommand::NetworkReachable(true), SessionCommand::ReconnectNow]
        } else {
            vec![SessionCommand::NetworkReachable(true)]
        },
    }
}

/// Only a session waiting out a backoff is told to skip it, and only after it has learnt that
/// the network is reachable; every trigger tells every session whether the network is there.
pub proof fn lemma_reconnect_only_when_reconnecting(action: TriggerAction, reconnecting: bool)
    ensures
        ({
            let cmds = trigger_commands_of(action, reconnecting);
            &&& cmds.len() >= 1
            &&& cmds[0] == SessionCommand::NetworkReachable(action == TriggerAction::RetryNow)
            &&& cmds.contains(SessionCommand::ReconnectNow) <==> (action == TriggerAction::RetryNow
                && reconnecting)
        }),
{
    let cmds = trigger_commands_of(action, reconnecting);
    if cmds.contains(SessionCommand::ReconnectNow) {
        let j = choose|j: int| 0 <= j < cmds.len() && cmds[j] == SessionCommand::ReconnectNow;
        assert(action == TriggerAction::RetryNow && reconnecting);
    }
    if action == TriggerAction::RetryNow && reconnecting {
        assert(cmds[1] == SessionCommand::ReconnectNow);
    }
}

} // verus!
