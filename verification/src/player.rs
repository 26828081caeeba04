//! A live player session: the persistent record plus the per-tick movement
//! state, a two-slot buffer of pending moves, and the change flags that
//! drive outbound notifications.

use vstd::prelude::*;
use crate::playerdata::PlayerData;
use crate::{add_clamped, clamped};

verus! {

/// A pending move: destination and the tick delay it requires.
pub type PendingMove = (i32, i32, i32);

/// What the two-slot buffer holds after one more move is submitted: the
/// first slot fills first; afterwards the second slot takes (and keeps
/// overwriting with) the newest move, so only the pending move and the most
/// recent submission survive.
pub open spec fn buffer_after_insert(
    nextmove: Option<PendingMove>,
    nextnextmove: Option<PendingMove>,
    m: PendingMove,
) -> (Option<PendingMove>, Option<PendingMove>) {
    if nextmove is None {
        (Some(m), nextnextmove)
    } else {
        (nextmove, Some(m))
    }
}

/// Law: of three moves submitted before any is consumable, the first is
/// still pending, the second has been overwritten, and the third sits in
/// the next-next slot — only the pending move and the newest submission
/// survive.
pub proof fn lemma_buffer_two_slots(m1: PendingMove, m2: PendingMove, m3: PendingMove)
    ensures
        ({
            let (a1, b1) = buffer_after_insert(None, None, m1);
            let (a2, b2) = buffer_after_insert(a1, b1, m2);
            let (a3, b3) = buffer_after_insert(a2, b2, m3);
            a3 == Some(m1) && b3 == Some(m3)
        }),
{
}

/// A player currently hosted by an instance.
pub struct Player {
    /// Ticks since the last committed move; zero means a move just landed.
    pub ticks_since_move: i32,
    /// Whether publicly visible data changed since the last broadcast.
    pub data_just_updated: bool,
    /// Whether private data changed since the player was last updated.
    pub private_data_just_updated: bool,
    /// Tick delay of the last committed move.
    pub speed: i32,
    /// The pending move, due when `ticks_since_move` reaches its delay.
    pub nextmove: Option<PendingMove>,
    /// The move queued behind the pending one; newest submission wins.
    pub nextnextmove: Option<PendingMove>,
    /// The persistent record.
    pub data: PlayerData,
    /// Counter bumped whenever externally visible non-positional data
    /// changes; clients compare it to know whether their copy is stale.
    pub data_version: i32,
}

impl Player {
    pub open spec fn wf(self) -> bool {
        self.data.wf()
    }

    /// A fresh session around a loaded record.
    pub fn new(data: PlayerData) -> (r: Self)
        ensures
            r.data == data,
            r.ticks_since_move == 0,
            r.speed == 0,
            r.nextmove is None,
            r.nextnextmove is None,
            r.data_version == 0,
            !r.data_just_updated,
            !r.private_data_just_updated,
    {
        Player {
            ticks_since_move: 0,
            data_just_updated: false,
            private_data_just_updated: false,
            speed: 0,
            nextmove: None,
            nextnextmove: None,
            data,
            data_version: 0,
        }
    }

    /// Buffers a submitted move: into the pending slot when it is free,
    /// otherwise into the next-next slot, overwriting what waited there.
    pub fn insert_next_move(&mut self, x: i32, y: i32, speed: i32)
        ensures
            (final(self).nextmove, final(self).nextnextmove)
                == buffer_after_insert(old(self).nextmove, old(self).nextnextmove, (x, y, speed)),
            *final(self) == (Player {
                nextmove: final(self).nextmove,
                nextnextmove: final(self).nextnextmove,
                ..*old(self)
            }),
    {
        if self.nextmove.is_none() {
            self.nextmove = Some((x, y, speed));
        } else {
            self.nextnextmove = Some((x, y, speed));
        }
    }

    /// The move that would be attempted next: the pending one, or failing
    /// that whatever waits behind it.
    pub fn peek_next_move(&self) -> (r: &Option<PendingMove>)
        ensures
            *r == if self.nextmove is Some {
                self.nextmove
            } else {
                self.nextnextmove
            },
    {
        if self.nextmove.is_some() {
            &self.nextmove
        } else {
            &self.nextnextmove
        }
    }

    /// Consumes the pending move and promotes the queued one.
    pub fn eat_next_move(&mut self)
        ensures
            final(self).nextmove == old(self).nextnextmove,
            final(self).nextnextmove is None,
            *final(self) == (Player {
                nextmove: final(self).nextmove,
                nextnextmove: None,
                ..*old(self)
            }),
    {
        self.nextmove = self.nextnextmove;
        self.nextnextmove = None;
    }

    /// Position and the delay of the last committed move.
    pub fn get_full_pos(&self) -> (r: (i32, i32, i32))
        ensures
            r == (self.data.x, self.data.y, self.speed),
    {
        (self.data.x, self.data.y, self.speed)
    }

    pub fn get_pos(&self) -> (r: (i32, i32))
        ensures
            r == (self.data.x, self.data.y),
    {
        (self.data.x, self.data.y)
    }

    /// Commits a position: a move just happened, so the tick counter resets.
    pub fn set_full_pos(&mut self, x: i32, y: i32, speed: i32)
        ensures
            final(self).data == (PlayerData { x: x, y: y, ..old(self).data }),
            final(self).speed == speed,
            final(self).ticks_since_move == 0,
            *final(self) == (Player {
                data: final(self).data,
                speed: speed,
                ticks_since_move: 0,
                ..*old(self)
            }),
    {
        self.data.x = x;
        self.data.y = y;
        self.speed = speed;
        self.ticks_since_move = 0;
    }

    pub fn x(&self) -> (r: i32)
        ensures
            r == self.data.x,
    {
        self.data.x
    }

    pub fn y(&self) -> (r: i32)
        ensures
            r == self.data.y,
    {
        self.data.y
    }

    pub fn pid(&self) -> (r: i32)
        ensures
            r == self.data.pid,
    {
        self.data.pid
    }

    pub fn data_version(&self) -> (r: i32)
        ensures
            r == self.data_version,
    {
        self.data_version
    }

    /// Records a publicly visible change: bumps the version clients compare
    /// against (clamped at the top of the range) and raises the broadcast
    /// flag.
    pub fn set_public_change(&mut self)
        ensures
            final(self).data_version as int == clamped(old(self).data_version + 1),
            final(self).data_just_updated,
            *final(self) == (Player {
                data_version: final(self).data_version,
                data_just_updated: true,
                ..*old(self)
            }),
    {
        self.data_version = add_clamped(self.data_version, 1);
        self.data_just_updated = true;
    }

    /// Records a private change: only the player themselves is told.
    pub fn set_private_change(&mut self)
        ensures
            *final(self) == (Player { private_data_just_updated: true, ..*old(self) }),
    {
        self.private_data_just_updated = true;
    }

    /// Gives the record back when the session ends.
    pub fn into_data(self) -> (r: PlayerData)
        ensures
            r == self.data,
    {
        self.data
    }

    /// Moves the player's record onto a map by name.
    pub fn set_location(&mut self, location: String)
        ensures
            final(self).data == (PlayerData { location: location, ..old(self).data }),
            *final(self) == (Player { data: final(self).data, ..*old(self) }),
    {
        self.data.location = location;
    }
}

} // verus!
