//! Replaying the log into the engine.
//!
//! Each line is read back into its command and the command is carried out
//! with the log suppressed, so that a replay adds nothing to the log. A
//! malformed line is passed over and counted; the replay goes on with the
//! next.

use crate::assoc::Name;
use crate::cache::cache::{lines_view, Cache};
use crate::cache::clear_all::ClearAll;
use crate::cache::clear_cluster::ClearCluster;
use crate::cache::delete::Delete;
use crate::cache::model::CacheModel;
use crate::persistent::command::{Command, CommandModel};
use crate::persistent::parse::{parse_line, parsed};
use vstd::prelude::*;

verus! {

impl CacheModel {
    /// The engine after the counter `key` of `cluster` was put back to
    /// `number` at `now`: the write begins by making room like any other, and where
    /// it is accepted the key holds the number.
    pub open spec fn restore(self, cluster: Name, key: Name, number: int, now: int, pick: int) -> CacheModel {
        if self.accepts(now, pick) {
            self.make_room(now, pick).counted(cluster, key, number)
        } else {
            self.make_room(now, pick)
        }
    }

    /// The engine after `command` was carried out at `now` with the log
    /// suppressed. A logged write is written again, without a time to live; a
    /// logged counter is put back to the number that it came to hold; a
    /// logged removal is done again.
    pub open spec fn apply(self, command: CommandModel, now: int, pick: int) -> CacheModel {
        match command {
            CommandModel::SetValue { cluster, key, value } => self.set(
                cluster,
                key,
                value,
                None,
                true,
                now,
                pick,
            ),
            CommandModel::Incr { cluster, key, result } => self.restore(
                cluster,
                key,
                result,
                now,
                pick,
            ),
            CommandModel::Decr { cluster, key, result } => self.restore(
                cluster,
                key,
                result,
                now,
                pick,
            ),
            CommandModel::Del { cluster, key } => self.delete(cluster, key, true),
            CommandModel::ClearCluster { cluster } => self.clear_cluster(cluster, true),
            CommandModel::ClearAll => self.clear_all(true),
        }
    }

    /// The engine after `line` was read and carried out at `now`; a
    /// malformed line changes nothing.
    pub open spec fn execute(self, line: Seq<char>, now: int, pick: int) -> CacheModel {
        match parsed(line) {
            Some(command) => self.apply(command, now, pick),
            None => self,
        }
    }

    /// The engine after `lines` were read and carried out at `now`, one
    /// after the other.
    pub open spec fn replay(self, lines: Seq<Seq<char>>, now: int, pick: int) -> CacheModel
        decreases lines.len(),
    {
        if lines.len() == 0 {
            self
        } else {
            self.replay(lines.drop_last(), now, pick).execute(lines.last(), now, pick)
        }
    }
}

/// The number of malformed lines among `lines`.
pub open spec fn malformed(lines: Seq<Seq<char>>) -> nat
    decreases lines.len(),
{
    if lines.len() == 0 {
        0
    } else if parsed(lines.last()) is None {
        malformed(lines.drop_last()) + 1
    } else {
        malformed(lines.drop_last())
    }
}

/// There are no more malformed lines than lines.
pub proof fn lemma_malformed_bounded(lines: Seq<Seq<char>>)
    ensures
        malformed(lines) <= lines.len(),
    decreases lines.len(),
{
    if lines.len() > 0 {
        lemma_malformed_bounded(lines.drop_last());
    }
}

impl Cache {
    /// Puts the counter `key` of `cluster` back to `number` at the moment
    /// `now`.
    pub fn restore_at(&mut self, cluster: String, key: String, number: i32, now: u64, pick: usize) -> (done:
        bool)
        ensures
            done == old(self)@.accepts(now as int, pick as int),
            final(self)@ == old(self)@.restore(
                cluster@,
                key@,
                number as int,
                now as int,
                pick as int,
            ),
            old(self).wf() ==> final(self).wf(),
    {
        proof {
            if old(self).wf() {
                crate::cache::shape::lemma_restore_well_formed(
                    old(self)@,
                    cluster@,
                    key@,
                    number as int,
                    now as int,
                    pick as int,
                );
            }
        }
        if !self.make_room_at(now, pick) {
            return false;
        }
        self.count(cluster, key, number);
        true
    }

    /// Carries out `command` at the moment `now`, with the log suppressed.
    pub fn apply_at(&mut self, command: Command, now: u64, pick: usize)
        ensures
            final(self)@ == old(self)@.apply(command@, now as int, pick as int),
            old(self).wf() ==> final(self).wf(),
    {
        match command {
            Command::SetValue { cluster, key, value } => {
                let _ = self.set_at(cluster, key, value, None, true, now, pick);
            },
            Command::Incr { cluster, key, result } => {
                let _ = self.restore_at(cluster, key, result, now, pick);
            },
            Command::Decr { cluster, key, result } => {
                let _ = self.restore_at(cluster, key, result, now, pick);
            },
            Command::Del { cluster, key } => {
                self.delete(cluster.as_str(), key.as_str(), true);
            },
            Command::ClearCluster { cluster } => {
                self.clear_cluster(cluster.as_str(), true);
            },
            Command::ClearAll => {
                self.clear_all(true);
            },
        }
    }

    /// Reads `command` and carries it out at the moment `now`. Tells whether
    /// the line was well formed; a malformed line changes nothing.
    pub fn execute_command_at(&mut self, command: &str, now: u64, pick: usize) -> (well_formed: bool)
        ensures
            well_formed == parsed(command@) is Some,
            final(self)@ == old(self)@.execute(command@, now as int, pick as int),
            old(self).wf() ==> final(self).wf(),
    {
        match parse_line(command) {
            Some(found) => {
                self.apply_at(found, now, pick);
                true
            },
            None => false,
        }
    }

    /// Reads `command` and carries it out at the moment the engine's clock
    /// shows.
    pub fn execute_command(&mut self, command: &str) -> (well_formed: bool)
        ensures
            well_formed == parsed(command@) is Some,
            exists|now: u64, pick: usize|
                old(self)@.seen <= now && final(self)@ == old(self)@.at(now as int).execute(command@, now as int, pick as int),
            old(self).wf() ==> final(self).wf(),
    {
        let now = self.tick();
        let pick = self.draw();
        self.execute_command_at(command, now, pick)
    }

    /// Replays `lines` at the moment `now`, and tells how many of them were
    /// malformed and passed over.
    pub fn initialize_from_commands_at(&mut self, lines: &Vec<String>, now: u64, pick: usize) -> (skipped:
        usize)
        ensures
            skipped == malformed(lines_view(lines@)),
            final(self)@ == old(self)@.replay(lines_view(lines@), now as int, pick as int),
            old(self).wf() ==> final(self).wf(),
    {
        proof {
            if old(self).wf() {
                crate::cache::shape::lemma_replay_well_formed(
                    old(self)@,
                    lines_view(lines@),
                    now as int,
                    pick as int,
                );
            }
        }
        let ghost all = lines_view(lines@);
        let mut skipped: usize = 0;
        let mut i: usize = 0;
        assert(all.take(0) =~= Seq::empty());
        while i < lines.len()
            invariant
                i <= lines.len(),
                all == lines_view(lines@),
                skipped == malformed(all.take(i as int)),
                skipped <= i,
                self@ == old(self)@.replay(all.take(i as int), now as int, pick as int),
            decreases lines.len() - i,
        {
            proof {
                let head = all.take(i + 1);
                assert(head.drop_last() =~= all.take(i as int));
                assert(head.last() == lines@[i as int]@);
            }
            if !self.execute_command_at(lines[i].as_str(), now, pick) {
                skipped = skipped + 1;
            }
            i = i + 1;
        }
        assert(all.take(lines.len() as int) =~= all);
        skipped
    }

    /// Replays `lines` at the moment the engine's clock shows, and tells how
    /// many of them were malformed and passed over.
    pub fn initialize_from_commands(&mut self, lines: &Vec<String>) -> (skipped: usize)
        ensures
            skipped == malformed(lines_view(lines@)),
            exists|now: u64, pick: usize|
                old(self)@.seen <= now && final(self)@ == old(self)@.at(now as int).replay(lines_view(lines@), now as int, pick as int),
            old(self).wf() ==> final(self).wf(),
    {
        let now = self.tick();
        let pick = self.draw();
        self.initialize_from_commands_at(lines, now, pick)
    }
}

} // verus!
