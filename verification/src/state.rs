use vstd::prelude::*;
use crate::time::now_millis;

verus! {

/// The stage of a connection's lifecycle, from the TCP accept to teardown.
#[derive(Debug, Clone, Copy, PartialEq, Eq, Hash, Structural)]
pub enum ConnectionStage {
    Connected,
    Handshaking,
    Authenticating,
    Configuring,
    InGame,
    Disconnecting,
    Disconnected,
}

/// The stages in which the connection is still alive.
pub open spec fn spec_stage_connected(s: ConnectionStage) -> bool {
    match s {
        ConnectionStage::Connected => true,
        ConnectionStage::Handshaking => true,
        ConnectionStage::Authenticating => true,
        ConnectionStage::Configuring => true,
        ConnectionStage::InGame => true,
        ConnectionStage::Disconnecting => false,
        ConnectionStage::Disconnected => false,
    }
}

impl ConnectionStage {
    /// The stage's name, for logs.
    pub fn name(&self) -> (r: String)
        ensures
            r@ == match *self {
                ConnectionStage::Connected => "Connected"@,
                ConnectionStage::Handshaking => "Handshaking"@,
                ConnectionStage::Authenticating => "Authenticating"@,
                ConnectionStage::Configuring => "Configuring"@,
                ConnectionStage::InGame => "InGame"@,
                ConnectionStage::Disconnecting => "Disconnecting"@,
                ConnectionStage::Disconnected => "Disconnected"@,
            },
    {
        match self {
            ConnectionStage::Connected => "Connected".to_owned(),
            ConnectionStage::Handshaking => "Handshaking".to_owned(),
            ConnectionStage::Authenticating => "Authenticating".to_owned(),
            ConnectionStage::Configuring => "Configuring".to_owned(),
            ConnectionStage::InGame => "InGame".to_owned(),
            ConnectionStage::Disconnecting => "Disconnecting".to_owned(),
            ConnectionStage::Disconnected => "Disconnected".to_owned(),
        }
    }
}

/// A player's coarse protocol state.
#[derive(Debug, Clone, Copy, PartialEq, Eq, Structural)]
pub enum PlayerState {
    Handshake,
    Login,
    Play,
    Idle,
}

/// Tracks a connection's stage with the instants the connection and the
/// current stage began.
pub struct ConnectionStateTracker {
    pub current_stage: ConnectionStage,
    pub connected_at: u64,
    pub stage_started_at: u64,
}

/// A snapshot of the tracker: the stage and how long things have run.
#[derive(Debug, Clone, Copy)]
pub struct StateInfo {
    pub stage: ConnectionStage,
    pub stage_duration_ms: u64,
    pub total_duration_ms: u64,
}

impl ConnectionStateTracker {
    /// A tracker whose connection begins at `now`.
    pub fn new_at(now: u64) -> (r: Self)
        ensures
            r.current_stage == ConnectionStage::Connected,
            r.connected_at == now,
            r.stage_started_at == now,
    {
        ConnectionStateTracker {
            current_stage: ConnectionStage::Connected,
            connected_at: now,
            stage_started_at: now,
        }
    }

    /// A tracker whose connection begins now, by the wall clock.
    pub fn new() -> (r: Self)
        ensures
            r.current_stage == ConnectionStage::Connected,
            r.connected_at == r.stage_started_at,
    {
        let now = now_millis();
        Self::new_at(now)
    }

    pub fn current_stage(&self) -> (r: ConnectionStage)
        ensures
            r == self.current_stage,
    {
        self.current_stage
    }

    /// Move to a new stage at instant `now`.
    pub fn transition_at(&mut self, new_stage: ConnectionStage, now: u64)
        ensures
            final(self).current_stage == new_stage,
            final(self).connected_at == old(self).connected_at,
            final(self).stage_started_at == now,
    {
        self.current_stage = new_stage;
        self.stage_started_at = now;
    }

    /// Move to a new stage, stamping the wall clock.
    pub fn transition(&mut self, new_stage: ConnectionStage)
        ensures
            final(self).current_stage == new_stage,
            final(self).connected_at == old(self).connected_at,
    {
        let now = now_millis();
        self.transition_at(new_stage, now);
    }

    /// Milliseconds spent in the current stage as of `now`.
    pub fn stage_duration_at(&self, now: u64) -> (r: u64)
        ensures
            r == if now >= self.stage_started_at {
                now - self.stage_started_at
            } else {
                0
            },
    {
        if now >= self.stage_started_at {
            now - self.stage_started_at
        } else {
            0
        }
    }

    /// Milliseconds spent in the current stage, by the wall clock.
    pub fn stage_duration_ms(&self) -> u64 {
        let now = now_millis();
        self.stage_duration_at(now)
    }

    /// Milliseconds since the connection was accepted, as of `now`.
    pub fn connection_duration_at(&self, now: u64) -> (r: u64)
        ensures
            r == if now >= self.connected_at {
                now - self.connected_at
            } else {
                0
            },
    {
        if now >= self.connected_at {
            now - self.connected_at
        } else {
            0
        }
    }

    /// Milliseconds since the connection was accepted, by the wall clock.
    pub fn connection_duration_ms(&self) -> u64 {
        let now = now_millis();
        self.connection_duration_at(now)
    }

    /// Whether the connection is still alive.
    pub fn is_connected(&self) -> (r: bool)
        ensures
            r == spec_stage_connected(self.current_stage),
    {
        match self.current_stage {
            ConnectionStage::Connected => true,
            ConnectionStage::Handshaking => true,
            ConnectionStage::Authenticating => true,
            ConnectionStage::Configuring => true,
            ConnectionStage::InGame => true,
            ConnectionStage::Disconnecting => false,
            ConnectionStage::Disconnected => false,
        }
    }

    /// The stage and durations as of `now`.
    pub fn state_info_at(&self, now: u64) -> (r: StateInfo)
        ensures
            r.stage == self.current_stage,
            r.stage_duration_ms == if now >= self.stage_started_at {
                now - self.stage_started_at
            } else {
                0
            },
            r.total_duration_ms == if now >= self.connected_at {
                now - self.connected_at
            } else {
                0
            },
    {
        StateInfo {
            stage: self.current_stage,
            stage_duration_ms: self.stage_duration_at(now),
            total_duration_ms: self.connection_duration_at(now),
        }
    }

    /// The stage and durations, by the wall clock.
    pub fn state_info(&self) -> (r: StateInfo)
        ensures
            r.stage == self.current_stage,
    {
        let now = now_millis();
        self.state_info_at(now)
    }
}

impl Default for ConnectionStateTracker {
    fn default() -> (r: Self)
        ensures
            r.current_stage == ConnectionStage::Connected,
    {
        ConnectionStateTracker::new()
    }
}

} // verus!
