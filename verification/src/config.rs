//! Tunable constants.

use vstd::prelude::*;

verus! {

/// Protocol version (major.minor); a differing major refuses the connection.
pub const PROTOCOL_VERSION: &'static str = "1.1";

/// Default TCP listen port.
pub const DEFAULT_TCP_PORT: u16 = 42524;

/// Default UDP multicast discovery port.
pub const DEFAULT_DISCOVERY_PORT: u16 = 42525;

/// Heartbeat period of the UDP channel, in milliseconds.
pub const HEARTBEAT_INTERVAL: u64 = 5_000;

/// A node without a heartbeat for longer than this is dead on the UDP channel.
pub const PEER_TIMEOUT: u64 = 15_000;

/// Least time between two liveness probes of one node.
pub const PEER_PROBE_INTERVAL: u64 = 30_000;

/// Limit of one liveness probe.
pub const PEER_PROBE_TIMEOUT: u64 = 2_000;

/// Period of the sleep watchdog.
pub const WATCHDOG_TICK: u64 = 30_000;

/// A clock stall at least this long counts as a resume from sleep.
pub const STALL_JUMP: u64 = 60_000;

/// Capacity of the event channels.
pub const EVENT_CHANNEL_CAP: usize = 64;

/// Poll period where a change stamp is available.
pub const WATCH_INTERVAL: u64 = 250;

/// Poll period without a change stamp.
pub const WATCH_INTERVAL_FALLBACK: u64 = 1_000;

/// Largest text that is synced, in bytes.
pub const MAX_SYNC_TEXT_BYTES: usize = 524_288;

/// Largest encoded image that is synced, in bytes.
pub const MAX_SYNC_IMAGE_BYTES: u64 = 16_777_216;

/// Most files in one sync.
pub const MAX_SYNC_FILE_COUNT: usize = 64;

/// Buffer size of raw byte streams.
pub const SYNC_STREAM_BUF: usize = 1_048_576;

/// Limit of the wait for a reply.
pub const REPLY_TIMEOUT: u64 = 30_000;

/// Limit of the wait for a pairing decision.
pub const PAIR_DECISION_TIMEOUT: u64 = 300_000;

/// Limit of one connection attempt.
pub const CONNECT_TIMEOUT: u64 = 3_000;

/// Most echo registrations at one time.
pub const ECHO_RECENT_CAP: usize = 8;

/// Age past which an echo registration is reclaimed, in milliseconds.
pub const ECHO_TTL: u64 = 4_000;

/// Most inbound connections at one time.
pub const MAX_CONCURRENT_CONNECTIONS: usize = 64;

/// Limit of the inbound handshake.
pub const HANDSHAKE_TIMEOUT: u64 = 30_000;

/// Limit of the gap between two frames.
pub const IDLE_TIMEOUT: u64 = 60_000;

/// The limits fit together: a node is heard three times before it counts as silent,
/// a probe is over before the next one is due, a stall is longer than the period
/// that it is looked for in, a person has longer to decide than a program, and the
/// watcher polls less often where each look costs more.
pub proof fn law_limits_fit_together()
    ensures
        PEER_TIMEOUT == 3 * HEARTBEAT_INTERVAL,
        PEER_PROBE_TIMEOUT < PEER_PROBE_INTERVAL,
        PEER_PROBE_INTERVAL >= 2 * PEER_TIMEOUT,
        STALL_JUMP == 2 * WATCHDOG_TICK,
        PAIR_DECISION_TIMEOUT == 10 * REPLY_TIMEOUT,
        REPLY_TIMEOUT > CONNECT_TIMEOUT,
        IDLE_TIMEOUT > REPLY_TIMEOUT,
        WATCH_INTERVAL_FALLBACK == 4 * WATCH_INTERVAL,
        WATCH_INTERVAL_FALLBACK < ECHO_TTL,
        DEFAULT_DISCOVERY_PORT == DEFAULT_TCP_PORT + 1,
        MAX_SYNC_IMAGE_BYTES == 32 * MAX_SYNC_TEXT_BYTES,
        SYNC_STREAM_BUF == 2 * MAX_SYNC_TEXT_BYTES,
{
}

} // verus!
