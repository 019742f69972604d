//! Host-side observational voice reference counts of the instrument host.
//!
//! Counts are kept per `(port, channel, key)` for ports `0..MAX_TRACKED_PORTS`, MIDI channels
//! `0..16` and keys `0..128`. A note-on increments (saturating), a specific note-end decrements
//! (saturating), a specific choke clears, and a note-end or choke with any wildcard (`-1`) field
//! clears every matching voice.

use crate::events::VoiceAddr;
use vstd::prelude::*;

verus! {

/// Practical upper bound of tracked instrument note ports.
pub const MAX_TRACKED_PORTS: usize = 16;
/// MIDI channels per port.
pub const MIDI_CHANNELS: usize = 16;
/// MIDI keys per channel.
pub const MIDI_KEYS: usize = 128;
/// Number of counters in the table.
pub const VOICE_SLOTS: usize = 32768;

/// Host-side voice identity on the neutral wire.
#[derive(Clone, Copy, Debug, PartialEq, Eq, Hash)]
pub struct VoiceKey {
    pub port_index: i16,
    pub channel: i16,
    pub key: i16,
}

/// Whether `(p, c, n)` lies inside the tracked table.
pub open spec fn in_table(p: int, c: int, n: int) -> bool {
    0 <= p < MAX_TRACKED_PORTS && 0 <= c < MIDI_CHANNELS && 0 <= n < MIDI_KEYS
}

/// Flat position of `(p, c, n)`.
pub open spec fn flat_index(p: int, c: int, n: int) -> int {
    p * 2048 + c * 128 + n
}

/// Table coordinates of a key, when it is tracked.
pub open spec fn key_indices(key: VoiceKey) -> Option<(int, int, int)> {
    if in_table(key.port_index as int, key.channel as int, key.key as int) {
        Some((key.port_index as int, key.channel as int, key.key as int))
    } else {
        None
    }
}

/// One address field matches a coordinate: wildcard (`-1`) or exactly equal.
pub open spec fn field_matches(field: i16, value: int) -> bool {
    field == -1 || field as int == value
}

/// The address selects voice `(p, c, n)`.
pub open spec fn addr_matches(addr: VoiceAddr, p: int, c: int, n: int) -> bool {
    field_matches(addr.port_index, p) && field_matches(addr.channel, c) && field_matches(addr.key, n)
}

/// The address has a wildcard in its port, channel or key.
pub open spec fn has_wildcard(addr: VoiceAddr) -> bool {
    addr.port_index == -1 || addr.channel == -1 || addr.key == -1
}

spec fn port_of(i: int) -> int {
    i / 2048
}

spec fn channel_of(i: int) -> int {
    (i / 128) % 16
}

spec fn key_of(i: int) -> int {
    i % 128
}

proof fn lemma_coordinates(p: int, c: int, n: int)
    requires
        in_table(p, c, n),
    ensures
        port_of(flat_index(p, c, n)) == p,
        channel_of(flat_index(p, c, n)) == c,
        key_of(flat_index(p, c, n)) == n,
        0 <= flat_index(p, c, n) < VOICE_SLOTS,
{
    assert((p * 2048 + c * 128 + n) / 2048 == p) by (nonlinear_arith)
        requires
            0 <= p < 16,
            0 <= c < 16,
            0 <= n < 128,
    ;
    assert((p * 2048 + c * 128 + n) / 128 == p * 16 + c) by (nonlinear_arith)
        requires
            0 <= p < 16,
            0 <= c < 16,
            0 <= n < 128,
    ;
    assert((p * 16 + c) % 16 == c) by (nonlinear_arith)
        requires
            0 <= p < 16,
            0 <= c < 16,
    ;
    assert((p * 2048 + c * 128 + n) % 128 == n) by (nonlinear_arith)
        requires
            0 <= p < 16,
            0 <= c < 16,
            0 <= n < 128,
    ;
}

/// Fixed-capacity, allocation-free voice reference counts.
pub struct VoiceTable {
    counts: Vec<u16>,
}

impl VoiceTable {
    /// Internal consistency: one counter per tracked voice.
    pub closed spec fn wf(self) -> bool {
        self.counts.len() == VOICE_SLOTS
    }

    /// Count of voice `(p, c, n)`.
    pub closed spec fn count(self, p: int, c: int, n: int) -> u16 {
        self.counts@[flat_index(p, c, n)]
    }

    /// All counts start at zero.
    pub fn new() -> (r: Self)
        ensures
            r.wf(),
            forall|p: int, c: int, n: int| in_table(p, c, n) ==> #[trigger] r.count(p, c, n) == 0,
    {
        let r = VoiceTable { counts: vec![0u16; VOICE_SLOTS] };
        proof {
            assert forall|p: int, c: int, n: int| in_table(p, c, n) implies #[trigger] r.count(p, c, n)
                == 0 by {
                lemma_coordinates(p, c, n);
            }
        }
        r
    }

    /// Table coordinates of a key, `None` when outside the tracked range.
    pub fn indices(key: VoiceKey) -> (r: Option<(usize, usize, usize)>)
        ensures
            match key_indices(key) {
                Some((p, c, n)) => r == Some((p as usize, c as usize, n as usize)),
                None => r is None,
            },
    {
        if key.port_index < 0 || key.channel < 0 || key.key < 0 {
            return None;
        }
        let port = key.port_index as usize;
        let channel = key.channel as usize;
        let note = key.key as usize;
        if port < MAX_TRACKED_PORTS && channel < MIDI_CHANNELS && note < MIDI_KEYS {
            Some((port, channel, note))
        } else {
            None
        }
    }

    /// Count a note-on of `key` (saturating); untracked keys are ignored.
    pub fn increment(&mut self, key: VoiceKey)
        requires
            old(self).wf(),
        ensures
            final(self).wf(),
            forall|p: int, c: int, n: int|
                in_table(p, c, n) ==> #[trigger] final(self).count(p, c, n) == if key_indices(key) == Some(
                    (p, c, n),
                ) {
                    if old(self).count(p, c, n) == u16::MAX {
                        u16::MAX
                    } else {
                        (old(self).count(p, c, n) + 1) as u16
                    }
                } else {
                    old(self).count(p, c, n)
                },
    {
        if let Some((port, channel, note)) = Self::indices(key) {
            proof {
                lemma_coordinates(port as int, channel as int, note as int);
            }
            let i = port * 2048 + channel * 128 + note;
            let v = self.counts[i];
            self.counts.set(i, v.saturating_add(1));
            proof {
                assert forall|p: int, c: int, n: int| in_table(p, c, n) && (p, c, n) != (
                    port as int,
                    channel as int,
                    note as int,
                ) implies flat_index(p, c, n) != i by {
                    lemma_coordinates(p, c, n);
                }
            }
        }
    }

    /// Zero every tracked voice that `addr` selects.
    fn zero_matching(&mut self, addr: VoiceAddr)
        requires
            old(self).wf(),
        ensures
            final(self).wf(),
            forall|p: int, c: int, n: int|
                in_table(p, c, n) ==> #[trigger] final(self).count(p, c, n) == if addr_matches(
                    addr,
                    p,
                    c,
                    n,
                ) {
                    0
                } else {
                    old(self).count(p, c, n)
                },
    {
        let ghost old_counts = self.counts@;
        let mut i: usize = 0;
        while i < VOICE_SLOTS
            invariant
                0 <= i <= VOICE_SLOTS,
                self.counts.len() == VOICE_SLOTS,
                forall|j: int|
                    0 <= j < i ==> #[trigger] self.counts@[j] == if addr_matches(
                        addr,
                        port_of(j),
                        channel_of(j),
                        key_of(j),
                    ) {
                        0
                    } else {
                        old_counts[j]
                    },
                forall|j: int| i <= j < VOICE_SLOTS ==> #[trigger] self.counts@[j] == old_counts[j],
            decreases VOICE_SLOTS - i,
        {
            let port = i / 2048;
            let channel = (i / 128) % 16;
            let note = i % 128;
            let port_ok = addr.port_index == -1 || (addr.port_index >= 0 && addr.port_index as usize
                == port);
            let channel_ok = addr.channel == -1 || (addr.channel >= 0 && addr.channel as usize
                == channel);
            let key_ok = addr.key == -1 || (addr.key >= 0 && addr.key as usize == note);
            if port_ok && channel_ok && key_ok {
                self.counts.set(i, 0);
            }
            i += 1;
        }
        proof {
            assert forall|p: int, c: int, n: int| in_table(p, c, n) implies #[trigger] self.count(p, c, n)
                == if addr_matches(addr, p, c, n) {
                0
            } else {
                old_counts[flat_index(p, c, n)]
            } by {
                lemma_coordinates(p, c, n);
            }
        }
    }

    /// A note-end from the child: wildcard addresses clear every matching voice, a specific
    /// tracked address decrements its voice (saturating at zero).
    pub fn note_end(&mut self, addr: VoiceAddr)
        requires
            old(self).wf(),
        ensures
            final(self).wf(),
            forall|p: int, c: int, n: int|
                in_table(p, c, n) ==> #[trigger] final(self).count(p, c, n) == if has_wildcard(addr) {
                    if addr_matches(addr, p, c, n) {
                        0
                    } else {
                        old(self).count(p, c, n)
                    }
                } else if addr_matches(addr, p, c, n) {
                    if old(self).count(p, c, n) == 0 {
                        0
                    } else {
                        (old(self).count(p, c, n) - 1) as u16
                    }
                } else {
                    old(self).count(p, c, n)
                },
    {
        if addr.port_index == -1 || addr.channel == -1 || addr.key == -1 {
            self.zero_matching(addr);
        } else if let Some((port, channel, note)) = Self::indices(
            VoiceKey { port_index: addr.port_index, channel: addr.channel, key: addr.key },
        ) {
            proof {
                lemma_coordinates(port as int, channel as int, note as int);
            }
            let i = port * 2048 + channel * 128 + note;
            let v = self.counts[i];
            self.counts.set(i, v.saturating_sub(1));
            proof {
                assert forall|p: int, c: int, n: int| in_table(p, c, n) && (p, c, n) != (
                    port as int,
                    channel as int,
                    note as int,
                ) implies flat_index(p, c, n) != i by {
                    lemma_coordinates(p, c, n);
                }
            }
        }
    }

    /// A choke: wildcard addresses clear every matching voice, a specific tracked address clears
    /// its voice.
    pub fn choke(&mut self, addr: VoiceAddr)
        requires
            old(self).wf(),
        ensures
            final(self).wf(),
            forall|p: int, c: int, n: int|
                in_table(p, c, n) ==> #[trigger] final(self).count(p, c, n) == if addr_matches(
                    addr,
                    p,
                    c,
                    n,
                ) {
                    0
                } else {
                    old(self).count(p, c, n)
                },
    {
        if addr.port_index == -1 || addr.channel == -1 || addr.key == -1 {
            self.zero_matching(addr);
        } else if let Some((port, channel, note)) = Self::indices(
            VoiceKey { port_index: addr.port_index, channel: addr.channel, key: addr.key },
        ) {
            proof {
                lemma_coordinates(port as int, channel as int, note as int);
            }
            let i = port * 2048 + channel * 128 + note;
            self.counts.set(i, 0);
            proof {
                assert forall|p: int, c: int, n: int| in_table(p, c, n) && (p, c, n) != (
                    port as int,
                    channel as int,
                    note as int,
                ) implies flat_index(p, c, n) != i by {
                    lemma_coordinates(p, c, n);
                }
            }
        }
    }

    /// Clear every count (dropped note-end or child respawn).
    pub fn reset_all(&mut self)
        requires
            old(self).wf(),
        ensures
            final(self).wf(),
            forall|p: int, c: int, n: int| in_table(p, c, n) ==> #[trigger] final(self).count(p, c, n) == 0,
    {
        self.counts = vec![0u16; VOICE_SLOTS];
        proof {
            assert forall|p: int, c: int, n: int| in_table(p, c, n) implies #[trigger] self.count(p, c, n)
                == 0 by {
                lemma_coordinates(p, c, n);
            }
        }
    }

    /// Live count of a key; untracked keys report zero.
    pub fn live_count(&self, key: VoiceKey) -> (r: u16)
        requires
            self.wf(),
        ensures
            r == match key_indices(key) {
                Some((p, c, n)) => self.count(p, c, n),
                None => 0u16,
            },
    {
        match Self::indices(key) {
            Some((port, channel, note)) => {
                proof {
                    lemma_coordinates(port as int, channel as int, note as int);
                }
                self.counts[port * 2048 + channel * 128 + note]
            },
            None => 0,
        }
    }
}

} // verus!
