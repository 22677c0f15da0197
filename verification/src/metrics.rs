//! What a relay counts, how it reports it, and how much it lets through.

use crate::text;
use vstd::prelude::*;

verus! {

/// The counters of a relay. They wrap around, as counters of 64 bits do.
#[derive(Debug, Clone, Copy)]
pub struct Metrics {
    pub bytes_received: u64,
    pub active_connections: u64,
}

/// The answer of the metrics endpoint.
pub open spec fn metrics_response(bytes_received: u64, active_connections: u64) -> Seq<char> {
    "HTTP/1.1 200 OK\r\nContent-Type: application/json\r\n\r\n{\"bytes_received\": "@
        + text::decimal(bytes_received as nat) + ", \"active_connections\": "@ + text::decimal(
        active_connections as nat,
    ) + "}"@
}

impl Metrics {
    pub fn new() -> (r: Metrics)
        ensures
            r.bytes_received == 0,
            r.active_connections == 0,
    {
        Metrics { bytes_received: 0, active_connections: 0 }
    }

    /// A connection was accepted.
    pub fn connection_opened(&mut self)
        ensures
            final(self).bytes_received == old(self).bytes_received,
            final(self).active_connections as int == (old(self).active_connections + 1)
                % 0x1_0000_0000_0000_0000,
    {
        self.active_connections = self.active_connections.wrapping_add(1);
    }

    /// A packet with this payload arrived: its payload and the header of four bytes count.
    pub fn packet_received(&mut self, payload_len: usize)
        requires
            payload_len <= u64::MAX - 4,
        ensures
            final(self).active_connections == old(self).active_connections,
            final(self).bytes_received as int == (old(self).bytes_received + payload_len + 4)
                % 0x1_0000_0000_0000_0000,
    {
        self.bytes_received = self.bytes_received.wrapping_add(payload_len as u64 + 4);
    }

    pub fn response(&self) -> (r: String)
        ensures
            r@ == metrics_response(self.bytes_received, self.active_connections),
    {
        let mut out: Vec<char> = Vec::new();
        text::append_str(
            &mut out,
            "HTTP/1.1 200 OK\r\nContent-Type: application/json\r\n\r\n{\"bytes_received\": ",
        );
        text::append_decimal(&mut out, self.bytes_received);
        text::append_str(&mut out, ", \"active_connections\": ");
        text::append_decimal(&mut out, self.active_connections);
        text::append_str(&mut out, "}");
        assert(out@ =~= metrics_response(self.bytes_received, self.active_connections));
        text::string_of(out.as_slice())
    }
}

/// The rate of a bandwidth manager that is given none: ten megabytes per second.
pub const DEFAULT_BYTES_PER_SEC: u32 = 10485760;

/// How many bytes per second a relay takes in.
#[derive(Debug, Clone, Copy)]
pub struct BandwidthManager {
    bytes_per_sec: u32,
}

impl View for BandwidthManager {
    type V = u32;

    closed spec fn view(&self) -> u32 {
        self.bytes_per_sec
    }
}

impl BandwidthManager {
    #[verifier::type_invariant]
    spec fn well_formed(self) -> bool {
        self.bytes_per_sec > 0
    }

    pub fn new(bytes_per_sec: u32) -> (r: BandwidthManager)
        ensures
            r@ == if bytes_per_sec == 0 {
                DEFAULT_BYTES_PER_SEC
            } else {
                bytes_per_sec
            },
    {
        if bytes_per_sec == 0 {
            BandwidthManager { bytes_per_sec: DEFAULT_BYTES_PER_SEC }
        } else {
            BandwidthManager { bytes_per_sec }
        }
    }

    /// The rate, which is never zero.
    pub fn rate(&self) -> (r: u32)
        ensures
            r == self@,
            r > 0,
    {
        proof {
            use_type_invariant(self);
        }
        self.bytes_per_sec
    }

    /// How many permits to wait for before `bytes` bytes pass: their number in 32 bits, and no wait
    /// where that is zero.
    pub fn check(&self, bytes: usize) -> (r: Option<u32>)
        ensures
            match r {
                Some(n) => n as int == bytes as int % 0x1_0000_0000 && n > 0,
                None => bytes as int % 0x1_0000_0000 == 0,
            },
    {
        let n: u32 = ((bytes as u64) % 0x1_0000_0000) as u32;
        if n == 0 {
            None
        } else {
            Some(n)
        }
    }
}

} // verus!
