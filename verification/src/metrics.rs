use vstd::prelude::*;

use crate::clock::{elapsed_ms, elapsed_millis, now_millis};

verus! {

/// Counters of a node's traffic; times are milliseconds of the clock.
#[derive(Clone, Copy, Debug)]
pub struct NetworkMetrics {
    pub bytes_sent: u64,
    pub bytes_received: u64,
    pub messages_sent: u64,
    pub messages_received: u64,
    pub connections_established: u64,
    pub connections_failed: u64,
    pub files_shared: u64,
    pub files_downloaded: u64,
    pub chunks_uploaded: u64,
    pub chunks_downloaded: u64,
    pub uptime_ms: u64,
    pub start_time_ms: u64,
}

/// Every counter is zero and no time has passed since `start`.
pub open spec fn fresh_metrics(m: NetworkMetrics, start: u64) -> bool {
    m == NetworkMetrics {
        bytes_sent: 0,
        bytes_received: 0,
        messages_sent: 0,
        messages_received: 0,
        connections_established: 0,
        connections_failed: 0,
        files_shared: 0,
        files_downloaded: 0,
        chunks_uploaded: 0,
        chunks_downloaded: 0,
        uptime_ms: 0,
        start_time_ms: start,
    }
}

impl NetworkMetrics {
    /// Zero counters, starting at `start`.
    pub fn starting_at(start: u64) -> (m: NetworkMetrics)
        ensures
            fresh_metrics(m, start),
    {
        NetworkMetrics {
            bytes_sent: 0,
            bytes_received: 0,
            messages_sent: 0,
            messages_received: 0,
            connections_established: 0,
            connections_failed: 0,
            files_shared: 0,
            files_downloaded: 0,
            chunks_uploaded: 0,
            chunks_downloaded: 0,
            uptime_ms: 0,
            start_time_ms: start,
        }
    }
}

impl Default for NetworkMetrics {
    /// Zero counters, starting now.
    fn default() -> (m: NetworkMetrics)
        ensures
            fresh_metrics(m, m.start_time_ms),
    {
        NetworkMetrics::starting_at(now_millis())
    }
}

/// Collects the counters of a node.
pub struct MetricsCollector {
    metrics: NetworkMetrics,
}

impl MetricsCollector {
    /// The counters so far.
    pub closed spec fn current(&self) -> NetworkMetrics {
        self.metrics
    }

    /// Zero counters, starting now.
    pub fn new() -> (c: MetricsCollector)
        ensures
            fresh_metrics(c.current(), c.current().start_time_ms),
    {
        MetricsCollector { metrics: NetworkMetrics::default() }
    }

    /// Zero counters, starting at `start`.
    pub fn starting_at(start: u64) -> (c: MetricsCollector)
        ensures
            fresh_metrics(c.current(), start),
    {
        MetricsCollector { metrics: NetworkMetrics::starting_at(start) }
    }

    pub fn record_bytes_sent(&mut self, bytes: u64)
        requires
            old(self).current().bytes_sent + bytes <= u64::MAX,
        ensures
            final(self).current() == (NetworkMetrics { bytes_sent: (old(self).current().bytes_sent + bytes) as u64, ..old(self).current() }),
    {
        self.metrics.bytes_sent = self.metrics.bytes_sent + bytes;
    }

    pub fn record_bytes_received(&mut self, bytes: u64)
        requires
            old(self).current().bytes_received + bytes <= u64::MAX,
        ensures
            final(self).current() == (NetworkMetrics { bytes_received: (old(self).current().bytes_received + bytes) as u64, ..old(self).current() }),
    {
        self.metrics.bytes_received = self.metrics.bytes_received + bytes;
    }

    pub fn record_message_sent(&mut self)
        requires
            old(self).current().messages_sent < u64::MAX,
        ensures
            final(self).current() == (NetworkMetrics { messages_sent: (old(self).current().messages_sent + 1) as u64, ..old(self).current() }),
    {
        self.metrics.messages_sent = self.metrics.messages_sent + 1;
    }

    pub fn record_message_received(&mut self)
        requires
            old(self).current().messages_received < u64::MAX,
        ensures
            final(self).current() == (NetworkMetrics { messages_received: (old(self).current().messages_received + 1) as u64, ..old(self).current() }),
    {
        self.metrics.messages_received = self.metrics.messages_received + 1;
    }

    pub fn record_connection_established(&mut self)
        requires
            old(self).current().connections_established < u64::MAX,
        ensures
            final(self).current() == (NetworkMetrics {
                connections_established: (old(self).current().connections_established + 1) as u64,
                ..old(self).current()
            }),
    {
        self.metrics.connections_established = self.metrics.connections_established + 1;
    }

    pub fn record_connection_failed(&mut self)
        requires
            old(self).current().connections_failed < u64::MAX,
        ensures
            final(self).current() == (NetworkMetrics { connections_failed: (old(self).current().connections_failed + 1) as u64, ..old(self).current() }),
    {
        self.metrics.connections_failed = self.metrics.connections_failed + 1;
    }

    pub fn record_file_downloaded(&mut self)
        requires
            old(self).current().files_downloaded < u64::MAX,
        ensures
            final(self).current() == (NetworkMetrics { files_downloaded: (old(self).current().files_downloaded + 1) as u64, ..old(self).current() }),
    {
        self.metrics.files_downloaded = self.metrics.files_downloaded + 1;
    }

    pub fn record_chunk_uploaded(&mut self)
        requires
            old(self).current().chunks_uploaded < u64::MAX,
        ensures
            final(self).current() == (NetworkMetrics { chunks_uploaded: (old(self).current().chunks_uploaded + 1) as u64, ..old(self).current() }),
    {
        self.metrics.chunks_uploaded = self.metrics.chunks_uploaded + 1;
    }

    pub fn record_chunk_downloaded(&mut self)
        requires
            old(self).current().chunks_downloaded < u64::MAX,
        ensures
            final(self).current() == (NetworkMetrics { chunks_downloaded: (old(self).current().chunks_downloaded + 1) as u64, ..old(self).current() }),
    {
        self.metrics.chunks_downloaded = self.metrics.chunks_downloaded + 1;
    }

    /// The counters, with the time elapsed from the start to `now` as uptime.
    pub fn get_metrics(&self, now: u64) -> (m: NetworkMetrics)
        ensures
            m == (NetworkMetrics { uptime_ms: elapsed_ms(self.current().start_time_ms, now) as u64, ..self.current() }),
    {
        NetworkMetrics { uptime_ms: elapsed_millis(self.metrics.start_time_ms, now), ..self.metrics }
    }
}

} // verus!
