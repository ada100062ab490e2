//! Tile states and the per-frame event log that decides when a frame is
//! dumped.
use vstd::prelude::*;

verus! {

/// How far the calculation of a tile has come.
#[derive(Debug, Clone, Copy, PartialEq, Eq, Structural)]
pub enum TileStatus {
    NotStarted,
    Deferred,
    Completed,
}

/// The status stored as `value`; unknown values read as not started.
pub open spec fn status_of(value: u8) -> TileStatus {
    if value == 1 {
        TileStatus::Deferred
    } else if value == 2 {
        TileStatus::Completed
    } else {
        TileStatus::NotStarted
    }
}

/// The value a status is stored as.
pub open spec fn status_value(status: TileStatus) -> u8 {
    match status {
        TileStatus::NotStarted => 0u8,
        TileStatus::Deferred => 1u8,
        TileStatus::Completed => 2u8,
    }
}

impl TileStatus {
    /// The status stored as `value`; unknown values read as not started.
    pub fn from_u8(value: u8) -> (status: Self)
        ensures
            status == status_of(value),
    {
        match value {
            1 => TileStatus::Deferred,
            2 => TileStatus::Completed,
            _ => TileStatus::NotStarted,
        }
    }

    /// The value a status is stored as.
    pub fn to_u8(self) -> (value: u8)
        ensures
            value == status_value(self),
    {
        match self {
            TileStatus::NotStarted => 0,
            TileStatus::Deferred => 1,
            TileStatus::Completed => 2,
        }
    }
}

/// Storing a status and reading it back gives the same status.
pub proof fn lemma_status_round_trip(status: TileStatus)
    ensures
        status_of(status_value(status)) == status,
{
}

/// The moments of a frame that are logged.
#[derive(Debug, Clone, Copy, PartialEq, Eq, Structural)]
pub enum FrameEventKind {
    NewFrame,
    ConfigurationProcessed,
    SurfacePrepared,
    OutsideAllocationTrimmed,
    ScreenCoverageCompleted,
    LayerWorkScheduled,
    InputProcessed,
    TileCompositionStarted,
    TilesRasterized,
    OverlaysDrawn,
    BufferReadyForPresentation,
    Finalized,
    PresentationStarted,
    PresentationFinished,
    GpuSurfaceAcquireStarted,
    GpuSurfaceAcquireFinished,
    GpuBatchPreparationFinished,
    GpuBatchUploadStarted,
    GpuBatchUploadFinished,
    GpuBatchTextureUpload,
    GpuBatchTextureRetention,
    GpuBatchVertexUpload,
    GpuBatchOverlayUpload,
    GpuBatchEnvelopeUpload,
    GpuRedrawRequested,
    GpuRedrawReceived,
    GpuCommandEncodingFinished,
    GpuCompositionPassStarted,
    GpuCompositionPassFinished,
    GpuSurfacePresentPassStarted,
    GpuSurfacePresentPassFinished,
    GpuCommandsSubmitted,
    GpuDevicePollStarted,
    GpuDevicePollFinished,
    GpuPresentationStarted,
    GpuPresentationFinished,
    DumpStarted,
    DumpFinished,
    SlowFrame,
    LayerCreated,
}

/// One logged moment; timestamps are nanoseconds on one clock.
#[derive(Debug)]
pub struct FrameEvent {
    pub kind: FrameEventKind,
    pub description: String,
    pub timestamp: u64,
}

/// `SystemTime::elapsed` on the Unix epoch: the time since the epoch by the
/// system clock, or `None` when the clock reads an earlier moment. Nothing
/// is promised of the reading.
#[verifier::external_body]
fn elapsed_since_epoch() -> (elapsed: Option<core::time::Duration>) {
    std::time::UNIX_EPOCH.elapsed().ok()
}

/// `Duration::as_nanos`: the whole nanoseconds of a duration. Nothing is
/// stated of the count.
pub assume_specification[core::time::Duration::as_nanos](duration: &core::time::Duration) -> u128;

/// The clock's current reading, in nanoseconds since the Unix epoch,
/// saturating at the largest `u64`; zero when the clock reads a moment
/// before the epoch.
fn now() -> (timestamp: u64) {
    match elapsed_since_epoch() {
        Some(elapsed) => {
            let nanos = elapsed.as_nanos();
            if nanos > 0xffff_ffff_ffff_ffffu128 {
                0xffff_ffff_ffff_ffffu64
            } else {
                nanos as u64
            }
        },
        None => 0,
    }
}

/// The time from `earlier` to `later`, or zero when `later` is not after it.
pub open spec fn elapsed(later: u64, earlier: u64) -> u64 {
    if later >= earlier {
        (later - earlier) as u64
    } else {
        0
    }
}

/// The event log of one frame.
#[derive(Debug)]
pub struct FrameInstrumentation {
    frame_number: u64,
    started_at: u64,
    events: Vec<FrameEvent>,
}

/// Whether some event is of `kind`.
pub open spec fn has_kind_spec(events: Seq<FrameEvent>, kind: FrameEventKind) -> bool {
    exists|i: int| 0 <= i < events.len() && #[trigger] events[i].kind == kind
}

impl FrameInstrumentation {
    pub closed spec fn frame_number_spec(&self) -> u64 {
        self.frame_number
    }

    pub closed spec fn started_at_spec(&self) -> u64 {
        self.started_at
    }

    pub closed spec fn events_spec(&self) -> Seq<FrameEvent> {
        self.events@
    }

    /// The frame's duration so far: from its start to its last event.
    pub open spec fn duration_spec(&self) -> u64 {
        if self.events_spec().len() == 0 {
            0
        } else {
            elapsed(self.events_spec().last().timestamp, self.started_at_spec())
        }
    }

    /// A log for frame `frame_number` that starts now.
    pub fn new(frame_number: u64) -> (instrumentation: Self)
        ensures
            instrumentation.frame_number_spec() == frame_number,
            instrumentation.events_spec().len() == 1,
            instrumentation.events_spec()[0].kind == FrameEventKind::NewFrame,
            instrumentation.events_spec()[0].description@ == "novo frame"@,
            instrumentation.events_spec()[0].timestamp == instrumentation.started_at_spec(),
    {
        Self::new_at(frame_number, now())
    }

    /// A log for frame `frame_number` that starts at `started_at` with a
    /// new-frame event.
    pub fn new_at(frame_number: u64, started_at: u64) -> (instrumentation: Self)
        ensures
            instrumentation.frame_number_spec() == frame_number,
            instrumentation.started_at_spec() == started_at,
            instrumentation.events_spec().len() == 1,
            instrumentation.events_spec()[0].kind == FrameEventKind::NewFrame,
            instrumentation.events_spec()[0].description@ == "novo frame"@,
            instrumentation.events_spec()[0].timestamp == started_at,
    {
        let mut events = Vec::new();
        events.push(
            FrameEvent {
                kind: FrameEventKind::NewFrame,
                description: String::from_str("novo frame"),
                timestamp: started_at,
            },
        );
        Self { frame_number, started_at, events }
    }

    /// A log for frame `frame_number` that started at `started_at` and holds
    /// `events`.
    pub fn with_events(frame_number: u64, started_at: u64, events: Vec<FrameEvent>) -> (instrumentation:
        Self)
        ensures
            instrumentation.frame_number_spec() == frame_number,
            instrumentation.started_at_spec() == started_at,
            instrumentation.events_spec() == events@,
    {
        Self { frame_number, started_at, events }
    }

    pub fn frame_number(&self) -> (frame_number: u64)
        ensures
            frame_number == self.frame_number_spec(),
    {
        self.frame_number
    }

    pub fn started_at(&self) -> (started_at: u64)
        ensures
            started_at == self.started_at_spec(),
    {
        self.started_at
    }

    pub fn events(&self) -> (events: &[FrameEvent])
        ensures
            events@ == self.events_spec(),
    {
        self.events.as_slice()
    }

    /// Logs an event at `timestamp`.
    pub fn record_at(&mut self, kind: FrameEventKind, description: String, timestamp: u64)
        ensures
            final(self).events_spec() == old(self).events_spec().push(
                FrameEvent { kind, description, timestamp },
            ),
            final(self).started_at_spec() == old(self).started_at_spec(),
            final(self).frame_number_spec() == old(self).frame_number_spec(),
    {
        self.events.push(FrameEvent { kind, description, timestamp });
    }

    /// Logs an event now.
    pub fn record(&mut self, kind: FrameEventKind, description: String)
        ensures
            final(self).events_spec().len() == old(self).events_spec().len() + 1,
            final(self).events_spec().drop_last() == old(self).events_spec(),
            final(self).events_spec().last().kind == kind,
            final(self).events_spec().last().description == description,
            final(self).started_at_spec() == old(self).started_at_spec(),
            final(self).frame_number_spec() == old(self).frame_number_spec(),
    {
        let timestamp = now();
        self.record_at(kind, description, timestamp);
        proof {
            assert(self.events@.drop_last() =~= old(self).events@);
        }
    }

    pub fn record_presentation_started(&mut self)
        ensures
            final(self).events_spec().len() == old(self).events_spec().len() + 1,
            final(self).events_spec().drop_last() == old(self).events_spec(),
            final(self).events_spec().last().kind == FrameEventKind::PresentationStarted,
            final(self).events_spec().last().description@ == "apresentacao do buffer iniciada"@,
    {
        self.record(
            FrameEventKind::PresentationStarted,
            String::from_str("apresentacao do buffer iniciada"),
        );
    }

    pub fn record_presentation_finished(&mut self)
        ensures
            final(self).events_spec().len() == old(self).events_spec().len() + 1,
            final(self).events_spec().drop_last() == old(self).events_spec(),
            final(self).events_spec().last().kind == FrameEventKind::PresentationFinished,
            final(self).events_spec().last().description@ == "apresentacao do buffer concluida"@,
    {
        self.record(
            FrameEventKind::PresentationFinished,
            String::from_str("apresentacao do buffer concluida"),
        );
    }

    pub fn record_dump_started(&mut self)
        ensures
            final(self).events_spec().len() == old(self).events_spec().len() + 1,
            final(self).events_spec().drop_last() == old(self).events_spec(),
            final(self).events_spec().last().kind == FrameEventKind::DumpStarted,
            final(self).events_spec().last().description@ == "dump iniciado"@,
    {
        self.record(FrameEventKind::DumpStarted, String::from_str("dump iniciado"));
    }

    pub fn record_dump_finished(&mut self)
        ensures
            final(self).events_spec().len() == old(self).events_spec().len() + 1,
            final(self).events_spec().drop_last() == old(self).events_spec(),
            final(self).events_spec().last().kind == FrameEventKind::DumpFinished,
            final(self).events_spec().last().description@ == "dump finalizado"@,
    {
        self.record(FrameEventKind::DumpFinished, String::from_str("dump finalizado"));
    }

    /// Whether some logged event is of `kind`.
    pub fn has_kind(&self, kind: FrameEventKind) -> (found: bool)
        ensures
            found == has_kind_spec(self.events_spec(), kind),
    {
        let mut index: usize = 0;
        while index < self.events.len()
            invariant
                index <= self.events@.len(),
                forall|i: int| 0 <= i < index ==> #[trigger] self.events@[i].kind != kind,
            decreases self.events.len() - index,
        {
            if self.events[index].kind == kind {
                return true;
            }
            index = index + 1;
        }
        false
    }

    /// The time from the frame's start to its last event.
    pub fn duration(&self) -> (duration: u64)
        ensures
            duration == self.duration_spec(),
    {
        if self.events.len() == 0 {
            return 0;
        }
        let last = self.events[self.events.len() - 1].timestamp;
        if last >= self.started_at {
            last - self.started_at
        } else {
            0
        }
    }

    /// The time from the frame's start to `timestamp`.
    pub fn duration_at(&self, timestamp: u64) -> (duration: u64)
        ensures
            duration == elapsed(timestamp, self.started_at_spec()),
    {
        if timestamp >= self.started_at {
            timestamp - self.started_at
        } else {
            0
        }
    }

    /// Whether the frame has lasted longer than `threshold`.
    pub fn is_slow(&self, threshold: u64) -> (slow: bool)
        ensures
            slow == (self.duration_spec() > threshold),
    {
        self.duration() > threshold
    }

    /// Whether the frame lasts longer than `threshold` when it ends at `timestamp`.
    pub fn is_slow_at(&self, timestamp: u64, threshold: u64) -> (slow: bool)
        ensures
            slow == (elapsed(timestamp, self.started_at_spec()) > threshold),
    {
        self.duration_at(timestamp) > threshold
    }

    /// Logs the end of the frame at `finished_at`.
    pub fn record_finalization_at(&mut self, finished_at: u64)
        ensures
            final(self).events_spec().len() == old(self).events_spec().len() + 1,
            final(self).events_spec().drop_last() == old(self).events_spec(),
            final(self).events_spec().last().kind == FrameEventKind::Finalized,
            final(self).events_spec().last().description@ == "finalizacao de frame"@,
            final(self).events_spec().last().timestamp == finished_at,
            final(self).started_at_spec() == old(self).started_at_spec(),
    {
        self.record_at(
            FrameEventKind::Finalized,
            String::from_str("finalizacao de frame"),
            finished_at,
        );
        proof {
            assert(self.events@.drop_last() =~= old(self).events@);
        }
    }

    /// Logs, once per frame, that the frame ending at `timestamp` was slow.
    pub fn record_slow_if_needed_at(&mut self, timestamp: u64, threshold: u64)
        ensures
            elapsed(timestamp, old(self).started_at_spec()) > threshold && !has_kind_spec(
                old(self).events_spec(),
                FrameEventKind::SlowFrame,
            ) ==> {
                &&& final(self).events_spec().len() == old(self).events_spec().len() + 1
                &&& final(self).events_spec().drop_last() == old(self).events_spec()
                &&& final(self).events_spec().last().kind == FrameEventKind::SlowFrame
                &&& final(self).events_spec().last().description@ == "frame lento"@
                &&& final(self).events_spec().last().timestamp == timestamp
            },
            !(elapsed(timestamp, old(self).started_at_spec()) > threshold && !has_kind_spec(
                old(self).events_spec(),
                FrameEventKind::SlowFrame,
            )) ==> final(self).events_spec() == old(self).events_spec(),
            final(self).started_at_spec() == old(self).started_at_spec(),
    {
        if self.is_slow_at(timestamp, threshold) && !self.has_kind(FrameEventKind::SlowFrame) {
            self.record_at(FrameEventKind::SlowFrame, String::from_str("frame lento"), timestamp);
            proof {
                assert(self.events@.drop_last() =~= old(self).events@);
            }
        }
    }

    /// Whether the configured trigger `name` fires for this frame.
    pub open spec fn fires(&self, name: Seq<char>, threshold: u64) -> bool {
        if name == "slow_frame"@ {
            has_kind_spec(self.events_spec(), FrameEventKind::SlowFrame) || self.duration_spec()
                > threshold
        } else if name == "layer_created"@ {
            has_kind_spec(self.events_spec(), FrameEventKind::LayerCreated)
        } else {
            false
        }
    }

    /// The configured triggers that fire for this frame, in their order.
    pub fn matching_triggers(&self, configured_events: &[String], threshold: u64) -> (triggers: Vec<
        String,
    >)
        ensures
            triggers@.map_values(|name: String| name@) == configured_events@.map_values(
                |name: String| name@,
            ).filter(|name: Seq<char>| self.fires(name, threshold)),
            forall|i: int|
                0 <= i < triggers@.len() ==> #[trigger] triggers@[i]@ == "slow_frame"@
                    || triggers@[i]@ == "layer_created"@,
            forall|i: int|
                0 <= i < triggers@.len() && #[trigger] triggers@[i]@ == "layer_created"@
                    ==> has_kind_spec(self.events_spec(), FrameEventKind::LayerCreated),
            forall|i: int|
                0 <= i < triggers@.len() && #[trigger] triggers@[i]@ == "slow_frame"@
                    ==> has_kind_spec(self.events_spec(), FrameEventKind::SlowFrame)
                    || self.duration_spec() > threshold,
            forall|j: int|
                0 <= j < configured_events@.len() && #[trigger] configured_events@[j]@
                    == "layer_created"@ && has_kind_spec(
                    self.events_spec(),
                    FrameEventKind::LayerCreated,
                ) ==> exists|i: int| 0 <= i < triggers@.len() && #[trigger] triggers@[i]@ == "layer_created"@,
            forall|j: int|
                0 <= j < configured_events@.len() && #[trigger] configured_events@[j]@
                    == "slow_frame"@ && (has_kind_spec(self.events_spec(), FrameEventKind::SlowFrame)
                    || self.duration_spec() > threshold) ==> exists|i: int|
                    0 <= i < triggers@.len() && #[trigger] triggers@[i]@ == "slow_frame"@,
    {
        let slow_frame = String::from_str("slow_frame");
        let layer_created = String::from_str("layer_created");
        let mut triggers: Vec<String> = Vec::new();
        let mut index: usize = 0;
        let ghost names = configured_events@.map_values(|name: String| name@);
        proof {
            reveal(Seq::filter);
            assert(names.take(0).filter(|name: Seq<char>| self.fires(name, threshold)) =~= Seq::<
                Seq<char>,
            >::empty());
            assert(triggers@.map_values(|name: String| name@) =~= Seq::<Seq<char>>::empty());
        }
        while index < configured_events.len()
            invariant
                index <= configured_events@.len(),
                names == configured_events@.map_values(|name: String| name@),
                slow_frame@ == "slow_frame"@,
                layer_created@ == "layer_created"@,
                triggers@.map_values(|name: String| name@) == names.take(index as int).filter(
                    |name: Seq<char>| self.fires(name, threshold),
                ),
            decreases configured_events.len() - index,
        {
            let configured = &configured_events[index];
            let fires = if *configured == slow_frame {
                self.has_kind(FrameEventKind::SlowFrame) || self.is_slow(threshold)
            } else if *configured == layer_created {
                self.has_kind(FrameEventKind::LayerCreated)
            } else {
                false
            };
            let ghost before = triggers@.map_values(|name: String| name@);
            if fires {
                triggers.push(configured.clone());
            }
            proof {
                assert(names.take(index + 1).drop_last() =~= names.take(index as int));
                assert(names.take(index + 1).last() == configured@);
                assert(fires == self.fires(configured@, threshold));
                reveal(Seq::filter);
                if fires {
                    assert(triggers@.map_values(|name: String| name@) =~= before.push(configured@));
                } else {
                    assert(triggers@.map_values(|name: String| name@) =~= before);
                }
            }
            index = index + 1;
        }
        proof {
            assert(names.take(names.len() as int) =~= names);
            let pred = |name: Seq<char>| self.fires(name, threshold);
            let found = triggers@.map_values(|name: String| name@);
            assert(found == names.filter(pred));
            reveal_strlit("slow_frame");
            reveal_strlit("layer_created");
            assert("layer_created"@ != "slow_frame"@) by {
                assert("layer_created"@[0] != "slow_frame"@[0]);
            }
            assert forall|i: int| 0 <= i < triggers@.len() implies pred(#[trigger] triggers@[i]@) by {
                assert(found[i] == triggers@[i]@);
                names.lemma_filter_pred(pred, i);
            }
            assert forall|j: int|
                0 <= j < configured_events@.len() && pred(#[trigger] configured_events@[j]@) implies exists|i: int|
                    0 <= i < triggers@.len() && #[trigger] triggers@[i]@ == configured_events@[j]@ by {
                assert(names[j] == configured_events@[j]@);
                names.lemma_filter_contains(pred, j);
                let i = choose|i: int| 0 <= i < found.len() && found[i] == names[j];
                assert(found[i] == triggers@[i]@);
            }
        }
        triggers
    }
}

} // verus!
