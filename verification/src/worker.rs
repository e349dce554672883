//! The persistence worker, as a state machine.
//!
//! The background consumer takes [`PersistEvent`]s strictly in send
//! order and turns each into a short ordered list of [`WorkerAction`]s
//! (open, append, write, upload, close, stop). The encode, file and
//! upload work itself happens outside the library; [`worker_step`]
//! decides everything: which files come into being, under which
//! sequence index, and when the open animated sequence is finalized.

use vstd::prelude::*;

use crate::frame::Frame;

verus! {

/// Which outputs the worker produces for a saved frame.
#[derive(Clone, Copy, PartialEq, Eq, Debug)]
pub struct OutputMode {
    /// Append each saved frame to an animated multi-frame sequence file.
    pub animated: bool,
    /// Encode and write each saved frame as a standalone image, then
    /// hand it to the uploader.
    pub standalone: bool,
}

/// A tagged event sent from the foreground loop to the worker. Exactly
/// one is in flight per send, over an unbounded FIFO channel, so the
/// worker sees them in send order.
#[derive(Clone, Copy, PartialEq, Eq, Debug)]
pub enum PersistEvent {
    /// Persist the frame travelling with this event under the given
    /// sequence index.
    SaveFrame { sequence_index: u32 },
    /// Finalize the currently open animated sequence, if any.
    CloseSequence,
    /// Drain and terminate.
    Shutdown,
}

/// The worker's fold state.
#[derive(Clone, Copy, PartialEq, Eq, Debug)]
pub struct WorkerState {
    /// The first sequence index seen since the last close, which names
    /// the currently open animated sequence file; `None` when no
    /// sequence is open.
    pub open_sequence: Option<u32>,
    /// Set once `Shutdown` has been consumed; nothing is consumed after.
    pub stopped: bool,
}

impl OutputMode {
    /// The output mode the two command-line flags select: animated
    /// output only when asked for, standalone output unless animated
    /// output alone was asked for.
    pub fn from_flags(gif: bool, jpeg: bool) -> (m: OutputMode)
        ensures
            m.animated == gif,
            m.standalone == (!gif || jpeg),
    {
        OutputMode { animated: gif, standalone: !gif || jpeg }
    }
}

impl WorkerState {
    /// The state the worker starts in: nothing open, running.
    pub fn new() -> (s: WorkerState)
        ensures
            s.open_sequence is None,
            !s.stopped,
    {
        WorkerState { open_sequence: None, stopped: false }
    }
}

/// One unit of persistence work, to be performed in list order.
#[derive(Clone, Copy, PartialEq, Eq, Debug)]
pub enum WorkerAction {
    /// Create the animated sequence file, named by the first saved
    /// sequence index since the last close.
    OpenSequence { first_index: u32 },
    /// Append the event's frame (after lossy color reduction) to the
    /// open animated sequence.
    AppendToSequence,
    /// Encode and write the event's frame as a standalone image named
    /// by its sequence index.
    WriteStandalone { sequence_index: u32 },
    /// Hand the standalone image just written to the uploader.
    UploadStandalone { sequence_index: u32 },
    /// Finalize the open animated sequence and hand it to the uploader.
    CloseAndUpload { first_index: u32 },
    /// Stop consuming; the worker's thread joins back.
    Stop,
}

/// The palette for the animated sequence encoding: fifteen gray
/// gradation entries, one red-green-blue triple per reduced luminance
/// value, entry `k` holding `16 * k` in all three channels.
pub fn gray_palette() -> (r: Vec<u8>)
    ensures
        r@.len() == 45,
        forall|i: int| 0 <= i < r@.len() ==> r@[i] == 16 * (i / 3),
{
    let mut palette: Vec<u8> = Vec::new();
    let mut k: u8 = 0;
    while k < 15
        invariant
            k <= 15,
            palette@.len() == 3 * k,
            forall|i: int| 0 <= i < palette@.len() ==> palette@[i] == 16 * (i / 3),
        decreases 15 - k,
    {
        let v = k * 16;
        palette.push(v);
        palette.push(v);
        palette.push(v);
        k = k + 1;
    }
    palette
}

/// Number of red-green-blue entries of a palette.
pub open spec fn palette_entries(palette: Seq<u8>) -> int {
    palette.len() as int / 3
}

/// The palette entry a reduced pixel selects, clamped to the last
/// entry where the pixel value runs past the palette.
pub open spec fn clamped_entry(p: u8, palette: Seq<u8>) -> int {
    if p < palette_entries(palette) {
        p as int
    } else {
        palette_entries(palette) - 1
    }
}

/// Byte `i` of the red-green-blue-alpha expansion of a color-reduced
/// frame through a palette: the selected entry's channel, with a fully
/// opaque alpha.
pub open spec fn rgba_byte(pixels: Seq<u8>, palette: Seq<u8>, i: int) -> u8 {
    if i % 4 == 3 {
        255u8
    } else {
        palette[3 * clamped_entry(pixels[i / 4], palette) + (i % 4)]
    }
}

/// Expands a color-reduced frame to red-green-blue-alpha bytes through
/// a palette, four bytes per pixel, in row-major order.
pub fn apply_palette(f: &Frame, palette: &Vec<u8>) -> (r: Vec<u8>)
    requires
        f.wf(),
        palette@.len() % 3 == 0,
        palette@.len() >= 3,
    ensures
        r@.len() == 4 * f@.len(),
        forall|i: int| 0 <= i < r@.len() ==> r@[i] == rgba_byte(f@, palette@, i),
{
    let entries = palette.len() / 3;
    proof {
        assert(3 * (palette@.len() as int / 3) == palette@.len());
    }
    let n = f.data.len();
    let mut out: Vec<u8> = Vec::new();
    let mut i: usize = 0;
    while i < n
        invariant
            f.wf(),
            palette@.len() % 3 == 0,
            palette@.len() >= 3,
            entries == palette_entries(palette@),
            3 * entries == palette@.len(),
            n == f@.len(),
            i <= n,
            out@.len() == 4 * i,
            forall|j: int| 0 <= j < out@.len() ==> out@[j] == rgba_byte(f@, palette@, j),
        decreases n - i,
    {
        let p = f.data[i];
        let entry = if (p as usize) < entries {
            p as usize
        } else {
            entries - 1
        };
        out.push(palette[3 * entry]);
        out.push(palette[3 * entry + 1]);
        out.push(palette[3 * entry + 2]);
        out.push(255);
        i = i + 1;
    }
    out
}

/// The worker state after consuming one event.
pub open spec fn worker_next(mode: OutputMode, st: WorkerState, ev: PersistEvent) -> WorkerState {
    match ev {
        PersistEvent::SaveFrame { sequence_index } => if mode.animated && st.open_sequence is None {
            WorkerState { open_sequence: Some(sequence_index), ..st }
        } else {
            st
        },
        PersistEvent::CloseSequence => WorkerState { open_sequence: None, ..st },
        PersistEvent::Shutdown => WorkerState { stopped: true, ..st },
    }
}

/// The actions one event gives rise to, in order: for a saved frame the
/// animated-sequence work (lazily opening a sequence named by the first
/// index) precedes the standalone write and its upload; a close
/// finalizes the open sequence if and only if one is open; a shutdown
/// stops the worker.
pub open spec fn worker_actions(mode: OutputMode, st: WorkerState, ev: PersistEvent) -> Seq<
    WorkerAction,
> {
    match ev {
        PersistEvent::SaveFrame { sequence_index } => (if mode.animated {
            (if st.open_sequence is None {
                seq![WorkerAction::OpenSequence { first_index: sequence_index }]
            } else {
                Seq::<WorkerAction>::empty()
            }) + seq![WorkerAction::AppendToSequence]
        } else {
            Seq::<WorkerAction>::empty()
        }) + (if mode.standalone {
            seq![
                WorkerAction::WriteStandalone { sequence_index },
                WorkerAction::UploadStandalone { sequence_index },
            ]
        } else {
            Seq::<WorkerAction>::empty()
        }),
        PersistEvent::CloseSequence => match st.open_sequence {
            Some(first_index) => seq![WorkerAction::CloseAndUpload { first_index }],
            None => Seq::<WorkerAction>::empty(),
        },
        PersistEvent::Shutdown => seq![WorkerAction::Stop],
    }
}

/// Consumes one event: returns the new state and the actions to
/// perform, in order.
pub fn worker_step(mode: &OutputMode, st: WorkerState, ev: &PersistEvent) -> (r: (
    WorkerState,
    Vec<WorkerAction>,
))
    requires
        !st.stopped,
    ensures
        r.0 == worker_next(*mode, st, *ev),
        r.1@ == worker_actions(*mode, st, *ev),
{
    let mut actions: Vec<WorkerAction> = Vec::new();
    let next = match ev {
        PersistEvent::SaveFrame { sequence_index } => {
            let mut open = st.open_sequence;
            if mode.animated {
                if open.is_none() {
                    actions.push(WorkerAction::OpenSequence { first_index: *sequence_index });
                    open = Some(*sequence_index);
                }
                actions.push(WorkerAction::AppendToSequence);
            }
            if mode.standalone {
                actions.push(WorkerAction::WriteStandalone { sequence_index: *sequence_index });
                actions.push(WorkerAction::UploadStandalone { sequence_index: *sequence_index });
            }
            WorkerState { open_sequence: open, stopped: st.stopped }
        },
        PersistEvent::CloseSequence => {
            match st.open_sequence {
                Some(first_index) => {
                    actions.push(WorkerAction::CloseAndUpload { first_index });
                },
                None => {},
            }
            WorkerState { open_sequence: None, stopped: st.stopped }
        },
        PersistEvent::Shutdown => {
            actions.push(WorkerAction::Stop);
            WorkerState { open_sequence: st.open_sequence, stopped: true }
        },
    };
    proof {
        assert(actions@ =~= worker_actions(*mode, st, *ev));
    }
    (next, actions)
}

/// The worker state after consuming a whole event sequence (stopping at
/// `Shutdown`, after which nothing is consumed).
pub open spec fn worker_run_state(
    mode: OutputMode,
    st: WorkerState,
    events: Seq<PersistEvent>,
) -> WorkerState
    decreases events.len(),
{
    if events.len() == 0 || st.stopped {
        st
    } else {
        worker_run_state(mode, worker_next(mode, st, events.first()), events.drop_first())
    }
}

/// All actions a whole event sequence gives rise to, in consumption
/// order.
pub open spec fn worker_run_actions(
    mode: OutputMode,
    st: WorkerState,
    events: Seq<PersistEvent>,
) -> Seq<WorkerAction>
    decreases events.len(),
{
    if events.len() == 0 || st.stopped {
        Seq::<WorkerAction>::empty()
    } else {
        worker_actions(mode, st, events.first()) + worker_run_actions(
            mode,
            worker_next(mode, st, events.first()),
            events.drop_first(),
        )
    }
}

/// Number of standalone writes among a list of actions.
pub open spec fn count_writes(actions: Seq<WorkerAction>) -> nat
    decreases actions.len(),
{
    if actions.len() == 0 {
        0
    } else {
        (if actions.first() is WriteStandalone {
            1nat
        } else {
            0nat
        }) + count_writes(actions.drop_first())
    }
}

/// Number of save events among an event sequence.
pub open spec fn count_saves(events: Seq<PersistEvent>) -> nat
    decreases events.len(),
{
    if events.len() == 0 {
        0
    } else {
        (if events.first() is SaveFrame {
            1nat
        } else {
            0nat
        }) + count_saves(events.drop_first())
    }
}

proof fn lemma_count_writes_add(a: Seq<WorkerAction>, b: Seq<WorkerAction>)
    ensures
        count_writes(a + b) == count_writes(a) + count_writes(b),
    decreases a.len(),
{
    if a.len() == 0 {
        assert(a + b =~= b);
    } else {
        assert((a + b).drop_first() =~= a.drop_first() + b);
        lemma_count_writes_add(a.drop_first(), b);
    }
}

proof fn lemma_count_writes_one_event(mode: OutputMode, st: WorkerState, ev: PersistEvent)
    ensures
        count_writes(worker_actions(mode, st, ev)) == (if ev is SaveFrame && mode.standalone {
            1nat
        } else {
            0nat
        }),
{
    match ev {
        PersistEvent::SaveFrame { sequence_index } => {
            let open_acts = if mode.animated {
                (if st.open_sequence is None {
                    seq![WorkerAction::OpenSequence { first_index: sequence_index }]
                } else {
                    Seq::<WorkerAction>::empty()
                }) + seq![WorkerAction::AppendToSequence]
            } else {
                Seq::<WorkerAction>::empty()
            };
            let standalone_acts = if mode.standalone {
                seq![
                    WorkerAction::WriteStandalone { sequence_index },
                    WorkerAction::UploadStandalone { sequence_index },
                ]
            } else {
                Seq::<WorkerAction>::empty()
            };
            lemma_count_writes_add(open_acts, standalone_acts);
            if mode.animated && st.open_sequence is None {
                lemma_count_writes_add(
                    seq![WorkerAction::OpenSequence { first_index: sequence_index }],
                    seq![WorkerAction::AppendToSequence],
                );
            }
            if mode.animated && !(st.open_sequence is None) {
                lemma_count_writes_add(
                    Seq::<WorkerAction>::empty(),
                    seq![WorkerAction::AppendToSequence],
                );
            }
            reveal_with_fuel(count_writes, 3);
        },
        PersistEvent::CloseSequence => {
            reveal_with_fuel(count_writes, 2);
        },
        PersistEvent::Shutdown => {
            reveal_with_fuel(count_writes, 2);
        },
    }
}

/// No event loss: when standalone output is on and `Shutdown` comes
/// only as the last event, consuming the whole sequence performs
/// exactly one standalone write per save event — every frame queued
/// before the shutdown is persisted before the worker stops — and the
/// worker has stopped if and only if the sequence ended in `Shutdown`.
pub proof fn lemma_worker_processes_all_saves(
    mode: OutputMode,
    st: WorkerState,
    events: Seq<PersistEvent>,
)
    requires
        mode.standalone,
        !st.stopped,
        forall|i: int| 0 <= i < events.len() - 1 ==> !(events[i] is Shutdown),
    ensures
        count_writes(worker_run_actions(mode, st, events)) == count_saves(events),
        worker_run_state(mode, st, events).stopped <==> (events.len() > 0 && events.last()
            is Shutdown),
    decreases events.len(),
{
    if events.len() > 0 {
        let ev = events.first();
        let st2 = worker_next(mode, st, ev);
        lemma_count_writes_one_event(mode, st, ev);
        lemma_count_writes_add(
            worker_actions(mode, st, ev),
            worker_run_actions(mode, st2, events.drop_first()),
        );
        if ev is Shutdown {
            assert(events.len() == 1);
            assert(count_saves(events.drop_first()) == 0);
        } else {
            assert(!st2.stopped);
            assert(forall|i: int|
                0 <= i < events.drop_first().len() - 1 ==> !(events.drop_first()[i] is Shutdown));
            lemma_worker_processes_all_saves(mode, st2, events.drop_first());
            if events.len() == 1 {
                assert(worker_run_state(mode, st2, events.drop_first()) == st2);
            } else {
                assert(events.drop_first().last() == events.last());
            }
        }
    }
}

} // verus!
