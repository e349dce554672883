use small_recorder::frame::Frame;
use small_recorder::worker::{
    apply_palette, gray_palette, worker_step, OutputMode, PersistEvent, WorkerAction, WorkerState,
};

#[test]
fn output_mode_defaults_to_standalone_unless_animated_alone() {
    let neither = OutputMode::from_flags(false, false);
    assert!(!neither.animated && neither.standalone);
    let gif_only = OutputMode::from_flags(true, false);
    assert!(gif_only.animated && !gif_only.standalone);
    let both = OutputMode::from_flags(true, true);
    assert!(both.animated && both.standalone);
    let jpeg_only = OutputMode::from_flags(false, true);
    assert!(!jpeg_only.animated && jpeg_only.standalone);
}

#[test]
fn apply_palette_expands_each_pixel_to_its_gray_entry() {
    let palette = gray_palette();
    let f = Frame::new(3, 1, vec![0, 7, 15]).unwrap();
    let rgba = apply_palette(&f, &palette);
    assert_eq!(rgba.len(), 12);
    // Entry 0 -> 0, entry 7 -> 112, and 15 runs past the 15-entry
    // palette, clamping to the last entry, 224.
    assert_eq!(&rgba[0..4], &[0, 0, 0, 255]);
    assert_eq!(&rgba[4..8], &[112, 112, 112, 255]);
    assert_eq!(&rgba[8..12], &[224, 224, 224, 255]);
}

#[test]
fn standalone_mode_writes_then_uploads() {
    let mode = OutputMode { animated: false, standalone: true };
    let st = WorkerState::new();
    let (next, actions) = worker_step(&mode, st, &PersistEvent::SaveFrame { sequence_index: 3 });
    assert_eq!(
        actions,
        vec![
            WorkerAction::WriteStandalone { sequence_index: 3 },
            WorkerAction::UploadStandalone { sequence_index: 3 },
        ]
    );
    assert_eq!(next.open_sequence, None);
    assert!(!next.stopped);
}

#[test]
fn animated_mode_opens_lazily_under_the_first_index() {
    let mode = OutputMode { animated: true, standalone: false };
    let st = WorkerState::new();
    let (st, actions) = worker_step(&mode, st, &PersistEvent::SaveFrame { sequence_index: 7 });
    assert_eq!(
        actions,
        vec![
            WorkerAction::OpenSequence { first_index: 7 },
            WorkerAction::AppendToSequence,
        ]
    );
    assert_eq!(st.open_sequence, Some(7));

    // A second save appends to the sequence already open; the file
    // keeps the first index.
    let (st, actions) = worker_step(&mode, st, &PersistEvent::SaveFrame { sequence_index: 8 });
    assert_eq!(actions, vec![WorkerAction::AppendToSequence]);
    assert_eq!(st.open_sequence, Some(7));

    // The close finalizes under the first index and resets the state.
    let (st, actions) = worker_step(&mode, st, &PersistEvent::CloseSequence);
    assert_eq!(actions, vec![WorkerAction::CloseAndUpload { first_index: 7 }]);
    assert_eq!(st.open_sequence, None);

    // A close with nothing open does nothing.
    let (st, actions) = worker_step(&mode, st, &PersistEvent::CloseSequence);
    assert_eq!(actions, vec![]);

    // The next save starts a fresh sequence under its own index.
    let (st, actions) = worker_step(&mode, st, &PersistEvent::SaveFrame { sequence_index: 9 });
    assert_eq!(
        actions,
        vec![
            WorkerAction::OpenSequence { first_index: 9 },
            WorkerAction::AppendToSequence,
        ]
    );
    assert_eq!(st.open_sequence, Some(9));
}

#[test]
fn both_modes_do_the_sequence_work_first() {
    let mode = OutputMode { animated: true, standalone: true };
    let st = WorkerState::new();
    let (_, actions) = worker_step(&mode, st, &PersistEvent::SaveFrame { sequence_index: 1 });
    assert_eq!(
        actions,
        vec![
            WorkerAction::OpenSequence { first_index: 1 },
            WorkerAction::AppendToSequence,
            WorkerAction::WriteStandalone { sequence_index: 1 },
            WorkerAction::UploadStandalone { sequence_index: 1 },
        ]
    );
}

#[test]
fn shutdown_stops_the_worker() {
    let mode = OutputMode { animated: false, standalone: true };
    let st = WorkerState::new();
    let (st, actions) = worker_step(&mode, st, &PersistEvent::Shutdown);
    assert_eq!(actions, vec![WorkerAction::Stop]);
    assert!(st.stopped);
}

#[test]
fn no_save_is_lost_before_a_shutdown() {
    // Three saves and a shutdown: exactly three standalone writes come
    // out, in order, before the stop.
    let mode = OutputMode { animated: false, standalone: true };
    let mut st = WorkerState::new();
    let events = vec![
        PersistEvent::SaveFrame { sequence_index: 0 },
        PersistEvent::SaveFrame { sequence_index: 1 },
        PersistEvent::SaveFrame { sequence_index: 2 },
        PersistEvent::Shutdown,
    ];
    let mut all_actions = Vec::new();
    for ev in &events {
        let (next, mut actions) = worker_step(&mode, st, ev);
        all_actions.append(&mut actions);
        st = next;
        if st.stopped {
            break;
        }
    }
    let writes: Vec<&WorkerAction> = all_actions
        .iter()
        .filter(|a| matches!(a, WorkerAction::WriteStandalone { .. }))
        .collect();
    assert_eq!(writes.len(), 3);
    assert_eq!(
        writes,
        vec![
            &WorkerAction::WriteStandalone { sequence_index: 0 },
            &WorkerAction::WriteStandalone { sequence_index: 1 },
            &WorkerAction::WriteStandalone { sequence_index: 2 },
        ]
    );
    assert_eq!(all_actions.last(), Some(&WorkerAction::Stop));
    assert!(st.stopped);
}

#[test]
fn gray_palette_is_a_monochrome_gradation() {
    let palette = gray_palette();
    assert_eq!(palette.len(), 45);
    for (i, &v) in palette.iter().enumerate() {
        assert_eq!(v as usize, 16 * (i / 3));
    }
    assert_eq!(&palette[0..3], &[0, 0, 0]);
    assert_eq!(&palette[42..45], &[224, 224, 224]);
}
