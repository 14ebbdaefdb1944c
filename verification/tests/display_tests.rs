use lima::crypto::{CryptoError, Ler};
use lima::display::{AppState, ClientAction, KeyInput};

fn test_ler(seq: u32) -> Ler {
    Ler {
        node_id: [0xAA, 0xBB, 0xCC, 0xDD, 0xEE, 0xFF],
        event_type: 0x01,
        sequence: seq,
        timestamp_ms: 1_700_000_000,
        accel_g_bits: 1.0f32.to_bits(),
        delta_pa_bits: 0.0f32.to_bits(),
    }
}

fn push_n(app: &mut AppState, n: u32) {
    for i in 0..n {
        app.push_event(i as i64, "aa:bb:cc:dd:ee:ff".to_string(), 1000 + i as i64, -70, test_ler(i));
    }
}

// ── push / counts ────────────────────────────────────────────────────────────

#[test]
fn test_push_event_appends() {
    let mut app = AppState::new();
    push_n(&mut app, 3);
    assert_eq!(app.events.len(), 3);
}

#[test]
fn test_push_event_auto_selects_first() {
    let mut app = AppState::new();
    app.push_event(1, "aa:bb:cc:dd:ee:ff".to_string(), 1000, -70, test_ler(0));
    assert_eq!(app.list_state.selected(), Some(0));
}

#[test]
fn test_push_event_does_not_move_selection_on_subsequent() {
    let mut app = AppState::new();
    push_n(&mut app, 1);
    app.next();
    push_n(&mut app, 2);
    assert_eq!(app.list_state.selected(), Some(0));
}

#[test]
fn test_push_error_appends() {
    let mut app = AppState::new();
    app.push_error("something broke".into());
    assert_eq!(app.errors.len(), 1);
    assert_eq!(app.errors[0].message, "something broke");
}

#[test]
fn test_unacked_count() {
    let mut app = AppState::new();
    push_n(&mut app, 3);
    assert_eq!(app.unacked_count(), 3);
}

// ── navigation ───────────────────────────────────────────────────────────────

#[test]
fn test_next_advances_selection() {
    let mut app = AppState::new();
    push_n(&mut app, 3);
    app.list_state.select(Some(0));
    app.next();
    assert_eq!(app.list_state.selected(), Some(1));
}

#[test]
fn test_next_clamps_at_end() {
    let mut app = AppState::new();
    push_n(&mut app, 3);
    app.list_state.select(Some(2));
    app.next();
    assert_eq!(app.list_state.selected(), Some(2));
}

#[test]
fn test_prev_moves_back() {
    let mut app = AppState::new();
    push_n(&mut app, 3);
    app.list_state.select(Some(2));
    app.prev();
    assert_eq!(app.list_state.selected(), Some(1));
}

#[test]
fn test_prev_clamps_at_zero() {
    let mut app = AppState::new();
    push_n(&mut app, 3);
    app.list_state.select(Some(0));
    app.prev();
    assert_eq!(app.list_state.selected(), Some(0));
}

#[test]
fn test_next_on_empty_does_not_panic() {
    let mut app = AppState::new();
    app.next();
    assert_eq!(app.list_state.selected(), None);
}

#[test]
fn test_prev_on_empty_does_not_panic() {
    let mut app = AppState::new();
    app.prev();
    assert_eq!(app.list_state.selected(), None);
}

#[test]
fn next_and_prev_from_nothing_selected_pick_first_row() {
    let mut app = AppState::new();
    push_n(&mut app, 3);
    app.list_state.select(None);
    app.next();
    assert_eq!(app.list_state.selected(), Some(0));
    app.list_state.select(None);
    app.prev();
    assert_eq!(app.list_state.selected(), Some(0));
    // A selection past the end is pulled back to the last row.
    app.list_state.select(Some(usize::MAX));
    app.next();
    assert_eq!(app.list_state.selected(), Some(2));
}

// ── ack ──────────────────────────────────────────────────────────────────────

#[test]
fn test_ack_selected_marks_entry() {
    let mut app = AppState::new();
    push_n(&mut app, 3);
    app.list_state.select(Some(1));
    app.ack_selected();
    assert!(app.events[1].acked);
    assert!(!app.events[0].acked);
    assert!(!app.events[2].acked);
}

#[test]
fn test_ack_reduces_unacked_count() {
    let mut app = AppState::new();
    push_n(&mut app, 3);
    app.list_state.select(Some(0));
    app.ack_selected();
    assert_eq!(app.unacked_count(), 2);
}

#[test]
fn test_ack_on_nothing_selected_does_not_panic() {
    let mut app = AppState::new();
    push_n(&mut app, 3);
    app.list_state.select(None);
    app.ack_selected();
    assert_eq!(app.unacked_count(), 3);
}

#[test]
fn acking_twice_lowers_the_count_once() {
    let mut app = AppState::new();
    push_n(&mut app, 2);
    app.list_state.select(Some(1));
    app.ack_selected();
    app.ack_selected();
    assert_eq!(app.unacked_count(), 1);
    app.list_state.select(Some(7));
    app.ack_selected();
    assert_eq!(app.unacked_count(), 1);
}

// ── selected_rowid ───────────────────────────────────────────────────────────

#[test]
fn test_selected_rowid_returns_correct_rowid() {
    let mut app = AppState::new();
    app.push_event(42, "aa:bb:cc:dd:ee:ff".to_string(), 1000, -70, test_ler(0));
    app.push_event(99, "aa:bb:cc:dd:ee:ff".to_string(), 1001, -68, test_ler(1));
    app.list_state.select(Some(1));
    assert_eq!(app.selected_rowid(), Some(99));
}

#[test]
fn test_selected_rowid_none_when_empty() {
    let app = AppState::new();
    assert_eq!(app.selected_rowid(), None);
}

// ── toggle errors ────────────────────────────────────────────────────────────

#[test]
fn test_toggle_errors() {
    let mut app = AppState::new();
    assert!(!app.show_errors);
    app.toggle_errors();
    assert!(app.show_errors);
    app.toggle_errors();
    assert!(!app.show_errors);
}

// ── key handling, removal, ingest ────────────────────────────────────────────

#[test]
fn keys_drive_the_state_and_name_the_rows() {
    let mut app = AppState::new();
    assert_eq!(app.apply_key(KeyInput::Ack), ClientAction::Continue);
    assert_eq!(app.apply_key(KeyInput::Delete), ClientAction::Continue);
    push_n(&mut app, 3);
    assert_eq!(app.apply_key(KeyInput::Down), ClientAction::Continue);
    assert_eq!(app.list_state.selected(), Some(1));
    assert_eq!(app.apply_key(KeyInput::Ack), ClientAction::AckRow(1));
    assert!(app.events[1].acked);
    assert_eq!(app.apply_key(KeyInput::Up), ClientAction::Continue);
    assert_eq!(app.list_state.selected(), Some(0));
    assert_eq!(app.apply_key(KeyInput::ToggleErrors), ClientAction::Continue);
    assert!(app.show_errors);
    assert_eq!(app.apply_key(KeyInput::Delete), ClientAction::DeleteRow(0));
    assert_eq!(app.events.len(), 3);
    assert_eq!(app.apply_key(KeyInput::Other), ClientAction::Continue);
    assert_eq!(app.apply_key(KeyInput::Quit), ClientAction::Quit);
}

#[test]
fn remove_selected_clamps_the_selection() {
    let mut app = AppState::new();
    push_n(&mut app, 3);
    app.list_state.select(Some(2));
    app.remove_selected();
    assert_eq!(app.events.len(), 2);
    assert_eq!(app.list_state.selected(), Some(1));
    app.list_state.select(Some(0));
    app.remove_selected();
    assert_eq!(app.events.len(), 1);
    assert_eq!(app.events[0].rowid, 1);
    assert_eq!(app.list_state.selected(), Some(0));
    app.remove_selected();
    assert!(app.events.is_empty());
    assert_eq!(app.list_state.selected(), None);
    app.remove_selected();
    assert!(app.events.is_empty());
}

#[test]
fn ingest_frame_logs_failures_with_the_row() {
    let mut app = AppState::new();
    app.ingest_frame(-5, "n".to_string(), 1, 2, Err(CryptoError::DecryptFailed));
    assert_eq!(
        app.errors[0].message,
        "row -5: decrypt failed — AES-256-GCM decrypt failed — wrong key or corrupted frame"
    );
    app.ingest_frame(12, "n".to_string(), 1, 2, Err(CryptoError::BlobLength { got: 3 }));
    assert_eq!(
        app.errors[1].message,
        "row 12: decrypt failed — expected 182B stripped blob, got 3B"
    );
    assert!(app.events.is_empty());
    app.ingest_frame(13, "n".to_string(), 7, -3, Ok(test_ler(5)));
    assert_eq!(app.events.len(), 1);
    assert_eq!(app.events[0].rowid, 13);
    assert_eq!(app.events[0].received_at, 7);
    assert_eq!(app.events[0].rssi, -3);
    assert_eq!(app.events[0].ler.sequence, 5);
    assert_eq!(app.list_state.selected(), Some(0));
}

#[test]
fn ler_labels() {
    let l = test_ler(1);
    assert_eq!(l.node_id_hex(), "aa:bb:cc:dd:ee:ff");
    assert_eq!(l.event_type_hex(), "0x01");
}
