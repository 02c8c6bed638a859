use game_of_life_lib::cell::Cell;
use game_of_life_lib::game_of_life::{
    birth_universe, cells_transform, GOLMessage, SimulationState, SubscribeMessage,
};
use game_of_life_lib::transport::{
    chunk_cells, parse_gol_subscription_message, ClientSubscriptionMessage,
};
use game_of_life_lib::utility::generate_id;

fn fresh_sim(rows: i32, cols: i32, live: &[(i32, i32)]) -> SimulationState {
    let live_cells: Vec<Cell> = live
        .iter()
        .map(|&(r, c)| Cell::birth(&Cell::new(r, c)))
        .collect();
    SimulationState::new(birth_universe(rows, cols, live_cells))
}

fn same_cells(a: &[Cell], b: &[Cell]) -> bool {
    a.len() == b.len()
        && a.iter().zip(b.iter()).all(|(x, y)| {
            Cell::to_tuple(x) == Cell::to_tuple(y) && Cell::is_alive(x) == Cell::is_alive(y)
        })
}

#[test]
fn first_run_advances_to_generation_one() {
    // a freshly constructed 10x10 simulation, one Run: the broadcast carries
    // index 1 and one transition-engine application of the initial seed
    let live = [(4, 4), (4, 5), (5, 4), (5, 5), (0, 1), (1, 1), (2, 1)];
    let mut state = fresh_sim(10, 10, &live);
    assert_eq!(state.generation_index, 0);
    let initial = state.cells.clone();
    let effect = game_of_life_lib::game_of_life::process_message(&mut state, GOLMessage::Run);
    assert_eq!(state.generation_index, 1);
    assert!(effect.reschedule_run);
    let expected = cells_transform(&initial, 10, 10);
    match effect.broadcast {
        Some(SubscribeMessage::OnChange {
            cells,
            generation_index,
        }) => {
            assert_eq!(generation_index, 1);
            assert!(same_cells(&cells, &expected));
        }
        _ => panic!("expected an OnChange broadcast"),
    }
}

#[test]
fn generation_index_counts_processed_runs() {
    let mut state = fresh_sim(6, 6, &[(2, 2), (2, 3), (3, 2), (3, 3)]);
    for n in 1..=5 {
        game_of_life_lib::game_of_life::process_message(&mut state, GOLMessage::Run);
        assert_eq!(state.generation_index, n);
    }
}

#[test]
fn run_while_paused_is_ignored() {
    let mut state = fresh_sim(4, 4, &[(1, 1), (1, 2), (2, 1), (2, 2)]);
    game_of_life_lib::game_of_life::process_message(&mut state, GOLMessage::Pause);
    let before = state.cells.clone();
    let effect = game_of_life_lib::game_of_life::process_message(&mut state, GOLMessage::Run);
    assert_eq!(state.generation_index, 0);
    assert!(!effect.reschedule_run);
    assert!(effect.broadcast.is_none());
    assert!(same_cells(&state.cells, &before));
}

#[test]
fn pause_then_resume_preserves_the_snapshot() {
    let mut state = fresh_sim(5, 5, &[(0, 1), (1, 1), (2, 1)]);
    game_of_life_lib::game_of_life::process_message(&mut state, GOLMessage::Run);
    game_of_life_lib::game_of_life::process_message(&mut state, GOLMessage::Run);

    let pause = game_of_life_lib::game_of_life::process_message(&mut state, GOLMessage::Pause);
    let (paused_cells, paused_index) = match pause.broadcast {
        Some(SubscribeMessage::OnPause {
            cells,
            generation_index,
        }) => (cells, generation_index),
        _ => panic!("expected an OnPause broadcast"),
    };
    assert!(!pause.reschedule_run);
    assert_eq!(paused_index, 2);

    let resume = game_of_life_lib::game_of_life::process_message(&mut state, GOLMessage::Resume);
    let (resumed_cells, resumed_index) = match resume.broadcast {
        Some(SubscribeMessage::OnResume {
            cells,
            generation_index,
        }) => (cells, generation_index),
        _ => panic!("expected an OnResume broadcast"),
    };
    assert!(resume.reschedule_run);
    assert_eq!(resumed_index, paused_index);
    assert!(same_cells(&resumed_cells, &paused_cells));

    let change = game_of_life_lib::game_of_life::process_message(&mut state, GOLMessage::Run);
    match change.broadcast {
        Some(SubscribeMessage::OnChange {
            cells,
            generation_index,
        }) => {
            assert_eq!(generation_index, paused_index + 1);
            let expected = cells_transform(&paused_cells, 5, 5);
            assert!(same_cells(&cells, &expected));
        }
        _ => panic!("expected an OnChange broadcast"),
    }
}

#[test]
fn subscribe_registers_without_broadcasting() {
    let mut state = fresh_sim(3, 3, &[(1, 1)]);
    let id = generate_id();
    let effect = game_of_life_lib::game_of_life::process_message(
        &mut state,
        GOLMessage::Subscribe { id: id.clone() },
    );
    assert!(effect.broadcast.is_none());
    assert!(!effect.reschedule_run);
    assert_eq!(state.subscribers, vec![id.clone()]);

    // the registration survives later commands, so every later broadcast
    // still reaches this subscriber
    game_of_life_lib::game_of_life::process_message(&mut state, GOLMessage::Run);
    game_of_life_lib::game_of_life::process_message(&mut state, GOLMessage::Pause);
    game_of_life_lib::game_of_life::process_message(&mut state, GOLMessage::Resume);
    assert_eq!(state.subscribers, vec![id]);
}

#[test]
fn generate_id_is_a_simple_format_identifier() {
    let id = generate_id();
    assert_eq!(id.len(), 32);
    assert!(id.chars().all(|c| c.is_ascii_hexdigit()));
}

#[test]
fn on_change_parses_to_a_client_message() {
    let cells = vec![Cell::birth(&Cell::new(0, 0)), Cell::new(0, 1)];
    let message = SubscribeMessage::OnChange {
        cells: cells.clone(),
        generation_index: 7,
    };
    match parse_gol_subscription_message(message) {
        ClientSubscriptionMessage::MessageFromServer {
            cells: out,
            generation_index,
        } => {
            assert_eq!(generation_index, 7);
            assert!(same_cells(&out, &cells));
        }
        _ => panic!("expected a MessageFromServer"),
    }
}

#[test]
fn non_change_notifications_parse_to_no_message() {
    let message = SubscribeMessage::OnPause {
        cells: vec![],
        generation_index: 3,
    };
    assert!(matches!(
        parse_gol_subscription_message(message),
        ClientSubscriptionMessage::NoMessage
    ));
    assert!(matches!(
        parse_gol_subscription_message(SubscribeMessage::Done),
        ClientSubscriptionMessage::NoMessage
    ));
}

#[test]
fn chunk_cells_batches_in_order() {
    let cells: Vec<Cell> = (0..7).map(|c| Cell::new(0, c)).collect();
    let batches = chunk_cells(&cells, 3);
    assert_eq!(batches.len(), 3);
    assert_eq!(batches[0].len(), 3);
    assert_eq!(batches[1].len(), 3);
    assert_eq!(batches[2].len(), 1);
    let flat: Vec<(i32, i32)> = batches
        .iter()
        .flat_map(|b| b.iter().map(Cell::to_tuple))
        .collect();
    let expected: Vec<(i32, i32)> = (0..7).map(|c| (0, c)).collect();
    assert_eq!(flat, expected);

    let exact = chunk_cells(&cells, 7);
    assert_eq!(exact.len(), 1);
    let empty = chunk_cells(&Vec::<Cell>::new(), 100);
    assert_eq!(empty.len(), 0);
}
