pub mod board;
pub mod cell;
pub mod game_of_life;
pub mod transport;
pub mod utility;

pub use cell::{generate_live_cells, Cell};
pub use game_of_life::{GOLMessage, SimulationState, StepEffect, SubscribeMessage};
