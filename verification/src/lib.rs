//! A verified falling-block puzzle engine.
//!
//! The engine owns a fixed 10 x 20 grid of colored cells, a currently
//! falling piece, a pre-generated next piece, and session state (score,
//! per-size clear counters, pause and game-over flags).  Commands move,
//! rotate and drop the active piece; locking a piece merges it into the
//! board, detects full rows, awards score, and starts a timed clear
//! animation during which movement is blocked.  Rendering, input devices
//! and the timer live outside the engine, which exposes only plain state.

pub mod board;
pub mod engine;
pub mod piece;

pub use board::collides;
pub use engine::Tetris;
pub use piece::rotate;
pub use piece::Piece;
