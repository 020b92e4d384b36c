//! A bitboard chess engine core.
//!
//! - [`bits`]: bitboards read as sets of squares.
//! - [`board`]: sides, pieces and the board with make and undo.
//! - [`moves`]: moves, their results, and the priority by which they are
//!   ordered.
//! - [`move_bitboards`]: the geometry of the board and the attack tables.
//! - [`magic`]: the magic-bitboard oracle for sliding attacks.
//! - [`zobrist`]: position keys.
//! - [`game`]: a game in progress with its counters, key and repetition
//!   count.
//! - [`movegen`]: the generator of legal moves.
//! - [`legality`] and [`rules`]: what the generated moves mean, and the
//!   proof that they are exactly the moves that the rules allow.
//! - [`eval`]: static evaluation.
//! - [`search`]: alpha-beta search.
//! - [`symmetry`]: the mirror image of a position and its evaluation.
//! - [`colours`]: the rules and the search on the mirror image of a
//!   position.
//! - [`notation`]: moves and boards as text.

pub mod bits;
pub mod board;
pub mod colours;
pub mod eval;
pub mod game;
pub mod legality;
pub mod magic;
pub mod move_bitboards;
pub mod movegen;
pub mod moves;
pub mod notation;
pub mod random;
pub mod rules;
pub mod search;
pub mod symmetry;
pub mod zobrist;
