//! Game-state core of a terminal snake game: the tick-based state machine,
//! food placement, and the top-ten high-score ledger.
pub mod game;
pub mod ledger;
