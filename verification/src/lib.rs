//! A small hidden-role deduction game: independent rooms each hold up to five
//! players who receive secret roles and repeatedly submit simultaneous
//! investigation choices that are resolved together once every living player
//! has acted.

pub mod game;
pub mod registry;
