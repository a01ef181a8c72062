//! Verified core of the NEAT trading experiments: day keys of an
//! evaluation window, applicant kinds, the Parse REST client's request
//! shapes, object ids, the rolling buffer, the choice of a mating partner
//! and the rewrite of a network's output nodes.

pub mod applicant_type;
pub mod clock;
pub mod decimal;
pub mod hashing;
pub mod keys;
pub mod migration;
pub mod paging;
pub mod parse;
pub mod ring;
pub mod selection;
pub mod training;
pub mod windows;
