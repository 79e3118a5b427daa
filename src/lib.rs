pub mod enrollment;
pub mod gif;
pub mod period;
pub mod reconcile;
pub mod reminder;
pub mod share;
pub mod streak;
