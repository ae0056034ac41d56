pub mod datatypes;
pub mod parsing;
pub mod ranked;
pub mod voting_systems;
