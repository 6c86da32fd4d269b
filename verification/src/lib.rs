//! A practice-quiz library: quiz files and their validation, topic and location
//! filters, sessions of shuffled questions with labelled options, the options
//! chosen, scoring, and the results shown after a session.
pub mod text;
pub mod model;
pub mod idset;
pub mod validate;
pub mod topics;
pub mod filter;
pub mod labels;
pub mod session;
pub mod scoring;
pub mod selections;
pub mod results;
pub mod schema;
pub mod theme;
