//! Finds a repository reference in free text (an SSH or HTTPS clone URL of a
//! known hosting service, or a GitHub Pages URL) and turns it into the
//! canonical `https://{host}/{owner}/{repo}` form.

pub mod chars;
pub mod grammar;
pub mod error;
pub mod hosts;
pub mod extract;
pub mod open;
pub mod laws;
