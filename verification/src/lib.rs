//! The decisions of an engine that installs packs of game content into profiles and
//! starts their games.
//!
//! The library reads no file, waits for nothing and starts no process. It says what
//! is to be done: which files of a pack are fetched and where they go, which
//! processors are run, how the game is started, and when any of this is refused.
//! `pack` plans the install and the removal of a pack, `launcher` the install and the
//! start of the game; `fetch`, `pipeline` and `registry` keep track of mirrors, of
//! tasks that run side by side, and of the processes that run.

pub mod censor;
pub mod error;
pub mod fetch;
pub mod ident;
pub mod launcher;
pub mod options;
pub mod pack;
pub mod path;
pub mod pipeline;
pub mod profile;
pub mod registry;
pub mod text;
pub mod textmap;
