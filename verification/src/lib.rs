//! The process execution and job-control engine of an interactive shell.
//!
//! The engine decides; a host acts. From a line of input the engine makes tokens
//! (`tokenization`), says what the line asks for (`dispatch`, `redirection`) and lists
//! where a program may be found (`search`). To run commands it hands the host one
//! request at a time and takes the host's reply (`host`, `launch`): files to open,
//! pipes to make, children to create with their streams wired, descriptors to close,
//! children to wait for. It keeps the table of background jobs and reaps those that
//! have ended (`jobs`). What holds of whole runs, whatever the host replies, is proved
//! in `trace` and, on a model of the descriptor table, in `descriptors`.

pub mod builtins;
pub mod descriptors;
pub mod dispatch;
pub mod environment;
pub mod host;
pub mod jobs;
pub mod launch;
pub mod progress;
pub mod redirection;
pub mod search;
pub mod text;
pub mod tokenization;
pub mod trace;
