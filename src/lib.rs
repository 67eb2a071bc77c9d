//! Session runtime: the decisions behind interactive shell sessions on
//! pseudo-terminals and language-server sessions on pipes. The message framer,
//! the per-session output backlog with its subscribers, the session tables with
//! the reuse-by-directory policy, the launch plans (direct and sandboxed), and
//! the host-to-guest path translation are all specified and verified here;
//! spawning processes and moving bytes is left to the host program.



pub mod decimal;
pub mod framing;
pub mod guest;
pub mod launch;
pub mod lsp;
pub mod models;
pub mod names;
pub mod shell;
pub mod terminal;
pub mod text;
